//! Rounds and the blocks accepted in them.
//!
//! A round is one leadership term. It is open while it has a leader, accepts
//! blocks at consecutive positions, and is followed by the round with the
//! next number once it is closed.

use vstd::prelude::*;
use crate::error::Error;
use crate::model;
use crate::model::{BlockReceiptView, BlockView, RoundView};
use crate::sequencer::SequencerEntry;

verus! {

/// The payload that a rollup submits, kept as it came.
#[derive(Debug, PartialEq, Eq)]
pub struct RawTransaction {
    pub data: String,
}

impl View for RawTransaction {
    type V = Seq<char>;

    open spec fn view(&self) -> Seq<char> {
        self.data@
    }
}

impl Clone for RawTransaction {
    fn clone(&self) -> (copy: Self)
        ensures
            copy == *self,
    {
        RawTransaction { data: self.data.clone() }
    }
}

impl RawTransaction {
    /// The payload `data`.
    pub fn new(data: String) -> (raw_tx: Self)
        ensures
            raw_tx.data == data,
    {
        RawTransaction { data }
    }
}

/// A payload together with the round and the position that it was given.
#[derive(Debug, PartialEq, Eq)]
pub struct Block {
    /// Number of the round that accepted the block.
    pub round: u64,
    /// Place of the block among the blocks of its round, from zero.
    pub position: u64,
    /// Identity of the rollup that submitted the block.
    pub rollup: String,
    /// What the rollup submitted.
    pub raw_tx: RawTransaction,
}

impl View for Block {
    type V = BlockView;

    open spec fn view(&self) -> BlockView {
        BlockView {
            round: self.round as nat,
            position: self.position as nat,
            rollup: self.rollup@,
            raw_tx: self.raw_tx@,
        }
    }
}

impl Clone for Block {
    fn clone(&self) -> (copy: Self)
        ensures
            copy == *self,
    {
        Block {
            round: self.round,
            position: self.position,
            rollup: self.rollup.clone(),
            raw_tx: self.raw_tx.clone(),
        }
    }
}

/// What a vector of blocks stands for in the model.
pub open spec fn blocks_view(blocks: Seq<Block>) -> Seq<BlockView> {
    blocks.map_values(|b: Block| b@)
}

/// The acknowledgement of an accepted block.
#[derive(Debug, PartialEq, Eq)]
pub struct BlockReceipt {
    /// Number of the round that accepted the block.
    pub round: u64,
    /// Position of the block in that round.
    pub position: u64,
    /// Leader of the round that follows: where the next block goes.
    pub leader: SequencerEntry,
}

impl View for BlockReceipt {
    type V = BlockReceiptView;

    open spec fn view(&self) -> BlockReceiptView {
        BlockReceiptView {
            round: self.round as nat,
            position: self.position as nat,
            leader: self.leader@,
        }
    }
}

/// What an optional leader stands for in the model.
pub open spec fn leader_view(leader: Option<SequencerEntry>) -> Option<
    model::SequencerEntryView,
> {
    match leader {
        Some(entry) => Some(entry@),
        None => None,
    }
}

/// What a number, a leader and blocks stand for in the model as a round.
pub open spec fn round_view(
    number: u64,
    leader: Option<SequencerEntry>,
    blocks: Seq<Block>,
) -> RoundView {
    RoundView { number: number as nat, leader: leader_view(leader), blocks: blocks_view(blocks) }
}

/// The current round.
#[derive(Debug)]
pub struct Round {
    number: u64,
    leader: Option<SequencerEntry>,
    blocks: Vec<Block>,
}

impl View for Round {
    type V = RoundView;

    closed spec fn view(&self) -> RoundView {
        round_view(self.number, self.leader, self.blocks@)
    }
}

impl Round {
    /// The round is valid in the model.
    pub open spec fn wf(&self) -> bool {
        model::round_valid(self@)
    }

    /// The round before any election.
    pub fn new() -> (round: Self)
        ensures
            round.wf(),
            round@ == model::initial_round(),
    {
        let round = Round { number: 0, leader: None, blocks: Vec::new() };
        assert(round@.blocks =~= Seq::<BlockView>::empty());
        round
    }

    /// The round with this number, leader and blocks; `None` unless they make
    /// a valid round.
    pub fn from_parts(
        number: u64,
        leader: Option<SequencerEntry>,
        blocks: Vec<Block>,
    ) -> (restored: Option<Self>)
        ensures
            restored is Some <==> model::round_valid(round_view(number, leader, blocks@)),
            restored matches Some(round) ==> round@ == round_view(number, leader, blocks@),
    {
        let ghost whole = round_view(number, leader, blocks@);
        if leader.is_none() && blocks.len() > 0 {
            return None;
        }
        let mut i: usize = 0;
        while i < blocks.len()
            invariant
                i <= blocks.len(),
                whole == round_view(number, leader, blocks@),
                forall|j: int|
                    0 <= j < i ==> (#[trigger] whole.blocks[j]).round == number
                        && whole.blocks[j].position == j,
            decreases blocks.len() - i,
        {
            if blocks[i].round != number || blocks[i].position != i as u64 {
                assert(whole.blocks[i as int].round != number || whole.blocks[i as int].position
                    != i);
                return None;
            }
            i += 1;
        }
        Some(Round { number, leader, blocks })
    }

    /// The number of the round.
    pub fn number(&self) -> (number: u64)
        ensures
            number == self@.number,
    {
        self.number
    }

    /// Whether the round is open.
    pub fn is_open(&self) -> (open: bool)
        ensures
            open == self@.leader is Some,
    {
        self.leader.is_some()
    }

    /// The leader of the round, while it is open.
    pub fn leader(&self) -> (leader: Option<&SequencerEntry>)
        ensures
            leader is Some <==> self@.leader is Some,
            leader matches Some(entry) ==> self@.leader == Some(entry@),
    {
        self.leader.as_ref()
    }

    /// How many blocks the round has accepted.
    pub fn accepted(&self) -> (count: usize)
        ensures
            count == self@.blocks.len(),
    {
        self.blocks.len()
    }

    /// The blocks that the round has accepted, in their order.
    pub fn blocks(&self) -> (snapshot: Vec<Block>)
        ensures
            blocks_view(snapshot@) == self@.blocks,
    {
        let mut snapshot: Vec<Block> = Vec::new();
        let mut i: usize = 0;
        while i < self.blocks.len()
            invariant
                i <= self.blocks.len(),
                snapshot@ == self.blocks@.subrange(0, i as int),
            decreases self.blocks.len() - i,
        {
            snapshot.push(self.blocks[i].clone());
            i += 1;
        }
        snapshot
    }

    /// Appends a payload to the open round and returns the position that it
    /// was given. A round that is not open accepts nothing.
    pub fn accept(&mut self, rollup: String, raw_tx: RawTransaction) -> (outcome: Result<
        u64,
        Error,
    >)
        requires
            old(self).wf(),
        ensures
            final(self).wf(),
            outcome is Ok <==> old(self)@.leader is Some,
            outcome matches Ok(position) ==> position == old(self)@.blocks.len() && final(self)@
                == model::accept(old(self)@, rollup@, raw_tx@),
            outcome matches Err(error) ==> error == Error::NoActiveRound && final(self)@ == old(
                self,
            )@,
    {
        if self.leader.is_none() {
            return Err(Error::NoActiveRound);
        }
        let position = self.blocks.len() as u64;
        let block = Block { round: self.number, position, rollup, raw_tx };
        self.blocks.push(block);
        assert(self@.blocks =~= old(self)@.blocks.push(block@));
        Ok(position)
    }

    /// Closes the round and hands out the blocks that it had accepted.
    pub fn close(&mut self) -> (committed: Vec<Block>)
        requires
            old(self).wf(),
        ensures
            final(self).wf(),
            final(self)@ == model::close(old(self)@),
            blocks_view(committed@) == old(self)@.blocks,
    {
        let mut committed: Vec<Block> = Vec::new();
        core::mem::swap(&mut self.blocks, &mut committed);
        self.leader = None;
        assert(self@.blocks =~= Seq::<BlockView>::empty());
        committed
    }

    /// Opens the round that follows a closed one, under `leader`.
    pub fn open_next(&mut self, leader: SequencerEntry)
        requires
            old(self).wf(),
            old(self)@.leader is None,
            old(self)@.number < u64::MAX,
        ensures
            final(self).wf(),
            final(self)@ == model::open_next(old(self)@, leader@),
    {
        self.number = self.number + 1;
        self.leader = Some(leader);
        assert(self@.blocks =~= Seq::<BlockView>::empty());
    }
}

} // verus!
