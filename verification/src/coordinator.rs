//! The coordinating service: both registries, the current round and the
//! committed history, changed by one request at a time.
//!
//! Every request comes in two forms where it may trigger an election. The
//! form whose name ends in `_with` takes the place of the winner as an
//! argument and says exactly what state results. The other draws that place
//! at random and says that the state results from one of the places that
//! could be drawn.

use vstd::prelude::*;
use crate::election;
use crate::error::Error;
use crate::laws;
use crate::laws::Request;
use crate::model;
use crate::model::{BlockReceiptView, CoordinatorView};
use crate::rollup::RollupSet;
use crate::round::{blocks_view, leader_view, Block, BlockReceipt, RawTransaction, Round};
use crate::sequencer::{SequencerEntry, SequencerSet};

verus! {

/// What the answer to a submitted block stands for in the model.
pub open spec fn receipt_view(outcome: Result<BlockReceipt, Error>) -> Result<
    BlockReceiptView,
    Error,
> {
    match outcome {
        Ok(receipt) => Ok(receipt@),
        Err(error) => Err(error),
    }
}

/// What two registries, a round and committed blocks stand for in the model
/// as a state of the service.
pub open spec fn state_view(
    sequencers: SequencerSet,
    rollups: RollupSet,
    round: Round,
    committed: Seq<Block>,
) -> CoordinatorView {
    CoordinatorView {
        sequencers: sequencers@,
        rollups: rollups@,
        round: round@,
        committed: blocks_view(committed),
    }
}

/// The state of the service.
#[derive(Debug)]
pub struct Coordinator {
    sequencers: SequencerSet,
    rollups: RollupSet,
    round: Round,
    committed: Vec<Block>,
}

impl View for Coordinator {
    type V = CoordinatorView;

    closed spec fn view(&self) -> CoordinatorView {
        state_view(self.sequencers, self.rollups, self.round, self.committed@)
    }
}

impl Coordinator {
    /// The state is one that the service can be in.
    pub open spec fn wf(&self) -> bool {
        model::valid(self@)
    }

    /// A service that has seen no request.
    pub fn new() -> (fresh: Self)
        ensures
            fresh.wf(),
            fresh@ == model::initial(),
    {
        let fresh = Coordinator {
            sequencers: SequencerSet::new(),
            rollups: RollupSet::new(),
            round: Round::new(),
            committed: Vec::new(),
        };
        assert(fresh@.committed =~= Seq::empty());
        fresh
    }

    /// The service in the state made of these parts; `None` unless the leader
    /// of the round is a registered sequencer and a round is open whenever a
    /// sequencer is registered.
    pub fn from_parts(
        sequencers: SequencerSet,
        rollups: RollupSet,
        round: Round,
        committed: Vec<Block>,
    ) -> (restored: Option<Self>)
        requires
            sequencers.wf(),
            rollups.wf(),
            round.wf(),
        ensures
            restored is Some <==> model::valid(state_view(sequencers, rollups, round, committed@)),
            restored matches Some(state) ==> state.wf() && state@ == state_view(
                sequencers,
                rollups,
                round,
                committed@,
            ),
    {
        let consistent = match round.leader() {
            Some(leader) => match sequencers.position(&leader.identity) {
                Some(at) => match sequencers.get(at) {
                    Some(entry) => {
                        proof {
                            laws::lemma_entry_found_by_identity(sequencers@, at as int, leader@);
                        }
                        entry.registered_at == leader.registered_at
                    },
                    None => false,
                },
                None => {
                    proof {
                        if sequencers@.contains(leader@) {
                            let i = choose|i: int|
                                0 <= i < sequencers@.len() && sequencers@[i] == leader@;
                            model::lemma_position_is_unique(sequencers@, i);
                        }
                    }
                    false
                },
            },
            None => sequencers.len() == 0,
        };
        if consistent {
            Some(Coordinator { sequencers, rollups, round, committed })
        } else {
            None
        }
    }

    /// The sequencer registry.
    pub fn sequencers(&self) -> (sequencers: &SequencerSet)
        ensures
            sequencers@ == self@.sequencers,
            self.wf() ==> sequencers.wf(),
    {
        &self.sequencers
    }

    /// The rollup registry.
    pub fn rollups(&self) -> (rollups: &RollupSet)
        ensures
            rollups@ == self@.rollups,
            self.wf() ==> rollups.wf(),
    {
        &self.rollups
    }

    /// The current round.
    pub fn round(&self) -> (round: &Round)
        ensures
            round@ == self@.round,
            self.wf() ==> round.wf(),
    {
        &self.round
    }

    /// The blocks of all closed rounds, in the order in which they were
    /// accepted.
    pub fn committed(&self) -> (committed: &Vec<Block>)
        ensures
            blocks_view(committed@) == self@.committed,
    {
        &self.committed
    }

    /// The leader of the current round, or `None` while no round is open.
    /// The leader is always a registered sequencer.
    pub fn get_leader(&self) -> (leader: Option<SequencerEntry>)
        requires
            self.wf(),
        ensures
            leader_view(leader) == self@.round.leader,
            leader matches Some(entry) ==> self@.sequencers.contains(entry@),
    {
        match self.round.leader() {
            Some(entry) => Some(entry.clone()),
            None => None,
        }
    }

    /// Whether the sequencer with `identity` leads the current round.
    pub fn is_led_by(&self, identity: &String) -> (answer: bool)
        ensures
            answer == model::leads(self@, identity@),
    {
        match self.round.leader() {
            Some(leader) => leader.identity == *identity,
            None => false,
        }
    }

    /// Closes the current round and commits its blocks.
    fn retire(&mut self)
        requires
            old(self).round.wf(),
        ensures
            final(self).round.wf(),
            final(self)@ == model::retire(old(self)@),
    {
        let mut closed = self.round.close();
        self.committed.append(&mut closed);
        assert(self@.committed =~= old(self)@.committed + old(self)@.round.blocks);
    }

    /// Opens the next round under the sequencer at `pick`, where no round is
    /// open and a sequencer is registered.
    fn reopen(&mut self, pick: usize)
        requires
            old(self).round.wf(),
            old(self)@.round.number < u64::MAX,
            model::pick_fits(old(self)@.sequencers.len(), pick as int),
        ensures
            final(self).round.wf(),
            final(self)@ == model::reopen(old(self)@, pick as int),
    {
        if !self.round.is_open() {
            match election::select_leader(&self.sequencers, pick) {
                Ok(leader) => {
                    self.round.open_next(leader);
                },
                Err(_) => {},
            }
        }
    }

    /// Registers a sequencer. The first sequencer to join a service that has
    /// none opens a round and leads it.
    pub fn register_sequencer(&mut self, identity: String, registered_at: u64) -> (outcome: Result<
        (),
        Error,
    >)
        requires
            old(self).wf(),
            old(self)@.round.number < u64::MAX,
        ensures
            final(self).wf(),
            final(self)@ == model::register_sequencer(old(self)@, identity@, registered_at),
            outcome == model::register_outcome(old(self)@.sequencers, identity@),
            outcome is Err ==> final(self)@ == old(self)@,
    {
        proof {
            laws::lemma_register_sequencer_keeps_valid(self@, identity@, registered_at);
            let request = Request::RegisterSequencer { identity: identity@, registered_at };
            if request.refusal(self@) is Some {
                laws::law_refused_request_changes_nothing(self@, request);
            }
        }
        let outcome = self.sequencers.register(identity, registered_at);
        self.reopen(0);
        outcome
    }

    /// Deregisters a sequencer. When it leads the current round, the round is
    /// closed and the sequencer at `pick` among those that remain leads the
    /// next one; when nobody remains, no round is open afterwards.
    pub fn deregister_sequencer_with(&mut self, identity: &String, pick: usize) -> (outcome: Result<
        (),
        Error,
    >)
        requires
            old(self).wf(),
            old(self)@.round.number < u64::MAX,
            model::pick_fits(
                model::deregister(old(self)@.sequencers, identity@).len(),
                pick as int,
            ),
        ensures
            final(self).wf(),
            final(self)@ == model::deregister_sequencer(old(self)@, identity@, pick as int),
            outcome == model::deregister_outcome(old(self)@.sequencers, identity@),
            outcome is Err ==> final(self)@ == old(self)@,
    {
        proof {
            laws::lemma_deregister_sequencer_keeps_valid(self@, identity@, pick as int);
            let request = Request::DeregisterSequencer { identity: identity@, pick: pick as int };
            if request.refusal(self@) is Some {
                laws::law_refused_request_changes_nothing(self@, request);
            }
        }
        let leads = self.is_led_by(identity);
        let outcome = self.sequencers.deregister(identity);
        if leads {
            self.retire();
            self.reopen(pick);
        }
        outcome
    }

    /// Deregisters a sequencer and, when it leads the current round, elects
    /// the leader of the next round at random among those that remain. No
    /// election is held when a follower or an unknown sequencer is named.
    pub fn deregister_sequencer(&mut self, identity: &String) -> (outcome: Result<(), Error>)
        requires
            old(self).wf(),
            old(self)@.round.number < u64::MAX,
        ensures
            final(self).wf(),
            exists|pick: int|
                model::pick_fits(model::deregister(old(self)@.sequencers, identity@).len(), pick)
                    && final(self)@ == #[trigger] model::deregister_sequencer(
                    old(self)@,
                    identity@,
                    pick,
                ),
            outcome == model::deregister_outcome(old(self)@.sequencers, identity@),
            outcome is Err ==> final(self)@ == old(self)@,
            final(self)@.sequencers == model::deregister(old(self)@.sequencers, identity@),
            final(self)@.round.leader matches Some(leader) ==> final(self)@.sequencers.contains(
                leader,
            ),
    {
        let pick = if self.is_led_by(identity) {
            proof {
                // The leader is registered, so one sequencer fewer remains.
                let at = self@.sequencers.index_of(self@.round.leader->0);
                model::lemma_position_is_unique(self@.sequencers, at);
                laws::lemma_deregister_spares_others(self@.sequencers, identity@);
            }
            election::draw(self.sequencers.len() - 1)
        } else {
            0
        };
        self.deregister_sequencer_with(identity, pick)
    }

    /// Registers a rollup.
    pub fn register_rollup(&mut self, identity: String) -> (outcome: Result<(), Error>)
        requires
            old(self).wf(),
        ensures
            final(self).wf(),
            final(self)@ == model::register_rollup(old(self)@, identity@),
            outcome == model::enroll_outcome(old(self)@.rollups, identity@),
            outcome is Err ==> final(self)@ == old(self)@,
    {
        self.rollups.register(identity)
    }

    /// Deregisters a rollup.
    pub fn deregister_rollup(&mut self, identity: &String) -> (outcome: Result<(), Error>)
        requires
            old(self).wf(),
        ensures
            final(self).wf(),
            final(self)@ == model::deregister_rollup(old(self)@, identity@),
            outcome == model::withdraw_outcome(old(self)@.rollups, identity@),
            outcome is Err ==> final(self)@ == old(self)@,
    {
        self.rollups.deregister(identity)
    }

    /// Accepts a block from a registered rollup into the open round, closes
    /// and commits the round, and opens the next one under the sequencer at
    /// `pick`. A block from an unregistered rollup, or one that finds no open
    /// round, is refused and changes nothing.
    pub fn close_block_with(
        &mut self,
        rollup: &String,
        raw_tx: RawTransaction,
        pick: usize,
    ) -> (outcome: Result<BlockReceipt, Error>)
        requires
            old(self).wf(),
            old(self)@.round.number < u64::MAX,
            model::pick_fits(old(self)@.sequencers.len(), pick as int),
        ensures
            final(self).wf(),
            final(self)@ == model::close_block(old(self)@, rollup@, raw_tx@, pick as int),
            receipt_view(outcome) == model::close_block_outcome(old(self)@, rollup@, pick as int),
            outcome is Err ==> final(self)@ == old(self)@,
    {
        proof {
            laws::lemma_close_block_keeps_valid(self@, rollup@, raw_tx@, pick as int);
        }
        if !self.rollups.contains(rollup) {
            return Err(Error::UnregisteredRollup);
        }
        if !self.round.is_open() {
            return Err(Error::NoActiveRound);
        }
        let leader = election::select_leader(&self.sequencers, pick)?;
        let round = self.round.number();
        let position = self.round.accept(rollup.clone(), raw_tx)?;
        self.retire();
        self.round.open_next(leader.clone());
        Ok(BlockReceipt { round, position, leader })
    }

    /// Accepts a block as [`Coordinator::close_block_with`] does, the leader
    /// of the next round being elected at random among the registered
    /// sequencers. No election is held for a block that is refused.
    pub fn close_block(&mut self, rollup: &String, raw_tx: RawTransaction) -> (outcome: Result<
        BlockReceipt,
        Error,
    >)
        requires
            old(self).wf(),
            old(self)@.round.number < u64::MAX,
        ensures
            final(self).wf(),
            exists|pick: int|
                model::pick_fits(old(self)@.sequencers.len(), pick) && final(self)@
                    == #[trigger] model::close_block(old(self)@, rollup@, raw_tx@, pick)
                    && receipt_view(outcome) == model::close_block_outcome(
                    old(self)@,
                    rollup@,
                    pick,
                ),
            outcome is Ok <==> old(self)@.rollups.contains(rollup@) && old(self)@.round.leader
                is Some,
            outcome matches Ok(receipt) ==> {
                &&& receipt@.round == old(self)@.round.number
                &&& receipt@.position == old(self)@.round.blocks.len()
                &&& final(self)@.round.number == old(self)@.round.number + 1
                &&& final(self)@.round.leader == Some(receipt@.leader)
                &&& final(self)@.sequencers == old(self)@.sequencers
                &&& final(self)@.sequencers.contains(receipt@.leader)
            },
            outcome matches Err(error) ==> final(self)@ == old(self)@ && error == (if old(
                self,
            )@.rollups.contains(rollup@) {
                Error::NoActiveRound
            } else {
                Error::UnregisteredRollup
            }),
    {
        let pick = if self.rollups.contains(rollup) && self.round.is_open() {
            election::draw(self.sequencers.len())
        } else {
            0
        };
        proof {
            if model::close_block_outcome(self@, rollup@, pick as int) is Ok {
                laws::law_accepted_block_advances_round(self@, rollup@, raw_tx@, pick as int);
            }
        }
        self.close_block_with(rollup, raw_tx, pick)
    }
}

} // verus!
