//! The requests that carry a payload, as values that a transport layer
//! decodes and hands over.

use vstd::prelude::*;
use crate::coordinator::{receipt_view, Coordinator};
use crate::error::Error;
use crate::model;
use crate::round::{BlockReceipt, RawTransaction};

verus! {

/// The body of a request that submits a block: the raw transaction.
#[derive(Debug)]
pub struct GetBlock {
    raw_tx: RawTransaction,
}

impl View for GetBlock {
    type V = Seq<char>;

    closed spec fn view(&self) -> Seq<char> {
        self.raw_tx@
    }
}

impl Clone for GetBlock {
    fn clone(&self) -> (copy: Self)
        ensures
            copy@ == self@,
    {
        GetBlock { raw_tx: self.raw_tx.clone() }
    }
}

impl GetBlock {
    /// The request body that carries `raw_tx`.
    pub fn new(raw_tx: RawTransaction) -> (payload: Self)
        ensures
            payload@ == raw_tx@,
    {
        GetBlock { raw_tx }
    }

    /// The raw transaction that the body carries.
    pub fn raw_tx(&self) -> (raw_tx: &RawTransaction)
        ensures
            raw_tx@ == self@,
    {
        &self.raw_tx
    }

    /// Serves the request on the state that was read under the lock: the
    /// block of `rollup` is accepted into the open round, the round is closed,
    /// and the leader of the next round is elected at random. The caller
    /// writes the state back and answers with the receipt or the failure.
    pub fn handler(state: &mut Coordinator, rollup: &String, payload: GetBlock) -> (outcome: Result<
        BlockReceipt,
        Error,
    >)
        requires
            old(state).wf(),
            old(state)@.round.number < u64::MAX,
        ensures
            final(state).wf(),
            exists|pick: int|
                model::pick_fits(old(state)@.sequencers.len(), pick) && final(state)@
                    == #[trigger] model::close_block(old(state)@, rollup@, payload@, pick)
                    && receipt_view(outcome) == model::close_block_outcome(
                    old(state)@,
                    rollup@,
                    pick,
                ),
            outcome is Ok <==> old(state)@.rollups.contains(rollup@) && old(state)@.round.leader
                is Some,
            outcome matches Ok(receipt) ==> {
                &&& receipt@.round == old(state)@.round.number
                &&& receipt@.position == old(state)@.round.blocks.len()
                &&& final(state)@.round.number == old(state)@.round.number + 1
                &&& final(state)@.round.leader == Some(receipt@.leader)
                &&& final(state)@.sequencers == old(state)@.sequencers
                &&& final(state)@.sequencers.contains(receipt@.leader)
            },
            outcome matches Err(error) ==> final(state)@ == old(state)@ && error == (if old(
                state,
            )@.rollups.contains(rollup@) {
                Error::NoActiveRound
            } else {
                Error::UnregisteredRollup
            }),
    {
        assert(payload.raw_tx@ == payload@);
        state.close_block(rollup, payload.raw_tx)
    }
}

} // verus!
