//! What holds of the model whatever requests arrive.

use vstd::prelude::*;
use crate::error::Error;
use crate::model::{
    close_block, close_block_outcome, deregister, deregister_outcome, deregister_rollup,
    deregister_sequencer, distinct, identities, initial, lemma_membership_keeps_distinct,
    lemma_position_is_unique, lemma_registered_means_entry, pick_fits, position, register,
    register_outcome, register_rollup, register_sequencer, registered, valid, withdraw_outcome,
    enroll_outcome, BlockReceiptView, BlockView, CoordinatorView, SequencerEntryView,
};

verus! {

/// In a registry without duplicates, an entry is present exactly when the
/// entry that stands under its identity is equal to it.
pub proof fn lemma_entry_found_by_identity(
    entries: Seq<SequencerEntryView>,
    at: int,
    entry: SequencerEntryView,
)
    requires
        distinct(entries),
        0 <= at < entries.len(),
        entries[at].identity == entry.identity,
    ensures
        entries.contains(entry) <==> entries[at] == entry,
{
    if entries.contains(entry) {
        let i = choose|i: int| 0 <= i < entries.len() && entries[i] == entry;
        lemma_position_is_unique(entries, i);
        lemma_position_is_unique(entries, at);
    }
}

/// Deregistering one identity removes one entry, and no entry of another
/// identity.
pub proof fn lemma_deregister_spares_others(
    entries: Seq<SequencerEntryView>,
    identity: Seq<char>,
)
    requires
        distinct(entries),
    ensures
        registered(entries, identity) ==> deregister(entries, identity).len() + 1
            == entries.len(),
        forall|entry: SequencerEntryView|
            entries.contains(entry) && entry.identity != identity ==> #[trigger] deregister(
                entries,
                identity,
            ).contains(entry),
        forall|entry: SequencerEntryView| #[trigger]
            deregister(entries, identity).contains(entry) ==> entries.contains(entry)
                && entry.identity != identity,
{
    let after = deregister(entries, identity);
    if registered(entries, identity) {
        let at = position(entries, identity);
        assert forall|entry: SequencerEntryView|
            entries.contains(entry) && entry.identity != identity implies after.contains(
            entry,
        ) by {
            let i = choose|i: int| 0 <= i < entries.len() && entries[i] == entry;
            if i < at {
                assert(after[i] == entry);
            } else {
                assert(after[i - 1] == entry);
            }
        }
        assert forall|entry: SequencerEntryView| after.contains(entry) implies entries.contains(
            entry,
        ) && entry.identity != identity by {
            let i = choose|i: int| 0 <= i < after.len() && after[i] == entry;
            let from = if i < at { i } else { i + 1 };
            if entry.identity == identity {
                lemma_position_is_unique(entries, from);
            }
        }
    } else {
        assert forall|entry: SequencerEntryView| entries.contains(entry) implies entry.identity
            != identity by {
            let i = choose|i: int| 0 <= i < entries.len() && entries[i] == entry;
            assert(identities(entries)[i] == entry.identity);
        }
    }
}

/// Registering a sequencer leads from a valid state to a valid state.
pub proof fn lemma_register_sequencer_keeps_valid(
    s: CoordinatorView,
    identity: Seq<char>,
    registered_at: u64,
)
    requires
        valid(s),
    ensures
        valid(register_sequencer(s, identity, registered_at)),
{
    lemma_membership_keeps_distinct(s.sequencers, identity, registered_at);
    if s.round.leader is Some {
        let leader = s.round.leader->0;
        let i = choose|i: int| 0 <= i < s.sequencers.len() && s.sequencers[i] == leader;
        assert(register(s.sequencers, identity, registered_at)[i] == leader);
    }
}

/// Deregistering a sequencer leads from a valid state to a valid state, for
/// every choice among the sequencers that remain.
pub proof fn lemma_deregister_sequencer_keeps_valid(
    s: CoordinatorView,
    identity: Seq<char>,
    pick: int,
)
    requires
        valid(s),
        pick_fits(deregister(s.sequencers, identity).len(), pick),
    ensures
        valid(deregister_sequencer(s, identity, pick)),
{
    lemma_membership_keeps_distinct(s.sequencers, identity, 0);
    lemma_deregister_spares_others(s.sequencers, identity);
}

/// Registering and deregistering a rollup lead from a valid state to a valid
/// state.
pub proof fn lemma_rollup_membership_keeps_valid(s: CoordinatorView, identity: Seq<char>)
    requires
        valid(s),
    ensures
        valid(register_rollup(s, identity)),
        valid(deregister_rollup(s, identity)),
{
}

/// A submitted block leads from a valid state to a valid state, for every
/// choice among the registered sequencers.
pub proof fn lemma_close_block_keeps_valid(
    s: CoordinatorView,
    rollup: Seq<char>,
    raw_tx: Seq<char>,
    pick: int,
)
    requires
        valid(s),
        pick_fits(s.sequencers.len(), pick),
    ensures
        valid(close_block(s, rollup, raw_tx, pick)),
{
}

/// One call on the sequencer registry.
pub enum RegistryCall {
    Register { identity: Seq<char>, registered_at: u64 },
    Deregister { identity: Seq<char> },
}

impl RegistryCall {
    /// The identity that the call is about.
    pub open spec fn identity(self) -> Seq<char> {
        match self {
            RegistryCall::Register { identity, .. } => identity,
            RegistryCall::Deregister { identity } => identity,
        }
    }

    /// The call asks to register `identity`.
    pub open spec fn registers(self, identity: Seq<char>) -> bool {
        self matches RegistryCall::Register { identity: named, .. } && named == identity
    }

    /// The call asks to deregister `identity`.
    pub open spec fn deregisters(self, identity: Seq<char>) -> bool {
        self matches RegistryCall::Deregister { identity: named } && named == identity
    }

    /// The registry after the call.
    pub open spec fn apply(self, entries: Seq<SequencerEntryView>) -> Seq<SequencerEntryView> {
        match self {
            RegistryCall::Register { identity, registered_at } => register(
                entries,
                identity,
                registered_at,
            ),
            RegistryCall::Deregister { identity } => deregister(entries, identity),
        }
    }

    /// The answer to the call.
    pub open spec fn outcome(self, entries: Seq<SequencerEntryView>) -> Result<(), Error> {
        match self {
            RegistryCall::Register { identity, .. } => register_outcome(entries, identity),
            RegistryCall::Deregister { identity } => deregister_outcome(entries, identity),
        }
    }
}

/// The registry after the calls were made one after the other, first call
/// first, on the registry `start`.
pub open spec fn replay(start: Seq<SequencerEntryView>, calls: Seq<RegistryCall>) -> Seq<
    SequencerEntryView,
>
    decreases calls.len(),
{
    if calls.len() == 0 {
        start
    } else {
        calls.last().apply(replay(start, calls.drop_last()))
    }
}

/// The call at `i` registers the identity and no later call deregisters it.
pub open spec fn registered_for_good(
    calls: Seq<RegistryCall>,
    identity: Seq<char>,
    i: int,
) -> bool {
    &&& 0 <= i < calls.len()
    &&& calls[i].registers(identity)
    &&& forall|j: int| i < j < calls.len() ==> !(#[trigger] calls[j]).deregisters(identity)
}

/// The identity was registered and not deregistered afterwards: some call
/// registers it and no later call deregisters it, or `start` holds it and no
/// call deregisters it.
pub open spec fn survives(
    start: Seq<SequencerEntryView>,
    calls: Seq<RegistryCall>,
    identity: Seq<char>,
) -> bool {
    ||| exists|i: int| registered_for_good(calls, identity, i)
    ||| registered(start, identity) && forall|j: int|
        0 <= j < calls.len() ==> !(#[trigger] calls[j]).deregisters(identity)
}

/// After one call, the registered identities are those registered before,
/// with the one that the call registers and without the one that it
/// deregisters.
pub proof fn lemma_membership_after_call(
    entries: Seq<SequencerEntryView>,
    call: RegistryCall,
    identity: Seq<char>,
)
    requires
        distinct(entries),
    ensures
        registered(call.apply(entries), identity) <==> call.registers(identity) || (registered(
            entries,
            identity,
        ) && !call.deregisters(identity)),
{
    match call {
        RegistryCall::Register { identity: named, registered_at } => {
            let after = register(entries, named, registered_at);
            if !registered(entries, named) {
                assert(identities(after) =~= identities(entries).push(named));
                if registered(entries, identity) {
                    let i = identities(entries).index_of(identity);
                    assert(identities(after)[i] == identity);
                }
                if named == identity {
                    assert(identities(after)[entries.len() as int] == identity);
                }
            }
        },
        RegistryCall::Deregister { identity: named } => {
            let after = deregister(entries, named);
            lemma_deregister_spares_others(entries, named);
            lemma_registered_means_entry(entries, identity);
            lemma_registered_means_entry(after, identity);
            if registered(entries, identity) && named != identity {
                let i = choose|i: int|
                    0 <= i < entries.len() && (#[trigger] entries[i]).identity == identity;
                assert(after.contains(entries[i]));
            }
            if registered(after, identity) {
                let j = choose|j: int|
                    0 <= j < after.len() && (#[trigger] after[j]).identity == identity;
                assert(after.contains(after[j]));
            }
        },
    }
}

/// For all sequences of register and deregister calls, the registry after
/// the replay has no duplicates and holds exactly the identities that were
/// registered and not deregistered afterwards.
pub proof fn law_replay_holds_survivors(
    start: Seq<SequencerEntryView>,
    calls: Seq<RegistryCall>,
    identity: Seq<char>,
)
    requires
        distinct(start),
    ensures
        distinct(replay(start, calls)),
        registered(replay(start, calls), identity) <==> survives(start, calls, identity),
    decreases calls.len(),
{
    if calls.len() > 0 {
        let earlier = calls.drop_last();
        let call = calls.last();
        let before = replay(start, earlier);
        law_replay_holds_survivors(start, earlier, identity);
        match call {
            RegistryCall::Register { identity: named, registered_at } => {
                lemma_membership_keeps_distinct(before, named, registered_at);
            },
            RegistryCall::Deregister { identity: named } => {
                lemma_membership_keeps_distinct(before, named, 0);
            },
        }
        lemma_membership_after_call(before, call, identity);
        let last = calls.len() - 1;
        assert(calls[last] == call);
        assert forall|j: int| 0 <= j < earlier.len() implies earlier[j] == calls[j] by {}
        if call.registers(identity) {
            assert(registered_for_good(calls, identity, last));
        } else if survives(start, calls, identity) {
            // What made the identity survive all calls made it survive the earlier ones.
            if exists|i: int| registered_for_good(calls, identity, i) {
                let i = choose|i: int| registered_for_good(calls, identity, i);
                assert(registered_for_good(earlier, identity, i));
            }
            assert(survives(start, earlier, identity));
        } else if survives(start, earlier, identity) && !call.deregisters(identity) {
            // What made the identity survive the earlier calls is not undone by the last.
            if exists|i: int| registered_for_good(earlier, identity, i) {
                let i = choose|i: int| registered_for_good(earlier, identity, i);
                assert(registered_for_good(calls, identity, i));
            }
            assert(survives(start, calls, identity));
        }
    }
}

/// Every call registers, and no two of them name the same identity.
pub open spec fn distinct_registrations(calls: Seq<RegistryCall>) -> bool {
    &&& forall|i: int| 0 <= i < calls.len() ==> (#[trigger] calls[i]) is Register
    &&& forall|i: int, j: int|
        0 <= i < j < calls.len() ==> (#[trigger] calls[i]).identity() != (
        #[trigger] calls[j]).identity()
}

/// Registrations of distinct identities on an empty registry all succeed, in
/// whatever order they are served, and the registry then holds one entry for
/// each of them, in the order in which they were served.
pub proof fn law_distinct_registrations_all_succeed(calls: Seq<RegistryCall>)
    requires
        distinct_registrations(calls),
    ensures
        replay(Seq::empty(), calls).len() == calls.len(),
        forall|k: int|
            0 <= k < calls.len() ==> (#[trigger] replay(Seq::empty(), calls)[k]).identity
                == calls[k].identity(),
        forall|k: int|
            0 <= k < calls.len() ==> (#[trigger] calls[k]).outcome(
                replay(Seq::empty(), calls.take(k)),
            ) is Ok,
    decreases calls.len(),
{
    let empty = Seq::<SequencerEntryView>::empty();
    if calls.len() > 0 {
        let last = calls.len() - 1;
        let earlier = calls.drop_last();
        let call = calls.last();
        let before = replay(empty, earlier);
        assert forall|j: int| 0 <= j < earlier.len() implies earlier[j] == calls[j] by {}
        assert(distinct_registrations(earlier));
        law_distinct_registrations_all_succeed(earlier);
        assert(!registered(before, call.identity())) by {
            lemma_registered_means_entry(before, call.identity());
        }
        assert forall|k: int| 0 <= k < calls.len() implies (#[trigger] calls[k]).outcome(
            replay(empty, calls.take(k)),
        ) is Ok by {
            if k < last {
                assert(calls.take(k) =~= earlier.take(k));
            }
        }
    }
}

/// After a block was accepted, the round number is larger by one, the
/// registry is as before, and the new leader is the registered sequencer at
/// `pick`, the one that the receipt names. The block stands last in the
/// committed history, under the number of the round that accepted it.
pub proof fn law_accepted_block_advances_round(
    s: CoordinatorView,
    rollup: Seq<char>,
    raw_tx: Seq<char>,
    pick: int,
)
    requires
        valid(s),
        pick_fits(s.sequencers.len(), pick),
        close_block_outcome(s, rollup, pick) is Ok,
    ensures
        ({
            let after = close_block(s, rollup, raw_tx, pick);
            let receipt = close_block_outcome(s, rollup, pick)->Ok_0;
            &&& after.round.number == s.round.number + 1
            &&& after.sequencers == s.sequencers
            &&& after.rollups == s.rollups
            &&& after.round.leader == Some(s.sequencers[pick])
            &&& after.sequencers.contains(s.sequencers[pick])
            &&& after.round.blocks.len() == 0
            &&& receipt.round == s.round.number
            &&& receipt.leader == s.sequencers[pick]
            &&& after.committed == s.committed + s.round.blocks + seq![
                BlockView {
                    round: s.round.number,
                    position: receipt.position,
                    rollup,
                    raw_tx,
                },
            ]
        }),
{
    let receipt = close_block_outcome(s, rollup, pick)->Ok_0;
    assert(close_block(s, rollup, raw_tx, pick).committed =~= s.committed + s.round.blocks + seq![
        BlockView { round: s.round.number, position: receipt.position, rollup, raw_tx },
    ]);
}

/// A block from a rollup that is not registered is refused as coming from an
/// unregistered rollup, whatever else holds, and the state stays as it was.
pub proof fn law_unregistered_rollup_changes_nothing(
    s: CoordinatorView,
    rollup: Seq<char>,
    raw_tx: Seq<char>,
    pick: int,
)
    requires
        !s.rollups.contains(rollup),
    ensures
        close_block_outcome(s, rollup, pick) == Err::<BlockReceiptView, Error>(
            Error::UnregisteredRollup,
        ),
        close_block(s, rollup, raw_tx, pick) == s,
{
}

/// One request to the service. A request that may trigger an election
/// carries the place of the winner.
pub enum Request {
    RegisterSequencer { identity: Seq<char>, registered_at: u64 },
    DeregisterSequencer { identity: Seq<char>, pick: int },
    RegisterRollup { identity: Seq<char> },
    DeregisterRollup { identity: Seq<char> },
    CloseBlock { rollup: Seq<char>, raw_tx: Seq<char>, pick: int },
}

impl Request {
    /// The place that the request carries is one that an election among the
    /// candidates at hand could give.
    pub open spec fn admissible(self, s: CoordinatorView) -> bool {
        match self {
            Request::DeregisterSequencer { identity, pick } => pick_fits(
                deregister(s.sequencers, identity).len(),
                pick,
            ),
            Request::CloseBlock { pick, .. } => pick_fits(s.sequencers.len(), pick),
            _ => true,
        }
    }

    /// The failure with which the request is refused in this state, if it
    /// is refused.
    pub open spec fn refusal(self, s: CoordinatorView) -> Option<Error> {
        match self {
            Request::RegisterSequencer { identity, .. } => register_outcome(
                s.sequencers,
                identity,
            ).err(),
            Request::DeregisterSequencer { identity, .. } => deregister_outcome(
                s.sequencers,
                identity,
            ).err(),
            Request::RegisterRollup { identity } => enroll_outcome(s.rollups, identity).err(),
            Request::DeregisterRollup { identity } => withdraw_outcome(s.rollups, identity).err(),
            Request::CloseBlock { rollup, pick, .. } => close_block_outcome(s, rollup, pick).err(),
        }
    }

    /// The state after the request was served.
    pub open spec fn serve(self, s: CoordinatorView) -> CoordinatorView {
        match self {
            Request::RegisterSequencer { identity, registered_at } => register_sequencer(
                s,
                identity,
                registered_at,
            ),
            Request::DeregisterSequencer { identity, pick } => deregister_sequencer(
                s,
                identity,
                pick,
            ),
            Request::RegisterRollup { identity } => register_rollup(s, identity),
            Request::DeregisterRollup { identity } => deregister_rollup(s, identity),
            Request::CloseBlock { rollup, raw_tx, pick } => close_block(s, rollup, raw_tx, pick),
        }
    }
}

/// A request that is refused changes nothing: a state is either changed as
/// the request asks or left as it was.
pub proof fn law_refused_request_changes_nothing(s: CoordinatorView, request: Request)
    requires
        valid(s),
        request.refusal(s) is Some,
    ensures
        request.serve(s) == s,
{
    match request {
        Request::RegisterSequencer { identity, .. } => {
            // A registered identity means a sequencer, so a round is open.
            lemma_registered_means_entry(s.sequencers, identity);
        },
        Request::DeregisterSequencer { identity, .. } => {
            // An identity that is not registered is not the leader's.
            if s.round.leader is Some {
                let at = s.sequencers.index_of(s.round.leader->0);
                lemma_position_is_unique(s.sequencers, at);
            }
        },
        _ => {},
    }
}

/// The state after the requests were served one after the other on a fresh
/// service.
pub open spec fn run(requests: Seq<Request>) -> CoordinatorView
    decreases requests.len(),
{
    if requests.len() == 0 {
        initial()
    } else {
        requests.last().serve(run(requests.drop_last()))
    }
}

/// Every request was admissible in the state that it met.
pub open spec fn admissible_run(requests: Seq<Request>) -> bool
    decreases requests.len(),
{
    requests.len() > 0 ==> admissible_run(requests.drop_last()) && requests.last().admissible(
        run(requests.drop_last()),
    )
}

/// Whatever requests a fresh service has served, its state is valid: the
/// leader that it reports is a registered sequencer, and it reports one
/// whenever a sequencer is registered.
pub proof fn law_leader_is_always_registered(requests: Seq<Request>)
    requires
        admissible_run(requests),
    ensures
        valid(run(requests)),
        run(requests).round.leader matches Some(leader) ==> run(requests).sequencers.contains(
            leader,
        ) && registered(run(requests).sequencers, leader.identity),
        run(requests).round.leader is None ==> run(requests).sequencers.len() == 0,
    decreases requests.len(),
{
    if requests.len() > 0 {
        let before = run(requests.drop_last());
        law_leader_is_always_registered(requests.drop_last());
        match requests.last() {
            Request::RegisterSequencer { identity, registered_at } => {
                lemma_register_sequencer_keeps_valid(before, identity, registered_at);
            },
            Request::DeregisterSequencer { identity, pick } => {
                lemma_deregister_sequencer_keeps_valid(before, identity, pick);
            },
            Request::RegisterRollup { identity } => {
                lemma_rollup_membership_keeps_valid(before, identity);
            },
            Request::DeregisterRollup { identity } => {
                lemma_rollup_membership_keeps_valid(before, identity);
            },
            Request::CloseBlock { rollup, raw_tx, pick } => {
                lemma_close_block_keeps_valid(before, rollup, raw_tx, pick);
            },
        }
    }
    let state = run(requests);
    if state.round.leader is Some {
        let leader = state.round.leader->0;
        let i = choose|i: int| 0 <= i < state.sequencers.len() && state.sequencers[i] == leader;
        assert(identities(state.sequencers)[i] == leader.identity);
    }
}

} // verus!
