//! The mathematical model of the service: what a registry holds and how each
//! request changes it, written over sequences of characters and integers.
//! The executable types refine this model through their views.

use vstd::prelude::*;
use crate::error::Error;

verus! {

/// A registered sequencer: who it is and when it joined.
pub struct SequencerEntryView {
    pub identity: Seq<char>,
    pub registered_at: u64,
}

/// The identities of the entries, in the order of the entries.
pub open spec fn identities(entries: Seq<SequencerEntryView>) -> Seq<Seq<char>> {
    entries.map_values(|e: SequencerEntryView| e.identity)
}

/// No identity is held by two entries.
pub open spec fn distinct(entries: Seq<SequencerEntryView>) -> bool {
    identities(entries).no_duplicates()
}

/// Some entry has this identity.
pub open spec fn registered(entries: Seq<SequencerEntryView>, identity: Seq<char>) -> bool {
    identities(entries).contains(identity)
}

/// Where the entry with this identity stands, if there is one.
pub open spec fn position(entries: Seq<SequencerEntryView>, identity: Seq<char>) -> int {
    identities(entries).index_of(identity)
}

/// The registry after a request to register: a new identity joins at the end,
/// a known one changes nothing.
pub open spec fn register(
    entries: Seq<SequencerEntryView>,
    identity: Seq<char>,
    registered_at: u64,
) -> Seq<SequencerEntryView> {
    if registered(entries, identity) {
        entries
    } else {
        entries.push(SequencerEntryView { identity, registered_at })
    }
}

/// The answer to a request to register.
pub open spec fn register_outcome(entries: Seq<SequencerEntryView>, identity: Seq<char>) -> Result<
    (),
    Error,
> {
    if registered(entries, identity) {
        Err(Error::AlreadyRegistered)
    } else {
        Ok(())
    }
}

/// The registry after a request to deregister: the entry with the identity
/// leaves and the others keep their order, an unknown identity changes nothing.
pub open spec fn deregister(entries: Seq<SequencerEntryView>, identity: Seq<char>) -> Seq<
    SequencerEntryView,
> {
    if registered(entries, identity) {
        entries.remove(position(entries, identity))
    } else {
        entries
    }
}

/// The answer to a request to deregister.
pub open spec fn deregister_outcome(
    entries: Seq<SequencerEntryView>,
    identity: Seq<char>,
) -> Result<(), Error> {
    if registered(entries, identity) {
        Ok(())
    } else {
        Err(Error::NotRegistered)
    }
}

/// The rollup registry after a request to register.
pub open spec fn enroll(rollups: Seq<Seq<char>>, identity: Seq<char>) -> Seq<Seq<char>> {
    if rollups.contains(identity) {
        rollups
    } else {
        rollups.push(identity)
    }
}

/// The answer to a request to register a rollup.
pub open spec fn enroll_outcome(rollups: Seq<Seq<char>>, identity: Seq<char>) -> Result<
    (),
    Error,
> {
    if rollups.contains(identity) {
        Err(Error::AlreadyRegistered)
    } else {
        Ok(())
    }
}

/// The rollup registry after a request to deregister.
pub open spec fn withdraw(rollups: Seq<Seq<char>>, identity: Seq<char>) -> Seq<Seq<char>> {
    if rollups.contains(identity) {
        rollups.remove(rollups.index_of(identity))
    } else {
        rollups
    }
}

/// The answer to a request to deregister a rollup.
pub open spec fn withdraw_outcome(rollups: Seq<Seq<char>>, identity: Seq<char>) -> Result<
    (),
    Error,
> {
    if rollups.contains(identity) {
        Ok(())
    } else {
        Err(Error::NotRegistered)
    }
}

/// In a registry without duplicates, the entry at `i` is the one that
/// `position` finds for its identity.
pub proof fn lemma_position_is_unique(entries: Seq<SequencerEntryView>, i: int)
    requires
        distinct(entries),
        0 <= i < entries.len(),
    ensures
        registered(entries, entries[i].identity),
        position(entries, entries[i].identity) == i,
{
    assert(identities(entries)[i] == entries[i].identity);
}

/// An identity is registered exactly when some entry carries it.
pub proof fn lemma_registered_means_entry(entries: Seq<SequencerEntryView>, identity: Seq<char>)
    ensures
        registered(entries, identity) <==> exists|i: int|
            0 <= i < entries.len() && (#[trigger] entries[i]).identity == identity,
{
    let ids = identities(entries);
    if registered(entries, identity) {
        let i = ids.index_of(identity);
        assert(entries[i].identity == identity);
    }
    if exists|i: int| 0 <= i < entries.len() && (#[trigger] entries[i]).identity == identity {
        let i = choose|i: int|
            0 <= i < entries.len() && (#[trigger] entries[i]).identity == identity;
        assert(ids[i] == identity);
    }
}

/// Both requests keep a registry free of duplicates.
pub proof fn lemma_membership_keeps_distinct(
    entries: Seq<SequencerEntryView>,
    identity: Seq<char>,
    registered_at: u64,
)
    requires
        distinct(entries),
    ensures
        distinct(register(entries, identity, registered_at)),
        distinct(deregister(entries, identity)),
{
    let ids = identities(entries);
    if !registered(entries, identity) {
        let after = register(entries, identity, registered_at);
        assert(identities(after) =~= ids.push(identity));
    }
    if registered(entries, identity) {
        let at = position(entries, identity);
        let after = deregister(entries, identity);
        assert(identities(after) =~= ids.remove(at));
    }
}

/// An accepted block: the payload of a rollup and the place it was given.
pub struct BlockView {
    pub round: nat,
    pub position: nat,
    pub rollup: Seq<char>,
    pub raw_tx: Seq<char>,
}

/// One leadership term. The round is open while it has a leader.
pub struct RoundView {
    pub number: nat,
    pub leader: Option<SequencerEntryView>,
    pub blocks: Seq<BlockView>,
}

/// What a rollup is told once its block is accepted.
pub struct BlockReceiptView {
    pub round: nat,
    pub position: nat,
    pub leader: SequencerEntryView,
}

/// Every block of the round carries the round's number and its own place in
/// the round, and a round without a leader holds no block.
pub open spec fn round_valid(round: RoundView) -> bool {
    &&& round.leader is None ==> round.blocks.len() == 0
    &&& forall|i: int|
        0 <= i < round.blocks.len() ==> (#[trigger] round.blocks[i]).round == round.number
            && round.blocks[i].position == i
}

/// The round before any election: number zero, nobody leads.
pub open spec fn initial_round() -> RoundView {
    RoundView { number: 0, leader: None, blocks: Seq::empty() }
}

/// The round after it accepted a payload at its next free position.
pub open spec fn accept(round: RoundView, rollup: Seq<char>, raw_tx: Seq<char>) -> RoundView {
    RoundView {
        blocks: round.blocks.push(
            BlockView { round: round.number, position: round.blocks.len(), rollup, raw_tx },
        ),
        ..round
    }
}

/// The round once it is closed: nobody leads it and its blocks have left.
pub open spec fn close(round: RoundView) -> RoundView {
    RoundView { number: round.number, leader: None, blocks: Seq::empty() }
}

/// The round that follows `round`, led by `leader`.
pub open spec fn open_next(round: RoundView, leader: SequencerEntryView) -> RoundView {
    RoundView { number: round.number + 1, leader: Some(leader), blocks: Seq::empty() }
}

/// A choice among `candidates` sequencers: any number while there is nobody
/// to choose, else the place of one of them.
pub open spec fn pick_fits(candidates: nat, pick: int) -> bool {
    candidates > 0 ==> 0 <= pick < candidates
}

/// Everything the service keeps.
pub struct CoordinatorView {
    pub sequencers: Seq<SequencerEntryView>,
    pub rollups: Seq<Seq<char>>,
    pub round: RoundView,
    pub committed: Seq<BlockView>,
}

/// The states that the service can be in: both registries are free of
/// duplicates, the round is valid, its leader is a registered sequencer, and
/// a round is open whenever a sequencer is registered.
pub open spec fn valid(s: CoordinatorView) -> bool {
    &&& distinct(s.sequencers)
    &&& s.rollups.no_duplicates()
    &&& round_valid(s.round)
    &&& s.round.leader matches Some(leader) ==> s.sequencers.contains(leader)
    &&& s.round.leader is None ==> s.sequencers.len() == 0
}

/// The state of a service that has seen no request.
pub open spec fn initial() -> CoordinatorView {
    CoordinatorView {
        sequencers: Seq::empty(),
        rollups: Seq::empty(),
        round: initial_round(),
        committed: Seq::empty(),
    }
}

/// Closes the current round: its blocks join the committed history.
pub open spec fn retire(s: CoordinatorView) -> CoordinatorView {
    CoordinatorView { round: close(s.round), committed: s.committed + s.round.blocks, ..s }
}

/// Holds the election that opens the next round, where no round is open and
/// a sequencer is registered; `pick` is the place of the winner.
pub open spec fn reopen(s: CoordinatorView, pick: int) -> CoordinatorView {
    if s.round.leader is None && s.sequencers.len() > 0 {
        CoordinatorView { round: open_next(s.round, s.sequencers[pick]), ..s }
    } else {
        s
    }
}

/// The state after a request to register a sequencer. The first sequencer to
/// join a service that has none opens a round and leads it.
pub open spec fn register_sequencer(
    s: CoordinatorView,
    identity: Seq<char>,
    registered_at: u64,
) -> CoordinatorView {
    reopen(CoordinatorView { sequencers: register(s.sequencers, identity, registered_at), ..s }, 0)
}

/// Whether the sequencer with this identity leads the current round.
pub open spec fn leads(s: CoordinatorView, identity: Seq<char>) -> bool {
    s.round.leader matches Some(leader) && leader.identity == identity
}

/// The state after a request to deregister a sequencer. When the leader
/// leaves, its round is closed and the remaining sequencers elect the leader
/// of the next one; `pick` is the winner's place among them.
pub open spec fn deregister_sequencer(
    s: CoordinatorView,
    identity: Seq<char>,
    pick: int,
) -> CoordinatorView {
    let remaining = deregister(s.sequencers, identity);
    if leads(s, identity) {
        reopen(CoordinatorView { sequencers: remaining, ..retire(s) }, pick)
    } else {
        CoordinatorView { sequencers: remaining, ..s }
    }
}

/// The state after a request to register a rollup.
pub open spec fn register_rollup(s: CoordinatorView, identity: Seq<char>) -> CoordinatorView {
    CoordinatorView { rollups: enroll(s.rollups, identity), ..s }
}

/// The state after a request to deregister a rollup.
pub open spec fn deregister_rollup(s: CoordinatorView, identity: Seq<char>) -> CoordinatorView {
    CoordinatorView { rollups: withdraw(s.rollups, identity), ..s }
}

/// The answer to a submitted block: first the rollup must be registered, then
/// a round must be open. The receipt names the round and position that the
/// block was given and the leader of the round that follows.
pub open spec fn close_block_outcome(
    s: CoordinatorView,
    rollup: Seq<char>,
    pick: int,
) -> Result<BlockReceiptView, Error> {
    if !s.rollups.contains(rollup) {
        Err(Error::UnregisteredRollup)
    } else if s.round.leader is None {
        Err(Error::NoActiveRound)
    } else {
        Ok(
            BlockReceiptView {
                round: s.round.number,
                position: s.round.blocks.len(),
                leader: s.sequencers[pick],
            },
        )
    }
}

/// The state after a submitted block. A refused submission changes nothing.
/// An accepted one is appended to the open round, the round is closed and
/// committed, and the next round opens under the sequencer at `pick`.
pub open spec fn close_block(
    s: CoordinatorView,
    rollup: Seq<char>,
    raw_tx: Seq<char>,
    pick: int,
) -> CoordinatorView {
    if close_block_outcome(s, rollup, pick) is Ok {
        reopen(retire(CoordinatorView { round: accept(s.round, rollup, raw_tx), ..s }), pick)
    } else {
        s
    }
}

} // verus!
