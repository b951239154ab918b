//! The sequencer registry: the sequencers that may be elected leader.

use vstd::prelude::*;
use crate::error::Error;
use crate::model;
use crate::model::SequencerEntryView;

verus! {

/// One registered sequencer.
#[derive(Debug, PartialEq, Eq)]
pub struct SequencerEntry {
    /// Network address or public key of the sequencer.
    pub identity: String,
    /// Epoch at which the sequencer was registered.
    pub registered_at: u64,
}

impl View for SequencerEntry {
    type V = SequencerEntryView;

    open spec fn view(&self) -> SequencerEntryView {
        SequencerEntryView { identity: self.identity@, registered_at: self.registered_at }
    }
}

impl Clone for SequencerEntry {
    fn clone(&self) -> (copy: Self)
        ensures
            copy == *self,
    {
        SequencerEntry { identity: self.identity.clone(), registered_at: self.registered_at }
    }
}

impl SequencerEntry {
    /// An entry for `identity`, registered at `registered_at`.
    pub fn new(identity: String, registered_at: u64) -> (entry: Self)
        ensures
            entry.identity == identity,
            entry.registered_at == registered_at,
    {
        SequencerEntry { identity, registered_at }
    }
}

/// What a vector of entries stands for in the model.
pub open spec fn entries_view(entries: Seq<SequencerEntry>) -> Seq<SequencerEntryView> {
    entries.map_values(|e: SequencerEntry| e@)
}

/// The registered sequencers, in the order in which they were registered.
#[derive(Debug)]
pub struct SequencerSet {
    entries: Vec<SequencerEntry>,
}

impl View for SequencerSet {
    type V = Seq<SequencerEntryView>;

    closed spec fn view(&self) -> Seq<SequencerEntryView> {
        entries_view(self.entries@)
    }
}

impl SequencerSet {
    /// No identity is registered twice.
    pub open spec fn wf(&self) -> bool {
        model::distinct(self@)
    }

    /// The empty registry.
    pub fn new() -> (set: Self)
        ensures
            set.wf(),
            set@ == Seq::<SequencerEntryView>::empty(),
    {
        SequencerSet { entries: Vec::new() }
    }

    /// The registry that holds exactly `entries`, in their order; `None` when
    /// two of them share an identity.
    pub fn from_entries(entries: Vec<SequencerEntry>) -> (restored: Option<Self>)
        ensures
            restored is Some <==> model::distinct(entries_view(entries@)),
            restored matches Some(set) ==> set.wf() && set@ == entries_view(entries@),
    {
        let ghost ids = model::identities(entries_view(entries@));
        let mut i: usize = 0;
        while i < entries.len()
            invariant
                i <= entries.len(),
                ids == model::identities(entries_view(entries@)),
                forall|a: int, b: int| 0 <= b < a < i ==> ids[a] != ids[b],
            decreases entries.len() - i,
        {
            let mut j: usize = 0;
            while j < i
                invariant
                    j <= i < entries.len(),
                    ids == model::identities(entries_view(entries@)),
                    forall|b: int| 0 <= b < j ==> ids[i as int] != ids[b],
                decreases i - j,
            {
                if entries[i].identity == entries[j].identity {
                    assert(ids[i as int] == ids[j as int]);
                    return None;
                }
                j += 1;
            }
            i += 1;
        }
        Some(SequencerSet { entries })
    }

    /// How many sequencers are registered.
    pub fn len(&self) -> (count: usize)
        ensures
            count == self@.len(),
    {
        self.entries.len()
    }

    /// Where the entry with `identity` stands, if it is registered.
    pub fn position(&self, identity: &String) -> (found: Option<usize>)
        ensures
            found is Some <==> model::registered(self@, identity@),
            found matches Some(at) ==> at < self@.len() && self@[at as int].identity == identity@,
            self.wf() ==> (found matches Some(at) ==> at == model::position(self@, identity@)),
    {
        let ghost ids = model::identities(self@);
        let mut i: usize = 0;
        while i < self.entries.len()
            invariant
                i <= self.entries.len(),
                ids == model::identities(self@),
                forall|j: int| 0 <= j < i ==> ids[j] != identity@,
            decreases self.entries.len() - i,
        {
            if self.entries[i].identity == *identity {
                assert(ids[i as int] == identity@);
                proof {
                    if self.wf() {
                        model::lemma_position_is_unique(self@, i as int);
                    }
                }
                return Some(i);
            }
            i += 1;
        }
        None
    }

    /// Whether `identity` is registered.
    pub fn contains(&self, identity: &String) -> (answer: bool)
        ensures
            answer == model::registered(self@, identity@),
    {
        self.position(identity).is_some()
    }

    /// The entry at `at`, counted from the earliest registration.
    pub fn get(&self, at: usize) -> (entry: Option<&SequencerEntry>)
        ensures
            entry is Some <==> at < self@.len(),
            entry matches Some(e) ==> e@ == self@[at as int],
    {
        if at < self.entries.len() {
            Some(&self.entries[at])
        } else {
            None
        }
    }

    /// Registers `identity`, unless it is registered already.
    pub fn register(&mut self, identity: String, registered_at: u64) -> (outcome: Result<
        (),
        Error,
    >)
        requires
            old(self).wf(),
        ensures
            final(self).wf(),
            final(self)@ == model::register(old(self)@, identity@, registered_at),
            outcome == model::register_outcome(old(self)@, identity@),
            outcome is Err ==> final(self)@ == old(self)@,
    {
        proof {
            model::lemma_membership_keeps_distinct(self@, identity@, registered_at);
        }
        if self.contains(&identity) {
            return Err(Error::AlreadyRegistered);
        }
        let entry = SequencerEntry { identity, registered_at };
        self.entries.push(entry);
        assert(self@ =~= old(self)@.push(entry@));
        Ok(())
    }

    /// Removes `identity`, if it is registered.
    pub fn deregister(&mut self, identity: &String) -> (outcome: Result<(), Error>)
        requires
            old(self).wf(),
        ensures
            final(self).wf(),
            final(self)@ == model::deregister(old(self)@, identity@),
            outcome == model::deregister_outcome(old(self)@, identity@),
            outcome is Err ==> final(self)@ == old(self)@,
    {
        proof {
            model::lemma_membership_keeps_distinct(self@, identity@, 0);
        }
        match self.position(identity) {
            Some(at) => {
                self.entries.remove(at);
                assert(self@ =~= old(self)@.remove(at as int));
                Ok(())
            },
            None => Err(Error::NotRegistered),
        }
    }

    /// A snapshot of the registry, earliest registration first.
    pub fn list(&self) -> (snapshot: Vec<SequencerEntry>)
        ensures
            entries_view(snapshot@) == self@,
    {
        let mut snapshot: Vec<SequencerEntry> = Vec::new();
        let mut i: usize = 0;
        while i < self.entries.len()
            invariant
                i <= self.entries.len(),
                snapshot@ == self.entries@.subrange(0, i as int),
            decreases self.entries.len() - i,
        {
            snapshot.push(self.entries[i].clone());
            i += 1;
        }
        snapshot
    }
}

} // verus!
