//! The rollup registry: the rollups that may submit blocks.

use vstd::prelude::*;
use crate::error::Error;
use crate::model;

verus! {

/// One registered rollup.
#[derive(Debug, PartialEq, Eq)]
pub struct RollupEntry {
    /// Identity of the rollup chain.
    pub identity: String,
}

impl View for RollupEntry {
    type V = Seq<char>;

    open spec fn view(&self) -> Seq<char> {
        self.identity@
    }
}

impl Clone for RollupEntry {
    fn clone(&self) -> (copy: Self)
        ensures
            copy == *self,
    {
        RollupEntry { identity: self.identity.clone() }
    }
}

impl RollupEntry {
    /// An entry for `identity`.
    pub fn new(identity: String) -> (entry: Self)
        ensures
            entry.identity == identity,
    {
        RollupEntry { identity }
    }
}

/// What a vector of rollup entries stands for in the model.
pub open spec fn rollups_view(entries: Seq<RollupEntry>) -> Seq<Seq<char>> {
    entries.map_values(|e: RollupEntry| e@)
}

/// The registered rollups, in the order in which they were registered.
#[derive(Debug)]
pub struct RollupSet {
    entries: Vec<RollupEntry>,
}

impl View for RollupSet {
    type V = Seq<Seq<char>>;

    closed spec fn view(&self) -> Seq<Seq<char>> {
        rollups_view(self.entries@)
    }
}

impl RollupSet {
    /// No identity is registered twice.
    pub open spec fn wf(&self) -> bool {
        self@.no_duplicates()
    }

    /// The empty registry.
    pub fn new() -> (set: Self)
        ensures
            set.wf(),
            set@ == Seq::<Seq<char>>::empty(),
    {
        RollupSet { entries: Vec::new() }
    }

    /// The registry that holds exactly `entries`, in their order; `None` when
    /// two of them share an identity.
    pub fn from_entries(entries: Vec<RollupEntry>) -> (restored: Option<Self>)
        ensures
            restored is Some <==> rollups_view(entries@).no_duplicates(),
            restored matches Some(set) ==> set.wf() && set@ == rollups_view(entries@),
    {
        let ghost ids = rollups_view(entries@);
        let mut i: usize = 0;
        while i < entries.len()
            invariant
                i <= entries.len(),
                ids == rollups_view(entries@),
                forall|a: int, b: int| 0 <= b < a < i ==> ids[a] != ids[b],
            decreases entries.len() - i,
        {
            let mut j: usize = 0;
            while j < i
                invariant
                    j <= i < entries.len(),
                    ids == rollups_view(entries@),
                    forall|b: int| 0 <= b < j ==> ids[i as int] != ids[b],
                decreases i - j,
            {
                if entries[i].identity == entries[j].identity {
                    assert(ids[i as int] == ids[j as int]);
                    return None;
                }
                j += 1;
            }
            i += 1;
        }
        Some(RollupSet { entries })
    }

    /// How many rollups are registered.
    pub fn len(&self) -> (count: usize)
        ensures
            count == self@.len(),
    {
        self.entries.len()
    }

    /// Where the entry with `identity` stands, if it is registered.
    pub fn position(&self, identity: &String) -> (found: Option<usize>)
        ensures
            found is Some <==> self@.contains(identity@),
            found matches Some(at) ==> at < self@.len() && self@[at as int] == identity@,
            self.wf() ==> (found matches Some(at) ==> at == self@.index_of(identity@)),
    {
        let ghost ids = self@;
        let mut i: usize = 0;
        while i < self.entries.len()
            invariant
                i <= self.entries.len(),
                ids == self@,
                forall|j: int| 0 <= j < i ==> ids[j] != identity@,
            decreases self.entries.len() - i,
        {
            if self.entries[i].identity == *identity {
                assert(ids[i as int] == identity@);
                return Some(i);
            }
            i += 1;
        }
        None
    }

    /// Whether `identity` is registered.
    pub fn contains(&self, identity: &String) -> (answer: bool)
        ensures
            answer == self@.contains(identity@),
    {
        self.position(identity).is_some()
    }

    /// Registers `identity`, unless it is registered already.
    pub fn register(&mut self, identity: String) -> (outcome: Result<(), Error>)
        requires
            old(self).wf(),
        ensures
            final(self).wf(),
            final(self)@ == model::enroll(old(self)@, identity@),
            outcome == model::enroll_outcome(old(self)@, identity@),
            outcome is Err ==> final(self)@ == old(self)@,
    {
        if self.contains(&identity) {
            return Err(Error::AlreadyRegistered);
        }
        let entry = RollupEntry { identity };
        self.entries.push(entry);
        assert(self@ =~= old(self)@.push(entry@));
        Ok(())
    }

    /// Removes `identity`, if it is registered.
    pub fn deregister(&mut self, identity: &String) -> (outcome: Result<(), Error>)
        requires
            old(self).wf(),
        ensures
            final(self).wf(),
            final(self)@ == model::withdraw(old(self)@, identity@),
            outcome == model::withdraw_outcome(old(self)@, identity@),
            outcome is Err ==> final(self)@ == old(self)@,
    {
        match self.position(identity) {
            Some(at) => {
                self.entries.remove(at);
                assert(self@ =~= old(self)@.remove(at as int));
                Ok(())
            },
            None => Err(Error::NotRegistered),
        }
    }

    /// A snapshot of the registry, earliest registration first.
    pub fn list(&self) -> (snapshot: Vec<RollupEntry>)
        ensures
            rollups_view(snapshot@) == self@,
    {
        let mut snapshot: Vec<RollupEntry> = Vec::new();
        let mut i: usize = 0;
        while i < self.entries.len()
            invariant
                i <= self.entries.len(),
                snapshot@ == self.entries@.subrange(0, i as int),
            decreases self.entries.len() - i,
        {
            snapshot.push(self.entries[i].clone());
            i += 1;
        }
        snapshot
    }
}

} // verus!
