use crate::index::IndexError;
use vstd::prelude::*;

verus! {

/// Everything a store operation can fail with.
#[derive(Clone, PartialEq, Eq, Debug)]
pub enum Error {
    /// An I/O failure of the persistence engine, carried through by the
    /// embedding program.
    Store(String),
    /// The call violates a precondition: wrong tree or key, a missing
    /// check-out, or a record that must exist first.
    Usage(String),
    /// Inconsistent state that should be unreachable.
    Internal(String),
    TreeNotFound(String),
    /// A stored evolution differs from the caller's, or a type collection
    /// is not backwards compatible.
    EvolutionMismatch(String),
    /// A key from one tree used with another.
    WrongKey(String, String),
    /// A value from one tree used with another.
    WrongValue(String, String),
    /// The per-tree versioning flag cannot change; released records are
    /// immutable; revisions must be created in order.
    VersioningMismatch(String),
    /// The tree's key pool is empty.
    OutOfKeys,
    /// The command channel to the sync worker is closed.
    Mpsc,
    RecordNotFound,
    /// An indexer rejected the operation.
    Index(IndexError),
}

/// The set of user-tree names this database manages.
#[derive(Clone, PartialEq, Eq, Debug)]
pub struct ManagedTrees {
    trees: Vec<String>,
}

impl View for ManagedTrees {
    type V = Seq<String>;

    closed spec fn view(&self) -> Seq<String> {
        self.trees@
    }
}

/// Whether some element of `s` reads as the name `k`.
pub open spec fn spec_name_listed(s: Seq<String>, k: Seq<char>) -> bool {
    exists|i: int| 0 <= i < s.len() && s[i]@ == k
}

impl ManagedTrees {
    /// Names are pairwise distinct.
    pub open spec fn wf(&self) -> bool {
        forall|i: int, j: int| 0 <= i < j < self@.len() ==> self@[i]@ != self@[j]@
    }

    pub fn new() -> (r: ManagedTrees)
        ensures
            r@ == Seq::<String>::empty(),
            r.wf(),
    {
        ManagedTrees { trees: Vec::new() }
    }

    /// Whether a tree name is already managed.
    pub fn contains(&self, name: &str) -> (r: bool)
        ensures
            r == spec_name_listed(self@, name@),
    {
        let owned: String = name.to_owned();
        let mut i: usize = 0;
        while i < self.trees.len()
            invariant
                owned@ == name@,
                0 <= i <= self@.len(),
                forall|j: int| 0 <= j < i ==> self@[j]@ != name@,
            decreases self@.len() - i,
        {
            let hit = self.trees[i].eq(&owned);
            proof {
                assert(hit == (self@[i as int]@ == name@));
            }
            if hit {
                proof {
                    assert(spec_name_listed(self@, name@));
                }
                return true;
            }
            i = i + 1;
        }
        false
    }

    /// Adds a tree name to the managed set; idempotent.
    pub fn add_to_managed(&mut self, name: &str)
        requires
            old(self).wf(),
        ensures
            final(self).wf(),
            spec_name_listed(final(self)@, name@),
            forall|k: Seq<char>|
                k != name@ ==> (spec_name_listed(final(self)@, k) == spec_name_listed(
                    old(self)@,
                    k,
                )),
            spec_name_listed(old(self)@, name@) ==> final(self)@ == old(self)@,
    {
        if !self.contains(name) {
            let owned: String = name.to_owned();
            self.trees.push(owned);
            proof {
                assert(self@[self@.len() - 1]@ == name@);
                assert forall|k: Seq<char>|
                    k != name@ implies (spec_name_listed(self@, k) == spec_name_listed(
                    old(self)@,
                    k,
                )) by {
                    if spec_name_listed(self@, k) {
                        let i = choose|i: int| 0 <= i < self@.len() && self@[i]@ == k;
                        assert(i < old(self)@.len() && old(self)@[i]@ == k);
                    }
                    if spec_name_listed(old(self)@, k) {
                        let i = choose|i: int| 0 <= i < old(self)@.len() && old(self)@[i]@ == k;
                        assert(self@[i]@ == k);
                    }
                }
            }
        }
    }

    /// The managed tree names, in registration order.
    pub fn managed(&self) -> (r: &Vec<String>)
        ensures
            r@ == self@,
    {
        &self.trees
    }
}

} // verus!
