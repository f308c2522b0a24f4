use crate::alist::alist_get;
use crate::alist::alist_unique;
use crate::alist::lemma_alist_get_absent;
use crate::alist::lemma_alist_get_at;
use crate::alist::lemma_alist_get_push;
use crate::alist::lemma_alist_get_update;
use crate::schema::TypeCollection;
use crate::version::spec_version_le;
use crate::version::SimpleVersion;
use vstd::prelude::*;

verus! {

/// What the store remembers about one tree: whether its records are
/// versioned, and the type collection of every evolution seen so far.
#[derive(Clone, PartialEq, Eq, Debug)]
pub struct TreeDescriptor {
    /// The type collection of each evolution still supported, keyed by
    /// version; versions pairwise distinct.
    pub evolutions: Vec<(SimpleVersion, TypeCollection)>,
    /// Whether records created in this tree are `Draft` or `NonVersioned`;
    /// fixed when the tree is first created.
    pub versioning: bool,
}

impl TreeDescriptor {
    pub open spec fn spec_evolutions(&self) -> Seq<(SimpleVersion, TypeCollection)> {
        self.evolutions@
    }

    pub open spec fn wf(&self) -> bool {
        alist_unique(self.spec_evolutions())
    }

    pub open spec fn spec_get_evolution(&self, v: SimpleVersion) -> Option<TypeCollection> {
        alist_get(self.spec_evolutions(), v)
    }

    /// The greatest evolution registered, or 0.0 where none is.
    pub open spec fn spec_max_evolution(&self) -> SimpleVersion {
        spec_max_of(self.spec_evolutions())
    }

    pub fn new(evolution: SimpleVersion, collection: TypeCollection, versioning: bool) -> (r:
        TreeDescriptor)
        ensures
            r.wf(),
            r.versioning == versioning,
            r.spec_evolutions().len() == 1,
            r.spec_evolutions()[0] == (evolution, collection),
    {
        let mut evolutions: Vec<(SimpleVersion, TypeCollection)> = Vec::new();
        evolutions.push((evolution, collection));
        TreeDescriptor { evolutions, versioning }
    }

    pub fn evolutions_len(&self) -> (r: usize)
        ensures
            r == self.spec_evolutions().len(),
    {
        self.evolutions.len()
    }

    pub fn evolution_at(&self, i: usize) -> (r: &(SimpleVersion, TypeCollection))
        requires
            i < self.spec_evolutions().len(),
        ensures
            *r == self.spec_evolutions()[i as int],
    {
        &self.evolutions[i]
    }

    /// The type collection registered under one evolution.
    pub fn get_evolution(&self, v: SimpleVersion) -> (r: Option<&TypeCollection>)
        requires
            self.wf(),
        ensures
            match r {
                Some(tc) => self.spec_get_evolution(v) == Some(*tc),
                None => self.spec_get_evolution(v) is None,
            },
    {
        let mut i: usize = 0;
        while i < self.evolutions.len()
            invariant
                0 <= i <= self.evolutions@.len(),
                forall|j: int| 0 <= j < i ==> self.evolutions@[j].0 != v,
            decreases self.evolutions@.len() - i,
        {
            if self.evolutions[i].0 == v {
                proof {
                    lemma_alist_get_at(self.evolutions@, i as int, v);
                }
                return Some(&self.evolutions[i].1);
            }
            i = i + 1;
        }
        proof {
            lemma_alist_get_absent(self.evolutions@, v);
        }
        None
    }

    /// Registers a type collection under an evolution, replacing any
    /// previous one for the same version.
    pub fn register_evolution(&mut self, v: SimpleVersion, collection: TypeCollection)
        requires
            old(self).wf(),
        ensures
            final(self).wf(),
            final(self).versioning == old(self).versioning,
            forall|v2: SimpleVersion|
                #[trigger] final(self).spec_get_evolution(v2) == if v2 == v {
                    Some(collection)
                } else {
                    old(self).spec_get_evolution(v2)
                },
            (exists|i: int|
                0 <= i < old(self).spec_evolutions().len() && final(self).spec_evolutions()
                    == old(self).spec_evolutions().update(i, (v, collection))) || final(self).spec_evolutions() == old(self).spec_evolutions().push((v, collection)),
    {
        let mut i: usize = 0;
        while i < self.evolutions.len()
            invariant
                old(self) == self,
                old(self).wf(),
                0 <= i <= self.evolutions@.len(),
                forall|j: int| 0 <= j < i ==> self.evolutions@[j].0 != v,
            decreases self.evolutions@.len() - i,
        {
            if self.evolutions[i].0 == v {
                self.evolutions[i] = (v, collection);
                proof {
                    assert forall|v2: SimpleVersion|
                        #[trigger] self.spec_get_evolution(v2) == if v2 == v {
                            Some(collection)
                        } else {
                            old(self).spec_get_evolution(v2)
                        } by {
                        lemma_alist_get_update(
                            old(self).evolutions@,
                            i as int,
                            (v, collection),
                            v2,
                        );
                        assert(self.evolutions@ =~= old(self).evolutions@.update(
                            i as int,
                            (v, collection),
                        ));
                    }
                    assert forall|x: int, y: int|
                        0 <= x < y < self.evolutions@.len() implies self.evolutions@[x].0
                        != self.evolutions@[y].0 by {
                        assert(old(self).evolutions@[x].0 != old(self).evolutions@[y].0);
                    }
                    assert(self.evolutions@ =~= old(self).evolutions@.update(
                        i as int,
                        (v, collection),
                    ));
                }
                return ;
            }
            i = i + 1;
        }
        proof {
            lemma_alist_get_absent(self.evolutions@, v);
        }
        self.evolutions.push((v, collection));
        proof {
            assert forall|v2: SimpleVersion|
                #[trigger] self.spec_get_evolution(v2) == if v2 == v {
                    Some(collection)
                } else {
                    old(self).spec_get_evolution(v2)
                } by {
                lemma_alist_get_push(
                    old(self).evolutions@,
                    self.evolutions@[self.evolutions@.len() - 1],
                    v2,
                );
            }
            assert forall|x: int, y: int|
                0 <= x < y < self.evolutions@.len() implies self.evolutions@[x].0
                != self.evolutions@[y].0 by {
                if y < self.evolutions@.len() - 1 {
                    assert(old(self).evolutions@[x].0 != old(self).evolutions@[y].0);
                }
            }
        }
    }

    /// The greatest evolution registered, or 0.0 where none is.
    pub fn max_evolution(&self) -> (r: SimpleVersion)
        ensures
            r == self.spec_max_evolution(),
    {
        let mut best = SimpleVersion::new(0, 0);
        let mut i: usize = 0;
        proof {
            assert(self.evolutions@.take(0) =~= Seq::<(SimpleVersion, TypeCollection)>::empty());
        }
        while i < self.evolutions.len()
            invariant
                0 <= i <= self.evolutions@.len(),
                best == spec_max_of(self.evolutions@.take(i as int)),
            decreases self.evolutions@.len() - i,
        {
            proof {
                assert(self.evolutions@.take(i as int + 1).drop_last() =~= self.evolutions@.take(
                    i as int,
                ));
                assert(self.evolutions@.take(i as int + 1).last() == self.evolutions@[i as int]);
            }
            let v = self.evolutions[i].0;
            if best.lt(&v) {
                best = v;
            }
            i = i + 1;
        }
        proof {
            assert(self.evolutions@.take(self.evolutions@.len() as int) =~= self.evolutions@);
        }
        best
    }
}

/// The greatest version among the listed evolutions, or 0.0 for none.
pub open spec fn spec_max_of(s: Seq<(SimpleVersion, TypeCollection)>) -> SimpleVersion
    decreases s.len(),
{
    if s.len() == 0 {
        SimpleVersion { major: 0, minor: 0 }
    } else {
        let rest = spec_max_of(s.drop_last());
        if spec_version_le(s.last().0, rest) {
            rest
        } else {
            s.last().0
        }
    }
}

} // verus!
