use crate::alist::alist_get;
use crate::alist::alist_has;
use crate::alist::alist_unique;
use crate::alist::kmap_find;
use crate::alist::lemma_alist_get_absent;
use crate::alist::lemma_alist_get_at;
use crate::alist::lemma_alist_get_remove;
use crate::alist::lemma_alist_get_update;
use crate::keys::GenericKey;
use crate::record::Record;
use vstd::prelude::*;

verus! {

/// Byte order of keys: the 8-byte big-endian form compares like the pair
/// (id, revision).
pub open spec fn spec_key_lt(a: GenericKey, b: GenericKey) -> bool {
    a.id < b.id || (a.id == b.id && a.revision < b.revision)
}

/// Compares two keys in byte order.
pub fn key_lt(a: GenericKey, b: GenericKey) -> (r: bool)
    ensures
        r == spec_key_lt(a, b),
{
    a.id < b.id || (a.id == b.id && a.revision < b.revision)
}

/// The records of one tree, keyed by record key and held in byte order of
/// the keys.
#[derive(Clone, PartialEq, Eq, Debug)]
pub struct RecordStore {
    entries: Vec<(GenericKey, Record)>,
}

impl View for RecordStore {
    type V = Seq<(GenericKey, Record)>;

    closed spec fn view(&self) -> Seq<(GenericKey, Record)> {
        self.entries@
    }
}

/// Entries strictly ordered by key, each record carrying its own key in
/// its meta block.
pub open spec fn spec_store_wf(s: Seq<(GenericKey, Record)>) -> bool {
    &&& forall|i: int, j: int|
        0 <= i < j < s.len() ==> spec_key_lt(#[trigger] s[i].0, #[trigger] s[j].0)
    &&& forall|i: int| 0 <= i < s.len() ==> (#[trigger] s[i].1).meta.key == s[i].0
}

/// Strict ordering makes the keys pairwise distinct.
pub proof fn lemma_store_wf_unique(s: Seq<(GenericKey, Record)>)
    requires
        forall|i: int, j: int|
            0 <= i < j < s.len() ==> spec_key_lt(#[trigger] s[i].0, #[trigger] s[j].0),
    ensures
        alist_unique(s),
{
}

/// Every stored record carries in its meta block exactly the key it is
/// stored under.
pub proof fn lemma_record_key_matches_meta(s: Seq<(GenericKey, Record)>)
    requires
        spec_store_wf(s),
    ensures
        forall|i: int| 0 <= i < s.len() ==> (#[trigger] s[i].1).meta.key == s[i].0,
{
}

/// The record stored under a key.
pub open spec fn spec_store_get(s: Seq<(GenericKey, Record)>, k: GenericKey) -> Option<Record> {
    alist_get(s, k)
}

impl RecordStore {
    pub open spec fn wf(&self) -> bool {
        spec_store_wf(self@)
    }

    pub open spec fn spec_get(&self, k: GenericKey) -> Option<Record> {
        alist_get(self@, k)
    }

    pub fn new() -> (r: RecordStore)
        ensures
            r@ == Seq::<(GenericKey, Record)>::empty(),
            r.wf(),
    {
        RecordStore { entries: Vec::new() }
    }

    pub fn len(&self) -> (r: usize)
        ensures
            r == self@.len(),
    {
        self.entries.len()
    }

    /// The entry at one position, in byte order of the keys.
    pub fn entry_at(&self, i: usize) -> (r: &(GenericKey, Record))
        requires
            i < self@.len(),
        ensures
            *r == self@[i as int],
    {
        &self.entries[i]
    }

    /// The record stored under a key, if any.
    pub fn get(&self, k: GenericKey) -> (r: Option<&Record>)
        requires
            self.wf(),
        ensures
            match r {
                Some(rec) => self.spec_get(k) == Some(*rec),
                None => self.spec_get(k) is None,
            },
    {
        match kmap_find(&self.entries, k) {
            Some(i) => {
                proof {
                    lemma_alist_get_at(self@, i as int, k);
                }
                Some(&self.entries[i].1)
            },
            None => {
                proof {
                    lemma_alist_get_absent(self@, k);
                }
                None
            },
        }
    }

    pub fn contains_key(&self, k: GenericKey) -> (r: bool)
        requires
            self.wf(),
        ensures
            r == alist_has(self@, k),
    {
        self.get(k).is_some()
    }

    /// Writes a record under its key, replacing any previous one. Every
    /// other key's lookup is untouched.
    pub fn put(&mut self, k: GenericKey, rec: Record)
        requires
            old(self).wf(),
            rec.meta.key == k,
        ensures
            final(self).wf(),
            forall|k2: GenericKey|
                #[trigger] final(self).spec_get(k2) == if k2 == k {
                    Some(rec)
                } else {
                    old(self).spec_get(k2)
                },
            alist_has(old(self)@, k) ==> final(self)@.len() == old(self)@.len(),
            !alist_has(old(self)@, k) ==> final(self)@.len() == old(self)@.len() + 1,
    {
        proof {
            lemma_store_wf_unique(self@);
        }
        let mut i: usize = 0;
        while i < self.entries.len() && key_lt(self.entries[i].0, k)
            invariant
                0 <= i <= self@.len(),
                forall|j: int| 0 <= j < i ==> spec_key_lt(#[trigger] self@[j].0, k),
            decreases self@.len() - i,
        {
            i = i + 1;
        }
        if i < self.entries.len() && self.entries[i].0 == k {
            self.entries[i] = (k, rec);
            proof {
                assert forall|k2: GenericKey|
                    #[trigger] self.spec_get(k2) == if k2 == k {
                        Some(rec)
                    } else {
                        old(self).spec_get(k2)
                    } by {
                    lemma_alist_get_update(old(self)@, i as int, (k, rec), k2);
                }
                lemma_alist_get_at(old(self)@, i as int, k);
            }
        } else {
            proof {
                assert forall|j: int| 0 <= j < self@.len() implies #[trigger] self@[j].0 != k by {
                    if j >= i {
                        assert(i < self@.len() ==> !spec_key_lt(self@[i as int].0, k) && self@[
                            i as int
                        ].0 != k);
                        if j > i {
                            assert(spec_key_lt(self@[i as int].0, self@[j].0));
                        }
                    }
                }
                lemma_alist_get_absent(self@, k);
            }
            let ghost prev = self@;
            self.entries.insert(i, (k, rec));
            proof {
                prev.insert_ensures(i as int, (k, rec));
                assert forall|k2: GenericKey|
                    #[trigger] self.spec_get(k2) == if k2 == k {
                        Some(rec)
                    } else {
                        old(self).spec_get(k2)
                    } by {
                    lemma_alist_get_insert(prev, i as int, (k, rec), k2);
                }
                assert forall|x: int, y: int|
                    0 <= x < y < self@.len() implies spec_key_lt(
                    #[trigger] self@[x].0,
                    #[trigger] self@[y].0,
                ) by {
                    if y < i {
                    } else if x < i && y == i {
                    } else if x == i {
                        assert(self@[y] == prev[y - 1]);
                        assert(!spec_key_lt(prev[i as int].0, k) && prev[i as int].0 != k);
                        if y > i + 1 {
                            assert(spec_key_lt(prev[i as int].0, prev[y - 1].0));
                        }
                    } else if x > i {
                        assert(self@[x] == prev[x - 1] && self@[y] == prev[y - 1]);
                    } else {
                        assert(self@[x] == prev[x] && self@[y] == prev[y - 1]);
                        assert(!spec_key_lt(prev[i as int].0, k) && prev[i as int].0 != k);
                        if y > i + 1 {
                            assert(spec_key_lt(prev[i as int].0, prev[y - 1].0));
                        }
                    }
                }
            }
        }
    }

    /// Removes the record under a key, returning it; every other key's
    /// lookup is untouched.
    pub fn remove_key(&mut self, k: GenericKey) -> (r: Option<Record>)
        requires
            old(self).wf(),
        ensures
            final(self).wf(),
            r == old(self).spec_get(k),
            old(self).spec_get(k) is None ==> final(self)@ == old(self)@,
            forall|k2: GenericKey|
                #[trigger] final(self).spec_get(k2) == if k2 == k {
                    None::<Record>
                } else {
                    old(self).spec_get(k2)
                },
    {
        proof {
            lemma_store_wf_unique(self@);
        }
        match kmap_find(&self.entries, k) {
            Some(i) => {
                proof {
                    lemma_alist_get_at(self@, i as int, k);
                }
                let pair = self.entries.remove(i);
                proof {
                    assert forall|k2: GenericKey|
                        #[trigger] self.spec_get(k2) == if k2 == k {
                            None::<Record>
                        } else {
                            old(self).spec_get(k2)
                        } by {
                        lemma_alist_get_remove(old(self)@, i as int, k2);
                    }
                    assert forall|x: int, y: int|
                        0 <= x < y < self@.len() implies spec_key_lt(
                        #[trigger] self@[x].0,
                        #[trigger] self@[y].0,
                    ) by {
                        let xo: int = if x < i {
                            x
                        } else {
                            x + 1
                        };
                        let yo: int = if y < i {
                            y
                        } else {
                            y + 1
                        };
                        assert(self@[x] == old(self)@[xo]);
                        assert(self@[y] == old(self)@[yo]);
                    }
                }
                Some(pair.1)
            },
            None => {
                proof {
                    lemma_alist_get_absent(self@, k);
                }
                None
            },
        }
    }

    /// Every key in the store, in byte order.
    pub fn keys(&self) -> (r: Vec<GenericKey>)
        ensures
            r@.len() == self@.len(),
            forall|i: int| 0 <= i < r@.len() ==> r@[i] == self@[i].0,
    {
        let mut out: Vec<GenericKey> = Vec::new();
        let mut i: usize = 0;
        while i < self.entries.len()
            invariant
                0 <= i <= self@.len(),
                out@.len() == i,
                forall|j: int| 0 <= j < i ==> out@[j] == self@[j].0,
            decreases self@.len() - i,
        {
            out.push(self.entries[i].0);
            i = i + 1;
        }
        out
    }
}

/// Inserting an entry with a fresh key rewrites only that key's lookup.
pub proof fn lemma_alist_get_insert(
    s: Seq<(GenericKey, Record)>,
    i: int,
    p: (GenericKey, Record),
    k: GenericKey,
)
    requires
        0 <= i <= s.len(),
        !alist_has(s, p.0),
    ensures
        alist_get(s.insert(i, p), k) == if k == p.0 {
            Some(p.1)
        } else {
            alist_get(s, k)
        },
    decreases s.len(),
{
    s.insert_ensures(i, p);
    if i == 0 {
        assert(s.insert(0, p)[0] == p);
        assert(s.insert(0, p).drop_first() =~= s);
    } else {
        assert(s.len() > 0);
        assert(s.insert(i, p)[0] == s[0]);
        assert(s[0].0 != p.0);
        assert(!alist_has(s.drop_first(), p.0));
        assert(s.insert(i, p).drop_first() =~= s.drop_first().insert(i - 1, p));
        lemma_alist_get_insert(s.drop_first(), i - 1, p, k);
    }
}

} // verus!
