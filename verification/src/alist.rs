use crate::keys::GenericKey;
use vstd::prelude::*;

verus! {

// Association sequences stand in for the hash maps of an on-disk engine:
// lookups are specified by the first matching key, and every container that
// uses them keeps its keys pairwise distinct.
//
// Two families are provided: `alist_*` compares keys with spec equality
// (integer and structural keys), `smap_*` compares string keys by their
// character sequences.
/// The value stored under the first entry whose key equals `k`.
pub open spec fn alist_get<K, V>(s: Seq<(K, V)>, k: K) -> Option<V>
    decreases s.len(),
{
    if s.len() == 0 {
        None
    } else if s[0].0 == k {
        Some(s[0].1)
    } else {
        alist_get(s.drop_first(), k)
    }
}

pub open spec fn alist_has<K, V>(s: Seq<(K, V)>, k: K) -> bool {
    alist_get(s, k) is Some
}

/// Pairwise distinct keys.
pub open spec fn alist_unique<K, V>(s: Seq<(K, V)>) -> bool {
    forall|i: int, j: int| 0 <= i < j < s.len() ==> s[i].0 != s[j].0
}

/// A first matching index determines the lookup result.
pub proof fn lemma_alist_get_at<K, V>(s: Seq<(K, V)>, i: int, k: K)
    requires
        0 <= i < s.len(),
        s[i].0 == k,
        forall|j: int| 0 <= j < i ==> s[j].0 != k,
    ensures
        alist_get(s, k) == Some(s[i].1),
    decreases s.len(),
{
    if i > 0 {
        lemma_alist_get_at(s.drop_first(), i - 1, k);
    }
}

/// A key that matches no entry is not found.
pub proof fn lemma_alist_get_absent<K, V>(s: Seq<(K, V)>, k: K)
    requires
        forall|j: int| 0 <= j < s.len() ==> s[j].0 != k,
    ensures
        alist_get(s, k) is None,
    decreases s.len(),
{
    if s.len() > 0 {
        lemma_alist_get_absent(s.drop_first(), k);
    }
}

/// A found key has a matching entry.
pub proof fn lemma_alist_get_witness<K, V>(s: Seq<(K, V)>, k: K)
    requires
        alist_has(s, k),
    ensures
        exists|i: int| 0 <= i < s.len() && s[i].0 == k && alist_get(s, k) == Some(s[i].1),
    decreases s.len(),
{
    if s.len() > 0 && s[0].0 != k {
        lemma_alist_get_witness(s.drop_first(), k);
        let i = choose|i: int|
            0 <= i < s.drop_first().len() && s.drop_first()[i].0 == k && alist_get(
                s.drop_first(),
                k,
            ) == Some(s.drop_first()[i].1);
        assert(s[i + 1].0 == k && alist_get(s, k) == Some(s[i + 1].1));
    }
}

/// Appending an entry only affects the lookup of a key that was absent.
pub proof fn lemma_alist_get_push<K, V>(s: Seq<(K, V)>, p: (K, V), k: K)
    ensures
        alist_get(s.push(p), k) == if alist_has(s, k) {
            alist_get(s, k)
        } else if p.0 == k {
            Some(p.1)
        } else {
            None
        },
    decreases s.len(),
{
    if s.len() == 0 {
        assert(s.push(p).len() == 1);
        assert(s.push(p)[0] == p);
        assert(s.push(p).drop_first() =~= Seq::<(K, V)>::empty());
        if p.0 != k {
            assert(alist_get(s.push(p), k) == alist_get(Seq::<(K, V)>::empty(), k));
        }
    } else {
        assert(s.push(p).drop_first() =~= s.drop_first().push(p));
        lemma_alist_get_push(s.drop_first(), p, k);
        assert(s.push(p)[0] == s[0]);
        assert(alist_get(s.push(p), k) == if s[0].0 == k {
            Some(s[0].1)
        } else {
            alist_get(s.drop_first().push(p), k)
        });
    }
}

/// Replacing the entry at a matching index rewrites that key's value and
/// leaves every other key's lookup unchanged.
pub proof fn lemma_alist_get_update<K, V>(s: Seq<(K, V)>, i: int, p: (K, V), k: K)
    requires
        0 <= i < s.len(),
        alist_unique(s),
        p.0 == s[i].0,
    ensures
        alist_get(s.update(i, p), k) == if k == p.0 {
            Some(p.1)
        } else {
            alist_get(s, k)
        },
    decreases s.len(),
{
    if i == 0 {
        assert(s.update(0, p).drop_first() =~= s.drop_first());
        if k == p.0 {
        } else {
            assert(s.update(i, p)[0].0 != k);
        }
    } else {
        assert(s.update(i, p).drop_first() =~= s.drop_first().update(i - 1, p));
        assert(alist_unique(s.drop_first())) by {
            assert forall|x: int, y: int|
                0 <= x < y < s.drop_first().len() implies #[trigger] s.drop_first()[x].0
                != #[trigger] s.drop_first()[y].0 by {
                assert(s.drop_first()[x] == s[x + 1]);
                assert(s.drop_first()[y] == s[y + 1]);
            }
        }
        lemma_alist_get_update(s.drop_first(), i - 1, p, k);
        if k == p.0 {
            assert(s[0].0 != s[i].0);
        }
    }
}

/// Removing the entry at an index erases its key and leaves every other
/// key's lookup unchanged.
pub proof fn lemma_alist_get_remove<K, V>(s: Seq<(K, V)>, i: int, k: K)
    requires
        0 <= i < s.len(),
        alist_unique(s),
    ensures
        alist_get(s.remove(i), k) == if k == s[i].0 {
            None::<V>
        } else {
            alist_get(s, k)
        },
    decreases s.len(),
{
    if i == 0 {
        assert(s.remove(0) =~= s.drop_first());
        if k == s[0].0 {
            assert(forall|j: int| 0 <= j < s.drop_first().len() ==> s.drop_first()[j].0 != k);
            lemma_alist_get_absent(s.drop_first(), k);
        }
    } else {
        assert(s.remove(i).drop_first() =~= s.drop_first().remove(i - 1));
        assert(alist_unique(s.drop_first())) by {
            assert forall|x: int, y: int|
                0 <= x < y < s.drop_first().len() implies #[trigger] s.drop_first()[x].0
                != #[trigger] s.drop_first()[y].0 by {
                assert(s.drop_first()[x] == s[x + 1]);
                assert(s.drop_first()[y] == s[y + 1]);
            }
        }
        lemma_alist_get_remove(s.drop_first(), i - 1, k);
        assert(s.remove(i)[0] == s[0]);
        if k == s[i].0 {
            assert(s[0].0 != s[i].0);
        }
    }
}

/// Looks up a key of `GenericKey` type, returning the first matching index.
pub fn kmap_find<V>(entries: &Vec<(GenericKey, V)>, k: GenericKey) -> (r: Option<usize>)
    ensures
        match r {
            Some(i) => 0 <= i < entries@.len() && entries@[i as int].0 == k && forall|j: int|
                0 <= j < i ==> entries@[j].0 != k,
            None => forall|j: int| 0 <= j < entries@.len() ==> entries@[j].0 != k,
        },
{
    let mut i: usize = 0;
    while i < entries.len()
        invariant
            0 <= i <= entries@.len(),
            forall|j: int| 0 <= j < i ==> entries@[j].0 != k,
        decreases entries@.len() - i,
    {
        if entries[i].0 == k {
            return Some(i);
        }
        i = i + 1;
    }
    None
}

/// Looks up a 128-bit integer key, returning the first matching index.
pub fn umap_find<V>(entries: &Vec<(u128, V)>, k: u128) -> (r: Option<usize>)
    ensures
        match r {
            Some(i) => 0 <= i < entries@.len() && entries@[i as int].0 == k && forall|j: int|
                0 <= j < i ==> entries@[j].0 != k,
            None => forall|j: int| 0 <= j < entries@.len() ==> entries@[j].0 != k,
        },
{
    let mut i: usize = 0;
    while i < entries.len()
        invariant
            0 <= i <= entries@.len(),
            forall|j: int| 0 <= j < i ==> entries@[j].0 != k,
        decreases entries@.len() - i,
    {
        if entries[i].0 == k {
            return Some(i);
        }
        i = i + 1;
    }
    None
}

/// The value stored under the first entry whose key reads as `k`.
pub open spec fn smap_get<V>(s: Seq<(String, V)>, k: Seq<char>) -> Option<V>
    decreases s.len(),
{
    if s.len() == 0 {
        None
    } else if s[0].0@ == k {
        Some(s[0].1)
    } else {
        smap_get(s.drop_first(), k)
    }
}

pub open spec fn smap_has<V>(s: Seq<(String, V)>, k: Seq<char>) -> bool {
    smap_get(s, k) is Some
}

/// Pairwise distinct string keys, compared by their character sequences.
pub open spec fn smap_unique<V>(s: Seq<(String, V)>) -> bool {
    forall|i: int, j: int| 0 <= i < j < s.len() ==> s[i].0@ != s[j].0@
}

pub proof fn lemma_smap_get_at<V>(s: Seq<(String, V)>, i: int, k: Seq<char>)
    requires
        0 <= i < s.len(),
        s[i].0@ == k,
        forall|j: int| 0 <= j < i ==> s[j].0@ != k,
    ensures
        smap_get(s, k) == Some(s[i].1),
    decreases s.len(),
{
    if i > 0 {
        lemma_smap_get_at(s.drop_first(), i - 1, k);
    }
}

pub proof fn lemma_smap_get_absent<V>(s: Seq<(String, V)>, k: Seq<char>)
    requires
        forall|j: int| 0 <= j < s.len() ==> s[j].0@ != k,
    ensures
        smap_get(s, k) is None,
    decreases s.len(),
{
    if s.len() > 0 {
        lemma_smap_get_absent(s.drop_first(), k);
    }
}

pub proof fn lemma_smap_get_witness<V>(s: Seq<(String, V)>, k: Seq<char>)
    requires
        smap_has(s, k),
    ensures
        exists|i: int| 0 <= i < s.len() && s[i].0@ == k && smap_get(s, k) == Some(s[i].1),
    decreases s.len(),
{
    if s.len() > 0 && s[0].0@ != k {
        lemma_smap_get_witness(s.drop_first(), k);
        let i = choose|i: int|
            0 <= i < s.drop_first().len() && s.drop_first()[i].0@ == k && smap_get(
                s.drop_first(),
                k,
            ) == Some(s.drop_first()[i].1);
        assert(s[i + 1].0@ == k && smap_get(s, k) == Some(s[i + 1].1));
    }
}

pub proof fn lemma_smap_get_push<V>(s: Seq<(String, V)>, p: (String, V), k: Seq<char>)
    ensures
        smap_get(s.push(p), k) == if smap_has(s, k) {
            smap_get(s, k)
        } else if p.0@ == k {
            Some(p.1)
        } else {
            None
        },
    decreases s.len(),
{
    if s.len() == 0 {
        assert(s.push(p).len() == 1);
        assert(s.push(p)[0] == p);
        assert(s.push(p).drop_first() =~= Seq::<(String, V)>::empty());
        if p.0@ != k {
            assert(smap_get(s.push(p), k) == smap_get(Seq::<(String, V)>::empty(), k));
        }
    } else {
        assert(s.push(p).drop_first() =~= s.drop_first().push(p));
        lemma_smap_get_push(s.drop_first(), p, k);
        assert(s.push(p)[0] == s[0]);
        assert(smap_get(s.push(p), k) == if s[0].0@ == k {
            Some(s[0].1)
        } else {
            smap_get(s.drop_first().push(p), k)
        });
    }
}

pub proof fn lemma_smap_get_update<V>(s: Seq<(String, V)>, i: int, p: (String, V), k: Seq<char>)
    requires
        0 <= i < s.len(),
        smap_unique(s),
        p.0@ == s[i].0@,
    ensures
        smap_get(s.update(i, p), k) == if k == p.0@ {
            Some(p.1)
        } else {
            smap_get(s, k)
        },
    decreases s.len(),
{
    if i == 0 {
        assert(s.update(0, p).drop_first() =~= s.drop_first());
        if k == p.0@ {
        } else {
            assert(s.update(i, p)[0].0@ != k);
        }
    } else {
        assert(s.update(i, p).drop_first() =~= s.drop_first().update(i - 1, p));
        assert(smap_unique(s.drop_first())) by {
            assert forall|x: int, y: int|
                0 <= x < y < s.drop_first().len() implies #[trigger] s.drop_first()[x].0@
                != #[trigger] s.drop_first()[y].0@ by {
                assert(s.drop_first()[x] == s[x + 1]);
                assert(s.drop_first()[y] == s[y + 1]);
            }
        }
        lemma_smap_get_update(s.drop_first(), i - 1, p, k);
        if k == p.0@ {
            assert(s[0].0@ != s[i].0@);
        }
    }
}

pub proof fn lemma_smap_get_remove<V>(s: Seq<(String, V)>, i: int, k: Seq<char>)
    requires
        0 <= i < s.len(),
        smap_unique(s),
    ensures
        smap_get(s.remove(i), k) == if k == s[i].0@ {
            None::<V>
        } else {
            smap_get(s, k)
        },
    decreases s.len(),
{
    if i == 0 {
        assert(s.remove(0) =~= s.drop_first());
        if k == s[0].0@ {
            assert(forall|j: int| 0 <= j < s.drop_first().len() ==> s.drop_first()[j].0@ != k);
            lemma_smap_get_absent(s.drop_first(), k);
        }
    } else {
        assert(s.remove(i).drop_first() =~= s.drop_first().remove(i - 1));
        assert(smap_unique(s.drop_first())) by {
            assert forall|x: int, y: int|
                0 <= x < y < s.drop_first().len() implies #[trigger] s.drop_first()[x].0@
                != #[trigger] s.drop_first()[y].0@ by {
                assert(s.drop_first()[x] == s[x + 1]);
                assert(s.drop_first()[y] == s[y + 1]);
            }
        }
        lemma_smap_get_remove(s.drop_first(), i - 1, k);
        assert(s.remove(i)[0] == s[0]);
        if k == s[i].0@ {
            assert(s[0].0@ != s[i].0@);
        }
    }
}

/// Looks up a string key, returning the first matching index.
pub fn smap_find<V>(entries: &Vec<(String, V)>, k: &String) -> (r: Option<usize>)
    ensures
        match r {
            Some(i) => 0 <= i < entries@.len() && entries@[i as int].0@ == k@ && forall|j: int|
                0 <= j < i ==> entries@[j].0@ != k@,
            None => forall|j: int| 0 <= j < entries@.len() ==> entries@[j].0@ != k@,
        },
{
    let mut i: usize = 0;
    while i < entries.len()
        invariant
            0 <= i <= entries@.len(),
            forall|j: int| 0 <= j < i ==> entries@[j].0@ != k@,
        decreases entries@.len() - i,
    {
        if entries[i].0.eq(k) {
            return Some(i);
        }
        i = i + 1;
    }
    None
}

} // verus!
