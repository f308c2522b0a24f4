use crate::alist::lemma_smap_get_absent;
use crate::alist::lemma_smap_get_at;
use crate::alist::lemma_smap_get_push;
use crate::alist::lemma_smap_get_remove;
use crate::alist::smap_find;
use crate::alist::smap_get;
use crate::alist::smap_has;
use crate::alist::smap_unique;
use crate::index::spec_post_process;
use crate::index::IndexError;
use crate::index::Action;
use crate::index::Similarity;
use crate::index::StringPostProcess;
use crate::keys::GenericKey;
use crate::text::contains_str;
use crate::text::spec_has_substring;
use crate::text::spec_is_prefix;
use crate::text::starts_with_str;
use vstd::prelude::*;
use vstd::string::StringExecFns;

verus! {

/// An index that maps one unique (normalised) name to one record key.
#[derive(Clone, PartialEq, Eq, Debug)]
pub struct NamedIndex {
    entries: Vec<(String, GenericKey)>,
    post_process: StringPostProcess,
}

impl View for NamedIndex {
    type V = Seq<(String, GenericKey)>;

    closed spec fn view(&self) -> Seq<(String, GenericKey)> {
        self.entries@
    }
}

/// The first stored name that maps to a key, used by an update to locate
/// the entry it replaces.
pub open spec fn spec_rev_name(s: Seq<(String, GenericKey)>, key: GenericKey) -> Option<Seq<char>>
    decreases s.len(),
{
    if s.len() == 0 {
        None
    } else if s[0].1 == key {
        Some(s[0].0@)
    } else {
        spec_rev_name(s.drop_first(), key)
    }
}

/// Whether a stored name matches a query loosely: it starts with or
/// contains it.
pub open spec fn spec_name_matches(n: Seq<char>, q: Seq<char>) -> bool {
    spec_is_prefix(n, q) || spec_has_substring(n, q)
}

/// The keys of every entry whose name matches the query loosely, in index
/// order.
pub open spec fn spec_loose_keys(s: Seq<(String, GenericKey)>, q: Seq<char>) -> Seq<GenericKey>
    decreases s.len(),
{
    if s.len() == 0 {
        Seq::<GenericKey>::empty()
    } else {
        let rest = spec_loose_keys(s.drop_last(), q);
        if spec_name_matches(s.last().0@, q) {
            rest.push(s.last().1)
        } else {
            rest
        }
    }
}

/// The exact hit, when the query is a stored name.
pub open spec fn spec_exact_part(s: Seq<(String, GenericKey)>, q: Seq<char>) -> Seq<
    (GenericKey, Similarity),
> {
    match smap_get(s, q) {
        Some(k) => seq![(k, Similarity::Exact)],
        None => Seq::<(GenericKey, Similarity)>::empty(),
    }
}

/// What a similarity lookup returns: the exact hit first, then the
/// loosely matching keys in index order, the whole result capped at 20
/// entries.
pub open spec fn spec_similar(s: Seq<(String, GenericKey)>, q: Seq<char>) -> Seq<
    (GenericKey, Similarity),
> {
    let e = spec_exact_part(s, q);
    let m = spec_loose_keys(s, q);
    let lim = 20 - e.len();
    e + (if m.len() <= lim {
        m
    } else {
        m.take(lim as int)
    }).map_values(|k: GenericKey| (k, Similarity::Loose))
}

/// The loose keys of a prefix of the index are a prefix of the loose keys
/// of the whole index.
proof fn lemma_loose_prefix(s: Seq<(String, GenericKey)>, q: Seq<char>, i: int)
    requires
        0 <= i <= s.len(),
    ensures
        spec_loose_keys(s.take(i), q).len() <= spec_loose_keys(s, q).len(),
        spec_loose_keys(s.take(i), q) == spec_loose_keys(s, q).take(
            spec_loose_keys(s.take(i), q).len() as int,
        ),
    decreases s.len() - i,
{
    if i == s.len() {
        assert(s.take(i) =~= s);
        assert(spec_loose_keys(s, q).take(spec_loose_keys(s, q).len() as int) =~= spec_loose_keys(
            s,
            q,
        ));
    } else {
        lemma_loose_prefix(s, q, i + 1);
        assert(s.take(i + 1).drop_last() =~= s.take(i));
        assert(s.take(i + 1).last() == s[i]);
        let fi = spec_loose_keys(s.take(i), q);
        let fi1 = spec_loose_keys(s.take(i + 1), q);
        let m = spec_loose_keys(s, q);
        if spec_name_matches(s[i].0@, q) {
            assert(fi1 == fi.push(s[i].1));
            assert(m.take(fi1.len() as int) == fi1);
            assert(fi =~= fi1.take(fi.len() as int));
            assert(m.take(fi1.len() as int).take(fi.len() as int) =~= m.take(fi.len() as int));
            assert(fi == m.take(fi.len() as int));
        } else {
            assert(fi1 == fi);
        }
    }
}

impl NamedIndex {
    pub open spec fn wf(&self) -> bool {
        smap_unique(self@)
    }

    pub closed spec fn spec_settings(&self) -> (bool, Seq<char>, bool) {
        (
            self.post_process.case_sensitive,
            self.post_process.ignore_chars@,
            self.post_process.trim_whitespace,
        )
    }

    /// The normalised form of a name under this index's settings.
    pub open spec fn spec_post(&self, s: Seq<char>) -> Seq<char> {
        spec_post_process(
            self.spec_settings().0,
            self.spec_settings().1,
            self.spec_settings().2,
            s,
        )
    }

    pub fn new() -> (r: NamedIndex)
        ensures
            r.wf(),
            r@ == Seq::<(String, GenericKey)>::empty(),
            r.spec_settings() == (true, Seq::<char>::empty(), false),
    {
        NamedIndex { entries: Vec::new(), post_process: StringPostProcess::standard() }
    }

    /// Chooses whether names keep their case.
    pub fn case_sensitive(self, is_case_sensitive: bool) -> (r: NamedIndex)
        ensures
            r@ == self@,
            r.spec_settings() == (
                is_case_sensitive,
                self.spec_settings().1,
                self.spec_settings().2,
            ),
    {
        let mut out = self;
        out.post_process.case_sensitive = is_case_sensitive;
        out
    }

    /// Chooses characters to drop from names.
    pub fn ignore_chars(self, ignore: Vec<char>) -> (r: NamedIndex)
        ensures
            r@ == self@,
            r.spec_settings() == (self.spec_settings().0, ignore@, self.spec_settings().2),
    {
        let mut out = self;
        out.post_process.ignore_chars = ignore;
        out
    }

    /// Chooses whether surrounding whitespace is trimmed.
    pub fn trim_whitespace(self, is_trim_whitespace: bool) -> (r: NamedIndex)
        ensures
            r@ == self@,
            r.spec_settings() == (
                self.spec_settings().0,
                self.spec_settings().1,
                is_trim_whitespace,
            ),
    {
        let mut out = self;
        out.post_process.trim_whitespace = is_trim_whitespace;
        out
    }

    /// The key stored under a (normalised) name.
    pub fn get(&self, s: &str) -> (r: Option<GenericKey>)
        requires
            self.wf(),
        ensures
            r == smap_get(self@, self.spec_post(s@)),
    {
        let p = self.post_process.post_process(s);
        match smap_find(&self.entries, &p) {
            Some(i) => {
                proof {
                    lemma_smap_get_at(self@, i as int, p@);
                }
                Some(self.entries[i].1)
            },
            None => {
                proof {
                    lemma_smap_get_absent(self@, p@);
                }
                None
            },
        }
    }

    /// Mirrors one record mutation in the index. An insert refuses a
    /// duplicate name; an update finds the old name by reverse lookup and
    /// replaces it by the new one, refusing a duplicate; a removal drops
    /// the name. The index is untouched whenever an error is returned.
    pub fn apply(&mut self, key: GenericKey, name: &str, action: Action) -> (r: Result<
        (),
        IndexError,
    >)
        requires
            old(self).wf(),
        ensures
            final(self).wf(),
            final(self).spec_settings() == old(self).spec_settings(),
            r is Err ==> final(self)@ == old(self)@,
            ({
                let p = old(self).spec_post(name@);
                match action {
                    Action::Insert => {
                        &&& (r is Err <==> smap_has(old(self)@, p))
                        &&& r is Err ==> (r matches Err(IndexError::Duplicate(d)) && d@ == p)
                        &&& r is Ok ==> forall|n: Seq<char>|
                            #[trigger] smap_get(final(self)@, n) == if n == p {
                                Some(key)
                            } else {
                                smap_get(old(self)@, n)
                            }
                    },
                    Action::Update => match spec_rev_name(old(self)@, key) {
                        None => r matches Err(IndexError::Other(_)),
                        Some(old_name) => if old_name == p {
                            r is Ok && final(self)@ == old(self)@
                        } else if smap_has(old(self)@, p) {
                            r matches Err(IndexError::Duplicate(_))
                        } else {
                            r is Ok && forall|n: Seq<char>|
                                #[trigger] smap_get(final(self)@, n) == if n == old_name {
                                    None::<GenericKey>
                                } else if n == p {
                                    Some(key)
                                } else {
                                    smap_get(old(self)@, n)
                                }
                        },
                    },
                    Action::Remove => r is Ok && forall|n: Seq<char>|
                        #[trigger] smap_get(final(self)@, n) == if n == p {
                            None::<GenericKey>
                        } else {
                            smap_get(old(self)@, n)
                        },
                }
            }),
    {
        let p = self.post_process.post_process(name);
        match action {
            Action::Insert => {
                match smap_find(&self.entries, &p) {
                    Some(i) => {
                        proof {
                            lemma_smap_get_at(self@, i as int, p@);
                        }
                        Err(IndexError::Duplicate(p))
                    },
                    None => {
                        proof {
                            lemma_smap_get_absent(self@, p@);
                        }
                        let ghost pre = self@;
                        self.entries.push((p, key));
                        proof {
                            assert forall|n: Seq<char>|
                                #[trigger] smap_get(self@, n) == if n == old(self).spec_post(
                                    name@,
                                ) {
                                    Some(key)
                                } else {
                                    smap_get(pre, n)
                                } by {
                                lemma_smap_get_push(pre, self@[self@.len() - 1], n);
                            }
                            assert forall|x: int, y: int|
                                0 <= x < y < self@.len() implies #[trigger] self@[x].0@
                                != #[trigger] self@[y].0@ by {
                                if y < self@.len() - 1 {
                                    assert(pre[x].0@ != pre[y].0@);
                                }
                            }
                        }
                        Ok(())
                    },
                }
            },
            Action::Update => {
                let mut oi: usize = 0;
                let mut found = false;
                while oi < self.entries.len() && !found
                    invariant
                        old(self) == self,
                        old(self).wf(),
                        0 <= oi <= self@.len(),
                        !found ==> forall|j: int| 0 <= j < oi ==> self@[j].1 != key,
                        found ==> 0 < oi <= self@.len() && self@[oi - 1].1 == key && forall|
                            j: int,
                        | 0 <= j < oi - 1 ==> self@[j].1 != key,
                    decreases self@.len() - oi,
                {
                    if self.entries[oi].1 == key {
                        found = true;
                    }
                    oi = oi + 1;
                }
                if !found {
                    proof {
                        lemma_rev_name_absent(self@, key);
                    }
                    return Err(
                        IndexError::Other(String::from_str("old name not found")),
                    );
                }
                let oi = oi - 1;
                proof {
                    lemma_rev_name_at(self@, oi as int, key);
                }
                let old_name = self.entries[oi].0.clone();
                if old_name.eq(&p) {
                    return Ok(());
                }
                match smap_find(&self.entries, &p) {
                    Some(i) => {
                        proof {
                            lemma_smap_get_at(self@, i as int, p@);
                        }
                        Err(IndexError::Duplicate(p))
                    },
                    None => {
                        proof {
                            lemma_smap_get_absent(self@, p@);
                        }
                        let ghost pre = self@;
                        self.entries.remove(oi);
                        proof {
                            assert(self@ =~= pre.remove(oi as int));
                            assert forall|x: int, y: int|
                                0 <= x < y < self@.len() implies #[trigger] self@[x].0@
                                != #[trigger] self@[y].0@ by {
                                let xo: int = if x < oi {
                                    x
                                } else {
                                    x + 1
                                };
                                let yo: int = if y < oi {
                                    y
                                } else {
                                    y + 1
                                };
                                assert(self@[x] == pre[xo]);
                                assert(self@[y] == pre[yo]);
                                assert(pre[xo].0@ != pre[yo].0@);
                            }
                        }
                        let ghost mid = self@;
                        self.entries.push((p, key));
                        proof {
                            assert forall|x: int, y: int|
                                0 <= x < y < self@.len() implies #[trigger] self@[x].0@
                                != #[trigger] self@[y].0@ by {
                                if y < self@.len() - 1 {
                                    assert(mid[x].0@ != mid[y].0@);
                                } else {
                                    lemma_smap_get_remove(pre, oi as int, mid[x].0@);
                                    if mid[x].0@ == old(self).spec_post(name@) {
                                        lemma_smap_get_at_any(mid, x, mid[x].0@);
                                    }
                                }
                            }
                            assert forall|n: Seq<char>|
                                #[trigger] smap_get(self@, n) == if n == pre[oi as int].0@ {
                                    None::<GenericKey>
                                } else if n == old(self).spec_post(name@) {
                                    Some(key)
                                } else {
                                    smap_get(pre, n)
                                } by {
                                lemma_smap_get_push(mid, self@[self@.len() - 1], n);
                                lemma_smap_get_remove(pre, oi as int, n);
                            }
                        }
                        Ok(())
                    },
                }
            },
            Action::Remove => {
                match smap_find(&self.entries, &p) {
                    Some(i) => {
                        proof {
                            lemma_smap_get_at(self@, i as int, p@);
                        }
                        let ghost pre = self@;
                        self.entries.remove(i);
                        proof {
                            assert(self@ =~= pre.remove(i as int));
                            assert forall|x: int, y: int|
                                0 <= x < y < self@.len() implies #[trigger] self@[x].0@
                                != #[trigger] self@[y].0@ by {
                                let xo: int = if x < i {
                                    x
                                } else {
                                    x + 1
                                };
                                let yo: int = if y < i {
                                    y
                                } else {
                                    y + 1
                                };
                                assert(self@[x] == pre[xo]);
                                assert(self@[y] == pre[yo]);
                                assert(pre[xo].0@ != pre[yo].0@);
                            }
                            assert forall|n: Seq<char>|
                                #[trigger] smap_get(self@, n) == if n == old(self).spec_post(
                                    name@,
                                ) {
                                    None::<GenericKey>
                                } else {
                                    smap_get(pre, n)
                                } by {
                                lemma_smap_get_remove(pre, i as int, n);
                            }
                        }
                        Ok(())
                    },
                    None => {
                        proof {
                            lemma_smap_get_absent(self@, p@);
                        }
                        Ok(())
                    },
                }
            },
        }
    }


    /// Repopulates the index from extracted (key, name) pairs, as after a
    /// full walk of a tree. A duplicate normalised name refuses the
    /// rebuild and leaves the index as it was.
    pub fn rebuild(&mut self, pairs: &Vec<(GenericKey, String)>) -> (r: Result<(), IndexError>)
        requires
            old(self).wf(),
        ensures
            final(self).wf(),
            final(self).spec_settings() == old(self).spec_settings(),
            r is Err ==> final(self)@ == old(self)@,
            r is Ok <==> crate::index::spec_pairs_distinct(
                old(self).spec_settings().0,
                old(self).spec_settings().1,
                old(self).spec_settings().2,
                pairs@,
            ),
            r is Ok ==> forall|n: Seq<char>|
                #[trigger] smap_get(final(self)@, n) == crate::index::spec_pairs_lookup(
                    old(self).spec_settings().0,
                    old(self).spec_settings().1,
                    old(self).spec_settings().2,
                    pairs@,
                    n,
                ),
    {
        match crate::index::rebuild_entries(&self.post_process, pairs) {
            Ok(entries) => {
                self.entries = entries;
                Ok(())
            },
            Err(e) => Err(e),
        }
    }

    /// Looks up names similar to a query: the exact match first (if the
    /// normalised query is a stored name), then, in index order, every
    /// stored name that starts with or contains the query, until the
    /// result holds 20 entries.
    pub fn get_similar(&self, s: &str) -> (r: Vec<(GenericKey, Similarity)>)
        requires
            self.wf(),
        ensures
            r@ == spec_similar(self@, self.spec_post(s@)),
    {
        let p = self.post_process.post_process(s);
        let ghost q = self.spec_post(s@);
        let mut similar: Vec<(GenericKey, Similarity)> = Vec::new();
        let ghost exact_part = spec_exact_part(self@, q);
        match smap_find(&self.entries, &p) {
            Some(i) => {
                proof {
                    lemma_smap_get_at(self@, i as int, q);
                }
                similar.push((self.entries[i].1, Similarity::Exact));
            },
            None => {
                proof {
                    lemma_smap_get_absent(self@, q);
                }
            },
        }
        proof {
            assert(self@.take(0) =~= Seq::<(String, GenericKey)>::empty());
            assert(similar@ =~= exact_part + spec_loose_keys(self@.take(0), q).map_values(
                |k: GenericKey| (k, Similarity::Loose),
            ));
        }
        let mut j: usize = 0;
        while j < self.entries.len() && similar.len() < 20
            invariant
                self.wf(),
                p@ == q,
                q == self.spec_post(s@),
                exact_part == spec_exact_part(self@, q),
                0 <= j <= self@.len(),
                similar@.len() <= 20,
                similar@ == exact_part + spec_loose_keys(self@.take(j as int), q).map_values(
                    |k: GenericKey| (k, Similarity::Loose),
                ),
            decreases self@.len() - j,
        {
            proof {
                assert(self@.take(j as int + 1).drop_last() =~= self@.take(j as int));
                assert(self@.take(j as int + 1).last() == self@[j as int]);
            }
            let hit = starts_with_str(&self.entries[j].0, &p) || contains_str(
                &self.entries[j].0,
                &p,
            );
            if hit {
                let ghost pre = similar@;
                similar.push((self.entries[j].1, Similarity::Loose));
                proof {
                    assert(spec_loose_keys(self@.take(j as int + 1), q) == spec_loose_keys(
                        self@.take(j as int),
                        q,
                    ).push(self@[j as int].1));
                    assert(spec_loose_keys(self@.take(j as int + 1), q).map_values(
                        |k: GenericKey| (k, Similarity::Loose),
                    ) =~= spec_loose_keys(self@.take(j as int), q).map_values(
                        |k: GenericKey| (k, Similarity::Loose),
                    ).push((self@[j as int].1, Similarity::Loose)));
                    assert(similar@ =~= exact_part + spec_loose_keys(
                        self@.take(j as int + 1),
                        q,
                    ).map_values(|k: GenericKey| (k, Similarity::Loose)));
                }
            } else {
                proof {
                    assert(spec_loose_keys(self@.take(j as int + 1), q) == spec_loose_keys(
                        self@.take(j as int),
                        q,
                    ));
                }
            }
            j = j + 1;
        }
        proof {
            let m = spec_loose_keys(self@, q);
            let e = exact_part.len();
            let lim = 20 - e;
            lemma_loose_prefix(self@, q, j as int);
            if j == self@.len() {
                assert(self@.take(j as int) =~= self@);
                assert(m.len() <= lim);
                assert(m.take(m.len() as int) =~= m);
            } else {
                assert(similar@.len() == 20);
                let a = spec_loose_keys(self@.take(j as int), q).len();
                assert(a == lim);
                assert(spec_loose_keys(self@.take(j as int), q) == m.take(lim as int));
                if m.len() <= lim {
                    assert(m.take(lim as int) =~= m);
                }
            }
            assert(similar@ =~= spec_similar(self@, q));
        }
        similar
    }
}

/// A first index whose entry maps to the key determines the reverse
/// lookup.
proof fn lemma_rev_name_at(s: Seq<(String, GenericKey)>, i: int, key: GenericKey)
    requires
        0 <= i < s.len(),
        s[i].1 == key,
        forall|j: int| 0 <= j < i ==> s[j].1 != key,
    ensures
        spec_rev_name(s, key) == Some(s[i].0@),
    decreases s.len(),
{
    if i > 0 {
        lemma_rev_name_at(s.drop_first(), i - 1, key);
    }
}

/// With pairwise distinct names, the name the reverse lookup returns
/// still maps to the key.
pub proof fn lemma_rev_name_lookup(s: Seq<(String, GenericKey)>, key: GenericKey)
    requires
        smap_unique(s),
        spec_rev_name(s, key) is Some,
    ensures
        smap_get(s, spec_rev_name(s, key)->Some_0) == Some(key),
    decreases s.len(),
{
    if s.len() > 0 {
        if s[0].1 == key {
        } else {
            assert(smap_unique(s.drop_first())) by {
                assert forall|x: int, y: int|
                    0 <= x < y < s.drop_first().len() implies #[trigger] s.drop_first()[x].0@
                    != #[trigger] s.drop_first()[y].0@ by {
                    assert(s.drop_first()[x] == s[x + 1]);
                    assert(s.drop_first()[y] == s[y + 1]);
                }
            }
            lemma_rev_name_lookup(s.drop_first(), key);
            let o = spec_rev_name(s, key)->Some_0;
            if s[0].0@ == o {
                crate::alist::lemma_smap_get_witness(s.drop_first(), o);
                let w = choose|w: int|
                    0 <= w < s.drop_first().len() && s.drop_first()[w].0@ == o && smap_get(
                        s.drop_first(),
                        o,
                    ) == Some(s.drop_first()[w].1);
                assert(s[w + 1].0@ == s[0].0@);
            }
        }
    }
}

/// A key mapped by no entry has no reverse lookup.
proof fn lemma_rev_name_absent(s: Seq<(String, GenericKey)>, key: GenericKey)
    requires
        forall|j: int| 0 <= j < s.len() ==> s[j].1 != key,
    ensures
        spec_rev_name(s, key) is None,
    decreases s.len(),
{
    if s.len() > 0 {
        lemma_rev_name_absent(s.drop_first(), key);
    }
}

/// Any matching index of a unique-keyed sequence determines the lookup.
proof fn lemma_smap_get_at_any(s: Seq<(String, GenericKey)>, i: int, n: Seq<char>)
    requires
        smap_unique(s),
        0 <= i < s.len(),
        s[i].0@ == n,
    ensures
        smap_get(s, n) == Some(s[i].1),
{
    assert forall|j: int| 0 <= j < i implies s[j].0@ != n by {
        assert(s[j].0@ != s[i].0@);
    }
    lemma_smap_get_at(s, i, n);
}

} // verus!
