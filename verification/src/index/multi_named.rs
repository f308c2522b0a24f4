use crate::alist::lemma_smap_get_absent;
use crate::alist::lemma_smap_get_at;
use crate::alist::lemma_smap_get_push;
use crate::alist::smap_find;
use crate::alist::smap_get;
use crate::alist::smap_has;
use crate::alist::smap_unique;
use crate::index::spec_post_process;
use crate::index::Action;
use crate::index::IndexError;
use crate::index::StringPostProcess;
use crate::keys::GenericKey;
use vstd::prelude::*;

verus! {

/// An index that maps several unique (normalised) names to the same
/// record key.
#[derive(Clone, PartialEq, Eq, Debug)]
pub struct MultiNamedIndex {
    entries: Vec<(String, GenericKey)>,
    settings: StringPostProcess,
}

impl View for MultiNamedIndex {
    type V = Seq<(String, GenericKey)>;

    closed spec fn view(&self) -> Seq<(String, GenericKey)> {
        self.entries@
    }
}

impl MultiNamedIndex {
    pub open spec fn wf(&self) -> bool {
        smap_unique(self@)
    }

    pub closed spec fn spec_settings(&self) -> (bool, Seq<char>, bool) {
        (
            self.settings.case_sensitive,
            self.settings.ignore_chars@,
            self.settings.trim_whitespace,
        )
    }

    /// The normalised form of a name under this index's settings.
    pub open spec fn spec_post(&self, s: Seq<char>) -> Seq<char> {
        spec_post_process(
            self.spec_settings().0,
            self.spec_settings().1,
            self.spec_settings().2,
            s,
        )
    }

    /// Whether the normalised form of some listed name reads as `n`.
    pub open spec fn spec_names_contain(&self, names: Seq<String>, n: Seq<char>) -> bool {
        exists|i: int| 0 <= i < names.len() && self.spec_post((#[trigger] names[i])@) == n
    }

    pub fn new() -> (r: MultiNamedIndex)
        ensures
            r.wf(),
            r@ == Seq::<(String, GenericKey)>::empty(),
            r.spec_settings() == (true, Seq::<char>::empty(), false),
    {
        MultiNamedIndex { entries: Vec::new(), settings: StringPostProcess::standard() }
    }

    /// Chooses whether names keep their case.
    pub fn case_sensitive(self, is_case_sensitive: bool) -> (r: MultiNamedIndex)
        ensures
            r@ == self@,
            r.spec_settings() == (
                is_case_sensitive,
                self.spec_settings().1,
                self.spec_settings().2,
            ),
    {
        let mut out = self;
        out.settings.case_sensitive = is_case_sensitive;
        out
    }

    /// Chooses characters to drop from names.
    pub fn ignore_chars(self, ignore: Vec<char>) -> (r: MultiNamedIndex)
        ensures
            r@ == self@,
            r.spec_settings() == (self.spec_settings().0, ignore@, self.spec_settings().2),
    {
        let mut out = self;
        out.settings.ignore_chars = ignore;
        out
    }

    /// Chooses whether surrounding whitespace is trimmed.
    pub fn trim_whitespace(self, is_trim_whitespace: bool) -> (r: MultiNamedIndex)
        ensures
            r@ == self@,
            r.spec_settings() == (
                self.spec_settings().0,
                self.spec_settings().1,
                is_trim_whitespace,
            ),
    {
        let mut out = self;
        out.settings.trim_whitespace = is_trim_whitespace;
        out
    }

    /// The key stored under a (normalised) name.
    pub fn get(&self, s: &str) -> (r: Option<GenericKey>)
        requires
            self.wf(),
        ensures
            r == smap_get(self@, self.spec_post(s@)),
    {
        let p = self.settings.post_process(s);
        match smap_find(&self.entries, &p) {
            Some(i) => {
                proof {
                    lemma_smap_get_at(self@, i as int, p@);
                }
                Some(self.entries[i].1)
            },
            None => {
                proof {
                    lemma_smap_get_absent(self@, p@);
                }
                None
            },
        }
    }


    /// Repopulates the index from extracted (key, name) pairs, as after a
    /// full walk of a tree. A duplicate normalised name refuses the
    /// rebuild and leaves the index as it was.
    pub fn rebuild(&mut self, pairs: &Vec<(GenericKey, String)>) -> (r: Result<(), IndexError>)
        requires
            old(self).wf(),
        ensures
            final(self).wf(),
            final(self).spec_settings() == old(self).spec_settings(),
            r is Err ==> final(self)@ == old(self)@,
            r is Ok <==> crate::index::spec_pairs_distinct(
                old(self).spec_settings().0,
                old(self).spec_settings().1,
                old(self).spec_settings().2,
                pairs@,
            ),
            r is Ok ==> forall|n: Seq<char>|
                #[trigger] smap_get(final(self)@, n) == crate::index::spec_pairs_lookup(
                    old(self).spec_settings().0,
                    old(self).spec_settings().1,
                    old(self).spec_settings().2,
                    pairs@,
                    n,
                ),
    {
        match crate::index::rebuild_entries(&self.settings, pairs) {
            Ok(entries) => {
                self.entries = entries;
                Ok(())
            },
            Err(e) => Err(e),
        }
    }

    /// Mirrors one record mutation. An insert refuses any name already
    /// used; an update refuses a new name owned by another key, then
    /// replaces the key's whole name set; a removal drops every listed
    /// name. The index is untouched whenever an error is returned.
    pub fn apply(&mut self, key: GenericKey, names: &Vec<String>, action: Action) -> (r: Result<
        (),
        IndexError,
    >)
        requires
            old(self).wf(),
        ensures
            final(self).wf(),
            final(self).spec_settings() == old(self).spec_settings(),
            r is Err ==> final(self)@ == old(self)@,
            match action {
                Action::Insert => {
                    &&& (r is Err <==> exists|i: int|
                        0 <= i < names@.len() && smap_has(
                            old(self)@,
                            old(self).spec_post((#[trigger] names@[i])@),
                        ))
                    &&& r is Err ==> (r matches Err(IndexError::Duplicate(d)) && exists|i: int|
                        0 <= i < names@.len() && d@ == old(self).spec_post(
                            (#[trigger] names@[i])@,
                        ) && smap_has(old(self)@, d@))
                    &&& r is Ok ==> forall|n: Seq<char>|
                        #[trigger] smap_get(final(self)@, n) == if old(self).spec_names_contain(
                            names@,
                            n,
                        ) {
                            Some(key)
                        } else {
                            smap_get(old(self)@, n)
                        }
                },
                Action::Update => {
                    &&& (r is Err <==> exists|i: int|
                        0 <= i < names@.len() && (match smap_get(
                            old(self)@,
                            old(self).spec_post((#[trigger] names@[i])@),
                        ) {
                            Some(k2) => k2 != key,
                            None => false,
                        }))
                    &&& r is Err ==> (r matches Err(IndexError::Duplicate(d)) && exists|i: int|
                        0 <= i < names@.len() && d@ == old(self).spec_post(
                            (#[trigger] names@[i])@,
                        ) && (match smap_get(old(self)@, d@) {
                            Some(k2) => k2 != key,
                            None => false,
                        }))
                    &&& r is Ok ==> forall|n: Seq<char>|
                        #[trigger] smap_get(final(self)@, n) == if old(self).spec_names_contain(
                            names@,
                            n,
                        ) {
                            Some(key)
                        } else if smap_get(old(self)@, n) == Some(key) {
                            None::<GenericKey>
                        } else {
                            smap_get(old(self)@, n)
                        }
                },
                Action::Remove => r is Ok && forall|n: Seq<char>|
                    #[trigger] smap_get(final(self)@, n) == if old(self).spec_names_contain(
                        names@,
                        n,
                    ) {
                        None::<GenericKey>
                    } else {
                        smap_get(old(self)@, n)
                    },
            },
    {
        let ghost pre = self@;
        // Normalise every listed name first.
        let mut processed: Vec<String> = Vec::new();
        let mut i: usize = 0;
        while i < names.len()
            invariant
                old(self) == self,
                old(self).wf(),
                0 <= i <= names@.len(),
                processed@.len() == i,
                forall|j: int|
                    0 <= j < i ==> (#[trigger] processed@[j])@ == self.spec_post(names@[j]@),
            decreases names@.len() - i,
        {
            processed.push(self.settings.post_process(names[i].as_str()));
            i = i + 1;
        }
        match action {
            Action::Insert => {
                let mut i: usize = 0;
                while i < processed.len()
                    invariant
                        action is Insert,
                        old(self) == self,
                        old(self).wf(),
                        processed@.len() == names@.len(),
                        forall|j: int|
                            0 <= j < names@.len() ==> (#[trigger] processed@[j])@
                                == self.spec_post(names@[j]@),
                        0 <= i <= processed@.len(),
                        forall|j: int|
                            0 <= j < i ==> !smap_has(
                                self@,
                                self.spec_post((#[trigger] names@[j])@),
                            ),
                    decreases processed@.len() - i,
                {
                    match smap_find(&self.entries, &processed[i]) {
                        Some(w) => {
                            proof {
                                lemma_smap_get_at(self@, w as int, processed@[i as int]@);
                                assert(smap_has(
                                    old(self)@,
                                    old(self).spec_post(names@[i as int]@),
                                ));
                            }
                            return Err(IndexError::Duplicate(processed[i].clone()));
                        },
                        None => {
                            proof {
                                lemma_smap_get_absent(self@, processed@[i as int]@);
                            }
                        },
                    }
                    i = i + 1;
                }
                self.insert_all(key, &processed, Ghost(names@));
                Ok(())
            },
            Action::Update => {
                let mut i: usize = 0;
                while i < processed.len()
                    invariant
                        action is Update,
                        old(self) == self,
                        old(self).wf(),
                        processed@.len() == names@.len(),
                        forall|j: int|
                            0 <= j < names@.len() ==> (#[trigger] processed@[j])@
                                == self.spec_post(names@[j]@),
                        0 <= i <= processed@.len(),
                        forall|j: int|
                            0 <= j < i ==> (match smap_get(
                                self@,
                                self.spec_post((#[trigger] names@[j])@),
                            ) {
                                Some(k2) => k2 == key,
                                None => true,
                            }),
                    decreases processed@.len() - i,
                {
                    match smap_find(&self.entries, &processed[i]) {
                        Some(w) => {
                            proof {
                                lemma_smap_get_at(self@, w as int, processed@[i as int]@);
                            }
                            if !(self.entries[w].1 == key) {
                                proof {
                                    assert(smap_get(
                                        old(self)@,
                                        old(self).spec_post(names@[i as int]@),
                                    ) == Some(self@[w as int].1));
                                }
                                return Err(IndexError::Duplicate(processed[i].clone()));
                            }
                        },
                        None => {
                            proof {
                                lemma_smap_get_absent(self@, processed@[i as int]@);
                            }
                        },
                    }
                    i = i + 1;
                }
                self.drop_key(key);
                self.insert_all(key, &processed, Ghost(names@));
                Ok(())
            },
            Action::Remove => {
                let mut i: usize = 0;
                while i < processed.len()
                    invariant
                        action is Remove,
                        self.wf(),
                        self.spec_settings() == old(self).spec_settings(),
                        processed@.len() == names@.len(),
                        forall|j: int|
                            0 <= j < names@.len() ==> (#[trigger] processed@[j])@
                                == old(self).spec_post(names@[j]@),
                        0 <= i <= processed@.len(),
                        forall|n: Seq<char>|
                            #[trigger] smap_get(self@, n) == if spec_prefix_names_contain(
                                *old(self),
                                names@,
                                i as int,
                                n,
                            ) {
                                None::<GenericKey>
                            } else {
                                smap_get(old(self)@, n)
                            },
                    decreases processed@.len() - i,
                {
                    match smap_find(&self.entries, &processed[i]) {
                        Some(w) => {
                            proof {
                                lemma_smap_get_at(self@, w as int, processed@[i as int]@);
                            }
                            let ghost mid = self@;
                            self.entries.remove(w);
                            proof {
                                assert(self@ =~= mid.remove(w as int));
                                lemma_remove_keeps_unique(mid, w as int);
                                assert forall|n: Seq<char>|
                                    #[trigger] smap_get(self@, n) == if spec_prefix_names_contain(
                                        *old(self),
                                        names@,
                                        i as int + 1,
                                        n,
                                    ) {
                                        None::<GenericKey>
                                    } else {
                                        smap_get(old(self)@, n)
                                    } by {
                                    crate::alist::lemma_smap_get_remove(mid, w as int, n);
                                }
                            }
                        },
                        None => {
                            proof {
                                lemma_smap_get_absent(self@, processed@[i as int]@);
                                assert forall|n: Seq<char>|
                                    #[trigger] smap_get(self@, n) == if spec_prefix_names_contain(
                                        *old(self),
                                        names@,
                                        i as int + 1,
                                        n,
                                    ) {
                                        None::<GenericKey>
                                    } else {
                                        smap_get(old(self)@, n)
                                    } by {}
                            }
                        },
                    }
                    i = i + 1;
                }
                proof {
                    assert forall|n: Seq<char>|
                        #[trigger] smap_get(self@, n) == if old(self).spec_names_contain(
                            names@,
                            n,
                        ) {
                            None::<GenericKey>
                        } else {
                            smap_get(old(self)@, n)
                        } by {}
                }
                Ok(())
            },
        }
    }

    /// Removes every entry mapping to a key.
    fn drop_key(&mut self, key: GenericKey)
        requires
            old(self).wf(),
        ensures
            final(self).wf(),
            final(self).spec_settings() == old(self).spec_settings(),
            forall|n: Seq<char>|
                #[trigger] smap_get(final(self)@, n) == if smap_get(old(self)@, n) == Some(key) {
                    None::<GenericKey>
                } else {
                    smap_get(old(self)@, n)
                },
    {
        let mut out: Vec<(String, GenericKey)> = Vec::new();
        let mut i: usize = 0;
        proof {
            assert(self@.take(0) =~= Seq::<(String, GenericKey)>::empty());
        }
        while i < self.entries.len()
            invariant
                old(self) == self,
                old(self).wf(),
                0 <= i <= self@.len(),
                smap_unique(out@),
                forall|n: Seq<char>|
                    #[trigger] smap_get(out@, n) == (if smap_get(self@.take(i as int), n) == Some(
                        key,
                    ) {
                        None::<GenericKey>
                    } else {
                        smap_get(self@.take(i as int), n)
                    }),
                forall|n: Seq<char>|
                    #[trigger] smap_has(out@, n) ==> smap_has(self@.take(i as int), n),
            decreases self@.len() - i,
        {
            proof {
                assert(self@.take(i as int + 1).drop_last() =~= self@.take(i as int));
                assert(self@.take(i as int + 1).last() == self@[i as int]);
                lemma_smap_take_push(self@, i as int);
            }
            let keep = !(self.entries[i].1 == key);
            if keep {
                let ghost pre_out = out@;
                out.push((self.entries[i].0.clone(), self.entries[i].1));
                proof {
                    assert(self@[i as int].0@ == out@[out@.len() - 1].0@);
                    assert forall|n: Seq<char>|
                        #[trigger] smap_get(out@, n) == (if smap_get(
                            self@.take(i as int + 1),
                            n,
                        ) == Some(key) {
                            None::<GenericKey>
                        } else {
                            smap_get(self@.take(i as int + 1), n)
                        }) by {
                        lemma_smap_get_push(pre_out, out@[out@.len() - 1], n);
                        lemma_smap_get_push(self@.take(i as int), self@[i as int], n);
                        lemma_smap_take_absent(self@, i as int);
                    }
                    assert forall|n: Seq<char>|
                        #[trigger] smap_has(out@, n) implies smap_has(
                        self@.take(i as int + 1),
                        n,
                    ) by {
                        lemma_smap_get_push(pre_out, out@[out@.len() - 1], n);
                        lemma_smap_get_push(self@.take(i as int), self@[i as int], n);
                    }
                    assert forall|x: int, y: int|
                        0 <= x < y < out@.len() implies #[trigger] out@[x].0@
                        != #[trigger] out@[y].0@ by {
                        if y == out@.len() - 1 {
                            assert(smap_has(pre_out, out@[x].0@)) by {
                                lemma_smap_get_at_first(pre_out, x);
                            }
                            assert(smap_has(self@.take(i as int), out@[x].0@));
                            lemma_smap_take_absent(self@, i as int);
                        } else {
                            assert(pre_out[x].0@ != pre_out[y].0@);
                        }
                    }
                }
            } else {
                proof {
                    assert forall|n: Seq<char>|
                        #[trigger] smap_get(out@, n) == (if smap_get(
                            self@.take(i as int + 1),
                            n,
                        ) == Some(key) {
                            None::<GenericKey>
                        } else {
                            smap_get(self@.take(i as int + 1), n)
                        }) by {
                        lemma_smap_get_push(self@.take(i as int), self@[i as int], n);
                        assert(smap_get(out@, n) == (if smap_get(self@.take(i as int), n)
                            == Some(key) {
                            None::<GenericKey>
                        } else {
                            smap_get(self@.take(i as int), n)
                        }));
                        if !smap_has(self@.take(i as int), n) && self@[i as int].0@ == n {
                            assert(smap_get(self@.take(i as int + 1), n) == Some(
                                self@[i as int].1,
                            ));
                            assert(self@[i as int].1 == key);
                        }
                    }
                    assert forall|n: Seq<char>|
                        #[trigger] smap_has(out@, n) implies smap_has(
                        self@.take(i as int + 1),
                        n,
                    ) by {
                        lemma_smap_get_push(self@.take(i as int), self@[i as int], n);
                    }
                }
            }
            i = i + 1;
        }
        proof {
            assert(self@.take(self@.len() as int) =~= self@);
        }
        self.entries = out;
    }

    /// Inserts every processed name for a key, skipping names already
    /// present (which, after validation, already map to this key).
    fn insert_all(&mut self, key: GenericKey, processed: &Vec<String>, names: Ghost<Seq<String>>)
        requires
            old(self).wf(),
            processed@.len() == names@.len(),
            forall|j: int|
                0 <= j < names@.len() ==> (#[trigger] processed@[j])@ == old(self).spec_post(
                    names@[j]@,
                ),
            forall|j: int|
                0 <= j < names@.len() ==> (match smap_get(
                    old(self)@,
                    old(self).spec_post((#[trigger] names@[j])@),
                ) {
                    Some(k2) => k2 == key,
                    None => true,
                }),
        ensures
            final(self).wf(),
            final(self).spec_settings() == old(self).spec_settings(),
            forall|n: Seq<char>|
                #[trigger] smap_get(final(self)@, n) == if old(self).spec_names_contain(
                    names@,
                    n,
                ) {
                    Some(key)
                } else {
                    smap_get(old(self)@, n)
                },
    {
        let mut i: usize = 0;
        while i < processed.len()
            invariant
                old(self).wf(),
                self.wf(),
                self.spec_settings() == old(self).spec_settings(),
                processed@.len() == names@.len(),
                forall|j: int|
                    0 <= j < names@.len() ==> (#[trigger] processed@[j])@ == old(
                        self,
                    ).spec_post(names@[j]@),
                forall|j: int|
                    0 <= j < names@.len() ==> (match smap_get(
                        old(self)@,
                        old(self).spec_post((#[trigger] names@[j])@),
                    ) {
                        Some(k2) => k2 == key,
                        None => true,
                    }),
                0 <= i <= processed@.len(),
                forall|n: Seq<char>|
                    #[trigger] smap_get(self@, n) == if spec_prefix_names_contain(
                        *old(self),
                        names@,
                        i as int,
                        n,
                    ) {
                        Some(key)
                    } else {
                        smap_get(old(self)@, n)
                    },
            decreases processed@.len() - i,
        {
            match smap_find(&self.entries, &processed[i]) {
                Some(w) => {
                    proof {
                        lemma_smap_get_at(self@, w as int, processed@[i as int]@);
                        assert forall|n: Seq<char>|
                            #[trigger] smap_get(self@, n) == if spec_prefix_names_contain(
                                *old(self),
                                names@,
                                i as int + 1,
                                n,
                            ) {
                                Some(key)
                            } else {
                                smap_get(old(self)@, n)
                            } by {}
                    }
                },
                None => {
                    proof {
                        lemma_smap_get_absent(self@, processed@[i as int]@);
                    }
                    let ghost mid = self@;
                    self.entries.push((processed[i].clone(), key));
                    proof {
                        assert(self@[self@.len() - 1].0@ == processed@[i as int]@);
                        assert forall|n: Seq<char>|
                            #[trigger] smap_get(self@, n) == if spec_prefix_names_contain(
                                *old(self),
                                names@,
                                i as int + 1,
                                n,
                            ) {
                                Some(key)
                            } else {
                                smap_get(old(self)@, n)
                            } by {
                            lemma_smap_get_push(mid, self@[self@.len() - 1], n);
                        }
                        assert forall|x: int, y: int|
                            0 <= x < y < self@.len() implies #[trigger] self@[x].0@
                            != #[trigger] self@[y].0@ by {
                            if y == self@.len() - 1 {
                                if self@[x].0@ == self@[y].0@ {
                                    lemma_smap_get_at_first(mid, x);
                                }
                            } else {
                                assert(mid[x].0@ != mid[y].0@);
                            }
                        }
                    }
                },
            }
            i = i + 1;
        }
        proof {
            assert forall|n: Seq<char>|
                #[trigger] smap_get(self@, n) == if old(self).spec_names_contain(names@, n) {
                    Some(key)
                } else {
                    smap_get(old(self)@, n)
                } by {}
        }
    }
}

/// Whether the normalised form of one of the first `i` names reads as
/// `n`.
pub open spec fn spec_prefix_names_contain(
    idx: MultiNamedIndex,
    names: Seq<String>,
    i: int,
    n: Seq<char>,
) -> bool {
    exists|j: int| 0 <= j < i && j < names.len() && idx.spec_post((#[trigger] names[j])@) == n
}

/// Removing an entry keeps the names pairwise distinct.
proof fn lemma_remove_keeps_unique(s: Seq<(String, GenericKey)>, i: int)
    requires
        smap_unique(s),
        0 <= i < s.len(),
    ensures
        smap_unique(s.remove(i)),
{
    assert forall|x: int, y: int|
        0 <= x < y < s.remove(i).len() implies #[trigger] s.remove(i)[x].0@
        != #[trigger] s.remove(i)[y].0@ by {
        let xo: int = if x < i {
            x
        } else {
            x + 1
        };
        let yo: int = if y < i {
            y
        } else {
            y + 1
        };
        assert(s.remove(i)[x] == s[xo]);
        assert(s.remove(i)[y] == s[yo]);
        assert(s[xo].0@ != s[yo].0@);
    }
}

/// An entry at any index gives a successful lookup.
proof fn lemma_smap_get_at_first(s: Seq<(String, GenericKey)>, x: int)
    requires
        0 <= x < s.len(),
    ensures
        smap_has(s, s[x].0@),
    decreases s.len(),
{
    if x > 0 && s[0].0@ != s[x].0@ {
        lemma_smap_get_at_first(s.drop_first(), x - 1);
    }
}

/// With pairwise distinct names, a name cannot recur before its own
/// position.
proof fn lemma_smap_take_absent(s: Seq<(String, GenericKey)>, i: int)
    requires
        smap_unique(s),
        0 <= i < s.len(),
    ensures
        !smap_has(s.take(i), s[i].0@),
{
    if smap_has(s.take(i), s[i].0@) {
        crate::alist::lemma_smap_get_witness(s.take(i), s[i].0@);
        let w = choose|w: int|
            0 <= w < s.take(i).len() && s.take(i)[w].0@ == s[i].0@ && smap_get(
                s.take(i),
                s[i].0@,
            ) == Some(s.take(i)[w].1);
        assert(s[w].0@ == s[i].0@);
    }
}

/// Helper: pushing the cut element relates take(i) and take(i+1).
proof fn lemma_smap_take_push(s: Seq<(String, GenericKey)>, i: int)
    requires
        0 <= i < s.len(),
    ensures
        s.take(i + 1) == s.take(i).push(s[i]),
{
    assert(s.take(i + 1) =~= s.take(i).push(s[i]));
}

} // verus!
