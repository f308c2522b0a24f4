use crate::text::lower_of;
use crate::text::remove_chars;
use crate::text::spec_keep;
use crate::text::spec_trim;
use crate::text::to_lowercase_str;
use crate::text::trim_str;
use vstd::prelude::*;

pub mod multi_named;
pub mod named;

verus! {

/// The mutation an index is asked to mirror.
#[derive(Clone, Copy, PartialEq, Eq, Structural, Debug)]
pub enum Action {
    Insert,
    Update,
    Remove,
}

/// How close a search hit is to the query.
#[derive(Clone, Copy, PartialEq, Eq, Structural, Debug)]
pub enum Similarity {
    Exact,
    Loose,
}

/// One search result: the key it points at, the indexed name, and a
/// description for display.
#[derive(Clone, PartialEq, Eq, Debug)]
pub struct SearchHit<K> {
    pub key: K,
    pub name: String,
    pub description: String,
    pub similarity: Similarity,
}

/// Why an index refused an operation.
#[derive(Clone, PartialEq, Eq, Debug)]
pub enum IndexError {
    /// A duplicate name in an index that requires unique names.
    Duplicate(String),
    /// The shared index storage was unavailable.
    RwLock,
    Other(String),
}

/// How an extracted name is normalised before it enters an index:
/// optional case folding, optional whitespace trimming, and removal of an
/// ignore set of characters.
#[derive(Clone, PartialEq, Eq, Debug)]
pub struct StringPostProcess {
    pub case_sensitive: bool,
    pub ignore_chars: Vec<char>,
    pub trim_whitespace: bool,
}

/// The normalised form of a name under the given settings.
pub open spec fn spec_post_process(
    case_sensitive: bool,
    ignore: Seq<char>,
    trim: bool,
    s: Seq<char>,
) -> Seq<char> {
    let a = if case_sensitive {
        s
    } else {
        lower_of(s)
    };
    let b = if trim {
        spec_trim(a)
    } else {
        a
    };
    spec_keep(ignore, b)
}

impl StringPostProcess {
    /// The default settings: case kept, nothing ignored, no trimming.
    pub fn standard() -> (r: StringPostProcess)
        ensures
            r.case_sensitive,
            r.ignore_chars@ == Seq::<char>::empty(),
            !r.trim_whitespace,
    {
        StringPostProcess { case_sensitive: true, ignore_chars: Vec::new(), trim_whitespace: false }
    }

    /// Normalises one name.
    pub fn post_process(&self, s: &str) -> (r: String)
        ensures
            r@ == spec_post_process(
                self.case_sensitive,
                self.ignore_chars@,
                self.trim_whitespace,
                s@,
            ),
    {
        let a: String = if self.case_sensitive {
            s.to_owned()
        } else {
            to_lowercase_str(s)
        };
        let b: String = if self.trim_whitespace {
            trim_str(&a)
        } else {
            a
        };
        remove_chars(&b, &self.ignore_chars)
    }
}


/// The key of the first listed pair whose normalised name reads as `n`.
pub open spec fn spec_pairs_lookup(
    case_sensitive: bool,
    ignore: Seq<char>,
    trim: bool,
    pairs: Seq<(crate::keys::GenericKey, String)>,
    n: Seq<char>,
) -> Option<crate::keys::GenericKey>
    decreases pairs.len(),
{
    if pairs.len() == 0 {
        None
    } else if spec_post_process(case_sensitive, ignore, trim, pairs[0].1@) == n {
        Some(pairs[0].0)
    } else {
        spec_pairs_lookup(case_sensitive, ignore, trim, pairs.drop_first(), n)
    }
}

/// Whether the normalised names of the listed pairs are pairwise
/// distinct.
pub open spec fn spec_pairs_distinct(
    case_sensitive: bool,
    ignore: Seq<char>,
    trim: bool,
    pairs: Seq<(crate::keys::GenericKey, String)>,
) -> bool {
    forall|i: int, j: int|
        0 <= i < j < pairs.len() ==> spec_post_process(
            case_sensitive,
            ignore,
            trim,
            (#[trigger] pairs[i]).1@,
        ) != spec_post_process(case_sensitive, ignore, trim, (#[trigger] pairs[j]).1@)
}

/// Appending a pair only affects the lookup of a name that was absent.
proof fn lemma_pairs_lookup_push(
    case_sensitive: bool,
    ignore: Seq<char>,
    trim: bool,
    pairs: Seq<(crate::keys::GenericKey, String)>,
    p: (crate::keys::GenericKey, String),
    n: Seq<char>,
)
    ensures
        spec_pairs_lookup(case_sensitive, ignore, trim, pairs.push(p), n) == if spec_pairs_lookup(
            case_sensitive,
            ignore,
            trim,
            pairs,
            n,
        ) is Some {
            spec_pairs_lookup(case_sensitive, ignore, trim, pairs, n)
        } else if spec_post_process(case_sensitive, ignore, trim, p.1@) == n {
            Some(p.0)
        } else {
            None
        },
    decreases pairs.len(),
{
    if pairs.len() == 0 {
        assert(pairs.push(p).len() == 1);
        assert(pairs.push(p)[0] == p);
        assert(pairs.push(p).drop_first() =~= Seq::<(crate::keys::GenericKey, String)>::empty());
    } else {
        assert(pairs.push(p).drop_first() =~= pairs.drop_first().push(p));
        lemma_pairs_lookup_push(case_sensitive, ignore, trim, pairs.drop_first(), p, n);
        assert(pairs.push(p)[0] == pairs[0]);
    }
}

/// Builds index entries anew from extracted (key, name) pairs: the map of
/// the normalised names to their keys, refusing any duplicate name.
pub(crate) fn rebuild_entries(
    pp: &StringPostProcess,
    pairs: &Vec<(crate::keys::GenericKey, String)>,
) -> (r: Result<Vec<(String, crate::keys::GenericKey)>, IndexError>)
    ensures
        ({
            let cs = pp.case_sensitive;
            let ig = pp.ignore_chars@;
            let tr = pp.trim_whitespace;
            match r {
                Ok(v) => {
                    &&& crate::alist::smap_unique(v@)
                    &&& spec_pairs_distinct(cs, ig, tr, pairs@)
                    &&& forall|n: Seq<char>|
                        #[trigger] crate::alist::smap_get(v@, n) == spec_pairs_lookup(
                            cs,
                            ig,
                            tr,
                            pairs@,
                            n,
                        )
                },
                Err(_) => !spec_pairs_distinct(cs, ig, tr, pairs@),
            }
        }),
{
    let ghost cs = pp.case_sensitive;
    let ghost ig = pp.ignore_chars@;
    let ghost tr = pp.trim_whitespace;
    let mut out: Vec<(String, crate::keys::GenericKey)> = Vec::new();
    let mut i: usize = 0;
    proof {
        assert(pairs@.take(0) =~= Seq::<(crate::keys::GenericKey, String)>::empty());
    }
    while i < pairs.len()
        invariant
            cs == pp.case_sensitive,
            ig == pp.ignore_chars@,
            tr == pp.trim_whitespace,
            0 <= i <= pairs@.len(),
            crate::alist::smap_unique(out@),
            forall|n: Seq<char>|
                #[trigger] crate::alist::smap_get(out@, n) == spec_pairs_lookup(
                    cs,
                    ig,
                    tr,
                    pairs@.take(i as int),
                    n,
                ),
            spec_pairs_distinct(cs, ig, tr, pairs@.take(i as int)),
        decreases pairs@.len() - i,
    {
        proof {
            assert(pairs@.take(i as int + 1) =~= pairs@.take(i as int).push(pairs@[i as int]));
        }
        let p = pp.post_process(pairs[i].1.as_str());
        match crate::alist::smap_find(&out, &p) {
            Some(w) => {
                proof {
                    crate::alist::lemma_smap_get_at(out@, w as int, p@);
                    crate::alist::lemma_smap_get_witness(out@, p@);
                    let x = choose|x: int|
                        0 <= x < out@.len() && out@[x].0@ == p@ && crate::alist::smap_get(
                            out@,
                            p@,
                        ) == Some(out@[x].1);
                    assert(spec_pairs_lookup(cs, ig, tr, pairs@.take(i as int), p@) is Some);
                    lemma_pairs_lookup_some_witness(cs, ig, tr, pairs@.take(i as int), p@);
                    let y = choose|y: int|
                        0 <= y < pairs@.take(i as int).len() && spec_post_process(
                            cs,
                            ig,
                            tr,
                            (#[trigger] pairs@.take(i as int)[y]).1@,
                        ) == p@;
                    assert(pairs@[y] == pairs@.take(i as int)[y]);
                    assert(!spec_pairs_distinct(cs, ig, tr, pairs@));
                }
                return Err(IndexError::Duplicate(p));
            },
            None => {
                proof {
                    crate::alist::lemma_smap_get_absent(out@, p@);
                }
                let ghost pre_out = out@;
                out.push((p, pairs[i].0));
                proof {
                    assert(out@[out@.len() - 1].0@ == spec_post_process(
                        cs,
                        ig,
                        tr,
                        pairs@[i as int].1@,
                    ));
                    assert forall|n: Seq<char>|
                        #[trigger] crate::alist::smap_get(out@, n) == spec_pairs_lookup(
                        cs,
                        ig,
                        tr,
                        pairs@.take(i as int + 1),
                        n,
                    ) by {
                        crate::alist::lemma_smap_get_push(pre_out, out@[out@.len() - 1], n);
                        lemma_pairs_lookup_push(
                            cs,
                            ig,
                            tr,
                            pairs@.take(i as int),
                            pairs@[i as int],
                            n,
                        );
                    }
                    assert forall|x: int, y: int|
                        0 <= x < y < out@.len() implies #[trigger] out@[x].0@
                        != #[trigger] out@[y].0@ by {
                        if y < out@.len() - 1 {
                            assert(pre_out[x].0@ != pre_out[y].0@);
                        }
                    }
                    assert forall|x: int, y: int|
                        0 <= x < y < pairs@.take(i as int + 1).len() implies spec_post_process(
                        cs,
                        ig,
                        tr,
                        (#[trigger] pairs@.take(i as int + 1)[x]).1@,
                    ) != spec_post_process(
                        cs,
                        ig,
                        tr,
                        (#[trigger] pairs@.take(i as int + 1)[y]).1@,
                    ) by {
                        if y < i {
                            assert(pairs@.take(i as int)[x] == pairs@.take(i as int + 1)[x]);
                            assert(pairs@.take(i as int)[y] == pairs@.take(i as int + 1)[y]);
                        } else {
                            assert(pairs@.take(i as int + 1)[y] == pairs@[i as int]);
                            assert(pairs@.take(i as int + 1)[x] == pairs@.take(i as int)[x]);
                            if spec_post_process(cs, ig, tr, pairs@.take(i as int)[x].1@)
                                == spec_post_process(cs, ig, tr, pairs@[i as int].1@) {
                                lemma_pairs_lookup_at(
                                    cs,
                                    ig,
                                    tr,
                                    pairs@.take(i as int),
                                    x,
                                );
                            }
                        }
                    }
                }
            },
        }
        i = i + 1;
    }
    proof {
        assert(pairs@.take(pairs@.len() as int) =~= pairs@);
    }
    Ok(out)
}

/// A successful lookup has a witness pair.
proof fn lemma_pairs_lookup_some_witness(
    case_sensitive: bool,
    ignore: Seq<char>,
    trim: bool,
    pairs: Seq<(crate::keys::GenericKey, String)>,
    n: Seq<char>,
)
    requires
        spec_pairs_lookup(case_sensitive, ignore, trim, pairs, n) is Some,
    ensures
        exists|y: int|
            0 <= y < pairs.len() && spec_post_process(
                case_sensitive,
                ignore,
                trim,
                (#[trigger] pairs[y]).1@,
            ) == n,
    decreases pairs.len(),
{
    if pairs.len() > 0 && spec_post_process(case_sensitive, ignore, trim, pairs[0].1@) != n {
        lemma_pairs_lookup_some_witness(case_sensitive, ignore, trim, pairs.drop_first(), n);
        let y = choose|y: int|
            0 <= y < pairs.drop_first().len() && spec_post_process(
                case_sensitive,
                ignore,
                trim,
                (#[trigger] pairs.drop_first()[y]).1@,
            ) == n;
        assert(pairs[y + 1] == pairs.drop_first()[y]);
        assert(spec_post_process(case_sensitive, ignore, trim, (pairs[y + 1]).1@) == n);
    }
}

/// A pair whose normalised name matches makes the lookup succeed.
proof fn lemma_pairs_lookup_at(
    case_sensitive: bool,
    ignore: Seq<char>,
    trim: bool,
    pairs: Seq<(crate::keys::GenericKey, String)>,
    x: int,
)
    requires
        0 <= x < pairs.len(),
    ensures
        spec_pairs_lookup(
            case_sensitive,
            ignore,
            trim,
            pairs,
            spec_post_process(case_sensitive, ignore, trim, pairs[x].1@),
        ) is Some,
    decreases pairs.len(),
{
    if pairs.len() > 0 {
        if spec_post_process(case_sensitive, ignore, trim, pairs[0].1@) != spec_post_process(
            case_sensitive,
            ignore,
            trim,
            pairs[x].1@,
        ) {
            lemma_pairs_lookup_at(case_sensitive, ignore, trim, pairs.drop_first(), x - 1);
            assert(pairs.drop_first()[x - 1] == pairs[x]);
        }
    }
}

} // verus!
