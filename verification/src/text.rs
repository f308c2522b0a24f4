use vstd::prelude::*;
use vstd::string::StrSliceExecFns;
use vstd::string::StringExecFns;

verus! {

/// The case-folded form of a character sequence, as `str::to_lowercase`
/// computes it. Named rather than spelled out: the Unicode folding tables
/// take pages, and the result depends on the characters alone.
pub uninterp spec fn lower_of(s: Seq<char>) -> Seq<char>;

/// Whether a character counts as whitespace, as `char::is_whitespace`
/// decides it by the Unicode property.
pub uninterp spec fn white_of(c: char) -> bool;

/// Relies on `str::to_lowercase`: the Unicode-lowercased string, a
/// function of the characters alone; an empty string stays empty.
#[verifier::external_body]
pub fn to_lowercase_str(s: &str) -> (r: String)
    ensures
        r@ == lower_of(s@),
        s@.len() == 0 ==> r@.len() == 0,
{
    s.to_lowercase()
}

/// Relies on `char::is_whitespace`: the Unicode whitespace property of
/// one character.
#[verifier::external_body]
pub fn char_is_whitespace(c: char) -> (r: bool)
    ensures
        r == white_of(c),
{
    c.is_whitespace()
}

/// The sequence with leading whitespace removed.
pub open spec fn spec_trim_start(s: Seq<char>) -> Seq<char>
    decreases s.len(),
{
    if s.len() > 0 && white_of(s[0]) {
        spec_trim_start(s.drop_first())
    } else {
        s
    }
}

/// The sequence with trailing whitespace removed.
pub open spec fn spec_trim_end(s: Seq<char>) -> Seq<char>
    decreases s.len(),
{
    if s.len() > 0 && white_of(s.last()) {
        spec_trim_end(s.drop_last())
    } else {
        s
    }
}

/// The sequence with whitespace removed at both ends.
pub open spec fn spec_trim(s: Seq<char>) -> Seq<char> {
    spec_trim_end(spec_trim_start(s))
}

proof fn lemma_trim_start_skip(s: Seq<char>, i: int)
    requires
        0 <= i <= s.len(),
        forall|j: int| 0 <= j < i ==> white_of(s[j]),
    ensures
        spec_trim_start(s) == spec_trim_start(s.skip(i)),
    decreases i,
{
    if i > 0 {
        assert(white_of(s[0]));
        assert(s.drop_first() =~= s.skip(1));
        assert forall|j: int| 0 <= j < i - 1 implies white_of(s.skip(1)[j]) by {
            assert(s.skip(1)[j] == s[j + 1]);
        }
        lemma_trim_start_skip(s.skip(1), i - 1);
        assert(s.skip(1).skip(i - 1) =~= s.skip(i));
    } else {
        assert(s.skip(0) =~= s);
    }
}

proof fn lemma_trim_end_take(s: Seq<char>, j: int)
    requires
        0 <= j <= s.len(),
        forall|x: int| j <= x < s.len() ==> white_of(s[x]),
    ensures
        spec_trim_end(s) == spec_trim_end(s.take(j)),
    decreases s.len() - j,
{
    if j < s.len() {
        assert(white_of(s.last()));
        assert(s.drop_last() =~= s.take(s.len() - 1));
        lemma_trim_end_take(s.take(s.len() - 1), j);
        assert(s.take(s.len() - 1).take(j) =~= s.take(j));
    } else {
        assert(s.take(s.len() as int) =~= s);
    }
}

/// Removes whitespace from both ends of a string.
pub fn trim_str(s: &String) -> (r: String)
    ensures
        r@ == spec_trim(s@),
{
    let n = s.as_str().unicode_len();
    let mut start: usize = 0;
    while start < n && char_is_whitespace(s.as_str().get_char(start))
        invariant
            n == s@.len(),
            0 <= start <= n,
            forall|j: int| 0 <= j < start ==> white_of(s@[j]),
        decreases n - start,
    {
        start = start + 1;
    }
    proof {
        lemma_trim_start_skip(s@, start as int);
        assert(spec_trim_start(s@.skip(start as int)) == s@.skip(start as int));
    }
    let mut end: usize = n;
    while end > start && char_is_whitespace(s.as_str().get_char(end - 1))
        invariant
            n == s@.len(),
            0 <= start <= end <= n,
            forall|x: int| end <= x < n ==> white_of(s@[x]),
        decreases end,
    {
        end = end - 1;
    }
    let piece = s.as_str().substring_char(start, end);
    proof {
        let u = s@.skip(start as int);
        assert forall|x: int| end - start <= x < u.len() implies white_of(u[x]) by {
            assert(u[x] == s@[x + start]);
        }
        lemma_trim_end_take(u, end - start);
        let v = u.take(end - start);
        if end > start {
            assert(!white_of(s@[end - 1]));
            assert(v.last() == s@[end - 1]);
            assert(spec_trim_end(v) == v);
        } else {
            assert(v =~= Seq::<char>::empty());
        }
        assert(piece@ =~= v);
    }
    piece.to_owned()
}

/// The characters of `s` that are not listed in `ignore`, in order.
pub open spec fn spec_keep(ignore: Seq<char>, s: Seq<char>) -> Seq<char>
    decreases s.len(),
{
    if s.len() == 0 {
        Seq::<char>::empty()
    } else {
        let rest = spec_keep(ignore, s.drop_last());
        if ignore.contains(s.last()) {
            rest
        } else {
            rest.push(s.last())
        }
    }
}

/// Whether a character occurs in a list.
pub fn char_in(list: &Vec<char>, c: char) -> (r: bool)
    ensures
        r == list@.contains(c),
{
    let mut i: usize = 0;
    while i < list.len()
        invariant
            0 <= i <= list@.len(),
            forall|j: int| 0 <= j < i ==> list@[j] != c,
        decreases list@.len() - i,
    {
        if list[i] == c {
            return true;
        }
        i = i + 1;
    }
    false
}

/// Removes every listed character from a string.
pub fn remove_chars(s: &String, ignore: &Vec<char>) -> (r: String)
    ensures
        r@ == spec_keep(ignore@, s@),
{
    let n = s.as_str().unicode_len();
    let mut out = String::new();
    let mut i: usize = 0;
    proof {
        assert(s@.take(0) =~= Seq::<char>::empty());
    }
    while i < n
        invariant
            n == s@.len(),
            0 <= i <= n,
            out@ == spec_keep(ignore@, s@.take(i as int)),
        decreases n - i,
    {
        proof {
            assert(s@.take(i as int + 1).drop_last() =~= s@.take(i as int));
            assert(s@.take(i as int + 1).last() == s@[i as int]);
        }
        let c = s.as_str().get_char(i);
        if !char_in(ignore, c) {
            let piece = s.as_str().substring_char(i, i + 1);
            proof {
                assert(piece@ =~= seq![s@[i as int]]);
            }
            out.append(piece);
            proof {
                assert(out@ =~= spec_keep(ignore@, s@.take(i as int)).push(s@[i as int]));
            }
        }
        i = i + 1;
    }
    proof {
        assert(s@.take(n as int) =~= s@);
    }
    out
}

/// Whether `p` is a prefix of `s`.
pub open spec fn spec_is_prefix(s: Seq<char>, p: Seq<char>) -> bool {
    p.len() <= s.len() && s.subrange(0, p.len() as int) == p
}

/// Whether `sub` occurs somewhere inside `s`.
pub open spec fn spec_has_substring(s: Seq<char>, sub: Seq<char>) -> bool {
    exists|off: int|
        0 <= off <= s.len() - sub.len() && #[trigger] s.subrange(off, off + sub.len() as int)
            == sub
}

/// Whether the characters of `sub` stand at offset `off` of `s`.
fn matches_at(s: &String, sub: &String, off: usize) -> (r: bool)
    requires
        off + sub@.len() <= s@.len(),
    ensures
        r == (s@.subrange(off as int, off + sub@.len() as int) == sub@),
{
    let n = s.as_str().unicode_len();
    let m = sub.as_str().unicode_len();
    let mut j: usize = 0;
    while j < m
        invariant
            n == s@.len(),
            m == sub@.len(),
            off + m <= s@.len(),
            0 <= j <= m,
            forall|x: int| 0 <= x < j ==> s@[off + x] == sub@[x],
        decreases m - j,
    {
        if s.as_str().get_char(off + j) != sub.as_str().get_char(j) {
            proof {
                assert(s@.subrange(off as int, off + m as int)[j as int] != sub@[j as int]);
            }
            return false;
        }
        j = j + 1;
    }
    proof {
        assert(s@.subrange(off as int, off + m as int) =~= sub@);
    }
    true
}

/// Whether `p` starts the string `s`.
pub fn starts_with_str(s: &String, p: &String) -> (r: bool)
    ensures
        r == spec_is_prefix(s@, p@),
{
    let n = s.as_str().unicode_len();
    let m = p.as_str().unicode_len();
    if m > n {
        return false;
    }
    matches_at(s, p, 0)
}

/// Whether `sub` occurs inside `s`.
pub fn contains_str(s: &String, sub: &String) -> (r: bool)
    ensures
        r == spec_has_substring(s@, sub@),
{
    let n = s.as_str().unicode_len();
    let m = sub.as_str().unicode_len();
    if m > n {
        proof {
            assert(!spec_has_substring(s@, sub@));
        }
        return false;
    }
    if m == 0 {
        proof {
            assert(s@.subrange(0, 0 + sub@.len() as int) =~= sub@);
            assert(spec_has_substring(s@, sub@));
        }
        return true;
    }
    let mut off: usize = 0;
    while off <= n - m
        invariant
            n == s@.len(),
            m == sub@.len(),
            1 <= m <= n,
            0 <= off <= n - m + 1,
            forall|x: int|
                0 <= x < off ==> #[trigger] s@.subrange(x, x + sub@.len() as int) != sub@,
        decreases n - off,
    {
        if matches_at(s, sub, off) {
            proof {
                assert(spec_has_substring(s@, sub@));
            }
            return true;
        }
        off = off + 1;
    }
    proof {
        assert(!spec_has_substring(s@, sub@));
    }
    false
}

} // verus!
