use vstd::prelude::*;

verus! {

/// The characters that carry the Unicode `White_Space` property.
pub open spec fn is_whitespace_char(c: char) -> bool {
    ||| ('\u{0009}' <= c && c <= '\u{000D}')
    ||| c == ' '
    ||| c == '\u{0085}'
    ||| c == '\u{00A0}'
    ||| c == '\u{1680}'
    ||| ('\u{2000}' <= c && c <= '\u{200A}')
    ||| c == '\u{2028}'
    ||| c == '\u{2029}'
    ||| c == '\u{202F}'
    ||| c == '\u{205F}'
    ||| c == '\u{3000}'
}

/// `s` without its leading whitespace.
pub open spec fn trim_start_seq(s: Seq<char>) -> Seq<char>
    decreases s.len(),
{
    if s.len() > 0 && is_whitespace_char(s[0]) {
        trim_start_seq(s.drop_first())
    } else {
        s
    }
}

/// `s` without its trailing whitespace.
pub open spec fn trim_end_seq(s: Seq<char>) -> Seq<char>
    decreases s.len(),
{
    if s.len() > 0 && is_whitespace_char(s.last()) {
        trim_end_seq(s.drop_last())
    } else {
        s
    }
}

/// `s` without one final line feed, if it ends with one.
pub open spec fn strip_newline(s: Seq<char>) -> Seq<char> {
    if s.len() > 0 && s.last() == '\n' {
        s.drop_last()
    } else {
        s
    }
}

/// `s` begins with `prefix`.
pub open spec fn starts_with(s: Seq<char>, prefix: Seq<char>) -> bool {
    prefix.len() <= s.len() && s.take(prefix.len() as int) == prefix
}

/// Whether `c` is whitespace: whether it carries the Unicode `White_Space`
/// property, as `char::is_whitespace` decides it.
pub fn char_is_whitespace(c: char) -> (r: bool)
    ensures
        r == is_whitespace_char(c),
{
    ('\u{0009}' <= c && c <= '\u{000D}') || c == ' ' || c == '\u{0085}' || c == '\u{00A0}'
        || c == '\u{1680}' || ('\u{2000}' <= c && c <= '\u{200A}') || c == '\u{2028}'
        || c == '\u{2029}' || c == '\u{202F}' || c == '\u{205F}' || c == '\u{3000}'
}

/// Appends one character to a string, as `String::push` does.
#[verifier::external_body]
pub fn string_push(s: &mut String, c: char)
    ensures
        final(s)@ == old(s)@.push(c),
{
    s.push(c)
}

/// The characters of `s`, one by one, in order.
pub fn chars_of(s: &str) -> (v: Vec<char>)
    ensures
        v@ == s@,
{
    let mut v: Vec<char> = Vec::new();
    for c in it: s.chars()
        invariant
            it.seq() == s@,
            v@ == it.seq().take(it.index()),
    {
        v.push(c);
    }
    v
}

/// A string holding the characters `v[lo..hi]`.
pub fn string_from_range(v: &Vec<char>, lo: usize, hi: usize) -> (s: String)
    requires
        lo <= hi <= v@.len(),
    ensures
        s@ == v@.subrange(lo as int, hi as int),
{
    let mut s = String::new();
    let mut i = lo;
    while i < hi
        invariant
            lo <= i <= hi <= v@.len(),
            s@ == v@.subrange(lo as int, i as int),
        decreases hi - i,
    {
        string_push(&mut s, v[i]);
        i = i + 1;
        assert(s@ =~= v@.subrange(lo as int, i as int));
    }
    s
}

/// The index where `v[lo..hi]` stops being whitespace at its start.
pub fn skip_leading_whitespace(v: &Vec<char>, lo: usize, hi: usize) -> (k: usize)
    requires
        lo <= hi <= v@.len(),
    ensures
        lo <= k <= hi,
        v@.subrange(k as int, hi as int) == trim_start_seq(v@.subrange(lo as int, hi as int)),
{
    let mut k = lo;
    while k < hi && char_is_whitespace(v[k])
        invariant
            lo <= k <= hi <= v@.len(),
            trim_start_seq(v@.subrange(lo as int, hi as int)) == trim_start_seq(
                v@.subrange(k as int, hi as int),
            ),
        decreases hi - k,
    {
        assert(v@.subrange(k as int, hi as int).drop_first() =~= v@.subrange(
            k + 1,
            hi as int,
        ));
        k = k + 1;
    }
    k
}

/// The index where `v[lo..hi]` stops being whitespace at its end.
pub fn skip_trailing_whitespace(v: &Vec<char>, lo: usize, hi: usize) -> (k: usize)
    requires
        lo <= hi <= v@.len(),
    ensures
        lo <= k <= hi,
        v@.subrange(lo as int, k as int) == trim_end_seq(v@.subrange(lo as int, hi as int)),
{
    let mut k = hi;
    while k > lo && char_is_whitespace(v[k - 1])
        invariant
            lo <= k <= hi <= v@.len(),
            trim_end_seq(v@.subrange(lo as int, hi as int)) == trim_end_seq(
                v@.subrange(lo as int, k as int),
            ),
        decreases k - lo,
    {
        assert(v@.subrange(lo as int, k as int).drop_last() =~= v@.subrange(
            lo as int,
            k - 1,
        ));
        k = k - 1;
    }
    k
}

/// Whether `v[lo..hi]` equals `w`.
pub fn range_equals(v: &Vec<char>, lo: usize, hi: usize, w: &Vec<char>) -> (r: bool)
    requires
        lo <= hi <= v@.len(),
    ensures
        r == (v@.subrange(lo as int, hi as int) == w@),
{
    if hi - lo != w.len() {
        return false;
    }
    let mut i: usize = 0;
    while i < w.len()
        invariant
            lo <= hi <= v@.len(),
            hi - lo == w@.len(),
            i <= w@.len(),
            forall|j: int| 0 <= j < i ==> v@[lo + j] == w@[j],
        decreases w@.len() - i,
    {
        if v[lo + i] != w[i] {
            assert(v@.subrange(lo as int, hi as int)[i as int] != w@[i as int]);
            return false;
        }
        i = i + 1;
    }
    assert(v@.subrange(lo as int, hi as int) =~= w@);
    true
}

/// Whether `w` begins with `v[lo..hi]`.
pub fn range_is_prefix_of(v: &Vec<char>, lo: usize, hi: usize, w: &Vec<char>) -> (r: bool)
    requires
        lo <= hi <= v@.len(),
    ensures
        r == starts_with(w@, v@.subrange(lo as int, hi as int)),
{
    if hi - lo > w.len() {
        return false;
    }
    let mut i: usize = 0;
    while i < hi - lo
        invariant
            lo <= hi <= v@.len(),
            hi - lo <= w@.len(),
            i <= hi - lo,
            forall|j: int| 0 <= j < i ==> v@[lo + j] == w@[j],
        decreases hi - lo - i,
    {
        if v[lo + i] != w[i] {
            assert(w@.take((hi - lo) as int)[i as int] != v@.subrange(lo as int, hi as int)[i as int]);
            return false;
        }
        i = i + 1;
    }
    assert(w@.take((hi - lo) as int) =~= v@.subrange(lo as int, hi as int));
    true
}

/// `s` without leading or trailing whitespace.
pub open spec fn trim_seq(s: Seq<char>) -> Seq<char> {
    trim_end_seq(trim_start_seq(s))
}

/// The index of the first `c` in `s`, or the length of `s` when it has none.
pub open spec fn first_index_of(s: Seq<char>, c: char) -> int
    decreases s.len(),
{
    if s.len() == 0 {
        0
    } else if s[0] == c {
        0
    } else {
        1 + first_index_of(s.drop_first(), c)
    }
}

/// The index of the first whitespace in `s`, or the length of `s` when it has none.
pub open spec fn first_whitespace_index(s: Seq<char>) -> int
    decreases s.len(),
{
    if s.len() == 0 {
        0
    } else if is_whitespace_char(s[0]) {
        0
    } else {
        1 + first_whitespace_index(s.drop_first())
    }
}

/// The first-found index lies within the sequence.
pub proof fn lemma_first_index_bounds(s: Seq<char>, c: char)
    ensures
        0 <= first_index_of(s, c) <= s.len(),
        first_index_of(s, c) < s.len() ==> s[first_index_of(s, c)] == c,
    decreases s.len(),
{
    if s.len() > 0 && s[0] != c {
        lemma_first_index_bounds(s.drop_first(), c);
    }
}

/// The first whitespace index lies within the sequence.
pub proof fn lemma_first_whitespace_bounds(s: Seq<char>)
    ensures
        0 <= first_whitespace_index(s) <= s.len(),
        s.len() > 0 && !is_whitespace_char(s[0]) ==> first_whitespace_index(s) >= 1,
    decreases s.len(),
{
    if s.len() > 0 && !is_whitespace_char(s[0]) {
        lemma_first_whitespace_bounds(s.drop_first());
    }
}

/// Trimming the start never lengthens a sequence, and leaves it on a non-whitespace.
pub proof fn lemma_trim_start_len(s: Seq<char>)
    ensures
        trim_start_seq(s).len() <= s.len(),
        trim_start_seq(s).len() > 0 ==> !is_whitespace_char(trim_start_seq(s)[0]),
    decreases s.len(),
{
    if s.len() > 0 && is_whitespace_char(s[0]) {
        lemma_trim_start_len(s.drop_first());
    }
}

/// The index of the first `c` in `v[lo..hi]`, counted from `lo`; `hi` when there is none.
pub fn find_char(v: &Vec<char>, lo: usize, hi: usize, c: char) -> (k: usize)
    requires
        lo <= hi <= v@.len(),
    ensures
        lo <= k <= hi,
        k - lo == first_index_of(v@.subrange(lo as int, hi as int), c),
{
    let mut k = lo;
    while k < hi && v[k] != c
        invariant
            lo <= k <= hi <= v@.len(),
            first_index_of(v@.subrange(lo as int, hi as int), c) == (k - lo) + first_index_of(
                v@.subrange(k as int, hi as int),
                c,
            ),
        decreases hi - k,
    {
        assert(v@.subrange(k as int, hi as int).drop_first() =~= v@.subrange(k + 1, hi as int));
        k = k + 1;
    }
    k
}

/// The index of the first whitespace in `v[lo..hi]`, counted from `lo`; `hi` when there is none.
pub fn find_whitespace(v: &Vec<char>, lo: usize, hi: usize) -> (k: usize)
    requires
        lo <= hi <= v@.len(),
    ensures
        lo <= k <= hi,
        k - lo == first_whitespace_index(v@.subrange(lo as int, hi as int)),
{
    let mut k = lo;
    while k < hi && !char_is_whitespace(v[k])
        invariant
            lo <= k <= hi <= v@.len(),
            first_whitespace_index(v@.subrange(lo as int, hi as int)) == (k - lo)
                + first_whitespace_index(v@.subrange(k as int, hi as int)),
        decreases hi - k,
    {
        assert(v@.subrange(k as int, hi as int).drop_first() =~= v@.subrange(k + 1, hi as int));
        k = k + 1;
    }
    k
}

/// The bounds of `v[lo..hi]` with surrounding whitespace removed.
pub fn trim_range(v: &Vec<char>, lo: usize, hi: usize) -> (r: (usize, usize))
    requires
        lo <= hi <= v@.len(),
    ensures
        lo <= r.0 <= r.1 <= hi,
        v@.subrange(r.0 as int, r.1 as int) == trim_seq(v@.subrange(lo as int, hi as int)),
{
    let a = skip_leading_whitespace(v, lo, hi);
    let b = skip_trailing_whitespace(v, a, hi);
    (a, b)
}

/// The maximal runs of non-whitespace characters of `s`, in order.
pub open spec fn ws_tokens(s: Seq<char>) -> Seq<Seq<char>>
    decreases s.len(),
{
    let t = trim_start_seq(s);
    let k = first_whitespace_index(t);
    if t.len() == 0 {
        Seq::empty()
    } else if 0 < k <= t.len() && t.len() <= s.len() {
        seq![t.take(k)] + ws_tokens(t.skip(k))
    } else {
        Seq::empty()
    }
}

/// The characters each range of `ranges` covers in `v`.
pub open spec fn range_views(v: Seq<char>, ranges: Seq<(usize, usize)>) -> Seq<Seq<char>> {
    ranges.map_values(|r: (usize, usize)| v.subrange(r.0 as int, r.1 as int))
}

/// The bounds of the whitespace-separated tokens of `v[lo..hi]`.
pub fn split_whitespace(v: &Vec<char>, lo: usize, hi: usize) -> (r: Vec<(usize, usize)>)
    requires
        lo <= hi <= v@.len(),
    ensures
        forall|i: int| 0 <= i < r@.len() ==> lo <= (#[trigger] r@[i]).0 <= r@[i].1 <= hi,
        range_views(v@, r@) == ws_tokens(v@.subrange(lo as int, hi as int)),
{
    let mut r: Vec<(usize, usize)> = Vec::new();
    let mut p = lo;
    while p < hi
        invariant
            lo <= p <= hi <= v@.len(),
            forall|i: int| 0 <= i < r@.len() ==> lo <= (#[trigger] r@[i]).0 <= r@[i].1 <= hi,
            ws_tokens(v@.subrange(lo as int, hi as int)) == range_views(v@, r@) + ws_tokens(
                v@.subrange(p as int, hi as int),
            ),
        decreases hi - p,
    {
        let ghost rest = v@.subrange(p as int, hi as int);
        let q = skip_leading_whitespace(v, p, hi);
        proof {
            lemma_trim_start_len(rest);
        }
        if q == hi {
            assert(range_views(v@, r@) + Seq::<Seq<char>>::empty() =~= range_views(v@, r@));
            p = hi;
        } else {
            let e = find_whitespace(v, q, hi);
            let ghost t = v@.subrange(q as int, hi as int);
            proof {
                lemma_first_whitespace_bounds(t);
                assert(t.take(e - q) =~= v@.subrange(q as int, e as int));
                assert(t.skip(e - q) =~= v@.subrange(e as int, hi as int));
            }
            let ghost before = r@;
            r.push((q, e));
            assert(range_views(v@, r@) =~= range_views(v@, before).push(
                v@.subrange(q as int, e as int),
            ));
            assert(range_views(v@, before) + ws_tokens(rest) =~= range_views(v@, r@) + ws_tokens(
                v@.subrange(e as int, hi as int),
            ));
            p = e;
        }
    }
    assert(v@.subrange(hi as int, hi as int) =~= Seq::<char>::empty());
    assert(range_views(v@, r@) + Seq::<Seq<char>>::empty() =~= range_views(v@, r@));
    r
}

} // verus!
