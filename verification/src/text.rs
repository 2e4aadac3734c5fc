//! Character- and byte-level string helpers shared by the table and
//! preview modules.
//!
//! A `String` is viewed as a `Seq<char>`; its UTF-8 bytes are
//! `encode_utf8` of that view. Byte offsets (ranges into a buffer)
//! are always offsets into `encode_utf8(..)`.

use vstd::prelude::*;
use vstd::utf8::*;

verus! {

/// `char::is_whitespace`: the Unicode `White_Space` property.
pub open spec fn is_ws(c: char) -> bool {
    ||| ('\t' <= c && c <= '\r')
    ||| c == ' '
    ||| c == '\u{85}'
    ||| c == '\u{a0}'
    ||| c == '\u{1680}'
    ||| ('\u{2000}' <= c && c <= '\u{200a}')
    ||| c == '\u{2028}'
    ||| c == '\u{2029}'
    ||| c == '\u{202f}'
    ||| c == '\u{205f}'
    ||| c == '\u{3000}'
}

/// `str::trim_start`.
pub open spec fn trim_start(s: Seq<char>) -> Seq<char>
    decreases s.len(),
{
    if s.len() > 0 && is_ws(s[0]) {
        trim_start(s.drop_first())
    } else {
        s
    }
}

/// `str::trim_end`.
pub open spec fn trim_end(s: Seq<char>) -> Seq<char>
    decreases s.len(),
{
    if s.len() > 0 && is_ws(s.last()) {
        trim_end(s.drop_last())
    } else {
        s
    }
}

/// `str::trim`.
pub open spec fn trim(s: Seq<char>) -> Seq<char> {
    trim_end(trim_start(s))
}

/// The UTF-8 bytes of a character sequence.
pub open spec fn utf8(s: Seq<char>) -> Seq<u8> {
    encode_utf8(s)
}

/// `n` copies of `c`.
pub open spec fn repeat(c: char, n: nat) -> Seq<char> {
    Seq::new(n, |i: int| c)
}

/// Exec form of [`is_ws`].
pub fn char_is_ws(c: char) -> (b: bool)
    ensures
        b == is_ws(c),
{
    ('\t' <= c && c <= '\r') || c == ' ' || c == '\u{85}' || c == '\u{a0}' || c == '\u{1680}'
        || ('\u{2000}' <= c && c <= '\u{200a}') || c == '\u{2028}' || c == '\u{2029}'
        || c == '\u{202f}' || c == '\u{205f}' || c == '\u{3000}'
}

/// Appends one character (`String::push`).
#[verifier::external_body]
pub(crate) fn push_char(s: &mut String, c: char)
    ensures
        final(s)@ == old(s)@.push(c),
{
    s.push(c);
}

/// The characters of `s`, in order.
pub fn chars_of(s: &str) -> (v: Vec<char>)
    ensures
        v@ == s@,
{
    let mut v: Vec<char> = Vec::new();
    for c in it: s.chars()
        invariant
            v@ == it.seq().subrange(0, it.index() as int),
            it.seq() == s@,
    {
        v.push(c);
    }
    v
}


/// Drops one trailing `'\r'`.
pub open spec fn strip_cr(l: Seq<char>) -> Seq<char> {
    if l.len() > 0 && l.last() == '\r' {
        l.drop_last()
    } else {
        l
    }
}

/// Index of the first `'\n'` in `s`, or `s.len()` when there is none.
pub open spec fn line_end(s: Seq<char>) -> int
    decreases s.len(),
{
    if s.len() == 0 {
        0
    } else if s[0] == '\n' {
        0
    } else {
        1 + line_end(s.drop_first())
    }
}

/// `str::lines`: split at `'\n'`; a line ended by `'\n'` also loses one
/// trailing `'\r'`; the final line is kept only when it is not empty.
pub open spec fn lines(s: Seq<char>) -> Seq<Seq<char>>
    decreases s.len(),
{
    if s.len() == 0 {
        seq![]
    } else {
        let e = line_end(s);
        proof {
            lemma_line_end_bound(s);
        }
        if e >= s.len() {
            seq![s]
        } else {
            seq![strip_cr(s.subrange(0, e))] + lines(s.subrange(e + 1, s.len() as int))
        }
    }
}

/// The views of a sequence of strings.
pub open spec fn views(v: Seq<String>) -> Seq<Seq<char>> {
    v.map_values(|x: String| x@)
}

pub proof fn lemma_line_end(s: Seq<char>, k: int)
    requires
        0 <= k <= s.len(),
        forall|j: int| 0 <= j < k ==> s[j] != '\n',
        k == s.len() || s[k] == '\n',
    ensures
        line_end(s) == k,
    decreases k,
{
    if k > 0 {
        lemma_line_end(s.drop_first(), k - 1);
    }
}

pub proof fn lemma_line_end_bound(s: Seq<char>)
    ensures
        0 <= line_end(s) <= s.len(),
        line_end(s) < s.len() ==> s[line_end(s)] == '\n',
        forall|j: int| 0 <= j < line_end(s) ==> s[j] != '\n',
    decreases s.len(),
{
    if s.len() > 0 && s[0] != '\n' {
        lemma_line_end_bound(s.drop_first());
        assert forall|j: int| 0 <= j < line_end(s) implies s[j] != '\n' by {
            if j > 0 {
                assert(s[j] == s.drop_first()[j - 1]);
            }
        }
    }
}

/// Builds the string of `v[lo..hi]`.
pub fn string_from_chars(v: &Vec<char>, lo: usize, hi: usize) -> (s: String)
    requires
        lo <= hi <= v.len(),
    ensures
        s@ == v@.subrange(lo as int, hi as int),
{
    let mut s = String::new();
    let mut i = lo;
    while i < hi
        invariant
            lo <= i <= hi <= v.len(),
            s@ == v@.subrange(lo as int, i as int),
        decreases hi - i,
    {
        push_char(&mut s, v[i]);
        assert(v@.subrange(lo as int, i + 1) == v@.subrange(lo as int, i as int).push(v@[i as int]));
        i = i + 1;
    }
    s
}

/// The lines of `s` (`str::lines`).
pub fn lines_of(s: &str) -> (out: Vec<String>)
    ensures
        views(out@) == lines(s@),
{
    let v = chars_of(s);
    let n = v.len();
    let mut out: Vec<String> = Vec::new();
    let mut seg: usize = 0;
    let mut i: usize = 0;
    assert(v@.subrange(0, n as int) == v@);
    while i < n
        invariant
            v@ == s@,
            n == v.len(),
            seg <= i <= n,
            forall|j: int| seg <= j < i ==> v@[j] != '\n',
            lines(s@) == views(out@) + lines(v@.subrange(seg as int, n as int)),
        decreases n - i,
    {
        if v[i] == '\n' {
            let ghost t = v@.subrange(seg as int, n as int);
            proof {
                lemma_line_end(t, (i - seg) as int);
                assert(t.subrange(0, (i - seg) as int) == v@.subrange(seg as int, i as int));
                assert(t.subrange((i - seg) + 1, t.len() as int) == v@.subrange(i + 1, n as int));
            }
            let hi = if i > seg && v[i - 1] == '\r' {
                i - 1
            } else {
                i
            };
            let line = string_from_chars(&v, seg, hi);
            proof {
                let l = v@.subrange(seg as int, i as int);
                assert(strip_cr(l) == v@.subrange(seg as int, hi as int));
            }
            out.push(line);
            proof {
                assert(views(out@) =~= views(out@.drop_last()).push(line@));
            }
            seg = i + 1;
        }
        i = i + 1;
    }
    let ghost t = v@.subrange(seg as int, n as int);
    if seg < n {
        proof {
            lemma_line_end(t, t.len() as int);
        }
        let line = string_from_chars(&v, seg, n);
        out.push(line);
        proof {
            assert(views(out@) =~= views(out@.drop_last()).push(line@));
        }
    } else {
        assert(t.len() == 0);
    }
    assert(views(out@) == lines(s@));
    out
}

/// Bounds `lo..hi` such that `v[lo..hi]` is `trim(v)`.
pub fn trim_bounds(v: &Vec<char>) -> (r: (usize, usize))
    ensures
        r.0 <= r.1 <= v.len(),
        trim(v@) == v@.subrange(r.0 as int, r.1 as int),
{
    let n = v.len();
    let mut lo: usize = 0;
    assert(v@.subrange(0, n as int) == v@);
    while lo < n && char_is_ws(v[lo])
        invariant
            lo <= n == v.len(),
            trim_start(v@) == trim_start(v@.subrange(lo as int, n as int)),
        decreases n - lo,
    {
        assert(v@.subrange(lo as int, n as int).drop_first() == v@.subrange(lo + 1, n as int));
        lo = lo + 1;
    }
    assert(trim_start(v@) == v@.subrange(lo as int, n as int));
    let mut hi: usize = n;
    while hi > lo && char_is_ws(v[hi - 1])
        invariant
            lo <= hi <= n == v.len(),
            trim(v@) == trim_end(v@.subrange(lo as int, hi as int)),
        decreases hi,
    {
        assert(v@.subrange(lo as int, hi as int).drop_last() == v@.subrange(lo as int, hi - 1));
        hi = hi - 1;
    }
    (lo, hi)
}


/// A space or a tab byte.
pub open spec fn is_sp(b: u8) -> bool {
    b == 32u8 || b == 9u8
}

/// Number of leading space/tab bytes.
pub open spec fn lead_count(b: Seq<u8>) -> nat
    decreases b.len(),
{
    if b.len() > 0 && is_sp(b[0]) {
        1 + lead_count(b.drop_first())
    } else {
        0
    }
}

/// Number of trailing space/tab bytes.
pub open spec fn trail_count(b: Seq<u8>) -> nat
    decreases b.len(),
{
    if b.len() > 0 && is_sp(b.last()) {
        1 + trail_count(b.drop_last())
    } else {
        0
    }
}

/// Counts leading space/tab bytes of `b[lo..hi]`.
pub fn count_lead(b: &[u8], lo: usize, hi: usize) -> (n: usize)
    requires
        lo <= hi <= b@.len(),
    ensures
        n == lead_count(b@.subrange(lo as int, hi as int)),
        n <= hi - lo,
{
    let mut i = lo;
    while i < hi && (b[i] == 32u8 || b[i] == 9u8)
        invariant
            lo <= i <= hi <= b@.len(),
            lead_count(b@.subrange(lo as int, hi as int)) == (i - lo) + lead_count(
                b@.subrange(i as int, hi as int),
            ),
        decreases hi - i,
    {
        assert(b@.subrange(i as int, hi as int).drop_first() == b@.subrange(i + 1, hi as int));
        i = i + 1;
    }
    i - lo
}

/// Counts trailing space/tab bytes of `b[lo..hi]`.
pub fn count_trail(b: &[u8], lo: usize, hi: usize) -> (n: usize)
    requires
        lo <= hi <= b@.len(),
    ensures
        n == trail_count(b@.subrange(lo as int, hi as int)),
        n <= hi - lo,
{
    let mut j = hi;
    while j > lo && (b[j - 1] == 32u8 || b[j - 1] == 9u8)
        invariant
            lo <= j <= hi <= b@.len(),
            trail_count(b@.subrange(lo as int, hi as int)) == (hi - j) + trail_count(
                b@.subrange(lo as int, j as int),
            ),
        decreases j,
    {
        assert(b@.subrange(lo as int, j as int).drop_last() == b@.subrange(lo as int, j - 1));
        j = j - 1;
    }
    hi - j
}

/// An ASCII byte of valid UTF-8 starts a character.
pub proof fn lemma_boundary_at_ascii(b: Seq<u8>, i: int)
    requires
        valid_utf8(b),
        0 <= i < b.len(),
        b[i] < 128,
    ensures
        is_char_boundary(b, i),
{
    is_char_boundary_iff_not_is_continuation_byte(b, i);
}

/// A boundary of `b` before another boundary `e` is a boundary of `b[0..e]`.
pub proof fn lemma_boundary_prefix(b: Seq<u8>, s: int, e: int)
    requires
        valid_utf8(b),
        is_char_boundary(b, s),
        is_char_boundary(b, e),
        0 <= s <= e <= b.len(),
    ensures
        valid_utf8(b.subrange(0, e)),
        is_char_boundary(b.subrange(0, e), s),
{
    valid_utf8_split(b, e);
    let p = b.subrange(0, e);
    if s == e {
        is_char_boundary_start_end_of_seq(p);
    } else {
        is_char_boundary_iff_not_is_continuation_byte(b, s);
        is_char_boundary_iff_not_is_continuation_byte(p, s);
    }
}

/// The part of `s` between byte offsets `lo` and `hi`.
pub fn str_slice(s: &str, lo: usize, hi: usize) -> (r: &str)
    requires
        lo <= hi,
        is_char_boundary(utf8(s@), lo as int),
        is_char_boundary(utf8(s@), hi as int),
    ensures
        utf8(r@) == utf8(s@).subrange(lo as int, hi as int),
        r@ == decode_utf8(utf8(s@).subrange(lo as int, hi as int)),
{
    let ghost b = utf8(s@);
    proof {
        encode_utf8_valid_utf8(s@);
        lemma_boundary_prefix(b, lo as int, hi as int);
    }
    let (left, _) = s.split_at(hi);
    let (_, mid) = left.split_at(lo);
    proof {
        assert(b.subrange(0, hi as int).subrange(lo as int, hi as int) =~= b.subrange(
            lo as int,
            hi as int,
        ));
        encode_utf8_decode_utf8(mid@);
    }
    mid
}


/// Appends `n` copies of `c`.
pub fn push_repeat(s: &mut String, c: char, n: usize)
    ensures
        final(s)@ == old(s)@ + repeat(c, n as nat),
{
    let mut i: usize = 0;
    while i < n
        invariant
            i <= n,
            s@ == old(s)@ + repeat(c, i as nat),
        decreases n - i,
    {
        push_char(s, c);
        assert(old(s)@ + repeat(c, (i + 1) as nat) =~= (old(s)@ + repeat(c, i as nat)).push(c));
        i = i + 1;
    }
}

/// Appends the characters of `t`.
pub fn push_str(s: &mut String, t: &str)
    ensures
        final(s)@ == old(s)@ + t@,
{
    let v = chars_of(t);
    let mut i: usize = 0;
    while i < v.len()
        invariant
            i <= v.len(),
            v@ == t@,
            s@ == old(s)@ + v@.subrange(0, i as int),
        decreases v.len() - i,
    {
        push_char(s, v[i]);
        assert(old(s)@ + v@.subrange(0, i + 1) =~= (old(s)@ + v@.subrange(0, i as int)).push(v@[i as int]));
        i = i + 1;
    }
    assert(v@.subrange(0, v.len() as int) =~= v@);
}

/// UTF-8 of a concatenation is the concatenation of the UTF-8s.
pub proof fn lemma_utf8_concat(a: Seq<char>, b: Seq<char>)
    ensures
        utf8(a + b) == utf8(a) + utf8(b),
    decreases a.len(),
{
    if a.len() == 0 {
        assert(a + b =~= b);
        assert(utf8(a) =~= Seq::<u8>::empty());
        assert(utf8(a) + utf8(b) =~= utf8(b));
    } else {
        lemma_utf8_concat(a.drop_first(), b);
        assert((a + b).drop_first() =~= a.drop_first() + b);
        assert((a + b)[0] == a[0]);
        assert(encode_scalar(a[0] as u32) + (utf8(a.drop_first()) + utf8(b)) =~= (encode_scalar(
            a[0] as u32,
        ) + utf8(a.drop_first())) + utf8(b));
    }
}

/// UTF-8 of an ASCII sequence is its bytes.
pub proof fn lemma_utf8_ascii(a: Seq<char>)
    requires
        is_ascii_chars(a),
    ensures
        utf8(a) == a.map_values(|c: char| c as u8),
{
    is_ascii_chars_encode_utf8(a);
    assert(utf8(a) =~= a.map_values(|c: char| c as u8));
}


/// A boundary of valid `a` stays a boundary when valid `c` is appended.
pub proof fn lemma_boundary_concat(a: Seq<u8>, c: Seq<u8>, p: int)
    requires
        valid_utf8(a),
        valid_utf8(c),
        is_char_boundary(a, p),
        0 <= p <= a.len(),
    ensures
        valid_utf8(a + c),
        is_char_boundary(a + c, p),
{
    valid_utf8_concat(a, c);
    let ac = a + c;
    if p < a.len() {
        is_char_boundary_iff_not_is_continuation_byte(a, p);
        is_char_boundary_iff_not_is_continuation_byte(ac, p);
    } else if c.len() == 0 {
        assert(ac =~= a);
    } else {
        assert(valid_first_scalar(c));
        assert(ac[p] == c[0]);
        is_char_boundary_iff_not_is_continuation_byte(ac, p);
    }
}

/// `s` with bytes `lo..hi` replaced by `rep` (`String::replace_range`).
pub fn replace_range(s: &mut String, lo: usize, hi: usize, rep: &str)
    requires
        lo <= hi,
        is_char_boundary(utf8(old(s)@), lo as int),
        is_char_boundary(utf8(old(s)@), hi as int),
    ensures
        utf8(final(s)@) == utf8(old(s)@).subrange(0, lo as int) + utf8(rep@) + utf8(
            old(s)@,
        ).subrange(hi as int, utf8(old(s)@).len() as int),
{
    let ghost b = utf8(s@);
    proof {
        encode_utf8_valid_utf8(s@);
        is_char_boundary_start_end_of_seq(b);
    }
    let n = s.as_str().as_bytes().len();
    assert(n == b.len());
    assert(hi <= n);
    let mut out = String::new();
    {
        let prefix = str_slice(s.as_str(), 0, lo);
        push_str(&mut out, prefix);
        push_str(&mut out, rep);
        let suffix = str_slice(s.as_str(), hi, n);
        push_str(&mut out, suffix);
        proof {
            lemma_utf8_concat(prefix@ + rep@, suffix@);
            lemma_utf8_concat(prefix@, rep@);
        }
    }
    *s = out;
}


/// The UTF-8 encoding of a newline.
pub proof fn lemma_utf8_newline()
    ensures
        utf8(seq!['\n']) == seq![10u8],
{
    let s = seq!['\n'];
    assert(is_ascii_chars(s));
    is_ascii_chars_encode_utf8(s);
    assert(utf8(s) =~= seq![10u8]);
}


/// Bytes a byte cursor advances over `ls` when each line counts its
/// length plus one newline.
pub open spec fn lines_budget(ls: Seq<Seq<char>>) -> nat
    decreases ls.len(),
{
    if ls.len() == 0 {
        0
    } else {
        lines_budget(ls.drop_last()) + utf8(ls.last()).len() + 1
    }
}

proof fn lemma_budget_prepend(l: Seq<char>, ls: Seq<Seq<char>>)
    ensures
        lines_budget(seq![l] + ls) == utf8(l).len() + 1 + lines_budget(ls),
    decreases ls.len(),
{
    if ls.len() > 0 {
        lemma_budget_prepend(l, ls.drop_last());
        assert((seq![l] + ls).drop_last() =~= seq![l] + ls.drop_last());
        assert((seq![l] + ls).last() == ls.last());
    } else {
        assert(seq![l] + ls =~= seq![l]);
        assert(seq![l].drop_last() =~= Seq::<Seq<char>>::empty());
        assert(lines_budget(Seq::<Seq<char>>::empty()) == 0);
        assert(lines_budget(seq![l]) == lines_budget(seq![l].drop_last()) + utf8(l).len() + 1);
    }
}

pub proof fn lemma_budget_prefix(ls: Seq<Seq<char>>, k: int)
    requires
        0 <= k <= ls.len(),
    ensures
        lines_budget(ls.subrange(0, k)) <= lines_budget(ls),
    decreases ls.len() - k,
{
    if k < ls.len() {
        lemma_budget_prefix(ls, k + 1);
        assert(ls.subrange(0, k + 1).drop_last() =~= ls.subrange(0, k));
    } else {
        assert(ls.subrange(0, k) =~= ls);
    }
}

/// A cursor advancing over `lines(s)` by line length plus one moves at
/// most one byte past the end of `s`.
pub proof fn lemma_lines_budget(s: Seq<char>)
    ensures
        lines_budget(lines(s)) <= utf8(s).len() + 1,
    decreases s.len(),
{
    if s.len() > 0 {
        let e = line_end(s);
        lemma_line_end_bound(s);
        if e >= s.len() {
            assert(lines(s) == seq![s]);
            assert(seq![s].drop_last() =~= Seq::<Seq<char>>::empty());
            assert(lines_budget(Seq::<Seq<char>>::empty()) == 0);
            assert(lines_budget(seq![s]) == utf8(s).len() + 1);
        } else {
            let first = s.subrange(0, e);
            let rest = s.subrange(e + 1, s.len() as int);
            lemma_lines_budget(rest);
            lemma_budget_prepend(strip_cr(first), lines(rest));
            assert(s =~= first + (seq!['\n'] + rest));
            lemma_utf8_concat(first, seq!['\n'] + rest);
            lemma_utf8_concat(seq!['\n'], rest);
            lemma_utf8_newline();
            if first.len() > 0 && first.last() == '\r' {
                assert(first =~= first.drop_last() + seq![first.last()]);
                lemma_utf8_concat(first.drop_last(), seq![first.last()]);
            }
            assert(utf8(strip_cr(first)).len() <= utf8(first).len());
            assert(lines(s) == seq![strip_cr(first)] + lines(rest));
            assert(utf8(s).len() == utf8(first).len() + 1 + utf8(rest).len());
        }
    }
}


/// `s` starts with `p`.
pub open spec fn starts_with(s: Seq<char>, p: Seq<char>) -> bool {
    p.len() <= s.len() && s.subrange(0, p.len() as int) == p
}

/// Whether `v[lo..hi]` starts with `p`.
pub fn chars_start_with(v: &Vec<char>, lo: usize, hi: usize, p: &str) -> (b: bool)
    requires
        lo <= hi <= v.len(),
    ensures
        b == starts_with(v@.subrange(lo as int, hi as int), p@),
{
    let pv = chars_of(p);
    if pv.len() > hi - lo {
        return false;
    }
    let mut k: usize = 0;
    while k < pv.len()
        invariant
            k <= pv.len() <= hi - lo,
            lo <= hi <= v.len(),
            pv@ == p@,
            forall|j: int| 0 <= j < k ==> v@[lo + j] == pv@[j],
        decreases pv.len() - k,
    {
        if v[lo + k] != pv[k] {
            assert(v@.subrange(lo as int, hi as int).subrange(0, pv.len() as int)[k as int] != pv@[k as int]);
            return false;
        }
        k = k + 1;
    }
    assert(v@.subrange(lo as int, hi as int).subrange(0, pv.len() as int) =~= pv@);
    true
}

/// Whether `v[lo..hi]` is `p`.
pub fn chars_eq(v: &Vec<char>, lo: usize, hi: usize, p: &str) -> (b: bool)
    requires
        lo <= hi <= v.len(),
    ensures
        b == (v@.subrange(lo as int, hi as int) == p@),
{
    let n = p.unicode_len();
    if n != hi - lo {
        return false;
    }
    let r = chars_start_with(v, lo, hi, p);
    assert(v@.subrange(lo as int, hi as int).subrange(0, n as int) =~= v@.subrange(lo as int, hi as int));
    r
}

/// Whether two strings are equal.
pub fn str_eq(a: &str, b: &str) -> (r: bool)
    ensures
        r == (a@ == b@),
{
    let v = chars_of(a);
    assert(v@.subrange(0, v.len() as int) =~= v@);
    chars_eq(&v, 0, v.len(), b)
}

/// The first index at or after `lo` in `v[..hi]` holding no whitespace.
pub fn skip_ws(v: &Vec<char>, lo: usize, hi: usize) -> (k: usize)
    requires
        lo <= hi <= v.len(),
    ensures
        lo <= k <= hi,
        trim_start(v@.subrange(lo as int, hi as int)) == v@.subrange(k as int, hi as int),
{
    let mut k = lo;
    while k < hi && char_is_ws(v[k])
        invariant
            lo <= k <= hi <= v.len(),
            trim_start(v@.subrange(lo as int, hi as int)) == trim_start(v@.subrange(k as int, hi as int)),
        decreases hi - k,
    {
        assert(v@.subrange(k as int, hi as int).drop_first() == v@.subrange(k + 1, hi as int));
        k = k + 1;
    }
    k
}


/// `s` with every occurrence of `p` replaced by `r`, matches taken left to
/// right without overlap (`str::replace`; `p` is not empty).
pub open spec fn replace_all(s: Seq<char>, p: Seq<char>, r: Seq<char>) -> Seq<char>
    decreases s.len(),
{
    if s.len() == 0 {
        seq![]
    } else if p.len() > 0 && starts_with(s, p) {
        r + replace_all(s.subrange(p.len() as int, s.len() as int), p, r)
    } else {
        seq![s[0]] + replace_all(s.drop_first(), p, r)
    }
}

/// `s` with every occurrence of `p` replaced by `r` (`str::replace`).
pub fn replace_str(s: &str, p: &str, r: &str) -> (out: String)
    requires
        p@.len() > 0,
    ensures
        out@ == replace_all(s@, p@, r@),
{
    let v = chars_of(s);
    let n = v.len();
    let plen = p.unicode_len();
    let mut out = String::new();
    let mut i: usize = 0;
    assert(v@.subrange(0, n as int) =~= v@);
    assert(out@ + replace_all(v@, p@, r@) =~= replace_all(v@, p@, r@));
    while i < n
        invariant
            i <= n == v.len(),
            v@ == s@,
            plen == p@.len() > 0,
            out@ + replace_all(v@.subrange(i as int, n as int), p@, r@) == replace_all(s@, p@, r@),
        decreases n - i,
    {
        let ghost rest = v@.subrange(i as int, n as int);
        let ghost before = out@;
        if chars_start_with(&v, i, n, p) {
            push_str(&mut out, r);
            assert(rest.subrange(plen as int, rest.len() as int) =~= v@.subrange(i + plen, n as int));
            assert(out@ + replace_all(v@.subrange(i + plen, n as int), p@, r@) =~= before + replace_all(rest, p@, r@));
            i = i + plen;
        } else {
            push_char(&mut out, v[i]);
            assert(rest.drop_first() =~= v@.subrange(i + 1, n as int));
            assert(out@ + replace_all(v@.subrange(i + 1, n as int), p@, r@) =~= before + replace_all(rest, p@, r@));
            i = i + 1;
        }
    }
    assert(out@ + replace_all(v@.subrange(n as int, n as int), p@, r@) =~= out@);
    out
}

/// Lines joined with `\n` between them (`[..].join("\n")`).
pub open spec fn join_lines(ls: Seq<Seq<char>>) -> Seq<char>
    decreases ls.len(),
{
    if ls.len() == 0 {
        seq![]
    } else if ls.len() == 1 {
        ls[0]
    } else {
        join_lines(ls.drop_last()) + seq!['\n'] + ls.last()
    }
}


/// The decimal digit character of `d` (below 10).
pub open spec fn digit_char(d: nat) -> char {
    (48 + d) as char
}

/// The decimal digits of `n`.
pub open spec fn digits(n: nat) -> Seq<char>
    decreases n,
{
    if n < 10 {
        seq![digit_char(n)]
    } else {
        digits(n / 10).push(digit_char(n % 10))
    }
}

/// The decimal form of `n` (`i64::to_string`).
pub open spec fn decimal(n: int) -> Seq<char> {
    if n < 0 {
        seq!['-'] + digits((-n) as nat)
    } else {
        digits(n as nat)
    }
}

fn push_digits(out: &mut String, n: u64)
    ensures
        final(out)@ == old(out)@ + digits(n as nat),
    decreases n,
{
    if n >= 10 {
        push_digits(out, n / 10);
    }
    let d = (n % 10) as u8;
    push_char(out, (48u8 + d) as char);
    assert(final(out)@ =~= old(out)@ + digits(n as nat)) by {
        if n >= 10 {
            assert(digits(n as nat) == digits((n / 10) as nat).push(digit_char((n % 10) as nat)));
        }
    }
}

/// The decimal form of `n`.
pub fn decimal_string(n: i64) -> (s: String)
    ensures
        s@ == decimal(n as int),
{
    let mut s = String::new();
    if n < 0 {
        push_char(&mut s, '-');
        let m: u64 = (0i128 - (n as i128)) as u64;
        push_digits(&mut s, m);
    } else {
        push_digits(&mut s, n as u64);
    }
    s
}

/// Lines `ls[lo..hi]` joined with `\n`.
pub fn join_range(ls: &Vec<String>, lo: usize, hi: usize) -> (s: String)
    requires
        lo <= hi <= ls.len(),
    ensures
        s@ == join_lines(views(ls@).subrange(lo as int, hi as int)),
{
    let ghost vs = views(ls@);
    let mut s = String::new();
    let mut k = lo;
    assert(vs.subrange(lo as int, lo as int) =~= Seq::<Seq<char>>::empty());
    while k < hi
        invariant
            lo <= k <= hi <= ls.len(),
            vs == views(ls@),
            s@ == join_lines(vs.subrange(lo as int, k as int)),
        decreases hi - k,
    {
        let ghost m = vs.subrange(lo as int, k + 1);
        assert(m.drop_last() =~= vs.subrange(lo as int, k as int));
        assert(m.last() == ls@[k as int]@);
        if k > lo {
            push_char(&mut s, '\n');
        }
        push_str(&mut s, ls[k].as_str());
        assert(k > lo ==> s@ =~= join_lines(m.drop_last()) + seq!['\n'] + m.last());
        k = k + 1;
    }
    s
}


/// The first and last bytes of a character's UTF-8 form are a space or a
/// tab only for that very character.
pub proof fn lemma_scalar_edges(c: char)
    ensures
        encode_scalar(c as u32).len() >= 1,
        is_sp(encode_scalar(c as u32)[0]) ==> (c == ' ' || c == '\t'),
        is_sp(encode_scalar(c as u32).last()) ==> (c == ' ' || c == '\t'),
{
    let v = c as u32;
    if has_width_1_encoding(v) {
        assert(v <= 0x7F ==> (v & 0x7F) as u8 == v) by (bit_vector);
    } else if has_width_2_encoding(v) {
        assert(forall|x: u32| ((0xC0u8 | ((x >> 6) & 0x1F) as u8) >= 0xC0)) by (bit_vector);
        assert(forall|x: u32| ((0x80u8 | (x & 0x3F) as u8) >= 0x80)) by (bit_vector);
    } else if has_width_3_encoding(v) {
        assert(forall|x: u32| ((0xE0u8 | ((x >> 12) & 0x0F) as u8) >= 0xC0)) by (bit_vector);
        assert(forall|x: u32| ((0x80u8 | (x & 0x3F) as u8) >= 0x80)) by (bit_vector);
    } else {
        assert(forall|x: u32| ((0xF0u8 | ((x >> 18) & 0x7) as u8) >= 0xC0)) by (bit_vector);
        assert(forall|x: u32| ((0x80u8 | (x & 0x3F) as u8) >= 0x80)) by (bit_vector);
    }
}

/// `n` spaces as bytes.
pub proof fn lemma_utf8_spaces(n: nat)
    ensures
        utf8(repeat(' ', n)) == Seq::new(n, |i: int| 32u8),
{
    assert(is_ascii_chars(repeat(' ', n)));
    lemma_utf8_ascii(repeat(' ', n));
    assert(repeat(' ', n).map_values(|c: char| c as u8) =~= Seq::new(n, |i: int| 32u8));
}

proof fn lemma_lead_count_prefix(n: nat, y: Seq<u8>)
    ensures
        lead_count(Seq::new(n, |i: int| 32u8) + y) == n + lead_count(y),
    decreases n,
{
    if n > 0 {
        lemma_lead_count_prefix((n - 1) as nat, y);
        assert((Seq::new(n, |i: int| 32u8) + y).drop_first() =~= Seq::new((n - 1) as nat, |i: int| 32u8) + y);
    } else {
        assert(Seq::new(n, |i: int| 32u8) + y =~= y);
    }
}

proof fn lemma_trail_count_suffix(y: Seq<u8>, n: nat)
    ensures
        trail_count(y + Seq::new(n, |i: int| 32u8)) == n + trail_count(y),
    decreases n,
{
    if n > 0 {
        lemma_trail_count_suffix(y, (n - 1) as nat);
        assert((y + Seq::new(n, |i: int| 32u8)).drop_last() =~= y + Seq::new((n - 1) as nat, |i: int| 32u8));
    } else {
        assert(y + Seq::new(n, |i: int| 32u8) =~= y);
    }
}

/// Spaces around a text that neither starts nor ends with a space or a
/// tab count exactly as its leading and trailing blanks.
pub proof fn lemma_padding_counts(a: nat, e: Seq<char>, z: nat)
    requires
        e.len() > 0,
        e[0] != ' ' && e[0] != '\t',
        e.last() != ' ' && e.last() != '\t',
    ensures
        lead_count(utf8(repeat(' ', a) + e + repeat(' ', z))) == a,
        trail_count(utf8(repeat(' ', a) + e + repeat(' ', z))) == z,
{
    lemma_utf8_concat(repeat(' ', a) + e, repeat(' ', z));
    lemma_utf8_concat(repeat(' ', a), e);
    lemma_utf8_spaces(a);
    lemma_utf8_spaces(z);
    let sa = Seq::new(a, |i: int| 32u8);
    let sz = Seq::new(z, |i: int| 32u8);
    let ue = utf8(e);
    assert(utf8(repeat(' ', a) + e + repeat(' ', z)) == sa + ue + sz);
    // The middle starts and ends with a byte that is no blank.
    lemma_scalar_edges(e[0]);
    lemma_scalar_edges(e.last());
    assert(ue == encode_scalar(e[0] as u32) + utf8(e.drop_first()));
    assert(ue[0] == encode_scalar(e[0] as u32)[0]);
    lemma_utf8_concat(e.drop_last(), seq![e.last()]);
    assert(e.drop_last() + seq![e.last()] =~= e);
    assert(utf8(seq![e.last()]) =~= encode_scalar(e.last() as u32)) by {
        assert(seq![e.last()].drop_first() =~= Seq::<char>::empty());
        assert(utf8(Seq::<char>::empty()) =~= Seq::<u8>::empty());
        assert(encode_scalar(e.last() as u32) + Seq::<u8>::empty() =~= encode_scalar(e.last() as u32));
    }
    assert(ue.last() == encode_scalar(e.last() as u32).last());
    lemma_lead_count_prefix(a, ue + sz);
    assert(sa + ue + sz =~= sa + (ue + sz));
    assert((ue + sz)[0] == ue[0]);
    assert(lead_count(ue + sz) == 0);
    lemma_trail_count_suffix(sa + ue, z);
    assert((sa + ue).last() == ue.last());
    assert(trail_count(sa + ue) == 0);
}

proof fn lemma_trim_start_spaces(n: nat, e: Seq<char>)
    requires
        e.len() > 0,
        !is_ws(e[0]),
    ensures
        trim_start(repeat(' ', n) + e) == e,
    decreases n,
{
    if n > 0 {
        assert((repeat(' ', n) + e).drop_first() =~= repeat(' ', (n - 1) as nat) + e);
        lemma_trim_start_spaces((n - 1) as nat, e);
    } else {
        assert(repeat(' ', n) + e =~= e);
    }
}

proof fn lemma_trim_end_spaces(e: Seq<char>, n: nat)
    requires
        e.len() > 0,
        !is_ws(e.last()),
    ensures
        trim_end(e + repeat(' ', n)) == e,
    decreases n,
{
    if n > 0 {
        assert((e + repeat(' ', n)).drop_last() =~= e + repeat(' ', (n - 1) as nat));
        lemma_trim_end_spaces(e, (n - 1) as nat);
    } else {
        assert(e + repeat(' ', n) =~= e);
    }
}

/// Trimming spaces around a text that neither starts nor ends with
/// whitespace gives the text back.
pub proof fn lemma_trim_padding(a: nat, e: Seq<char>, z: nat)
    requires
        e.len() > 0,
        !is_ws(e[0]),
        !is_ws(e.last()),
    ensures
        trim(repeat(' ', a) + e + repeat(' ', z)) == e,
{
    assert(repeat(' ', a) + e + repeat(' ', z) =~= repeat(' ', a) + (e + repeat(' ', z)));
    assert((e + repeat(' ', z))[0] == e[0]);
    lemma_trim_start_spaces(a, e + repeat(' ', z));
    lemma_trim_end_spaces(e, z);
}


/// Lines each followed by a newline.
pub open spec fn terminated(ls: Seq<Seq<char>>) -> Seq<char>
    decreases ls.len(),
{
    if ls.len() == 0 {
        seq![]
    } else {
        ls[0] + seq!['\n'] + terminated(ls.drop_first())
    }
}


proof fn lemma_trim_start_lead(n: nat, x: Seq<char>)
    ensures
        trim_start(repeat(' ', n) + x) == trim_start(x),
    decreases n,
{
    if n > 0 {
        assert((repeat(' ', n) + x)[0] == ' ');
        assert((repeat(' ', n) + x).drop_first() =~= repeat(' ', (n - 1) as nat) + x);
        lemma_trim_start_lead((n - 1) as nat, x);
    } else {
        assert(repeat(' ', n) + x =~= x);
    }
}

proof fn lemma_trim_end_trail(x: Seq<char>, n: nat)
    ensures
        trim_end(x + repeat(' ', n)) == trim_end(x),
    decreases n,
{
    if n > 0 {
        assert((x + repeat(' ', n)).last() == ' ');
        assert((x + repeat(' ', n)).drop_last() =~= x + repeat(' ', (n - 1) as nat));
        lemma_trim_end_trail(x, (n - 1) as nat);
    } else {
        assert(x + repeat(' ', n) =~= x);
    }
}

proof fn lemma_trim_start_append_spaces(e: Seq<char>, z: nat)
    ensures
        trim_end(trim_start(e + repeat(' ', z))) == trim_end(trim_start(e)),
    decreases e.len(),
{
    if e.len() == 0 {
        assert(e + repeat(' ', z) =~= repeat(' ', 0) + repeat(' ', z));
        lemma_trim_start_lead(z, seq![]);
        assert(repeat(' ', z) =~= repeat(' ', z) + Seq::<char>::empty());
        assert(trim_start(Seq::<char>::empty()) =~= Seq::<char>::empty());
    } else if is_ws(e[0]) {
        assert((e + repeat(' ', z))[0] == e[0]);
        assert((e + repeat(' ', z)).drop_first() =~= e.drop_first() + repeat(' ', z));
        lemma_trim_start_append_spaces(e.drop_first(), z);
    } else {
        assert((e + repeat(' ', z))[0] == e[0]);
        lemma_trim_end_trail(e, z);
    }
}

/// Spaces around a text do not change its trimmed form.
pub proof fn lemma_trim_spaces_around(a: nat, e: Seq<char>, z: nat)
    ensures
        trim(repeat(' ', a) + e + repeat(' ', z)) == trim(e),
{
    assert(repeat(' ', a) + e + repeat(' ', z) =~= repeat(' ', a) + (e + repeat(' ', z)));
    lemma_trim_start_lead(a, e + repeat(' ', z));
    lemma_trim_start_append_spaces(e, z);
}

} // verus!
