//! Line and word diffs of changed blocks, shown when hovering over a
//! change marker in the preview.
//!
//! Lines are matched greedily: each new line is matched with the first
//! equal old line after the previous match, the old lines skipped over
//! are deletions and unmatched new lines additions. Words are matched the
//! same way, token by token.

use std::collections::HashSet;
use vstd::prelude::*;

use crate::text;
use crate::html::{html_escape, html_escaped};
use crate::text::{chars_of, chars_start_with, char_is_ws, lines_of, push_char, push_str, skip_ws, string_from_chars};

verus! {

/// `char::is_alphanumeric`: the Unicode `Alphabetic` or `Numeric` property.
pub uninterp spec fn is_alphanumeric(c: char) -> bool;

/// An ASCII letter or digit.
pub open spec fn is_ascii_alphanumeric(c: char) -> bool {
    ('0' <= c && c <= '9') || ('a' <= c && c <= 'z') || ('A' <= c && c <= 'Z')
}

/// Calls `char::is_alphanumeric`, which std documents as
/// `is_alphabetic() || is_numeric()` over the Unicode `Alphabetic` and
/// `Numeric` properties. The contract names the result and states its
/// ASCII part: an ASCII character is alphanumeric exactly when it is a
/// letter or a digit. The rest of the Unicode tables is left unsaid.
#[verifier::external_body]
fn char_is_alphanumeric(c: char) -> (b: bool)
    ensures
        b == is_alphanumeric(c),
        c < '\u{80}' ==> (b <==> is_ascii_alphanumeric(c)),
{
    c.is_alphanumeric()
}

/// The end of the run of alphanumeric characters of `cs` from `i`.
pub open spec fn alnum_end(cs: Seq<char>, i: int) -> int
    decreases cs.len() - i,
{
    if i < 0 || i >= cs.len() || !is_alphanumeric(cs[i]) {
        i
    } else {
        alnum_end(cs, i + 1)
    }
}

/// The end of the run of whitespace characters of `cs` from `i`.
pub open spec fn ws_end(cs: Seq<char>, i: int) -> int
    decreases cs.len() - i,
{
    if i < 0 || i >= cs.len() || !text::is_ws(cs[i]) {
        i
    } else {
        ws_end(cs, i + 1)
    }
}

pub proof fn lemma_run_ends(cs: Seq<char>, i: int)
    requires
        0 <= i <= cs.len(),
    ensures
        i <= alnum_end(cs, i) <= cs.len(),
        i <= ws_end(cs, i) <= cs.len(),
    decreases cs.len() - i,
{
    if i < cs.len() {
        lemma_run_ends(cs, i + 1);
    }
}

/// The diff tokens of `cs[i..]`: runs of alphanumerics, runs of
/// whitespace, and single other characters.
pub open spec fn tokens_from(cs: Seq<char>, i: int) -> Seq<Seq<char>>
    decreases cs.len() - i,
{
    if i < 0 || i >= cs.len() {
        seq![]
    } else if is_alphanumeric(cs[i]) {
        let e = alnum_end(cs, i + 1);
        proof {
            lemma_run_ends(cs, i + 1);
        }
        seq![cs.subrange(i, e)] + tokens_from(cs, e)
    } else if text::is_ws(cs[i]) {
        let e = ws_end(cs, i + 1);
        proof {
            lemma_run_ends(cs, i + 1);
        }
        seq![cs.subrange(i, e)] + tokens_from(cs, e)
    } else {
        seq![seq![cs[i]]] + tokens_from(cs, i + 1)
    }
}

/// The diff tokens of `s`.
pub open spec fn diff_tokens(s: Seq<char>) -> Seq<Seq<char>> {
    tokens_from(s, 0)
}

/// Split `s` into runs of alphanumerics, runs of whitespace and single
/// other characters; whitespace is kept so the pieces join back to `s`.
pub fn tokenize_for_diff(s: &str) -> (out: Vec<String>)
    ensures
        text::views(out@) == diff_tokens(s@),
{
    let v = chars_of(s);
    let n = v.len();
    let ghost cs = v@;
    let mut out: Vec<String> = Vec::new();
    let mut i: usize = 0;
    assert(text::views(out@) + tokens_from(cs, 0) =~= tokens_from(cs, 0));
    while i < n
        invariant
            i <= n == v.len(),
            cs == v@,
            cs == s@,
            text::views(out@) + tokens_from(cs, i as int) == tokens_from(cs, 0),
        decreases n - i,
    {
        let c = v[i];
        let ghost before = text::views(out@);
        let e: usize;
        if char_is_alphanumeric(c) {
            let mut k = i + 1;
            while k < n && char_is_alphanumeric(v[k])
                invariant
                    i < k <= n == v.len(),
                    cs == v@,
                    alnum_end(cs, k as int) == alnum_end(cs, i + 1),
                decreases n - k,
            {
                k = k + 1;
            }
            e = k;
        } else if char_is_ws(c) {
            let mut k = i + 1;
            while k < n && char_is_ws(v[k])
                invariant
                    i < k <= n == v.len(),
                    cs == v@,
                    ws_end(cs, k as int) == ws_end(cs, i + 1),
                decreases n - k,
            {
                k = k + 1;
            }
            e = k;
        } else {
            e = i + 1;
            assert(cs.subrange(i as int, e as int) =~= seq![cs[i as int]]);
        }
        let tok = string_from_chars(&v, i, e);
        out.push(tok);
        assert(text::views(out@) =~= before.push(tok@));
        assert(text::views(out@) + tokens_from(cs, e as int) =~= before + tokens_from(cs, i as int));
        i = e;
    }
    assert(text::views(out@) + tokens_from(cs, n as int) =~= text::views(out@));
    out
}

/// The tokens of `ts` that are not all whitespace.
pub open spec fn solid(ts: Seq<Seq<char>>) -> Seq<Seq<char>>
    decreases ts.len(),
{
    if ts.len() == 0 {
        seq![]
    } else if text::trim(ts.last()).len() > 0 {
        solid(ts.drop_last()).push(ts.last())
    } else {
        solid(ts.drop_last())
    }
}

/// The first index from `i` on where `xs` holds `x`.
pub open spec fn first_match(xs: Seq<Seq<char>>, i: int, x: Seq<char>) -> Option<int>
    decreases xs.len() - i,
{
    if i < 0 || i >= xs.len() {
        None
    } else if xs[i] == x {
        Some(i)
    } else {
        first_match(xs, i + 1, x)
    }
}

pub proof fn lemma_first_match(xs: Seq<Seq<char>>, i: int, x: Seq<char>)
    requires
        0 <= i,
    ensures
        match first_match(xs, i, x) {
            Some(p) => i <= p < xs.len() && xs[p] == x && forall|q: int| i <= q < p ==> xs[q] != x,
            None => forall|q: int| i <= q < xs.len() ==> xs[q] != x,
        },
    decreases xs.len() - i,
{
    if i < xs.len() && xs[i] != x {
        lemma_first_match(xs, i + 1, x);
    }
}

/// How many tokens of `bs` find a partner in `as_`, each token of `as_`
/// partnering at most once: the size of the multiset intersection,
/// counted by matching each token of `bs` in turn.
pub open spec fn overlap(as_: Seq<Seq<char>>, bs: Seq<Seq<char>>) -> nat
    decreases bs.len(),
{
    if bs.len() == 0 {
        0
    } else {
        match first_match(as_, 0, bs[0]) {
            Some(p) => 1 + overlap(as_.remove(p), bs.drop_first()),
            None => overlap(as_, bs.drop_first()),
        }
    }
}

/// The first index from `i` on where `xs` holds `x`.
fn find_from(xs: &Vec<String>, i: usize, x: &str) -> (r: Option<usize>)
    requires
        i <= xs.len(),
    ensures
        match r {
            Some(p) => first_match(text::views(xs@), i as int, x@) == Some(p as int),
            None => first_match(text::views(xs@), i as int, x@) is None,
        },
{
    let ghost vs = text::views(xs@);
    let mut k = i;
    while k < xs.len()
        invariant
            i <= k <= xs.len(),
            vs == text::views(xs@),
            first_match(vs, i as int, x@) == first_match(vs, k as int, x@),
        decreases xs.len() - k,
    {
        assert(vs[k as int] == xs@[k as int]@);
        if text::str_eq(xs[k].as_str(), x) {
            return Some(k);
        }
        k = k + 1;
    }
    None
}

/// The tokens of `s` that are not all whitespace.
fn solid_tokens(s: &str) -> (out: Vec<String>)
    ensures
        text::views(out@) == solid(diff_tokens(s@)),
{
    let toks = tokenize_for_diff(s);
    let ghost ts = text::views(toks@);
    let mut out: Vec<String> = Vec::new();
    let mut k: usize = 0;
    assert(ts.subrange(0, 0) =~= Seq::<Seq<char>>::empty());
    while k < toks.len()
        invariant
            k <= toks.len(),
            ts == text::views(toks@),
            ts == diff_tokens(s@),
            text::views(out@) == solid(ts.subrange(0, k as int)),
        decreases toks.len() - k,
    {
        let t = toks[k].as_str();
        let tv = chars_of(t);
        let (lo, hi) = text::trim_bounds(&tv);
        let ghost before = text::views(out@);
        assert(ts.subrange(0, k + 1).drop_last() =~= ts.subrange(0, k as int));
        assert(ts.subrange(0, k + 1).last() == t@);
        if lo < hi {
            out.push(toks[k].clone());
            assert(text::views(out@) =~= before.push(t@));
        }
        k = k + 1;
    }
    assert(ts.subrange(0, toks.len() as int) =~= ts);
    out
}

/// The token overlap of two lines: how many of their non-whitespace
/// tokens match, and the larger of their counts of such tokens.
pub open spec fn token_overlap_spec(a: Seq<char>, b: Seq<char>) -> (nat, nat) {
    let at = solid(diff_tokens(a));
    let bt = solid(diff_tokens(b));
    (overlap(at, bt), if at.len() >= bt.len() { at.len() } else { bt.len() })
}

/// The token overlap of two lines: `(common, bigger)`, where `common` is
/// the size of the multiset intersection of their non-whitespace tokens
/// and `bigger` the larger token count. Their similarity is
/// `common / bigger`, and 1 when `bigger` is 0.
pub fn token_overlap(a: &str, b: &str) -> (r: (usize, usize))
    ensures
        (r.0 as nat, r.1 as nat) == token_overlap_spec(a@, b@),
{
    let mut at = solid_tokens(a);
    let bt = solid_tokens(b);
    let bigger = if at.len() >= bt.len() {
        at.len()
    } else {
        bt.len()
    };
    let ghost a0 = text::views(at@);
    let ghost bs = text::views(bt@);
    let mut common: usize = 0;
    let mut k: usize = 0;
    assert(bs.subrange(0, bs.len() as int) =~= bs);
    while k < bt.len()
        invariant
            k <= bt.len(),
            bs == text::views(bt@),
            common <= k,
            common + overlap(text::views(at@), bs.subrange(k as int, bs.len() as int)) == overlap(a0, bs),
        decreases bt.len() - k,
    {
        let ghost rest = bs.subrange(k as int, bs.len() as int);
        assert(rest.drop_first() =~= bs.subrange(k + 1, bs.len() as int));
        assert(rest[0] == bt@[k as int]@);
        match find_from(&at, 0, bt[k].as_str()) {
            Some(p) => {
                proof {
                    lemma_first_match(text::views(at@), 0, rest[0]);
                }
                let ghost before = text::views(at@);
                at.remove(p);
                assert(text::views(at@) =~= before.remove(p as int));
                common = common + 1;
            },
            None => {},
        }
        k = k + 1;
    }
    assert(bs.subrange(bt.len() as int, bs.len() as int) =~= Seq::<Seq<char>>::empty());
    (common, bigger)
}

/// Whether a deleted line and an added line count as one modified line:
/// their similarity `common / bigger` reaches 0.30 (two lines without
/// tokens are identical).
pub open spec fn modified_pair(a: Seq<char>, b: Seq<char>) -> bool {
    let (common, bigger) = token_overlap_spec(a, b);
    bigger == 0 || 10 * common >= 3 * bigger
}

/// Whether `old_line` and `new_line` are similar enough to be shown as
/// one modified line (similarity at least 0.30).
pub fn is_modified_pair(old_line: &str, new_line: &str) -> (b: bool)
    ensures
        b == modified_pair(old_line@, new_line@),
{
    let (common, bigger) = token_overlap(old_line, new_line);
    bigger == 0 || (common as u128) * 10 >= (bigger as u128) * 3
}


/// One step of a line diff.
#[derive(Debug)]
pub enum LineOp {
    Equal(String),
    Delete(String),
    Add(String),
}

/// View of a [`LineOp`].
pub enum OpView {
    Equal(Seq<char>),
    Delete(Seq<char>),
    Add(Seq<char>),
}

impl View for LineOp {
    type V = OpView;

    open spec fn view(&self) -> OpView {
        match self {
            LineOp::Equal(s) => OpView::Equal(s@),
            LineOp::Delete(s) => OpView::Delete(s@),
            LineOp::Add(s) => OpView::Add(s@),
        }
    }
}

pub open spec fn ops_view(v: Seq<LineOp>) -> Seq<OpView> {
    v.map_values(|o: LineOp| o@)
}

/// Deletions of the lines `xs`, in order.
pub open spec fn deletes(xs: Seq<Seq<char>>) -> Seq<OpView> {
    xs.map_values(|l: Seq<char>| OpView::Delete(l))
}

/// The diff of `olds[i..]` against `news[j..]`: each new line is matched
/// with the first equal old line from `i` on (the old lines before it are
/// deleted) or else added; the old lines left at the end are deleted.
pub open spec fn ops_from(olds: Seq<Seq<char>>, news: Seq<Seq<char>>, i: int, j: int) -> Seq<OpView>
    decreases news.len() - j,
{
    if j < 0 || j >= news.len() {
        deletes(olds.subrange(i, olds.len() as int))
    } else {
        match first_match(olds, i, news[j]) {
            Some(p) => deletes(olds.subrange(i, p)) + seq![OpView::Equal(news[j])] + ops_from(
                olds,
                news,
                p + 1,
                j + 1,
            ),
            None => seq![OpView::Add(news[j])] + ops_from(olds, news, i, j + 1),
        }
    }
}

/// The line diff of `olds` against `news`.
pub open spec fn line_ops(olds: Seq<Seq<char>>, news: Seq<Seq<char>>) -> Seq<OpView> {
    ops_from(olds, news, 0, 0)
}

/// Append deletions of `xs[lo..hi]` to `ops`.
fn push_deletes(ops: &mut Vec<LineOp>, xs: &Vec<String>, lo: usize, hi: usize)
    requires
        lo <= hi <= xs.len(),
    ensures
        ops_view(final(ops)@) == ops_view(old(ops)@) + deletes(text::views(xs@).subrange(lo as int, hi as int)),
{
    let ghost vs = text::views(xs@);
    let mut k = lo;
    while k < hi
        invariant
            lo <= k <= hi <= xs.len(),
            vs == text::views(xs@),
            ops_view(ops@) == ops_view(old(ops)@) + deletes(vs.subrange(lo as int, k as int)),
        decreases hi - k,
    {
        let ghost before = ops_view(ops@);
        ops.push(LineOp::Delete(xs[k].clone()));
        assert(ops_view(ops@) =~= before.push(OpView::Delete(vs[k as int])));
        assert(deletes(vs.subrange(lo as int, k + 1)) =~= deletes(vs.subrange(lo as int, k as int)).push(
            OpView::Delete(vs[k as int]),
        ));
        k = k + 1;
    }
}

/// Greedy line diff: each new line is matched with the first equal old
/// line after the previous match; skipped old lines are deletions,
/// unmatched new lines additions.
pub fn line_diff_ops(old_lines: &Vec<String>, new_lines: &Vec<String>) -> (ops: Vec<LineOp>)
    ensures
        ops_view(ops@) == line_ops(text::views(old_lines@), text::views(new_lines@)),
{
    let ghost olds = text::views(old_lines@);
    let ghost news = text::views(new_lines@);
    let mut ops: Vec<LineOp> = Vec::new();
    let mut i: usize = 0;
    let mut j: usize = 0;
    assert(ops_view(ops@) + ops_from(olds, news, 0, 0) =~= ops_from(olds, news, 0, 0));
    while j < new_lines.len()
        invariant
            i <= old_lines.len(),
            j <= new_lines.len(),
            olds == text::views(old_lines@),
            news == text::views(new_lines@),
            ops_view(ops@) + ops_from(olds, news, i as int, j as int) == line_ops(olds, news),
        decreases new_lines.len() - j,
    {
        let ghost before = ops_view(ops@);
        assert(news[j as int] == new_lines@[j as int]@);
        match find_from(old_lines, i, new_lines[j].as_str()) {
            Some(p) => {
                proof {
                    lemma_first_match(olds, i as int, news[j as int]);
                }
                push_deletes(&mut ops, old_lines, i, p);
                let ghost mid = ops_view(ops@);
                ops.push(LineOp::Equal(new_lines[j].clone()));
                assert(ops_view(ops@) =~= mid.push(OpView::Equal(news[j as int])));
                assert(ops_view(ops@) + ops_from(olds, news, p + 1, j + 1) =~= before + ops_from(
                    olds,
                    news,
                    i as int,
                    j as int,
                ));
                i = p + 1;
            },
            None => {
                ops.push(LineOp::Add(new_lines[j].clone()));
                assert(ops_view(ops@) =~= before.push(OpView::Add(news[j as int])));
                assert(ops_view(ops@) + ops_from(olds, news, i as int, j + 1) =~= before + ops_from(
                    olds,
                    news,
                    i as int,
                    j as int,
                ));
            },
        }
        j = j + 1;
    }
    push_deletes(&mut ops, old_lines, i, old_lines.len());
    ops
}


/// How diff pieces are written: as markdown (`<del>`/`<ins>` around raw
/// text, rendered later) or as HTML (`<span>`s around escaped text, for
/// code blocks).
#[derive(Clone, Copy, Debug, PartialEq, Eq, Structural)]
pub enum DiffStyle {
    Markdown,
    Html,
}

/// A deleted piece.
pub open spec fn del_piece(st: DiffStyle, s: Seq<char>) -> Seq<char> {
    match st {
        DiffStyle::Markdown => "<del class=\"rmd-diff-w-del\">"@ + s + "</del>"@,
        DiffStyle::Html => "<span class=\"rmd-diff-w-del\">"@ + html_escaped(s) + "</span>"@,
    }
}

/// An inserted piece.
pub open spec fn ins_piece(st: DiffStyle, s: Seq<char>) -> Seq<char> {
    match st {
        DiffStyle::Markdown => "<ins class=\"rmd-diff-w-add\">"@ + s + "</ins>"@,
        DiffStyle::Html => "<span class=\"rmd-diff-w-add\">"@ + html_escaped(s) + "</span>"@,
    }
}

/// An unchanged piece.
pub open spec fn keep_piece(st: DiffStyle, s: Seq<char>) -> Seq<char> {
    match st {
        DiffStyle::Markdown => s,
        DiffStyle::Html => html_escaped(s),
    }
}

/// The pieces `xs`, each deleted.
pub open spec fn del_all(st: DiffStyle, xs: Seq<Seq<char>>) -> Seq<char>
    decreases xs.len(),
{
    if xs.len() == 0 {
        seq![]
    } else {
        del_all(st, xs.drop_last()) + del_piece(st, xs.last())
    }
}

/// The pieces `xs`, each inserted.
pub open spec fn ins_all(st: DiffStyle, xs: Seq<Seq<char>>) -> Seq<char>
    decreases xs.len(),
{
    if xs.len() == 0 {
        seq![]
    } else {
        ins_all(st, xs.drop_last()) + ins_piece(st, xs.last())
    }
}

/// The word diff of tokens `olds[i..]` against `news[j..]`, the new
/// tokens `pend` not yet matched: each new token is matched with the
/// first equal old token from `i` on; at a match the skipped old tokens
/// are written deleted, then the pending new tokens inserted, then the
/// matched token; the rest is deleted and inserted at the end.
pub open spec fn word_diff_from(
    st: DiffStyle,
    olds: Seq<Seq<char>>,
    news: Seq<Seq<char>>,
    i: int,
    j: int,
    pend: Seq<Seq<char>>,
) -> Seq<char>
    decreases news.len() - j,
{
    if j < 0 || j >= news.len() {
        del_all(st, olds.subrange(i, olds.len() as int)) + ins_all(st, pend)
    } else {
        match first_match(olds, i, news[j]) {
            Some(p) => del_all(st, olds.subrange(i, p)) + ins_all(st, pend) + keep_piece(st, news[j])
                + word_diff_from(st, olds, news, p + 1, j + 1, seq![]),
            None => word_diff_from(st, olds, news, i, j + 1, pend.push(news[j])),
        }
    }
}

/// The word diff of line `old` against line `new`.
pub open spec fn word_diff(st: DiffStyle, old: Seq<char>, new: Seq<char>) -> Seq<char> {
    word_diff_from(st, diff_tokens(old), diff_tokens(new), 0, 0, seq![])
}

fn push_del(out: &mut String, st: DiffStyle, s: &str)
    ensures
        final(out)@ == old(out)@ + del_piece(st, s@),
{
    match st {
        DiffStyle::Markdown => {
            push_str(out, "<del class=\"rmd-diff-w-del\">");
            push_str(out, s);
            push_str(out, "</del>");
        },
        DiffStyle::Html => {
            push_str(out, "<span class=\"rmd-diff-w-del\">");
            let e = html_escape(s);
            push_str(out, e.as_str());
            push_str(out, "</span>");
        },
    }
}

fn push_ins(out: &mut String, st: DiffStyle, s: &str)
    ensures
        final(out)@ == old(out)@ + ins_piece(st, s@),
{
    match st {
        DiffStyle::Markdown => {
            push_str(out, "<ins class=\"rmd-diff-w-add\">");
            push_str(out, s);
            push_str(out, "</ins>");
        },
        DiffStyle::Html => {
            push_str(out, "<span class=\"rmd-diff-w-add\">");
            let e = html_escape(s);
            push_str(out, e.as_str());
            push_str(out, "</span>");
        },
    }
}

fn push_keep(out: &mut String, st: DiffStyle, s: &str)
    ensures
        final(out)@ == old(out)@ + keep_piece(st, s@),
{
    match st {
        DiffStyle::Markdown => push_str(out, s),
        DiffStyle::Html => {
            let e = html_escape(s);
            push_str(out, e.as_str());
        },
    }
}

/// Write `xs[lo..hi]`, each deleted.
fn push_del_range(out: &mut String, st: DiffStyle, xs: &Vec<String>, lo: usize, hi: usize)
    requires
        lo <= hi <= xs.len(),
    ensures
        final(out)@ == old(out)@ + del_all(st, text::views(xs@).subrange(lo as int, hi as int)),
{
    let ghost vs = text::views(xs@);
    let mut k = lo;
    assert(vs.subrange(lo as int, lo as int) =~= Seq::<Seq<char>>::empty());
    while k < hi
        invariant
            lo <= k <= hi <= xs.len(),
            vs == text::views(xs@),
            out@ == old(out)@ + del_all(st, vs.subrange(lo as int, k as int)),
        decreases hi - k,
    {
        assert(vs.subrange(lo as int, k + 1).drop_last() =~= vs.subrange(lo as int, k as int));
        assert(vs[k as int] == xs@[k as int]@);
        push_del(out, st, xs[k].as_str());
        assert(out@ =~= old(out)@ + del_all(st, vs.subrange(lo as int, k + 1)));
        k = k + 1;
    }
}

/// Write all of `xs`, each inserted.
fn push_ins_all(out: &mut String, st: DiffStyle, xs: &Vec<String>)
    ensures
        final(out)@ == old(out)@ + ins_all(st, text::views(xs@)),
{
    let ghost vs = text::views(xs@);
    let mut k: usize = 0;
    assert(vs.subrange(0, 0) =~= Seq::<Seq<char>>::empty());
    while k < xs.len()
        invariant
            k <= xs.len(),
            vs == text::views(xs@),
            out@ == old(out)@ + ins_all(st, vs.subrange(0, k as int)),
        decreases xs.len() - k,
    {
        assert(vs.subrange(0, k + 1).drop_last() =~= vs.subrange(0, k as int));
        assert(vs[k as int] == xs@[k as int]@);
        push_ins(out, st, xs[k].as_str());
        assert(out@ =~= old(out)@ + ins_all(st, vs.subrange(0, k + 1)));
        k = k + 1;
    }
    assert(vs.subrange(0, xs.len() as int) =~= vs);
}

/// The word diff of `old` against `new` in style `st`.
fn word_diff_exec(old: &str, new: &str, st: DiffStyle) -> (out: String)
    ensures
        out@ == word_diff(st, old@, new@),
{
    let old_tokens = tokenize_for_diff(old);
    let new_tokens = tokenize_for_diff(new);
    let ghost olds = text::views(old_tokens@);
    let ghost news = text::views(new_tokens@);
    let mut out = String::new();
    let mut i: usize = 0;
    let mut pending: Vec<String> = Vec::new();
    let mut j: usize = 0;
    assert(text::views(pending@) =~= Seq::<Seq<char>>::empty());
    assert(out@ + word_diff_from(st, olds, news, 0, 0, text::views(pending@)) =~= word_diff(st, old@, new@));
    while j < new_tokens.len()
        invariant
            i <= old_tokens.len(),
            j <= new_tokens.len(),
            olds == text::views(old_tokens@),
            news == text::views(new_tokens@),
            olds == diff_tokens(old@),
            news == diff_tokens(new@),
            out@ + word_diff_from(st, olds, news, i as int, j as int, text::views(pending@)) == word_diff(
                st,
                old@,
                new@,
            ),
        decreases new_tokens.len() - j,
    {
        let ghost before = out@;
        let ghost pend = text::views(pending@);
        let t = new_tokens[j].as_str();
        assert(t@ == news[j as int]);
        match find_from(&old_tokens, i, t) {
            Some(p) => {
                proof {
                    lemma_first_match(olds, i as int, news[j as int]);
                }
                push_del_range(&mut out, st, &old_tokens, i, p);
                push_ins_all(&mut out, st, &pending);
                pending = Vec::new();
                push_keep(&mut out, st, t);
                assert(text::views(pending@) =~= Seq::<Seq<char>>::empty());
                assert(out@ + word_diff_from(st, olds, news, p + 1, j + 1, text::views(pending@)) =~= before
                    + word_diff_from(st, olds, news, i as int, j as int, pend));
                i = p + 1;
            },
            None => {
                pending.push(new_tokens[j].clone());
                assert(text::views(pending@) =~= pend.push(news[j as int]));
            },
        }
        j = j + 1;
    }
    push_del_range(&mut out, st, &old_tokens, i, old_tokens.len());
    push_ins_all(&mut out, st, &pending);
    out
}

/// The markdown word diff of a modified line: `new` with the changed
/// words wrapped in `<del>` / `<ins>` (deletions first), to be rendered
/// with the surrounding block's typography.
pub fn build_annotated_word_diff_md(old: &str, new: &str) -> (out: String)
    ensures
        out@ == word_diff(DiffStyle::Markdown, old@, new@),
{
    word_diff_exec(old, new, DiffStyle::Markdown)
}

/// The HTML word diff of a modified code line: escaped text with the
/// changed words in `<span>`s, fit to stand inside `<pre><code>`.
pub fn render_word_diff_html(old: &str, new: &str) -> (out: String)
    ensures
        out@ == word_diff(DiffStyle::Html, old@, new@),
{
    word_diff_exec(old, new, DiffStyle::Html)
}


/// The end of the run of changed lines (deletions and additions) of
/// `ops` from `k`.
pub open spec fn change_end(ops: Seq<OpView>, k: int) -> int
    decreases ops.len() - k,
{
    if k < 0 || k >= ops.len() || ops[k] is Equal {
        k
    } else {
        change_end(ops, k + 1)
    }
}

pub proof fn lemma_change_end(ops: Seq<OpView>, k: int)
    requires
        0 <= k <= ops.len(),
    ensures
        k <= change_end(ops, k) <= ops.len(),
    decreases ops.len() - k,
{
    if k < ops.len() && !(ops[k] is Equal) {
        lemma_change_end(ops, k + 1);
    }
}

/// The deleted lines of `g`, in order.
pub open spec fn dels_of(g: Seq<OpView>) -> Seq<Seq<char>>
    decreases g.len(),
{
    if g.len() == 0 {
        seq![]
    } else {
        match g.last() {
            OpView::Delete(s) => dels_of(g.drop_last()).push(s),
            _ => dels_of(g.drop_last()),
        }
    }
}

/// The added lines of `g`, in order.
pub open spec fn adds_of(g: Seq<OpView>) -> Seq<Seq<char>>
    decreases g.len(),
{
    if g.len() == 0 {
        seq![]
    } else {
        match g.last() {
            OpView::Add(s) => adds_of(g.drop_last()).push(s),
            _ => adds_of(g.drop_last()),
        }
    }
}

/// A deleted line.
pub open spec fn del_line(st: DiffStyle, s: Seq<char>) -> Seq<char> {
    del_piece(st, s) + seq!['\n']
}

/// An added line.
pub open spec fn ins_line(st: DiffStyle, s: Seq<char>) -> Seq<char> {
    ins_piece(st, s) + seq!['\n']
}

/// The lines `xs`, each deleted.
pub open spec fn del_lines(st: DiffStyle, xs: Seq<Seq<char>>) -> Seq<char>
    decreases xs.len(),
{
    if xs.len() == 0 {
        seq![]
    } else {
        del_lines(st, xs.drop_last()) + del_line(st, xs.last())
    }
}

/// The lines `xs`, each added.
pub open spec fn ins_lines(st: DiffStyle, xs: Seq<Seq<char>>) -> Seq<char>
    decreases xs.len(),
{
    if xs.len() == 0 {
        seq![]
    } else {
        ins_lines(st, xs.drop_last()) + ins_line(st, xs.last())
    }
}

/// A deleted line paired with an added one: a word diff when they are
/// similar enough, else the deletion then the addition.
pub open spec fn pair_piece(st: DiffStyle, d: Seq<char>, a: Seq<char>) -> Seq<char> {
    if modified_pair(d, a) {
        word_diff(st, d, a) + seq!['\n']
    } else {
        del_line(st, d) + ins_line(st, a)
    }
}

/// The pairs `(dels[i], adds[i])` for `i` in `k..m`.
pub open spec fn pairs_from(st: DiffStyle, dels: Seq<Seq<char>>, adds: Seq<Seq<char>>, k: int, m: int) -> Seq<char>
    decreases m - k,
{
    if k >= m {
        seq![]
    } else {
        pair_piece(st, dels[k], adds[k]) + pairs_from(st, dels, adds, k + 1, m)
    }
}

/// A run of changed lines: its deletions and additions paired in order,
/// then the unpaired deletions, then the unpaired additions.
pub open spec fn group_piece(st: DiffStyle, g: Seq<OpView>) -> Seq<char> {
    let d = dels_of(g);
    let a = adds_of(g);
    let m = if d.len() <= a.len() {
        d.len()
    } else {
        a.len()
    };
    pairs_from(st, d, a, 0, m as int) + del_lines(st, d.subrange(m as int, d.len() as int)) + ins_lines(
        st,
        a.subrange(m as int, a.len() as int),
    )
}

/// The diff text of `ops[k..]`: unchanged lines as they are, each run of
/// changed lines as its group.
pub open spec fn diff_body(st: DiffStyle, ops: Seq<OpView>, k: int) -> Seq<char>
    decreases ops.len() - k,
{
    if k < 0 || k >= ops.len() {
        seq![]
    } else {
        match ops[k] {
            OpView::Equal(l) => keep_piece(st, l) + seq!['\n'] + diff_body(st, ops, k + 1),
            _ => {
                let e = change_end(ops, k);
                proof {
                    lemma_change_end(ops, k + 1);
                }
                group_piece(st, ops.subrange(k, e)) + diff_body(st, ops, e)
            },
        }
    }
}

fn push_del_lines(out: &mut String, st: DiffStyle, xs: &Vec<String>, lo: usize)
    requires
        lo <= xs.len(),
    ensures
        final(out)@ == old(out)@ + del_lines(st, text::views(xs@).subrange(lo as int, xs.len() as int)),
{
    let ghost vs = text::views(xs@);
    let mut k = lo;
    assert(vs.subrange(lo as int, lo as int) =~= Seq::<Seq<char>>::empty());
    while k < xs.len()
        invariant
            lo <= k <= xs.len(),
            vs == text::views(xs@),
            out@ == old(out)@ + del_lines(st, vs.subrange(lo as int, k as int)),
        decreases xs.len() - k,
    {
        assert(vs.subrange(lo as int, k + 1).drop_last() =~= vs.subrange(lo as int, k as int));
        assert(vs[k as int] == xs@[k as int]@);
        push_del(out, st, xs[k].as_str());
        push_char(out, '\n');
        assert(out@ =~= old(out)@ + del_lines(st, vs.subrange(lo as int, k + 1)));
        k = k + 1;
    }
}

fn push_ins_lines(out: &mut String, st: DiffStyle, xs: &Vec<String>, lo: usize)
    requires
        lo <= xs.len(),
    ensures
        final(out)@ == old(out)@ + ins_lines(st, text::views(xs@).subrange(lo as int, xs.len() as int)),
{
    let ghost vs = text::views(xs@);
    let mut k = lo;
    assert(vs.subrange(lo as int, lo as int) =~= Seq::<Seq<char>>::empty());
    while k < xs.len()
        invariant
            lo <= k <= xs.len(),
            vs == text::views(xs@),
            out@ == old(out)@ + ins_lines(st, vs.subrange(lo as int, k as int)),
        decreases xs.len() - k,
    {
        assert(vs.subrange(lo as int, k + 1).drop_last() =~= vs.subrange(lo as int, k as int));
        assert(vs[k as int] == xs@[k as int]@);
        push_ins(out, st, xs[k].as_str());
        push_char(out, '\n');
        assert(out@ =~= old(out)@ + ins_lines(st, vs.subrange(lo as int, k + 1)));
        k = k + 1;
    }
}

/// Write a run of changed lines: deletions `dels`, additions `adds`.
fn push_group(out: &mut String, st: DiffStyle, dels: &Vec<String>, adds: &Vec<String>)
    ensures
        ({
            let d = text::views(dels@);
            let a = text::views(adds@);
            let m = if d.len() <= a.len() {
                d.len()
            } else {
                a.len()
            };
            final(out)@ == old(out)@ + pairs_from(st, d, a, 0, m as int) + del_lines(
                st,
                d.subrange(m as int, d.len() as int),
            ) + ins_lines(st, a.subrange(m as int, a.len() as int))
        }),
{
    let ghost d = text::views(dels@);
    let ghost a = text::views(adds@);
    let pair_count = if dels.len() <= adds.len() {
        dels.len()
    } else {
        adds.len()
    };
    let mut i: usize = 0;
    while i < pair_count
        invariant
            i <= pair_count <= dels.len(),
            pair_count <= adds.len(),
            d == text::views(dels@),
            a == text::views(adds@),
            old(out)@ + pairs_from(st, d, a, 0, pair_count as int) == out@ + pairs_from(st, d, a, i as int, pair_count as int),
        decreases pair_count - i,
    {
        let old_line = dels[i].as_str();
        let new_line = adds[i].as_str();
        assert(old_line@ == d[i as int] && new_line@ == a[i as int]);
        let ghost before = out@;
        if is_modified_pair(old_line, new_line) {
            let w = word_diff_exec(old_line, new_line, st);
            push_str(out, w.as_str());
            push_char(out, '\n');
        } else {
            push_del(out, st, old_line);
            push_char(out, '\n');
            push_ins(out, st, new_line);
            push_char(out, '\n');
        }
        assert(out@ + pairs_from(st, d, a, i + 1, pair_count as int) =~= before + pairs_from(st, d, a, i as int, pair_count as int));
        i = i + 1;
    }
    assert(out@ + pairs_from(st, d, a, i as int, pair_count as int) =~= out@);
    push_del_lines(out, st, dels, pair_count);
    push_ins_lines(out, st, adds, pair_count);
}

/// The deletions and additions of the run of changed lines of `ops`
/// from `k0`, and the index after it.
fn collect_run(ops: &Vec<LineOp>, k0: usize) -> (res: (Vec<String>, Vec<String>, usize))
    requires
        k0 <= ops.len(),
    ensures
        res.2 == change_end(ops_view(ops@), k0 as int),
        k0 <= res.2 <= ops.len(),
        text::views(res.0@) == dels_of(ops_view(ops@).subrange(k0 as int, res.2 as int)),
        text::views(res.1@) == adds_of(ops_view(ops@).subrange(k0 as int, res.2 as int)),
{
    let ghost os = ops_view(ops@);
    let mut adds: Vec<String> = Vec::new();
    let mut dels: Vec<String> = Vec::new();
    let mut idx = k0;
    assert(os.subrange(k0 as int, k0 as int) =~= Seq::<OpView>::empty());
    assert(text::views(adds@) =~= Seq::<Seq<char>>::empty());
    assert(text::views(dels@) =~= Seq::<Seq<char>>::empty());
    while idx < ops.len()
        invariant_except_break
            k0 <= idx <= ops.len(),
            os == ops_view(ops@),
            change_end(os, idx as int) == change_end(os, k0 as int),
            text::views(dels@) == dels_of(os.subrange(k0 as int, idx as int)),
            text::views(adds@) == adds_of(os.subrange(k0 as int, idx as int)),
        ensures
            k0 <= idx <= ops.len(),
            idx == change_end(os, k0 as int),
            text::views(dels@) == dels_of(os.subrange(k0 as int, idx as int)),
            text::views(adds@) == adds_of(os.subrange(k0 as int, idx as int)),
        decreases ops.len() - idx,
    {
        let ghost g = os.subrange(k0 as int, idx + 1);
        assert(g.drop_last() =~= os.subrange(k0 as int, idx as int));
        assert(g.last() == os[idx as int]);
        match &ops[idx] {
            LineOp::Add(s) => {
                let ghost pa = text::views(adds@);
                adds.push(s.clone());
                assert(text::views(adds@) =~= pa.push(s@));
            },
            LineOp::Delete(s) => {
                let ghost pd = text::views(dels@);
                dels.push(s.clone());
                assert(text::views(dels@) =~= pd.push(s@));
            },
            LineOp::Equal(_) => {
                break;
            },
        }
        idx = idx + 1;
    }
    (dels, adds, idx)
}

proof fn lemma_diff_body_equal(st: DiffStyle, os: Seq<OpView>, k: int, l: Seq<char>)
    requires
        0 <= k < os.len(),
        os[k] == OpView::Equal(l),
    ensures
        diff_body(st, os, k) == keep_piece(st, l) + seq!['\n'] + diff_body(st, os, k + 1),
{
}

proof fn lemma_diff_body_group(st: DiffStyle, os: Seq<OpView>, k: int)
    requires
        0 <= k < os.len(),
        !(os[k] is Equal),
    ensures
        diff_body(st, os, k) == group_piece(st, os.subrange(k, change_end(os, k))) + diff_body(
            st,
            os,
            change_end(os, k),
        ),
{
}

/// Write the diff text of `ops` in style `st`.
#[verifier::spinoff_prover]
fn diff_body_exec(ops: &Vec<LineOp>, st: DiffStyle) -> (out: String)
    ensures
        out@ == diff_body(st, ops_view(ops@), 0),
{
    let ghost os = ops_view(ops@);
    let mut out = String::new();
    let mut idx: usize = 0;
    assert(out@ + diff_body(st, os, 0) =~= diff_body(st, os, 0));
    while idx < ops.len()
        invariant
            idx <= ops.len(),
            os == ops_view(ops@),
            out@ + diff_body(st, os, idx as int) == diff_body(st, os, 0),
        decreases ops.len() - idx,
    {
        let ghost before = out@;
        let ghost k0 = idx;
        if let LineOp::Equal(line) = &ops[idx] {
            proof {
                lemma_diff_body_equal(st, os, idx as int, line@);
            }
            push_keep(&mut out, st, line.as_str());
            push_char(&mut out, '\n');
            assert(out@ + diff_body(st, os, idx + 1) =~= before + diff_body(st, os, idx as int));
            idx = idx + 1;
        } else {
            let (dels, adds, e) = collect_run(ops, idx);
            proof {
                lemma_change_end(os, k0 + 1);
                lemma_diff_body_group(st, os, k0 as int);
            }
            push_group(&mut out, st, &dels, &adds);
            assert(out@ + diff_body(st, os, e as int) =~= before + diff_body(st, os, k0 as int));
            idx = e;
        }
    }
    assert(out@ + diff_body(st, os, idx as int) =~= out@);
    out
}

/// The annotated markdown diff of block `old` against block `new`.
pub open spec fn annotated_diff(old: Seq<char>, new: Seq<char>) -> Seq<char> {
    diff_body(DiffStyle::Markdown, line_ops(text::lines(old), text::lines(new)), 0)
}

/// Annotated markdown for a changed block: unchanged lines pass through,
/// modified lines become word diffs, whole added or deleted lines are
/// wrapped in `<ins>` / `<del>`. Rendered like the block itself, it
/// shows what changed with the block's own typography.
pub fn build_annotated_diff_md(old: &str, new: &str) -> (out: String)
    ensures
        out@ == annotated_diff(old@, new@),
{
    let old_lines = lines_of(old);
    let new_lines = lines_of(new);
    let ops = line_diff_ops(&old_lines, &new_lines);
    diff_body_exec(&ops, DiffStyle::Markdown)
}

/// A line that opens or closes a fence: after leading whitespace it
/// starts with three backticks or three tildes.
pub open spec fn is_fence_start(l: Seq<char>) -> bool {
    let t = text::trim_start(l);
    text::starts_with(t, seq!['`', '`', '`']) || text::starts_with(t, seq!['~', '~', '~'])
}

/// `ls` without a fence line at its start and at its end.
pub open spec fn strip_fences(ls: Seq<Seq<char>>) -> Seq<Seq<char>> {
    let a = if ls.len() > 0 && is_fence_start(ls[0]) {
        ls.drop_first()
    } else {
        ls
    };
    if a.len() > 0 && is_fence_start(a.last()) {
        a.drop_last()
    } else {
        a
    }
}

fn fence_start(l: &str) -> (b: bool)
    ensures
        b == is_fence_start(l@),
{
    let v = chars_of(l);
    let n = v.len();
    assert(v@.subrange(0, n as int) =~= v@);
    let lo = skip_ws(&v, 0, n);
    proof {
        reveal_strlit("```");
        reveal_strlit("~~~");
        assert("```"@ =~= seq!['`', '`', '`']);
        assert("~~~"@ =~= seq!['~', '~', '~']);
    }
    chars_start_with(&v, lo, n, "```") || chars_start_with(&v, lo, n, "~~~")
}

/// The lines of `text` without a fence line at its start and its end.
fn fence_stripped_lines(text: &str) -> (out: Vec<String>)
    ensures
        text::views(out@) == strip_fences(text::lines(text@)),
{
    let mut lines = lines_of(text);
    let ghost ls = text::views(lines@);
    if lines.len() > 0 && fence_start(lines[0].as_str()) {
        lines.remove(0);
        assert(text::views(lines@) =~= ls.drop_first());
    }
    let ghost a = text::views(lines@);
    let n = lines.len();
    if n > 0 && fence_start(lines[n - 1].as_str()) {
        lines.pop();
        assert(text::views(lines@) =~= a.drop_last());
    }
    lines
}

/// The HTML diff of a fenced code block.
pub open spec fn code_block_diff(old: Seq<char>, new: Seq<char>) -> Seq<char> {
    "<pre><code>"@ + diff_body(
        DiffStyle::Html,
        line_ops(strip_fences(text::lines(old)), strip_fences(text::lines(new))),
        0,
    ) + "</code></pre>"@
}

/// HTML diff of a fenced code block: the fence lines are dropped and the
/// same line and word diff is written as escaped text with `<span>`s, so
/// it survives inside `<pre><code>`.
pub fn build_code_block_diff_html(old: &str, new: &str) -> (out: String)
    ensures
        out@ == code_block_diff(old@, new@),
{
    let old_lines = fence_stripped_lines(old);
    let new_lines = fence_stripped_lines(new);
    let ops = line_diff_ops(&old_lines, &new_lines);
    let body = diff_body_exec(&ops, DiffStyle::Html);
    let mut out = String::new();
    push_str(&mut out, "<pre><code>");
    push_str(&mut out, body.as_str());
    push_str(&mut out, "</code></pre>");
    out
}

/// The first line of a text, or nothing for a text without lines.
pub open spec fn first_line(t: Seq<char>) -> Seq<char> {
    if text::lines(t).len() > 0 {
        text::lines(t)[0]
    } else {
        seq![]
    }
}

/// Whether a block starts with a code fence.
pub fn block_starts_with_fence(text: &str) -> (b: bool)
    ensures
        b == is_fence_start(first_line(text@)),
{
    let lines = lines_of(text);
    if lines.len() > 0 {
        assert(lines@[0]@ == text::lines(text@)[0]);
        fence_start(lines[0].as_str())
    } else {
        proof {
            reveal_strlit("");
        }
        fence_start("")
    }
}


/// The top-level blocks of the lines `ls` from `idx` on, as 1-based
/// inclusive line ranges: runs of non-blank lines, where a fence
/// (``` or ~~~) keeps everything up to its closing line in the block.
/// `start` is the first line of the open block, `in_fence` whether a
/// fence opened with `marker` is open.
pub open spec fn blocks_from(
    ls: Seq<Seq<char>>,
    idx: int,
    start: Option<int>,
    in_fence: bool,
    marker: Seq<char>,
) -> Seq<(usize, usize)>
    decreases ls.len() - idx,
{
    if idx < 0 || idx >= ls.len() {
        match start {
            Some(s) => seq![(s as usize, ls.len() as usize)],
            None => seq![],
        }
    } else {
        let line = ls[idx];
        let t = text::trim_start(line);
        let opened = if start is None {
            Some(idx + 1)
        } else {
            start
        };
        if in_fence {
            blocks_from(ls, idx + 1, start, !text::starts_with(t, marker), marker)
        } else if text::starts_with(t, seq!['`', '`', '`']) {
            blocks_from(ls, idx + 1, opened, true, seq!['`', '`', '`'])
        } else if text::starts_with(t, seq!['~', '~', '~']) {
            blocks_from(ls, idx + 1, opened, true, seq!['~', '~', '~'])
        } else if text::trim(line).len() == 0 {
            match start {
                Some(s) => seq![(s as usize, idx as usize)] + blocks_from(ls, idx + 1, None, false, marker),
                None => blocks_from(ls, idx + 1, None, false, marker),
            }
        } else {
            blocks_from(ls, idx + 1, opened, false, marker)
        }
    }
}

/// The top-level blocks of a text.
pub open spec fn top_level_blocks(t: Seq<char>) -> Seq<(usize, usize)> {
    blocks_from(text::lines(t), 0, None, false, seq![])
}

/// Approximate top-level markdown blocks as 1-based inclusive line
/// ranges: text split on blank lines, fenced code blocks (``` or ~~~)
/// kept whole. A list with blank lines between items splits per item.
pub fn split_top_level_blocks(text: &str) -> (blocks: Vec<(usize, usize)>)
    ensures
        blocks@ == top_level_blocks(text@),
{
    let lines = lines_of(text);
    let ghost ls = text::lines(text@);
    let n = lines.len();
    let mut blocks: Vec<(usize, usize)> = Vec::new();
    let mut block_start: Option<usize> = None;
    let mut in_fence = false;
    let mut fence_marker: &str = "";
    let mut idx: usize = 0;
    proof {
        reveal_strlit("");
        reveal_strlit("```");
        reveal_strlit("~~~");
        assert(""@ =~= Seq::<char>::empty());
    }
    assert(blocks@ + top_level_blocks(text@) =~= top_level_blocks(text@));
    while idx < n
        invariant
            idx <= n == lines.len(),
            text::views(lines@) == ls,
            ls == text::lines(text@),
            "```"@ =~= seq!['`', '`', '`'],
            "~~~"@ =~= seq!['~', '~', '~'],
            match block_start {
                Some(s) => 1 <= s <= idx,
                None => true,
            },
            blocks@ + blocks_from(
                ls,
                idx as int,
                match block_start {
                    Some(s) => Some(s as int),
                    None => None,
                },
                in_fence,
                fence_marker@,
            ) == top_level_blocks(text@),
        decreases n - idx,
    {
        let line = lines[idx].as_str();
        assert(line@ == ls[idx as int]);
        let v = chars_of(line);
        let m = v.len();
        assert(v@.subrange(0, m as int) =~= v@);
        let lo = skip_ws(&v, 0, m);
        let ghost before = blocks@;
        if in_fence {
            if chars_start_with(&v, lo, m, fence_marker) {
                in_fence = false;
            }
        } else if chars_start_with(&v, lo, m, "```") || chars_start_with(&v, lo, m, "~~~") {
            if block_start.is_none() {
                block_start = Some(idx + 1);
            }
            in_fence = true;
            fence_marker = if chars_start_with(&v, lo, m, "```") {
                "```"
            } else {
                "~~~"
            };
        } else {
            let (tlo, thi) = text::trim_bounds(&v);
            if tlo == thi {
                match block_start {
                    Some(start) => {
                        blocks.push((start, idx));
                        assert(blocks@ =~= before.push((start, idx)));
                    },
                    None => {},
                }
                block_start = None;
            } else if block_start.is_none() {
                block_start = Some(idx + 1);
            }
        }
        assert(blocks@ + blocks_from(
            ls,
            idx + 1,
            match block_start {
                Some(s) => Some(s as int),
                None => None,
            },
            in_fence,
            fence_marker@,
        ) =~= top_level_blocks(text@));
        idx = idx + 1;
    }
    if let Some(start) = block_start {
        blocks.push((start, n));
    }
    assert(blocks@ =~= top_level_blocks(text@));
    blocks
}

/// The 1-based indices of the lines of `news` from `j` on that find no
/// partner among the old lines `rem`, each new line taking the first
/// equal old line still unpartnered.
pub open spec fn changed_from(rem: Seq<Seq<char>>, news: Seq<Seq<char>>, j: int) -> Set<usize>
    decreases news.len() - j,
{
    if j < 0 || j >= news.len() {
        Set::empty()
    } else {
        match first_match(rem, 0, news[j]) {
            Some(p) => changed_from(rem.remove(p), news, j + 1),
            None => changed_from(rem, news, j + 1).insert((j + 1) as usize),
        }
    }
}

/// The changed lines of `new` against `old`.
pub open spec fn changed_lines(old: Seq<char>, new: Seq<char>) -> Set<usize> {
    changed_from(text::lines(old), text::lines(new), 0)
}

/// Multiset line subtraction: the 1-based indices of the lines of `new`
/// that occur more often in `new` (up to that line) than in `old`.
/// Imprecise around repeated lines, enough to mark changed prose.
pub fn compute_changed_lines(old: &str, new: &str) -> (changed: HashSet<usize>)
    ensures
        changed@ == changed_lines(old@, new@),
{
    broadcast use vstd::std_specs::hash::group_hash_axioms;
    let mut rem = lines_of(old);
    let new_lines = lines_of(new);
    let ghost news = text::lines(new@);
    let mut changed: HashSet<usize> = HashSet::new();
    let mut j: usize = 0;
    while j < new_lines.len()
        invariant
            j <= new_lines.len(),
            text::views(new_lines@) == news,
            news == text::lines(new@),
            changed@.union(changed_from(text::views(rem@), news, j as int)) == changed_lines(old@, new@),
        decreases new_lines.len() - j,
    {
        let ghost r0 = text::views(rem@);
        let ghost c0 = changed@;
        assert(new_lines@[j as int]@ == news[j as int]);
        match find_from(&rem, 0, new_lines[j].as_str()) {
            Some(p) => {
                proof {
                    lemma_first_match(r0, 0, news[j as int]);
                }
                rem.remove(p);
                assert(text::views(rem@) =~= r0.remove(p as int));
            },
            None => {
                changed.insert(j + 1);
                assert(changed@.union(changed_from(text::views(rem@), news, j + 1)) =~= c0.union(
                    changed_from(r0, news, j as int),
                ));
            },
        }
        j = j + 1;
    }
    assert(changed@.union(changed_from(text::views(rem@), news, j as int)) =~= changed@);
    changed
}


/// Every block is a non-empty range of existing lines: `1 <= s <= e <= n`.
pub proof fn lemma_blocks_from_bounds(
    ls: Seq<Seq<char>>,
    idx: int,
    start: Option<int>,
    in_fence: bool,
    marker: Seq<char>,
)
    requires
        0 <= idx <= ls.len() <= usize::MAX,
        start matches Some(s) ==> 1 <= s <= idx,
    ensures
        forall|k: int|
            0 <= k < blocks_from(ls, idx, start, in_fence, marker).len() ==> {
                let b = #[trigger] blocks_from(ls, idx, start, in_fence, marker)[k];
                1 <= b.0 <= b.1 <= ls.len()
            },
    decreases ls.len() - idx,
{
    let here = blocks_from(ls, idx, start, in_fence, marker);
    if idx < ls.len() {
        let line = ls[idx];
        let t = text::trim_start(line);
        let opened = if start is None {
            Some(idx + 1)
        } else {
            start
        };
        if in_fence {
            lemma_blocks_from_bounds(ls, idx + 1, start, !text::starts_with(t, marker), marker);
            assert(here == blocks_from(ls, idx + 1, start, !text::starts_with(t, marker), marker));
        } else if text::starts_with(t, seq!['`', '`', '`']) {
            lemma_blocks_from_bounds(ls, idx + 1, opened, true, seq!['`', '`', '`']);
            assert(here == blocks_from(ls, idx + 1, opened, true, seq!['`', '`', '`']));
        } else if text::starts_with(t, seq!['~', '~', '~']) {
            lemma_blocks_from_bounds(ls, idx + 1, opened, true, seq!['~', '~', '~']);
            assert(here == blocks_from(ls, idx + 1, opened, true, seq!['~', '~', '~']));
        } else if text::trim(line).len() == 0 {
            lemma_blocks_from_bounds(ls, idx + 1, None, false, marker);
            let r = blocks_from(ls, idx + 1, None, false, marker);
            match start {
                Some(s) => {
                    assert(here == seq![(s as usize, idx as usize)] + r);
                    assert forall|k: int| 0 <= k < here.len() implies {
                        let b = #[trigger] here[k];
                        1 <= b.0 <= b.1 <= ls.len()
                    } by {
                        if k > 0 {
                            assert(here[k] == r[k - 1]);
                        }
                    }
                },
                None => {
                    assert(here == r);
                },
            }
        } else {
            lemma_blocks_from_bounds(ls, idx + 1, opened, false, marker);
            assert(here == blocks_from(ls, idx + 1, opened, false, marker));
        }
    } else {
        match start {
            Some(s) => {
                assert(here == seq![(s as usize, ls.len() as usize)]);
            },
            None => {},
        }
    }
}


/// The old text's lines an edit script goes through: its equal and
/// deleted lines, in order.
pub open spec fn old_side(ops: Seq<OpView>) -> Seq<Seq<char>>
    decreases ops.len(),
{
    if ops.len() == 0 {
        seq![]
    } else {
        match ops.last() {
            OpView::Equal(l) => old_side(ops.drop_last()).push(l),
            OpView::Delete(l) => old_side(ops.drop_last()).push(l),
            OpView::Add(_) => old_side(ops.drop_last()),
        }
    }
}

/// The new text's lines an edit script goes through: its equal and added
/// lines, in order.
pub open spec fn new_side(ops: Seq<OpView>) -> Seq<Seq<char>>
    decreases ops.len(),
{
    if ops.len() == 0 {
        seq![]
    } else {
        match ops.last() {
            OpView::Equal(l) => new_side(ops.drop_last()).push(l),
            OpView::Add(l) => new_side(ops.drop_last()).push(l),
            OpView::Delete(_) => new_side(ops.drop_last()),
        }
    }
}

proof fn lemma_sides_append(a: Seq<OpView>, b: Seq<OpView>)
    ensures
        old_side(a + b) == old_side(a) + old_side(b),
        new_side(a + b) == new_side(a) + new_side(b),
    decreases b.len(),
{
    if b.len() == 0 {
        assert(a + b =~= a);
        assert(old_side(a) + old_side(b) =~= old_side(a));
        assert(new_side(a) + new_side(b) =~= new_side(a));
    } else {
        lemma_sides_append(a, b.drop_last());
        assert((a + b).drop_last() =~= a + b.drop_last());
        assert((a + b).last() == b.last());
        assert(old_side(a + b) =~= old_side(a) + old_side(b));
        assert(new_side(a + b) =~= new_side(a) + new_side(b));
    }
}

proof fn lemma_sides_deletes(xs: Seq<Seq<char>>)
    ensures
        old_side(deletes(xs)) == xs,
        new_side(deletes(xs)) == Seq::<Seq<char>>::empty(),
    decreases xs.len(),
{
    if xs.len() > 0 {
        lemma_sides_deletes(xs.drop_last());
        assert(deletes(xs).drop_last() =~= deletes(xs.drop_last()));
        assert(deletes(xs).last() == OpView::Delete(xs.last()));
        assert(old_side(deletes(xs)) =~= xs);
    } else {
        assert(deletes(xs) =~= Seq::<OpView>::empty());
    }
}

proof fn lemma_ops_from_sides(olds: Seq<Seq<char>>, news: Seq<Seq<char>>, i: int, j: int)
    requires
        0 <= i <= olds.len(),
        0 <= j <= news.len(),
    ensures
        old_side(ops_from(olds, news, i, j)) == olds.subrange(i, olds.len() as int),
        new_side(ops_from(olds, news, i, j)) == news.subrange(j, news.len() as int),
    decreases news.len() - j,
{
    if j >= news.len() {
        lemma_sides_deletes(olds.subrange(i, olds.len() as int));
        assert(news.subrange(j, news.len() as int) =~= Seq::<Seq<char>>::empty());
    } else {
        lemma_first_match(olds, i, news[j]);
        match first_match(olds, i, news[j]) {
            Some(p) => {
                lemma_ops_from_sides(olds, news, p + 1, j + 1);
                let d = deletes(olds.subrange(i, p));
                let e = seq![OpView::Equal(news[j])];
                let r = ops_from(olds, news, p + 1, j + 1);
                lemma_sides_deletes(olds.subrange(i, p));
                lemma_sides_append(d, e);
                lemma_sides_append(d + e, r);
                assert(e.drop_last() =~= Seq::<OpView>::empty());
                assert(e.last() == OpView::Equal(news[j]));
                assert(old_side(e.drop_last()) =~= Seq::<Seq<char>>::empty());
                assert(new_side(e.drop_last()) =~= Seq::<Seq<char>>::empty());
                assert(old_side(e) =~= seq![news[j]]);
                assert(new_side(e) =~= seq![news[j]]);
                assert(old_side(d + e + r) =~= olds.subrange(i, olds.len() as int));
                assert(new_side(d + e + r) =~= news.subrange(j, news.len() as int));
            },
            None => {
                lemma_ops_from_sides(olds, news, i, j + 1);
                let a = seq![OpView::Add(news[j])];
                let r = ops_from(olds, news, i, j + 1);
                lemma_sides_append(a, r);
                assert(a.drop_last() =~= Seq::<OpView>::empty());
                assert(a.last() == OpView::Add(news[j]));
                assert(old_side(a.drop_last()) =~= Seq::<Seq<char>>::empty());
                assert(new_side(a.drop_last()) =~= Seq::<Seq<char>>::empty());
                assert(old_side(a) =~= Seq::<Seq<char>>::empty());
                assert(new_side(a) =~= seq![news[j]]);
                assert(old_side(a + r) =~= olds.subrange(i, olds.len() as int));
                assert(new_side(a + r) =~= news.subrange(j, news.len() as int));
            },
        }
    }
}

/// A line diff loses nothing: its equal and deleted lines are the old
/// lines in order, its equal and added lines the new lines in order.
pub proof fn lemma_line_ops_sides(olds: Seq<Seq<char>>, news: Seq<Seq<char>>)
    ensures
        old_side(line_ops(olds, news)) == olds,
        new_side(line_ops(olds, news)) == news,
{
    lemma_ops_from_sides(olds, news, 0, 0);
    assert(olds.subrange(0, olds.len() as int) =~= olds);
    assert(news.subrange(0, news.len() as int) =~= news);
}


proof fn lemma_changed_from_suffix(ls: Seq<Seq<char>>, j: int)
    requires
        0 <= j <= ls.len(),
    ensures
        changed_from(ls.subrange(j, ls.len() as int), ls, j) == Set::<usize>::empty(),
    decreases ls.len() - j,
{
    if j < ls.len() {
        let rem = ls.subrange(j, ls.len() as int);
        assert(rem[0] == ls[j]);
        assert(first_match(rem, 0, ls[j]) == Some(0int));
        assert(rem.remove(0) =~= ls.subrange(j + 1, ls.len() as int));
        lemma_changed_from_suffix(ls, j + 1);
    }
}

/// A text compared with itself has no changed lines.
pub proof fn lemma_no_changes_against_itself(t: Seq<char>)
    ensures
        changed_lines(t, t) == Set::<usize>::empty(),
{
    let ls = text::lines(t);
    lemma_changed_from_suffix(ls, 0);
    assert(ls.subrange(0, ls.len() as int) =~= ls);
}


/// Pieces `xs`, each added.
pub open spec fn adds(xs: Seq<Seq<char>>) -> Seq<OpView> {
    xs.map_values(|l: Seq<char>| OpView::Add(l))
}

/// The edit script a word diff of tokens `olds[i..]` against `news[j..]`
/// is written from, the tokens `pend` waiting to be inserted: as
/// [`word_diff_from`] goes, deleted old tokens, then the waiting
/// insertions, then each kept token.
pub open spec fn word_script_from(
    olds: Seq<Seq<char>>,
    news: Seq<Seq<char>>,
    i: int,
    j: int,
    pend: Seq<Seq<char>>,
) -> Seq<OpView>
    decreases news.len() - j,
{
    if j < 0 || j >= news.len() {
        deletes(olds.subrange(i, olds.len() as int)) + adds(pend)
    } else {
        match first_match(olds, i, news[j]) {
            Some(p) => deletes(olds.subrange(i, p)) + adds(pend) + seq![OpView::Equal(news[j])]
                + word_script_from(olds, news, p + 1, j + 1, seq![]),
            None => word_script_from(olds, news, i, j + 1, pend.push(news[j])),
        }
    }
}

/// The edit script of the word diff of `old` against `new`.
pub open spec fn word_script(old: Seq<char>, new: Seq<char>) -> Seq<OpView> {
    word_script_from(diff_tokens(old), diff_tokens(new), 0, 0, seq![])
}

/// An edit script written out in style `st`: kept pieces as they are,
/// deleted and inserted ones marked.
pub open spec fn render_ops(st: DiffStyle, ops: Seq<OpView>) -> Seq<char>
    decreases ops.len(),
{
    if ops.len() == 0 {
        seq![]
    } else {
        render_ops(st, ops.drop_last()) + match ops.last() {
            OpView::Equal(t) => keep_piece(st, t),
            OpView::Delete(t) => del_piece(st, t),
            OpView::Add(t) => ins_piece(st, t),
        }
    }
}

/// Pieces joined into one text.
pub open spec fn joined(xs: Seq<Seq<char>>) -> Seq<char>
    decreases xs.len(),
{
    if xs.len() == 0 {
        seq![]
    } else {
        joined(xs.drop_last()) + xs.last()
    }
}

proof fn lemma_joined_append(a: Seq<Seq<char>>, b: Seq<Seq<char>>)
    ensures
        joined(a + b) == joined(a) + joined(b),
    decreases b.len(),
{
    if b.len() == 0 {
        assert(a + b =~= a);
        assert(joined(a) + joined(b) =~= joined(a));
    } else {
        lemma_joined_append(a, b.drop_last());
        assert((a + b).drop_last() =~= a + b.drop_last());
        assert((a + b).last() == b.last());
        assert(joined(a + b) =~= joined(a) + joined(b));
    }
}

/// The tokens of `cs[i..]` join back to `cs[i..]`.
proof fn lemma_tokens_join(cs: Seq<char>, i: int)
    requires
        0 <= i <= cs.len(),
    ensures
        joined(tokens_from(cs, i)) == cs.subrange(i, cs.len() as int),
    decreases cs.len() - i,
{
    if i < cs.len() {
        lemma_run_ends(cs, i + 1);
        let e = if is_alphanumeric(cs[i]) {
            alnum_end(cs, i + 1)
        } else if text::is_ws(cs[i]) {
            ws_end(cs, i + 1)
        } else {
            i + 1
        };
        lemma_tokens_join(cs, e);
        let h = seq![cs.subrange(i, e)];
        assert(tokens_from(cs, i) == h + tokens_from(cs, e)) by {
            if !is_alphanumeric(cs[i]) && !text::is_ws(cs[i]) {
                assert(seq![cs[i]] =~= cs.subrange(i, e));
            }
        }
        lemma_joined_append(h, tokens_from(cs, e));
        assert(h.drop_last() =~= Seq::<Seq<char>>::empty());
        assert(joined(h.drop_last()) =~= Seq::<char>::empty());
        assert(h.last() == cs.subrange(i, e));
        assert(joined(h) =~= cs.subrange(i, e));
        assert(cs.subrange(i, e) + cs.subrange(e, cs.len() as int) =~= cs.subrange(i, cs.len() as int));
    } else {
        assert(cs.subrange(i, cs.len() as int) =~= Seq::<char>::empty());
    }
}

proof fn lemma_render_append(st: DiffStyle, a: Seq<OpView>, b: Seq<OpView>)
    ensures
        render_ops(st, a + b) == render_ops(st, a) + render_ops(st, b),
    decreases b.len(),
{
    if b.len() == 0 {
        assert(a + b =~= a);
        assert(render_ops(st, a) + render_ops(st, b) =~= render_ops(st, a));
    } else {
        lemma_render_append(st, a, b.drop_last());
        assert((a + b).drop_last() =~= a + b.drop_last());
        assert((a + b).last() == b.last());
        assert(render_ops(st, a + b) =~= render_ops(st, a) + render_ops(st, b));
    }
}

proof fn lemma_render_marked(st: DiffStyle, xs: Seq<Seq<char>>)
    ensures
        render_ops(st, deletes(xs)) == del_all(st, xs),
        render_ops(st, adds(xs)) == ins_all(st, xs),
        old_side(adds(xs)) == Seq::<Seq<char>>::empty(),
        new_side(adds(xs)) == xs,
    decreases xs.len(),
{
    if xs.len() > 0 {
        lemma_render_marked(st, xs.drop_last());
        assert(deletes(xs).drop_last() =~= deletes(xs.drop_last()));
        assert(adds(xs).drop_last() =~= adds(xs.drop_last()));
        assert(deletes(xs).last() == OpView::Delete(xs.last()));
        assert(adds(xs).last() == OpView::Add(xs.last()));
        assert(new_side(adds(xs)) =~= xs);
    } else {
        assert(deletes(xs) =~= Seq::<OpView>::empty());
        assert(adds(xs) =~= Seq::<OpView>::empty());
    }
}

proof fn lemma_word_script_from(
    st: DiffStyle,
    olds: Seq<Seq<char>>,
    news: Seq<Seq<char>>,
    i: int,
    j: int,
    pend: Seq<Seq<char>>,
)
    requires
        0 <= i <= olds.len(),
        0 <= j <= news.len(),
    ensures
        word_diff_from(st, olds, news, i, j, pend) == render_ops(st, word_script_from(olds, news, i, j, pend)),
        old_side(word_script_from(olds, news, i, j, pend)) == olds.subrange(i, olds.len() as int),
        new_side(word_script_from(olds, news, i, j, pend)) == pend + news.subrange(j, news.len() as int),
    decreases news.len() - j,
{
    if j >= news.len() {
        let d = deletes(olds.subrange(i, olds.len() as int));
        let a = adds(pend);
        lemma_render_marked(st, olds.subrange(i, olds.len() as int));
        lemma_render_marked(st, pend);
        lemma_render_append(st, d, a);
        lemma_sides_deletes(olds.subrange(i, olds.len() as int));
        lemma_sides_append(d, a);
        assert(news.subrange(j, news.len() as int) =~= Seq::<Seq<char>>::empty());
        assert(old_side(d + a) =~= olds.subrange(i, olds.len() as int));
        assert(new_side(d + a) =~= pend + news.subrange(j, news.len() as int));
    } else {
        lemma_first_match(olds, i, news[j]);
        match first_match(olds, i, news[j]) {
            Some(p) => {
                lemma_word_script_from(st, olds, news, p + 1, j + 1, seq![]);
                let d = deletes(olds.subrange(i, p));
                let a = adds(pend);
                let e = seq![OpView::Equal(news[j])];
                let r = word_script_from(olds, news, p + 1, j + 1, seq![]);
                lemma_render_marked(st, olds.subrange(i, p));
                lemma_render_marked(st, pend);
                lemma_sides_deletes(olds.subrange(i, p));
                lemma_render_append(st, d, a);
                lemma_render_append(st, d + a, e);
                lemma_render_append(st, d + a + e, r);
                lemma_sides_append(d, a);
                lemma_sides_append(d + a, e);
                lemma_sides_append(d + a + e, r);
                assert(e.drop_last() =~= Seq::<OpView>::empty());
                assert(e.last() == OpView::Equal(news[j]));
                assert(render_ops(st, e.drop_last()) =~= Seq::<char>::empty());
                assert(old_side(e.drop_last()) =~= Seq::<Seq<char>>::empty());
                assert(new_side(e.drop_last()) =~= Seq::<Seq<char>>::empty());
                assert(render_ops(st, e) =~= keep_piece(st, news[j]));
                assert(old_side(e) =~= seq![news[j]]);
                assert(new_side(e) =~= seq![news[j]]);
                assert(seq![Seq::<char>::empty(); 0] + news.subrange(j + 1, news.len() as int) =~= news.subrange(j + 1, news.len() as int));
                assert(old_side(d + a + e + r) =~= olds.subrange(i, olds.len() as int));
                assert(new_side(d + a + e + r) =~= pend + news.subrange(j, news.len() as int));
            },
            None => {
                lemma_word_script_from(st, olds, news, i, j + 1, pend.push(news[j]));
                assert(pend.push(news[j]) + news.subrange(j + 1, news.len() as int) =~= pend + news.subrange(j, news.len() as int));
            },
        }
    }
}

/// The word diff loses nothing: it is written from an edit script of
/// whole tokens whose kept and deleted pieces join back to the old line
/// and whose kept and inserted pieces join back to the new line.
pub proof fn lemma_word_diff_sides(st: DiffStyle, old: Seq<char>, new: Seq<char>)
    ensures
        word_diff(st, old, new) == render_ops(st, word_script(old, new)),
        joined(old_side(word_script(old, new))) == old,
        joined(new_side(word_script(old, new))) == new,
{
    let olds = diff_tokens(old);
    let news = diff_tokens(new);
    lemma_word_script_from(st, olds, news, 0, 0, seq![]);
    assert(olds.subrange(0, olds.len() as int) =~= olds);
    assert(Seq::<Seq<char>>::empty() + news.subrange(0, news.len() as int) =~= news);
    lemma_tokens_join(old, 0);
    lemma_tokens_join(new, 0);
    assert(old.subrange(0, old.len() as int) =~= old);
    assert(new.subrange(0, new.len() as int) =~= new);
}


/// `s` holds no `<`.
pub open spec fn no_lt(s: Seq<char>) -> bool {
    forall|i: int| 0 <= i < s.len() ==> s[i] != '<'
}

/// The opening tag of a deleted piece in markdown style.
pub open spec fn del_open() -> Seq<char> {
    "<del class=\"rmd-diff-w-del\">"@
}

/// The opening tag of an inserted piece in markdown style.
pub open spec fn ins_open() -> Seq<char> {
    "<ins class=\"rmd-diff-w-add\">"@
}

/// `s` read left to right with every span from `open` to the next
/// `close` removed and the bare tags `o2` and `c2` dropped.
pub open spec fn strip_spans(s: Seq<char>, open: Seq<char>, close: Seq<char>, o2: Seq<char>, c2: Seq<char>) -> Seq<
    char,
>
    decreases s.len(),
{
    if s.len() == 0 {
        seq![]
    } else if open.len() > 0 && text::starts_with(s, open) {
        match crate::images::find_from(s, close, open.len() as int) {
            Some(k) => {
                proof {
                    crate::images::lemma_find_from(s, close, open.len() as int);
                }
                strip_spans(s.subrange(k + close.len(), s.len() as int), open, close, o2, c2)
            },
            None => seq![],
        }
    } else if o2.len() > 0 && text::starts_with(s, o2) {
        strip_spans(s.subrange(o2.len() as int, s.len() as int), open, close, o2, c2)
    } else if c2.len() > 0 && text::starts_with(s, c2) {
        strip_spans(s.subrange(c2.len() as int, s.len() as int), open, close, o2, c2)
    } else {
        seq![s[0]] + strip_spans(s.drop_first(), open, close, o2, c2)
    }
}

/// The new line read back from a markdown word diff: deleted spans and
/// the insertion tags removed.
pub open spec fn new_of_marked(s: Seq<char>) -> Seq<char> {
    strip_spans(s, del_open(), "</del>"@, ins_open(), "</ins>"@)
}

/// The old line read back from a markdown word diff: inserted spans and
/// the deletion tags removed.
pub open spec fn old_of_marked(s: Seq<char>) -> Seq<char> {
    strip_spans(s, ins_open(), "</ins>"@, del_open(), "</del>"@)
}

/// The four tags, as the lemmas below need them: non-empty, starting
/// with `<`, with no other `<`, and told apart by their first two or
/// three characters.
proof fn lemma_tags()
    ensures
        del_open().len() == 28 && ins_open().len() == 28,
        "</del>"@.len() == 6 && "</ins>"@.len() == 6,
        del_open()[0] == '<' && ins_open()[0] == '<' && "</del>"@[0] == '<' && "</ins>"@[0] == '<',
        del_open()[1] == 'd' && ins_open()[1] == 'i' && "</del>"@[1] == '/' && "</ins>"@[1] == '/',
        "</del>"@[2] == 'd' && "</ins>"@[2] == 'i',
        forall|i: int| 1 <= i < 28 ==> del_open()[i] != '<' && ins_open()[i] != '<',
        forall|i: int| 1 <= i < 6 ==> "</del>"@[i] != '<' && "</ins>"@[i] != '<',
{
    reveal_strlit("<del class=\"rmd-diff-w-del\">");
    reveal_strlit("<ins class=\"rmd-diff-w-add\">");
    reveal_strlit("</del>");
    reveal_strlit("</ins>");
}

/// A tag-aware reading is one of the two above.
pub open spec fn tags_ok(open: Seq<char>, close: Seq<char>, o2: Seq<char>, c2: Seq<char>) -> bool {
    ||| (open == del_open() && close == "</del>"@ && o2 == ins_open() && c2 == "</ins>"@)
    ||| (open == ins_open() && close == "</ins>"@ && o2 == del_open() && c2 == "</del>"@)
}

proof fn lemma_keep_text(t: Seq<char>, r: Seq<char>, open: Seq<char>, close: Seq<char>, o2: Seq<char>, c2: Seq<char>)
    requires
        no_lt(t),
        tags_ok(open, close, o2, c2),
    ensures
        strip_spans(t + r, open, close, o2, c2) == t + strip_spans(r, open, close, o2, c2),
    decreases t.len(),
{
    lemma_tags();
    if t.len() == 0 {
        assert(t + r =~= r);
    } else {
        let s = t + r;
        assert(s[0] == t[0]);
        if open.len() <= s.len() {
            assert(s.subrange(0, open.len() as int)[0] == s[0]);
        }
        if o2.len() <= s.len() {
            assert(s.subrange(0, o2.len() as int)[0] == s[0]);
        }
        if c2.len() <= s.len() {
            assert(s.subrange(0, c2.len() as int)[0] == s[0]);
        }
        assert(!text::starts_with(s, open));
        assert(!text::starts_with(s, o2));
        assert(!text::starts_with(s, c2));
        assert(s.drop_first() =~= t.drop_first() + r);
        lemma_keep_text(t.drop_first(), r, open, close, o2, c2);
        assert(seq![t[0]] + (t.drop_first() + strip_spans(r, open, close, o2, c2)) =~= t + strip_spans(r, open, close, o2, c2));
    }
}

proof fn lemma_bare_tag(tag: Seq<char>, r: Seq<char>, open: Seq<char>, close: Seq<char>, o2: Seq<char>, c2: Seq<char>)
    requires
        tags_ok(open, close, o2, c2),
        tag == o2 || tag == c2,
    ensures
        strip_spans(tag + r, open, close, o2, c2) == strip_spans(r, open, close, o2, c2),
{
    lemma_tags();
    let s = tag + r;
    assert(s.subrange(0, tag.len() as int) =~= tag);
    assert(s.subrange(tag.len() as int, s.len() as int) =~= r);
    assert(s[1] == tag[1]);
    assert(s.len() > 0);
    if open.len() <= s.len() {
        assert(s.subrange(0, open.len() as int)[1] == s[1]);
    }
    if tag == c2 && o2.len() <= s.len() {
        assert(s.subrange(0, o2.len() as int)[1] == s[1]);
        if tag[1] == '/' {
            assert(o2[1] != '/');
        }
    }
    assert(!text::starts_with(s, open));
}

proof fn lemma_find_close(s: Seq<char>, close: Seq<char>, i: int, j: int)
    requires
        0 <= i <= j,
        close.len() > 0,
        close[0] == '<',
        forall|k: int| i <= k < j ==> s[k] != '<',
        j + close.len() <= s.len(),
        s.subrange(j, j + close.len()) == close,
    ensures
        crate::images::find_from(s, close, i) == Some(j),
    decreases j - i,
{
    if i < j {
        assert(s.subrange(i, i + close.len())[0] == s[i]);
        lemma_find_close(s, close, i + 1, j);
    }
}

proof fn lemma_span(t: Seq<char>, r: Seq<char>, open: Seq<char>, close: Seq<char>, o2: Seq<char>, c2: Seq<char>)
    requires
        no_lt(t),
        tags_ok(open, close, o2, c2),
    ensures
        strip_spans(open + t + close + r, open, close, o2, c2) == strip_spans(r, open, close, o2, c2),
{
    lemma_tags();
    let s = open + t + close + r;
    let j: int = open.len() as int + t.len() as int;
    assert(s.subrange(0, open.len() as int) =~= open);
    assert(s.subrange(j, j + close.len()) =~= close);
    assert forall|k: int| open.len() <= k < j implies s[k] != '<' by {
        assert(s[k] == t[k - open.len()]);
    }
    lemma_find_close(s, close, open.len() as int, j);
    assert(s.subrange(j + close.len(), s.len() as int) =~= r);
}

/// The text of an edit-script entry.
pub open spec fn op_text(op: OpView) -> Seq<char> {
    match op {
        OpView::Equal(t) => t,
        OpView::Delete(t) => t,
        OpView::Add(t) => t,
    }
}

pub open spec fn ops_no_lt(ops: Seq<OpView>) -> bool {
    forall|k: int| 0 <= k < ops.len() ==> no_lt(op_text(#[trigger] ops[k]))
}

proof fn lemma_strip_render(ops: Seq<OpView>, r: Seq<char>)
    requires
        ops_no_lt(ops),
    ensures
        new_of_marked(render_ops(DiffStyle::Markdown, ops) + r) == joined(new_side(ops)) + new_of_marked(r),
        old_of_marked(render_ops(DiffStyle::Markdown, ops) + r) == joined(old_side(ops)) + old_of_marked(r),
    decreases ops.len(),
{
    let st = DiffStyle::Markdown;
    if ops.len() == 0 {
        assert(render_ops(st, ops) + r =~= r);
        assert(joined(new_side(ops)) + new_of_marked(r) =~= new_of_marked(r));
        assert(joined(old_side(ops)) + old_of_marked(r) =~= old_of_marked(r));
    } else {
        let pre = ops.drop_last();
        let op = ops.last();
        let t = op_text(op);
        assert(no_lt(t));
        let piece = match op {
            OpView::Equal(t) => keep_piece(st, t),
            OpView::Delete(t) => del_piece(st, t),
            OpView::Add(t) => ins_piece(st, t),
        };
        assert(ops_no_lt(pre)) by {
            assert forall|k: int| 0 <= k < pre.len() implies no_lt(op_text(#[trigger] pre[k])) by {
                assert(pre[k] == ops[k]);
            }
        }
        lemma_strip_render(pre, piece + r);
        assert(render_ops(st, ops) + r =~= render_ops(st, pre) + (piece + r));
        let dn = (del_open(), "</del>"@, ins_open(), "</ins>"@);
        let io = (ins_open(), "</ins>"@, del_open(), "</del>"@);
        match op {
            OpView::Equal(x) => {
                lemma_keep_text(x, r, dn.0, dn.1, dn.2, dn.3);
                lemma_keep_text(x, r, io.0, io.1, io.2, io.3);
                assert(piece == x);
                assert(new_side(ops) == new_side(pre).push(x));
                assert(old_side(ops) == old_side(pre).push(x));
                assert(new_side(ops).drop_last() =~= new_side(pre));
                assert(old_side(ops).drop_last() =~= old_side(pre));
                assert(joined(new_side(ops)) == joined(new_side(pre)) + x);
                assert(joined(old_side(ops)) == joined(old_side(pre)) + x);
            },
            OpView::Delete(x) => {
                assert(piece + r =~= del_open() + x + "</del>"@ + r);
                lemma_span(x, r, dn.0, dn.1, dn.2, dn.3);
                assert(piece + r =~= del_open() + (x + ("</del>"@ + r)));
                lemma_bare_tag(del_open(), x + ("</del>"@ + r), io.0, io.1, io.2, io.3);
                lemma_keep_text(x, "</del>"@ + r, io.0, io.1, io.2, io.3);
                lemma_bare_tag("</del>"@, r, io.0, io.1, io.2, io.3);
                assert(new_side(ops) == new_side(pre));
                assert(old_side(ops) == old_side(pre).push(x));
                assert(old_side(ops).drop_last() =~= old_side(pre));
                assert(joined(old_side(ops)) == joined(old_side(pre)) + x);
                assert(old_of_marked(piece + r) == x + old_of_marked(r));
            },
            OpView::Add(x) => {
                assert(piece + r =~= ins_open() + x + "</ins>"@ + r);
                lemma_span(x, r, io.0, io.1, io.2, io.3);
                assert(piece + r =~= ins_open() + (x + ("</ins>"@ + r)));
                lemma_bare_tag(ins_open(), x + ("</ins>"@ + r), dn.0, dn.1, dn.2, dn.3);
                lemma_keep_text(x, "</ins>"@ + r, dn.0, dn.1, dn.2, dn.3);
                lemma_bare_tag("</ins>"@, r, dn.0, dn.1, dn.2, dn.3);
                assert(old_side(ops) == old_side(pre));
                assert(new_side(ops) == new_side(pre).push(x));
                assert(new_side(ops).drop_last() =~= new_side(pre));
                assert(joined(new_side(ops)) == joined(new_side(pre)) + x);
                assert(new_of_marked(piece + r) == x + new_of_marked(r));
            },
        }
        assert(joined(new_side(ops)) + new_of_marked(r) =~= joined(new_side(pre)) + new_of_marked(piece + r));
        assert(joined(old_side(ops)) + old_of_marked(r) =~= joined(old_side(pre)) + old_of_marked(piece + r));
    }
}

proof fn lemma_tokens_no_lt(cs: Seq<char>, i: int)
    requires
        no_lt(cs),
        0 <= i,
    ensures
        forall|k: int| 0 <= k < tokens_from(cs, i).len() ==> no_lt(#[trigger] tokens_from(cs, i)[k]),
    decreases cs.len() - i,
{
    if 0 <= i < cs.len() {
        lemma_run_ends(cs, i + 1);
        let e = if is_alphanumeric(cs[i]) {
            alnum_end(cs, i + 1)
        } else if text::is_ws(cs[i]) {
            ws_end(cs, i + 1)
        } else {
            i + 1
        };
        lemma_tokens_no_lt(cs, e);
        let ts = tokens_from(cs, i);
        assert forall|k: int| 0 <= k < ts.len() implies no_lt(#[trigger] ts[k]) by {
            if k == 0 {
                assert forall|m: int| 0 <= m < ts[0].len() implies ts[0][m] != '<' by {
                    if !is_alphanumeric(cs[i]) && !text::is_ws(cs[i]) {
                        assert(ts[0] == seq![cs[i]]);
                    } else {
                        assert(ts[0][m] == cs[i + m]);
                    }
                }
            } else {
                assert(ts[k] == tokens_from(cs, e)[k - 1]);
            }
        }
    }
}

proof fn lemma_script_no_lt(olds: Seq<Seq<char>>, news: Seq<Seq<char>>, i: int, j: int, pend: Seq<Seq<char>>)
    requires
        0 <= i <= olds.len(),
        forall|k: int| 0 <= k < olds.len() ==> no_lt(#[trigger] olds[k]),
        forall|k: int| 0 <= k < news.len() ==> no_lt(#[trigger] news[k]),
        forall|k: int| 0 <= k < pend.len() ==> no_lt(#[trigger] pend[k]),
    ensures
        ops_no_lt(word_script_from(olds, news, i, j, pend)),
    decreases news.len() - j,
{
    if j < 0 || j >= news.len() {
        let ops = word_script_from(olds, news, i, j, pend);
        let d = deletes(olds.subrange(i, olds.len() as int));
        assert(ops == d + adds(pend));
        assert forall|k: int| 0 <= k < ops.len() implies no_lt(op_text(#[trigger] ops[k])) by {
            if k < d.len() {
                assert(ops[k] == d[k]);
                assert(op_text(d[k]) == olds[i + k]);
            } else {
                assert(ops[k] == adds(pend)[k - d.len()]);
            }
        }
    } else {
        lemma_first_match(olds, i, news[j]);
        match first_match(olds, i, news[j]) {
            Some(p) => {
                lemma_script_no_lt(olds, news, p + 1, j + 1, seq![]);
                let ops = word_script_from(olds, news, i, j, pend);
                let d = deletes(olds.subrange(i, p));
                let a = adds(pend);
                let e = seq![OpView::Equal(news[j])];
                let rest = word_script_from(olds, news, p + 1, j + 1, seq![]);
                assert(ops == d + a + e + rest);
                assert forall|k: int| 0 <= k < ops.len() implies no_lt(op_text(#[trigger] ops[k])) by {
                    if k < d.len() {
                        assert(ops[k] == d[k]);
                        assert(op_text(d[k]) == olds[i + k]);
                    } else if k < d.len() + a.len() {
                        assert(ops[k] == a[k - d.len()]);
                    } else if k == d.len() + a.len() {
                        assert(ops[k] == e[0]);
                    } else {
                        assert(ops[k] == rest[k - d.len() - a.len() - 1]);
                    }
                }
            },
            None => {
                let p2 = pend.push(news[j]);
                assert forall|k: int| 0 <= k < p2.len() implies no_lt(#[trigger] p2[k]) by {
                    if k < pend.len() {
                        assert(p2[k] == pend[k]);
                    }
                }
                lemma_script_no_lt(olds, news, i, j + 1, p2);
            },
        }
    }
}

/// The markdown word diff reads back to both lines: removing its
/// `<del …>…</del>` spans and its bare `<ins …>` / `</ins>` tags gives the
/// new line, and removing its `<ins …>…</ins>` spans and bare `<del …>` /
/// `</del>` tags gives the old line, when neither line holds a `<`.
pub proof fn lemma_marked_word_diff_reads_back(old: Seq<char>, new: Seq<char>)
    requires
        no_lt(old),
        no_lt(new),
    ensures
        new_of_marked(word_diff(DiffStyle::Markdown, old, new)) == new,
        old_of_marked(word_diff(DiffStyle::Markdown, old, new)) == old,
{
    let st = DiffStyle::Markdown;
    lemma_word_diff_sides(st, old, new);
    lemma_tokens_no_lt(old, 0);
    lemma_tokens_no_lt(new, 0);
    lemma_script_no_lt(diff_tokens(old), diff_tokens(new), 0, 0, seq![]);
    let ops = word_script(old, new);
    lemma_strip_render(ops, seq![]);
    let out = render_ops(st, ops);
    assert(out + seq![] =~= out);
    assert(new_of_marked(Seq::<char>::empty()) == Seq::<char>::empty());
    assert(old_of_marked(Seq::<char>::empty()) == Seq::<char>::empty());
    assert(joined(new_side(ops)) + Seq::<char>::empty() =~= joined(new_side(ops)));
    assert(joined(old_side(ops)) + Seq::<char>::empty() =~= joined(old_side(ops)));
}

} // verus!
