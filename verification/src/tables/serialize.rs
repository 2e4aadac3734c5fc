//! Serialise a `MarkdownTable` back to GFM source and apply cell edits.
//!
//! Three strategies: `to_gfm_preserve` replays the captured original
//! lines and patches only edited cells, `to_gfm_pretty` recomputes
//! column widths for aligned output, and `to_gfm_compact` uses single
//! spaces. `update_cell` patches one cell in place (PreserveOriginal) or
//! re-serialises the whole table (Pretty / Compact).

use std::ops::Range;
use vstd::prelude::*;

use super::model::{Alignment, Cell, CellView, EditDelta, LineKind, LineView, MarkdownTable, OriginalLine, TableError, TableStyle, TableView};
use super::model;
use crate::text;
use super::parse;
use super::parse::{capture_original_lines, is_separator_line, split_cells};
use crate::text::{lines_of, chars_eq, chars_of, count_lead, count_trail, push_char, push_repeat, push_str, replace_range, str_slice, trim_bounds};
use vstd::utf8::{decode_utf8, encode_scalar, has_width_1_encoding, has_width_2_encoding, has_width_3_encoding, is_char_boundary, valid_utf8};

verus! {

/// How one character is escaped inside a cell.
pub open spec fn escape_char(c: char) -> Seq<char> {
    if c == '\\' {
        seq!['\\', '\\']
    } else if c == '|' {
        seq!['\\', '|']
    } else if c == '\n' {
        seq!['<', 'b', 'r', '>']
    } else {
        seq![c]
    }
}

/// `s` with backslashes doubled, pipes escaped and newlines as `<br>`.
pub open spec fn escape(s: Seq<char>) -> Seq<char>
    decreases s.len(),
{
    if s.len() == 0 {
        seq![]
    } else {
        escape(s.drop_last()) + escape_char(s.last())
    }
}

/// `n` spaces.
pub open spec fn spaces(n: int) -> Seq<char> {
    text::repeat(' ', n as nat)
}

pub open spec fn maxn(a: nat, b: nat) -> nat {
    if a >= b {
        a
    } else {
        b
    }
}

/// Number of consecutive backslashes ending just before character `k`.
pub open spec fn backslash_run(e: Seq<char>, k: int) -> nat
    decreases k,
{
    if k <= 0 || k > e.len() {
        0
    } else if e[k - 1] == '\\' {
        1 + backslash_run(e, k - 1)
    } else {
        0
    }
}

proof fn lemma_run_prefix(p: Seq<char>, q: Seq<char>, k: int)
    requires
        0 <= k <= p.len(),
    ensures
        backslash_run(p + q, k) == backslash_run(p, k),
    decreases k,
{
    if k > 0 {
        assert((p + q)[k - 1] == p[k - 1]);
        lemma_run_prefix(p, q, k - 1);
    }
}

/// Escaped cell text keeps a cell whole: it holds no newline, each of its
/// pipes follows an odd run of backslashes (so it is escaped, not a cell
/// boundary), and it ends in an even run of backslashes (so the pipe that
/// closes the cell stays a boundary).
pub proof fn lemma_escape_keeps_cell(s: Seq<char>)
    ensures
        forall|k: int|
            0 <= k < escape(s).len() ==> #[trigger] escape(s)[k] != '\n' && (escape(s)[k] == '|'
                ==> backslash_run(escape(s), k) % 2 == 1),
        backslash_run(escape(s), escape(s).len() as int) % 2 == 0,
    decreases s.len(),
{
    if s.len() > 0 {
        lemma_escape_keeps_cell(s.drop_last());
        let p = escape(s.drop_last());
        let c = s.last();
        let q = escape_char(c);
        let e = p + q;
        assert(escape(s) == e);
        let n = p.len() as int;
        lemma_run_prefix(p, q, n);
        assert forall|k: int| 0 <= k < e.len() implies #[trigger] e[k] != '\n' && (e[k] == '|'
            ==> backslash_run(e, k) % 2 == 1) by {
            if k < n {
                assert(e[k] == p[k]);
                lemma_run_prefix(p, q, k);
            } else if k == n + 1 {
                if c == '|' {
                    assert(e[n] == '\\');
                    assert(backslash_run(e, k) == 1 + backslash_run(e, n));
                }
            }
        }
        if c == '\\' {
            assert(e[n] == '\\' && e[n + 1] == '\\');
            assert(backslash_run(e, n + 1) == 1 + backslash_run(e, n));
            assert(backslash_run(e, n + 2) == 1 + backslash_run(e, n + 1));
        }
    }
}

/// Cell text read back, left to right: `\\` as `\`, `\|` as `|` and
/// `<br>` as a newline; every other character as it is.
pub open spec fn unescape(e: Seq<char>) -> Seq<char>
    decreases e.len(),
{
    if e.len() == 0 {
        seq![]
    } else if e.len() >= 2 && e[0] == '\\' && (e[1] == '\\' || e[1] == '|') {
        seq![e[1]] + unescape(e.subrange(2, e.len() as int))
    } else if e.len() >= 4 && e[0] == '<' && e[1] == 'b' && e[2] == 'r' && e[3] == '>' {
        seq!['\n'] + unescape(e.subrange(4, e.len() as int))
    } else {
        seq![e[0]] + unescape(e.drop_first())
    }
}

/// `s` holds the text `<br>` somewhere.
pub open spec fn has_br(s: Seq<char>) -> bool {
    exists|i: int|
        0 <= i && i + 4 <= s.len() && #[trigger] s[i] == '<' && s[i + 1] == 'b' && s[i + 2] == 'r' && s[i + 3]
            == '>'
}

proof fn lemma_escape_front(s: Seq<char>)
    requires
        s.len() > 0,
    ensures
        escape(s) == escape_char(s[0]) + escape(s.drop_first()),
    decreases s.len(),
{
    if s.len() == 1 {
        assert(s.drop_last().len() == 0);
        assert(s.drop_first().len() == 0);
        assert(escape(s) == escape(s.drop_last()) + escape_char(s.last()));
        assert(escape(s) =~= escape_char(s[0]));
    } else {
        let d = s.drop_last();
        lemma_escape_front(d);
        assert(d.drop_first() =~= s.drop_first().drop_last());
        assert(s.drop_first().last() == s.last());
        assert(escape(s.drop_first()) == escape(s.drop_first().drop_last()) + escape_char(s.drop_first().last()));
        assert(escape(s) =~= escape_char(s[0]) + escape(s.drop_first()));
    }
}

/// An escaped text starting with a character other than `\` and `<`
/// starts with that same character of the unescaped text.
proof fn lemma_escape_head(t: Seq<char>)
    ensures
        t.len() == 0 ==> escape(t).len() == 0,
        t.len() > 0 && escape(t).len() > 0 && escape(t)[0] != '\\' && escape(t)[0] != '<' ==> {
            &&& t[0] == escape(t)[0]
            &&& escape(t).drop_first() == escape(t.drop_first())
        },
{
    if t.len() > 0 {
        lemma_escape_front(t);
        let e = escape(t);
        let c = t[0];
        if c != '\\' && c != '|' && c != '\n' {
            assert(e.drop_first() =~= escape(t.drop_first()));
        }
    }
}

/// Reading back escaped cell text gives the text again, when it holds no
/// `<br>` of its own (that one reads back as a newline).
pub proof fn lemma_unescape_escape(s: Seq<char>)
    requires
        !has_br(s),
    ensures
        unescape(escape(s)) == s,
    decreases s.len(),
{
    if s.len() > 0 {
        let c = s[0];
        let t = s.drop_first();
        assert(!has_br(t)) by {
            if has_br(t) {
                let i = choose|i: int|
                    0 <= i && i + 4 <= t.len() && #[trigger] t[i] == '<' && t[i + 1] == 'b' && t[i + 2] == 'r'
                        && t[i + 3] == '>';
                assert(s[i + 1] == '<');
            }
        }
        lemma_unescape_escape(t);
        lemma_escape_front(s);
        let r = escape(t);
        let e = escape(s);
        assert(e == escape_char(c) + r);
        if c == '\\' || c == '|' {
            assert(e.subrange(2, e.len() as int) =~= r);
            assert(unescape(e) =~= seq![c] + t);
        } else if c == '\n' {
            assert(e.subrange(4, e.len() as int) =~= r);
            assert(unescape(e) =~= seq![c] + t);
        } else {
            assert(e[0] == c);
            assert(e.drop_first() =~= r);
            if e.len() >= 4 && e[0] == '<' && e[1] == 'b' && e[2] == 'r' && e[3] == '>' {
                lemma_escape_head(t);
                let t1 = t.drop_first();
                lemma_escape_head(t1);
                let t2 = t1.drop_first();
                lemma_escape_head(t2);
                assert(r[0] == 'b');
                assert(t[0] == 'b');
                assert(escape(t1)[0] == 'r');
                assert(t1[0] == 'r');
                assert(escape(t2)[0] == '>');
                assert(t2[0] == '>');
                assert(s[0] == '<' && s[1] == 'b' && s[2] == 'r' && s[3] == '>');
                assert(has_br(s));
            }
            assert(unescape(e) =~= seq![c] + t);
        }
        assert(seq![c] + t =~= s);
    }
}

/// The UTF-8 form of a character holds a pipe or backslash byte only
/// when it is that very character, whose form is that one byte.
proof fn lemma_scalar_markers(c: char)
    ensures
        encode_scalar(c as u32).len() >= 1,
        forall|j: int|
            0 <= j < encode_scalar(c as u32).len() ==> ((#[trigger] encode_scalar(c as u32)[j] == parse::pipe())
                ==> c == '|') && (encode_scalar(c as u32)[j] == parse::backslash() ==> c == '\\'),
        c == '|' ==> encode_scalar(c as u32) == seq![parse::pipe()],
        c == '\\' ==> encode_scalar(c as u32) == seq![parse::backslash()],
{
    let v = c as u32;
    if has_width_1_encoding(v) {
        assert(v <= 0x7F ==> (v & 0x7F) as u8 == v) by (bit_vector);
        assert(encode_scalar(v)[0] == v);
    } else if has_width_2_encoding(v) {
        assert(forall|x: u32| ((0xC0u8 | ((x >> 6) & 0x1F) as u8) >= 0xC0)) by (bit_vector);
        assert(forall|x: u32| ((0x80u8 | (x & 0x3F) as u8) >= 0x80)) by (bit_vector);
    } else if has_width_3_encoding(v) {
        assert(forall|x: u32| ((0xE0u8 | ((x >> 12) & 0x0F) as u8) >= 0xC0)) by (bit_vector);
        assert(forall|x: u32| ((0x80u8 | (x & 0x3F) as u8) >= 0x80)) by (bit_vector);
    } else {
        assert(forall|x: u32| ((0xF0u8 | ((x >> 18) & 0x7) as u8) >= 0xC0)) by (bit_vector);
        assert(forall|x: u32| ((0x80u8 | (x & 0x3F) as u8) >= 0x80)) by (bit_vector);
    }
}

proof fn lemma_utf8_no_markers(x: Seq<char>)
    requires
        forall|i: int| 0 <= i < x.len() ==> #[trigger] x[i] != '|' && x[i] != '\\',
    ensures
        forall|j: int|
            0 <= j < text::utf8(x).len() ==> #[trigger] text::utf8(x)[j] != parse::pipe() && text::utf8(x)[j]
                != parse::backslash(),
        x.len() > 0 ==> text::utf8(x).len() > 0,
    decreases x.len(),
{
    if x.len() > 0 {
        lemma_utf8_no_markers(x.drop_first());
        lemma_scalar_markers(x[0]);
        let h = encode_scalar(x[0] as u32);
        let r = text::utf8(x.drop_first());
        assert(text::utf8(x) == h + r);
        assert forall|j: int| 0 <= j < text::utf8(x).len() implies #[trigger] text::utf8(x)[j] != parse::pipe()
            && text::utf8(x)[j] != parse::backslash() by {
            if j < h.len() {
                assert(text::utf8(x)[j] == h[j]);
            } else {
                assert(text::utf8(x)[j] == r[j - h.len()]);
                assert(x.drop_first()[0] == x[1]) by {
                    if x.len() > 1 {
                    }
                }
            }
        }
    }
}

proof fn lemma_utf8_single(c: char)
    ensures
        text::utf8(seq![c]) == encode_scalar(c as u32),
{
    let x = seq![c];
    assert(x.drop_first() =~= Seq::<char>::empty());
    assert(text::utf8(x.drop_first()) =~= Seq::<u8>::empty());
    assert(text::utf8(x) == encode_scalar(x[0] as u32) + text::utf8(x.drop_first()));
    assert(text::utf8(x) =~= encode_scalar(c as u32));
}

proof fn lemma_bb_prefix(p: Seq<u8>, q: Seq<u8>, i: int)
    requires
        0 <= i <= p.len(),
    ensures
        parse::backslashes_before(p + q, i) == parse::backslashes_before(p, i),
    decreases i,
{
    if i > 0 {
        assert((p + q)[i - 1] == p[i - 1]);
        lemma_bb_prefix(p, q, i - 1);
    }
}

/// The bytes of a pipe followed by escaped cell text: every later pipe
/// follows an odd run of backslashes, and the text ends in an even run.
proof fn lemma_escaped_bytes(s: Seq<char>)
    ensures
        ({
            let bp = seq![parse::pipe()] + text::utf8(escape(s));
            &&& forall|i: int|
                1 <= i < bp.len() && #[trigger] bp[i] == parse::pipe() ==> parse::backslashes_before(bp, i) % 2 == 1
            &&& parse::backslashes_before(bp, bp.len() as int) % 2 == 0
        }),
    decreases s.len(),
{
    let bp = seq![parse::pipe()] + text::utf8(escape(s));
    if s.len() == 0 {
        assert(text::utf8(escape(s)) =~= Seq::<u8>::empty());
        assert(bp =~= seq![parse::pipe()]);
        assert(parse::backslashes_before(bp, 1) == 0);
    } else {
        let s0 = s.drop_last();
        let c = s.last();
        lemma_escaped_bytes(s0);
        let bp0 = seq![parse::pipe()] + text::utf8(escape(s0));
        let ec = escape_char(c);
        let q = text::utf8(ec);
        text::lemma_utf8_concat(escape(s0), ec);
        assert(escape(s) == escape(s0) + ec);
        assert(bp =~= bp0 + q);
        let n = bp0.len() as int;
        lemma_bb_prefix(bp0, q, n);
        assert forall|i: int| 1 <= i <= n implies parse::backslashes_before(bp, i) == parse::backslashes_before(bp0, i) by {
            lemma_bb_prefix(bp0, q, i);
        }
        if c == '\\' || c == '|' {
            lemma_scalar_markers('\\');
            lemma_scalar_markers(c);
            assert(q == text::utf8(seq!['\\', c]));
            assert(seq!['\\', c] =~= seq!['\\'] + seq![c]);
            text::lemma_utf8_concat(seq!['\\'], seq![c]);
            lemma_utf8_single('\\');
            lemma_utf8_single(c);
            assert(q =~= seq![parse::backslash(), encode_scalar(c as u32)[0]]);
            assert(bp[n] == parse::backslash());
            assert(parse::backslashes_before(bp, n + 1) == 1 + parse::backslashes_before(bp, n));
            if c == '\\' {
                assert(bp[n + 1] == parse::backslash());
                assert(parse::backslashes_before(bp, n + 2) == 1 + parse::backslashes_before(bp, n + 1));
            } else {
                assert(bp[n + 1] == parse::pipe());
                assert(parse::backslashes_before(bp, n + 2) == 0);
            }
            assert forall|i: int| 1 <= i < bp.len() && #[trigger] bp[i] == parse::pipe() implies parse::backslashes_before(bp, i) % 2
                == 1 by {
                if i < n {
                    assert(bp[i] == bp0[i]);
                }
            }
        } else {
            assert forall|i: int| 0 <= i < ec.len() implies #[trigger] ec[i] != '|' && ec[i] != '\\' by {
            }
            lemma_utf8_no_markers(ec);
            assert(q.len() > 0);
            assert(bp[bp.len() - 1] == q[q.len() - 1]);
            assert(parse::backslashes_before(bp, bp.len() as int) == 0);
            assert forall|i: int| 1 <= i < bp.len() && #[trigger] bp[i] == parse::pipe() implies parse::backslashes_before(bp, i) % 2
                == 1 by {
                if i < n {
                    assert(bp[i] == bp0[i]);
                } else {
                    assert(bp[i] == q[i - n]);
                }
            }
        }
    }
}

proof fn lemma_single_delimiter(b: Seq<u8>, m: int, n: int)
    requires
        1 <= n <= m < b.len(),
        b[0] == parse::pipe(),
        forall|i: int|
            1 <= i < m && #[trigger] b[i] == parse::pipe() ==> parse::backslashes_before(b, i) % 2 == 1,
    ensures
        parse::delimiters_before(b, n) == seq![0int],
    decreases n,
{
    if n == 1 {
        assert(parse::is_cell_delimiter(b, 0));
        assert(parse::delimiters_before(b, 0) =~= Seq::<int>::empty());
        assert(parse::delimiters_before(b, 1) =~= seq![0int]);
    } else {
        lemma_single_delimiter(b, m, n - 1);
        assert(!parse::is_cell_delimiter(b, n - 1));
    }
}

/// Splitting a pipe-wrapped escaped cell gives exactly one span, the
/// escaped text: its pipes and backslashes never split the cell.
pub proof fn lemma_escaped_cell_one_span(s: Seq<char>)
    requires
        text::utf8(escape(s)).len() + 2 <= usize::MAX,
    ensures
        parse::cell_spans(text::utf8(seq!['|'] + escape(s) + seq!['|'])) == seq![
            Range { start: 1usize, end: (1 + text::utf8(escape(s)).len()) as usize },
        ],
{
    let e = escape(s);
    lemma_escaped_bytes(s);
    lemma_scalar_markers('|');
    let bp = seq![parse::pipe()] + text::utf8(e);
    text::lemma_utf8_concat(seq!['|'] + e, seq!['|']);
    text::lemma_utf8_concat(seq!['|'], e);
    lemma_utf8_single('|');
    let b = text::utf8(seq!['|'] + e + seq!['|']);
    assert(b =~= bp + seq![parse::pipe()]);
    let m = bp.len() as int;
    assert forall|i: int| 0 <= i <= m implies parse::backslashes_before(b, i) == parse::backslashes_before(bp, i) by {
        lemma_bb_prefix(bp, seq![parse::pipe()], i);
    }
    assert forall|i: int| 1 <= i < m && #[trigger] b[i] == parse::pipe() implies parse::backslashes_before(b, i) % 2 == 1 by {
        assert(b[i] == bp[i]);
    }
    lemma_single_delimiter(b, m, m);
    assert(parse::is_cell_delimiter(b, m));
    let d = parse::delimiters_before(b, b.len() as int);
    assert(d =~= seq![0int, m]);
    assert(parse::lead_span(d) =~= Seq::<Range<usize>>::empty());
    assert(parse::tail_span(d, b.len() as int) =~= Seq::<Range<usize>>::empty());
    assert(parse::inner_spans(d) =~= seq![Range { start: 1usize, end: m as usize }]);
    assert(parse::cell_spans(b) =~= seq![Range { start: 1usize, end: m as usize }]);
}

/// Escape cell-hostile characters so GFM round-trips correctly.
/// Backslash must be escaped first to avoid double-escaping.
pub fn escape_cell(s: &str) -> (out: String)
    ensures
        out@ == escape(s@),
{
    let v = chars_of(s);
    let mut out = String::new();
    let mut i: usize = 0;
    while i < v.len()
        invariant
            i <= v.len(),
            v@ == s@,
            out@ == escape(v@.subrange(0, i as int)),
        decreases v.len() - i,
    {
        let c = v[i];
        assert(v@.subrange(0, i + 1).drop_last() == v@.subrange(0, i as int));
        if c == '\\' {
            push_char(&mut out, '\\');
            push_char(&mut out, '\\');
        } else if c == '|' {
            push_char(&mut out, '\\');
            push_char(&mut out, '|');
        } else if c == '\n' {
            push_char(&mut out, '<');
            push_char(&mut out, 'b');
            push_char(&mut out, 'r');
            push_char(&mut out, '>');
        } else {
            push_char(&mut out, c);
        }
        assert(out@ =~= escape(v@.subrange(0, i + 1)));
        i = i + 1;
    }
    assert(v@.subrange(0, v.len() as int) =~= v@);
    out
}

/// Visual width: the number of characters.
fn visual_width(s: &str) -> (w: usize)
    ensures
        w == s@.len(),
{
    s.unicode_len()
}

/// `content` padded to `w` characters per the alignment, with one space
/// on each side.
pub open spec fn pad_cell(a: Alignment, c: Seq<char>, w: nat) -> Seq<char> {
    if c.len() >= w {
        seq![' '] + c + seq![' ']
    } else {
        let extra = (w - c.len()) as int;
        match a {
            Alignment::Right => seq![' '] + spaces(extra) + c + seq![' '],
            Alignment::Center => seq![' '] + spaces(extra / 2) + c + spaces(extra - extra / 2)
                + seq![' '],
            _ => seq![' '] + c + spaces(extra) + seq![' '],
        }
    }
}

fn pad_for(align: Alignment, content: &str, width: usize) -> (s: String)
    ensures
        s@ == pad_cell(align, content@, width as nat),
{
    let text_w = visual_width(content);
    let mut s = String::new();
    push_char(&mut s, ' ');
    if text_w >= width {
        push_str(&mut s, content);
        push_char(&mut s, ' ');
        return s;
    }
    let extra = width - text_w;
    match align {
        Alignment::Right => {
            push_repeat(&mut s, ' ', extra);
            push_str(&mut s, content);
        },
        Alignment::Center => {
            let left = extra / 2;
            let right = extra - left;
            push_repeat(&mut s, ' ', left);
            push_str(&mut s, content);
            push_repeat(&mut s, ' ', right);
        },
        _ => {
            push_str(&mut s, content);
            push_repeat(&mut s, ' ', extra);
        },
    }
    push_char(&mut s, ' ');
    s
}

/// Compact cells: ` content |` each.
pub open spec fn compact_cells(cs: Seq<CellView>) -> Seq<char>
    decreases cs.len(),
{
    if cs.len() == 0 {
        seq![]
    } else {
        compact_cells(cs.drop_last()) + seq![' '] + escape(cs.last().content) + seq![' ', '|']
    }
}

/// A compact row line including its newline.
pub open spec fn compact_row(cs: Seq<CellView>) -> Seq<char> {
    seq!['|'] + compact_cells(cs) + seq!['\n']
}

/// The separator token of an alignment in compact output.
pub open spec fn align_token(a: Alignment) -> Seq<char> {
    match a {
        Alignment::Unaligned => seq!['-', '-', '-'],
        Alignment::Left => seq![':', '-', '-', '-'],
        Alignment::Center => seq![':', '-', '-', '-', ':'],
        Alignment::Right => seq!['-', '-', '-', ':'],
    }
}

pub open spec fn compact_sep_cells(al: Seq<Alignment>) -> Seq<char>
    decreases al.len(),
{
    if al.len() == 0 {
        seq![]
    } else {
        compact_sep_cells(al.drop_last()) + seq![' '] + align_token(al.last()) + seq![' ', '|']
    }
}

pub open spec fn compact_rows(rows: Seq<Seq<CellView>>) -> Seq<char>
    decreases rows.len(),
{
    if rows.len() == 0 {
        seq![]
    } else {
        compact_rows(rows.drop_last()) + compact_row(rows.last())
    }
}

/// What `to_gfm_compact` produces.
pub open spec fn compact_text(t: TableView) -> Seq<char> {
    compact_row(t.headers) + (seq!['|'] + compact_sep_cells(t.alignments) + seq!['\n'])
        + compact_rows(t.rows)
}

/// Appends ` content |` for each cell.
fn push_compact_cells(out: &mut String, cells: &[Cell])
    ensures
        final(out)@ == old(out)@ + compact_cells(model::cells_view(cells@)),
{
    let mut i: usize = 0;
    let ghost cs = model::cells_view(cells@);
    while i < cells.len()
        invariant
            i <= cells.len(),
            cs == model::cells_view(cells@),
            out@ == old(out)@ + compact_cells(cs.subrange(0, i as int)),
        decreases cells.len() - i,
    {
        let esc = escape_cell(cells[i].content.as_str());
        let ghost before = out@;
        push_char(out, ' ');
        push_str(out, esc.as_str());
        push_char(out, ' ');
        push_char(out, '|');
        assert(cs.subrange(0, i + 1).drop_last() == cs.subrange(0, i as int));
        assert(cs.subrange(0, i + 1).last() == cells@[i as int]@);
        assert(out@ =~= old(out)@ + compact_cells(cs.subrange(0, i + 1)));
        i = i + 1;
    }
    assert(cs.subrange(0, cells.len() as int) =~= cs);
}

/// Appends a whole compact row line.
fn push_row(out: &mut String, cells: &[Cell])
    ensures
        final(out)@ == old(out)@ + compact_row(model::cells_view(cells@)),
{
    push_char(out, '|');
    push_compact_cells(out, cells);
    push_char(out, '\n');
    assert(out@ =~= old(out)@ + compact_row(model::cells_view(cells@)));
}

fn push_align_token(out: &mut String, a: Alignment)
    ensures
        final(out)@ == old(out)@ + align_token(a),
{
    match a {
        Alignment::Unaligned => {
            push_repeat(out, '-', 3);
        },
        Alignment::Left => {
            push_char(out, ':');
            push_repeat(out, '-', 3);
        },
        Alignment::Center => {
            push_char(out, ':');
            push_repeat(out, '-', 3);
            push_char(out, ':');
        },
        Alignment::Right => {
            push_repeat(out, '-', 3);
            push_char(out, ':');
        },
    }
    assert(out@ =~= old(out)@ + align_token(a));
}

/// Appends the compact separator line.
fn push_separator(out: &mut String, aligns: &[Alignment])
    ensures
        final(out)@ == old(out)@ + (seq!['|'] + compact_sep_cells(aligns@) + seq!['\n']),
{
    push_char(out, '|');
    let ghost base = out@;
    let mut i: usize = 0;
    while i < aligns.len()
        invariant
            i <= aligns.len(),
            out@ == base + compact_sep_cells(aligns@.subrange(0, i as int)),
        decreases aligns.len() - i,
    {
        push_char(out, ' ');
        push_align_token(out, aligns[i]);
        push_char(out, ' ');
        push_char(out, '|');
        assert(aligns@.subrange(0, i + 1).drop_last() == aligns@.subrange(0, i as int));
        assert(out@ =~= base + compact_sep_cells(aligns@.subrange(0, i + 1)));
        i = i + 1;
    }
    assert(aligns@.subrange(0, aligns.len() as int) =~= aligns@);
    push_char(out, '\n');
    assert(out@ =~= old(out)@ + (seq!['|'] + compact_sep_cells(aligns@) + seq!['\n']));
}

/// Single-space padding. Always reformats.
pub fn to_gfm_compact(table: &MarkdownTable) -> (s: String)
    ensures
        s@ == compact_text(table@),
{
    let mut s = String::new();
    push_row(&mut s, table.headers.as_slice());
    push_separator(&mut s, table.alignments.as_slice());
    let ghost base = s@;
    let ghost rows = table@.rows;
    let mut r: usize = 0;
    while r < table.rows.len()
        invariant
            r <= table.rows.len(),
            rows == table@.rows,
            s@ == base + compact_rows(rows.subrange(0, r as int)),
        decreases table.rows.len() - r,
    {
        push_row(&mut s, table.rows[r].as_slice());
        assert(rows.subrange(0, r + 1).drop_last() == rows.subrange(0, r as int));
        assert(rows.subrange(0, r + 1).last() == model::cells_view(table.rows@[r as int]@));
        assert(s@ =~= base + compact_rows(rows.subrange(0, r + 1)));
        r = r + 1;
    }
    assert(rows.subrange(0, table.rows.len() as int) =~= rows);
    assert(s@ =~= compact_text(table@));
    s
}

/// Compact line for a row (no newline): used when a captured line no
/// longer matches the row's cell count.
fn compact_line(cells: &[Cell]) -> (s: String)
    ensures
        s@ == seq!['|'] + compact_cells(model::cells_view(cells@)),
{
    let mut s = String::new();
    push_char(&mut s, '|');
    push_compact_cells(&mut s, cells);
    s
}


/// Escaped width of cell `col` of `cs`, 0 when absent.
pub open spec fn cell_w(cs: Seq<CellView>, col: int) -> nat {
    if 0 <= col < cs.len() {
        escape(cs[col].content).len()
    } else {
        0
    }
}

/// Largest escaped width in column `col` over `rows`.
pub open spec fn rows_w(rows: Seq<Seq<CellView>>, col: int) -> nat
    decreases rows.len(),
{
    if rows.len() == 0 {
        0
    } else {
        maxn(rows_w(rows.drop_last(), col), cell_w(rows.last(), col))
    }
}

/// Width of column `col`: the widest escaped cell, at least 3.
pub open spec fn col_width(t: TableView, col: int) -> nat {
    maxn(3, maxn(cell_w(t.headers, col), rows_w(t.rows, col)))
}

fn column_widths(table: &MarkdownTable) -> (widths: Vec<usize>)
    ensures
        widths.len() == table.alignments.len(),
        forall|col: int| 0 <= col < widths.len() ==> widths@[col] == col_width(table@, col),
{
    let n = table.alignments.len();
    let mut widths: Vec<usize> = vec![3usize; n];
    let ghost t = table@;
    let mut col: usize = 0;
    while col < table.headers.len()
        invariant
            widths.len() == n == table.alignments.len(),
            t == table@,
            forall|c: int|
                0 <= c < n ==> widths@[c] == (if c < col {
                    maxn(3, cell_w(t.headers, c))
                } else {
                    3
                }),
        decreases table.headers.len() - col,
    {
        if col < n {
            let w = visual_width(escape_cell(table.headers[col].content.as_str()).as_str());
            if w > widths[col] {
                widths.set(col, w);
            }
        }
        col = col + 1;
    }
    let mut r: usize = 0;
    while r < table.rows.len()
        invariant
            widths.len() == n == table.alignments.len(),
            t == table@,
            r <= t.rows.len(),
            forall|c: int|
                0 <= c < n ==> widths@[c] == maxn(
                    maxn(3, cell_w(t.headers, c)),
                    rows_w(t.rows.subrange(0, r as int), c),
                ),
        decreases table.rows.len() - r,
    {
        let row = &table.rows[r];
        let ghost rv = t.rows[r as int];
        assert(rv == model::cells_view(row@));
        let mut k: usize = 0;
        while k < row.len()
            invariant
                widths.len() == n,
                t == table@,
                rv == model::cells_view(row@),
                r < t.rows.len(),
                forall|c: int|
                    0 <= c < n ==> widths@[c] == maxn(
                        maxn(maxn(3, cell_w(t.headers, c)), rows_w(t.rows.subrange(0, r as int), c)),
                        if c < k { cell_w(rv, c) } else { 0 },
                    ),
            decreases row.len() - k,
        {
            if k < n {
                let w = visual_width(escape_cell(row[k].content.as_str()).as_str());
                if w > widths[k] {
                    widths.set(k, w);
                }
            }
            k = k + 1;
        }
        assert(t.rows.subrange(0, r + 1).drop_last() == t.rows.subrange(0, r as int));
        assert(t.rows.subrange(0, r + 1).last() == rv);
        r = r + 1;
    }
    assert(t.rows.subrange(0, t.rows.len() as int) == t.rows);
    widths
}

/// `n` dashes.
pub open spec fn dashes(n: int) -> Seq<char> {
    text::repeat('-', n as nat)
}

/// Separator content of a pretty column of width `w`.
pub open spec fn sep_inner(a: Alignment, w: nat) -> Seq<char> {
    match a {
        Alignment::Unaligned => dashes(w as int),
        Alignment::Left => if w < 1 {
            seq!['-']
        } else {
            seq![':'] + dashes(w - 1)
        },
        Alignment::Right => if w < 1 {
            seq!['-']
        } else {
            dashes(w - 1) + seq![':']
        },
        Alignment::Center => if w < 2 {
            seq![':', '-', ':']
        } else {
            seq![':'] + dashes(w - 2) + seq![':']
        },
    }
}

/// Pretty cells `0..k` of `cs`, each followed by a pipe.
pub open spec fn pretty_cells(al: Seq<Alignment>, ws: Seq<usize>, cs: Seq<CellView>, k: int) -> Seq<char>
    decreases k,
{
    if k <= 0 {
        seq![]
    } else {
        pretty_cells(al, ws, cs, k - 1) + pad_cell(al[k - 1], escape(cs[k - 1].content), ws[k - 1] as nat)
            + seq!['|']
    }
}

/// Empty pretty cells for columns `from..to`.
pub open spec fn pretty_fill(al: Seq<Alignment>, ws: Seq<usize>, from: int, to: int) -> Seq<char>
    decreases to - from,
{
    if to <= from {
        seq![]
    } else {
        pretty_fill(al, ws, from, to - 1) + pad_cell(al[to - 1], seq![], ws[to - 1] as nat) + seq!['|']
    }
}

/// Pretty separator cells for columns `0..k`.
pub open spec fn pretty_sep_cells(al: Seq<Alignment>, ws: Seq<usize>, k: int) -> Seq<char>
    decreases k,
{
    if k <= 0 {
        seq![]
    } else {
        pretty_sep_cells(al, ws, k - 1) + seq![' '] + sep_inner(al[k - 1], ws[k - 1] as nat) + seq![
            ' ',
            '|',
        ]
    }
}

pub open spec fn min_int(a: int, b: int) -> int {
    if a <= b {
        a
    } else {
        b
    }
}

/// A pretty body row: cells beyond the column count are dropped and
/// short rows are padded with empty cells.
pub open spec fn pretty_row(al: Seq<Alignment>, ws: Seq<usize>, r: Seq<CellView>) -> Seq<char> {
    seq!['|'] + pretty_cells(al, ws, r, min_int(r.len() as int, al.len() as int)) + pretty_fill(
        al,
        ws,
        r.len() as int,
        al.len() as int,
    ) + seq!['\n']
}

pub open spec fn pretty_rows(al: Seq<Alignment>, ws: Seq<usize>, rows: Seq<Seq<CellView>>) -> Seq<char>
    decreases rows.len(),
{
    if rows.len() == 0 {
        seq![]
    } else {
        pretty_rows(al, ws, rows.drop_last()) + pretty_row(al, ws, rows.last())
    }
}

/// The column widths of a table.
pub open spec fn widths_of(t: TableView) -> Seq<usize> {
    Seq::new(t.alignments.len(), |col: int| col_width(t, col) as usize)
}

/// What `to_gfm_pretty` produces.
pub open spec fn pretty_text(t: TableView) -> Seq<char> {
    let ws = widths_of(t);
    let al = t.alignments;
    (seq!['|'] + pretty_cells(al, ws, t.headers, t.headers.len() as int) + seq!['\n']) + (seq!['|']
        + pretty_sep_cells(al, ws, al.len() as int) + seq!['\n']) + pretty_rows(al, ws, t.rows)
}

fn push_sep_inner(out: &mut String, a: Alignment, w: usize)
    ensures
        final(out)@ == old(out)@ + sep_inner(a, w as nat),
{
    match a {
        Alignment::Unaligned => {
            push_repeat(out, '-', w);
        },
        Alignment::Left => {
            if w < 1 {
                push_char(out, '-');
            } else {
                push_char(out, ':');
                push_repeat(out, '-', w - 1);
            }
        },
        Alignment::Right => {
            if w < 1 {
                push_char(out, '-');
            } else {
                push_repeat(out, '-', w - 1);
                push_char(out, ':');
            }
        },
        Alignment::Center => {
            if w < 2 {
                push_char(out, ':');
                push_char(out, '-');
                push_char(out, ':');
            } else {
                push_char(out, ':');
                push_repeat(out, '-', w - 2);
                push_char(out, ':');
            }
        },
    }
    assert(out@ =~= old(out)@ + sep_inner(a, w as nat));
}

/// Appends pretty cells `0..k` of `cells`.
fn push_pretty_cells(out: &mut String, al: &Vec<Alignment>, ws: &Vec<usize>, cells: &[Cell], k: usize)
    requires
        k <= cells.len(),
        k <= al.len(),
        al.len() == ws.len(),
    ensures
        final(out)@ == old(out)@ + pretty_cells(al@, ws@, model::cells_view(cells@), k as int),
{
    let ghost cs = model::cells_view(cells@);
    let mut col: usize = 0;
    while col < k
        invariant
            col <= k <= cells.len(),
            k <= al.len() == ws.len(),
            cs == model::cells_view(cells@),
            out@ == old(out)@ + pretty_cells(al@, ws@, cs, col as int),
        decreases k - col,
    {
        let esc = escape_cell(cells[col].content.as_str());
        let p = pad_for(al[col], esc.as_str(), ws[col]);
        push_str(out, p.as_str());
        push_char(out, '|');
        assert(out@ =~= old(out)@ + pretty_cells(al@, ws@, cs, col + 1));
        col = col + 1;
    }
}

/// Pretty-printed with column widths recomputed from current cell
/// contents. The default for newly created tables.
pub fn to_gfm_pretty(table: &MarkdownTable) -> (s: String)
    requires
        table.headers.len() <= table.alignments.len(),
    ensures
        s@ == pretty_text(table@),
{
    let widths = column_widths(table);
    let ghost t = table@;
    let ghost ws = widths_of(t);
    assert(widths@ =~= ws);
    let al = &table.alignments;
    let n = al.len();
    let mut s = String::new();

    push_char(&mut s, '|');
    push_pretty_cells(&mut s, al, &widths, table.headers.as_slice(), table.headers.len());
    push_char(&mut s, '\n');
    let ghost after_header = s@;

    push_char(&mut s, '|');
    let mut col: usize = 0;
    while col < n
        invariant
            col <= n == al.len() == widths.len(),
            al@ == t.alignments,
            widths@ == ws,
            s@ == after_header + seq!['|'] + pretty_sep_cells(al@, ws, col as int),
        decreases n - col,
    {
        push_char(&mut s, ' ');
        push_sep_inner(&mut s, al[col], widths[col]);
        push_char(&mut s, ' ');
        push_char(&mut s, '|');
        assert(s@ =~= after_header + seq!['|'] + pretty_sep_cells(al@, ws, col + 1));
        col = col + 1;
    }
    push_char(&mut s, '\n');
    let ghost after_sep = s@;

    let mut r: usize = 0;
    while r < table.rows.len()
        invariant
            r <= table.rows.len(),
            n == al.len() == widths.len(),
            al@ == t.alignments,
            widths@ == ws,
            t == table@,
            s@ == after_sep + pretty_rows(al@, ws, t.rows.subrange(0, r as int)),
        decreases table.rows.len() - r,
    {
        let row = &table.rows[r];
        let ghost rv = t.rows[r as int];
        assert(rv == model::cells_view(row@));
        let ghost before = s@;
        push_char(&mut s, '|');
        let m = if row.len() < n {
            row.len()
        } else {
            n
        };
        push_pretty_cells(&mut s, al, &widths, row.as_slice(), m);
        let ghost mid = s@;
        let mut c = row.len();
        while c < n
            invariant
                row.len() <= c,
                c <= n || c == row.len(),
                n == al.len() == widths.len(),
                s@ == mid + pretty_fill(al@, ws, row.len() as int, c as int),
                widths@ == ws,
            decreases n - c,
        {
            proof {
                reveal_strlit("");
            }
            let p = pad_for(al[c], "", widths[c]);
            push_str(&mut s, p.as_str());
            push_char(&mut s, '|');
            assert(s@ =~= mid + pretty_fill(al@, ws, row.len() as int, c + 1));
            c = c + 1;
        }
        push_char(&mut s, '\n');
        assert(s@ =~= before + pretty_row(al@, ws, rv));
        assert(t.rows.subrange(0, r + 1).drop_last() == t.rows.subrange(0, r as int));
        assert(t.rows.subrange(0, r + 1).last() == rv);
        assert(s@ =~= after_sep + pretty_rows(al@, ws, t.rows.subrange(0, r + 1)));
        r = r + 1;
    }
    assert(t.rows.subrange(0, t.rows.len() as int) == t.rows);
    assert(s@ =~= pretty_text(t));
    s
}


/// Spans that can be replaced right to left: ordered, disjoint, inside
/// `b` and on character boundaries.
pub open spec fn spans_ok(b: Seq<u8>, spans: Seq<Range<usize>>) -> bool {
    &&& forall|k: int| 0 <= k < spans.len() ==> (#[trigger] spans[k]).start <= spans[k].end
    &&& forall|k: int| 0 <= k < spans.len() - 1 ==> (#[trigger] spans[k]).end <= spans[k + 1].start
    &&& spans.len() > 0 ==> spans.last().end <= b.len()
    &&& forall|k: int|
        0 <= k < spans.len() ==> is_char_boundary(b, (#[trigger] spans[k]).start as int)
            && is_char_boundary(b, spans[k].end as int)
}

/// Replace spans `k..` of `b` by `pieces`, the last span first.
pub open spec fn splice_from(b: Seq<u8>, spans: Seq<Range<usize>>, pieces: Seq<Seq<u8>>, k: int) -> Seq<u8>
    decreases spans.len() - k,
{
    if k >= spans.len() || k < 0 {
        b
    } else {
        let r = splice_from(b, spans, pieces, k + 1);
        r.subrange(0, spans[k].start as int) + pieces[k] + r.subrange(spans[k].end as int, r.len() as int)
    }
}

/// The text a cell takes in a rebuilt line: the original span itself
/// when the cell's content is what the span holds (trimmed), else the
/// span's leading and trailing whitespace (at least one space each, as
/// spaces) around the escaped content, left-aligned in the span's
/// trimmed width.
pub open spec fn padded_piece(o: Seq<u8>, content: Seq<char>) -> Seq<char> {
    let orig = decode_utf8(o);
    if text::trim(orig) == content {
        orig
    } else {
        let esc = escape(content);
        let target = maxn(text::trim(orig).len(), esc.len());
        spaces(maxn(text::lead_count(o), 1) as int) + esc + spaces(target - esc.len()) + spaces(
            maxn(text::trail_count(o), 1) as int,
        )
    }
}

/// The replacement bytes for each span of a line.
pub open spec fn line_pieces(l: LineView, cells: Seq<CellView>) -> Seq<Seq<u8>> {
    let b = text::utf8(l.raw);
    Seq::new(
        l.spans.len(),
        |k: int|
            text::utf8(
                padded_piece(b.subrange(l.spans[k].start as int, l.spans[k].end as int), cells[k].content),
            ),
    )
}

/// What `rebuild_line` produces (as bytes): the captured line with each
/// cell span re-padded around the current content, or a compact line
/// when the cell count changed.
pub open spec fn rebuild_bytes(l: LineView, cells: Seq<CellView>) -> Seq<u8> {
    if l.spans.len() != cells.len() {
        text::utf8(seq!['|'] + compact_cells(cells))
    } else {
        splice_from(text::utf8(l.raw), l.spans, line_pieces(l, cells), 0)
    }
}

proof fn lemma_splice_prefix(b: Seq<u8>, spans: Seq<Range<usize>>, pieces: Seq<Seq<u8>>, k: int)
    requires
        valid_utf8(b),
        spans_ok(b, spans),
        pieces.len() == spans.len(),
        forall|j: int| 0 <= j < pieces.len() ==> valid_utf8(#[trigger] pieces[j]),
        0 <= k < spans.len(),
    ensures
        splice_from(b, spans, pieces, k).len() >= spans[k].start,
        splice_from(b, spans, pieces, k).subrange(0, spans[k].start as int) == b.subrange(
            0,
            spans[k].start as int,
        ),
        valid_utf8(splice_from(b, spans, pieces, k).subrange(
            spans[k].start as int,
            splice_from(b, spans, pieces, k).len() as int,
        )),
        valid_utf8(splice_from(b, spans, pieces, k)),
    decreases spans.len() - k,
{
    let s = spans[k].start as int;
    let e = spans[k].end as int;
    let r = splice_from(b, spans, pieces, k + 1);
    let out = splice_from(b, spans, pieces, k);
    vstd::utf8::valid_utf8_split(b, e);
    if k + 1 < spans.len() {
        lemma_splice_prefix(b, spans, pieces, k + 1);
        let s2 = spans[k + 1].start as int;
        // r == b[0..s2] + z, z valid
        let z = r.subrange(s2, r.len() as int);
        assert(r =~= b.subrange(0, s2) + z);
        vstd::utf8::valid_utf8_split(b, s2);
        text::lemma_boundary_prefix(b, e, s2);
        let mid = b.subrange(0, s2).subrange(e, s2);
        vstd::utf8::valid_utf8_split(b.subrange(0, s2), e);
        assert(mid =~= b.subrange(e, s2));
        assert(r.subrange(e, r.len() as int) =~= b.subrange(e, s2) + z);
        vstd::utf8::valid_utf8_concat(b.subrange(e, s2), z);
        assert(r.subrange(0, s) =~= b.subrange(0, s));
        vstd::utf8::valid_utf8_concat(pieces[k], r.subrange(e, r.len() as int));
        assert(out.subrange(s, out.len() as int) =~= pieces[k] + r.subrange(e, r.len() as int));
        assert(out =~= b.subrange(0, s) + out.subrange(s, out.len() as int));
        vstd::utf8::valid_utf8_split(b, s);
        vstd::utf8::valid_utf8_concat(b.subrange(0, s), out.subrange(s, out.len() as int));
    } else {
        assert(r == b);
        vstd::utf8::valid_utf8_concat(pieces[k], b.subrange(e, b.len() as int));
        assert(out.subrange(s, out.len() as int) =~= pieces[k] + b.subrange(e, b.len() as int));
        assert(out =~= b.subrange(0, s) + out.subrange(s, out.len() as int));
        vstd::utf8::valid_utf8_split(b, s);
        vstd::utf8::valid_utf8_concat(b.subrange(0, s), out.subrange(s, out.len() as int));
    }
}

/// Span `k` still sits at the same character boundaries once the later
/// spans have been replaced.
proof fn lemma_splice_boundaries(b: Seq<u8>, spans: Seq<Range<usize>>, pieces: Seq<Seq<u8>>, k: int)
    requires
        valid_utf8(b),
        spans_ok(b, spans),
        pieces.len() == spans.len(),
        forall|j: int| 0 <= j < pieces.len() ==> valid_utf8(#[trigger] pieces[j]),
        0 <= k < spans.len(),
    ensures
        spans[k].end <= splice_from(b, spans, pieces, k + 1).len(),
        is_char_boundary(splice_from(b, spans, pieces, k + 1), spans[k].start as int),
        is_char_boundary(splice_from(b, spans, pieces, k + 1), spans[k].end as int),
        splice_from(b, spans, pieces, k + 1).subrange(spans[k].start as int, spans[k].end as int)
            == b.subrange(spans[k].start as int, spans[k].end as int),
{
    let s = spans[k].start as int;
    let e = spans[k].end as int;
    if k + 1 < spans.len() {
        lemma_splice_prefix(b, spans, pieces, k + 1);
        let r = splice_from(b, spans, pieces, k + 1);
        let s2 = spans[k + 1].start as int;
        let z = r.subrange(s2, r.len() as int);
        assert(r =~= b.subrange(0, s2) + z);
        text::lemma_boundary_prefix(b, s, s2);
        text::lemma_boundary_prefix(b, e, s2);
        text::lemma_boundary_concat(b.subrange(0, s2), z, s);
        text::lemma_boundary_concat(b.subrange(0, s2), z, e);
        assert(r.subrange(s, e) =~= b.subrange(s, e));
    } else {
        assert(spans.last() == spans[k]);
    }
}

/// The bytes `o` of a captured cell span hold `content`: they are text
/// whose trimmed form is the content.
pub open spec fn span_holds(o: Seq<u8>, content: Seq<char>) -> bool {
    exists|d: Seq<char>| #[trigger] text::utf8(d) == o && text::trim(d) == content
}

proof fn lemma_piece_unchanged(o: Seq<u8>, content: Seq<char>)
    requires
        span_holds(o, content),
    ensures
        text::utf8(padded_piece(o, content)) == o,
{
    let d = choose|d: Seq<char>| #[trigger] text::utf8(d) == o && text::trim(d) == content;
    vstd::utf8::encode_utf8_decode_utf8(d);
    assert(decode_utf8(o) == d);
}

proof fn lemma_splice_unchanged(b: Seq<u8>, spans: Seq<Range<usize>>, pieces: Seq<Seq<u8>>, k: int)
    requires
        valid_utf8(b),
        spans_ok(b, spans),
        pieces.len() == spans.len(),
        0 <= k,
        forall|j: int|
            k <= j < spans.len() ==> #[trigger] pieces[j] == b.subrange(spans[j].start as int, spans[j].end as int),
    ensures
        splice_from(b, spans, pieces, k) == b,
    decreases spans.len() - k,
{
    if k < spans.len() {
        lemma_splice_unchanged(b, spans, pieces, k + 1);
        let s = spans[k].start as int;
        let e = spans[k].end as int;
        assert(is_char_boundary(b, e));
        assert(e <= b.len());
        assert(b.subrange(0, s) + pieces[k] + b.subrange(e, b.len() as int) =~= b);
    }
}

/// Rebuilding a captured line whose cells still hold what their spans
/// show gives the line back byte for byte.
pub proof fn lemma_rebuild_unchanged(l: LineView, cells: Seq<CellView>)
    requires
        l.spans.len() == cells.len(),
        spans_ok(text::utf8(l.raw), l.spans),
        forall|k: int|
            0 <= k < cells.len() ==> span_holds(
                text::utf8(l.raw).subrange((#[trigger] l.spans[k]).start as int, l.spans[k].end as int),
                cells[k].content,
            ),
    ensures
        rebuild_bytes(l, cells) == text::utf8(l.raw),
{
    let b = text::utf8(l.raw);
    vstd::utf8::encode_utf8_valid_utf8(l.raw);
    let pieces = line_pieces(l, cells);
    assert forall|j: int| 0 <= j < l.spans.len() implies #[trigger] pieces[j] == b.subrange(
        l.spans[j].start as int,
        l.spans[j].end as int,
    ) by {
        lemma_piece_unchanged(b.subrange(l.spans[j].start as int, l.spans[j].end as int), cells[j].content);
    }
    lemma_splice_unchanged(b, l.spans, pieces, 0);
}

/// Rebuild a single line from the original with current cell contents
/// substituted into the cell spans; cells whose content is unchanged
/// keep their span byte for byte. Falls back to compact formatting if
/// the cell count no longer matches the original line.
fn rebuild_line(line: &OriginalLine, cells: &[Cell]) -> (r: String)
    requires
        line.cell_spans.len() == cells.len() ==> spans_ok(text::utf8(line.raw@), line.cell_spans@),
    ensures
        text::utf8(r@) == rebuild_bytes(line@, model::cells_view(cells@)),
{
    if line.cell_spans.len() != cells.len() {
        return compact_line(cells);
    }
    let ghost b = text::utf8(line.raw@);
    let ghost spans = line.cell_spans@;
    let ghost pieces = line_pieces(line@, model::cells_view(cells@));
    proof {
        vstd::utf8::encode_utf8_valid_utf8(line.raw@);
        assert forall|j: int| 0 <= j < pieces.len() implies valid_utf8(#[trigger] pieces[j]) by {
            vstd::utf8::encode_utf8_valid_utf8(
                padded_piece(
                    b.subrange(spans[j].start as int, spans[j].end as int),
                    model::cells_view(cells@)[j].content,
                ),
            );
        }
    }
    let raw_bytes = line.raw.as_str().as_bytes();
    let mut rebuilt = line.raw.clone();
    let mut col = line.cell_spans.len();
    while col > 0
        invariant
            col <= spans.len() == cells.len(),
            spans == line.cell_spans@,
            b == text::utf8(line.raw@),
            raw_bytes@ == b,
            valid_utf8(b),
            spans_ok(b, spans),
            pieces == line_pieces(line@, model::cells_view(cells@)),
            pieces.len() == spans.len(),
            forall|j: int| 0 <= j < pieces.len() ==> valid_utf8(#[trigger] pieces[j]),
            text::utf8(rebuilt@) == splice_from(b, spans, pieces, col as int),
        decreases col,
    {
        col = col - 1;
        let span = &line.cell_spans[col];
        let (s, e) = (span.start, span.end);
        proof {
            lemma_splice_boundaries(b, spans, pieces, col as int);
        }
        let original_text = str_slice(line.raw.as_str(), s, e);
        let ov = chars_of(original_text);
        let (lo, hi) = trim_bounds(&ov);
        let mut padded = String::new();
        if chars_eq(&ov, lo, hi, cells[col].content.as_str()) {
            push_str(&mut padded, original_text);
        } else {
            let lead = count_lead(raw_bytes, s, e);
            let trail = count_trail(raw_bytes, s, e);
            let escaped = escape_cell(cells[col].content.as_str());
            let esc_w = visual_width(escaped.as_str());
            let inner_target = if hi - lo >= esc_w {
                hi - lo
            } else {
                esc_w
            };
            push_repeat(&mut padded, ' ', if lead >= 1 {
                lead
            } else {
                1
            });
            push_str(&mut padded, escaped.as_str());
            push_repeat(&mut padded, ' ', inner_target - esc_w);
            push_repeat(&mut padded, ' ', if trail >= 1 {
                trail
            } else {
                1
            });
        }
        proof {
            let o = b.subrange(s as int, e as int);
            vstd::utf8::encode_utf8_decode_utf8(original_text@);
            assert(padded@ =~= padded_piece(o, model::cells_view(cells@)[col as int].content));
            assert(text::utf8(padded@) == pieces[col as int]);
        }
        replace_range(&mut rebuilt, s, e, padded.as_str());
        assert(text::utf8(rebuilt@) == splice_from(b, spans, pieces, col as int));
    }
    rebuilt
}

/// The output of one captured line in `to_gfm_preserve` (bytes).
pub open spec fn line_out(l: LineView, t: TableView) -> Seq<u8> {
    match l.kind {
        LineKind::Header => rebuild_bytes(l, t.headers).push(10u8),
        LineKind::Separator => text::utf8(l.raw).push(10u8),
        LineKind::Body { row_index } => if row_index < t.rows.len() {
            rebuild_bytes(l, t.rows[row_index as int]).push(10u8)
        } else {
            seq![]
        },
    }
}

pub open spec fn preserve_lines(ls: Seq<LineView>, t: TableView) -> Seq<u8>
    decreases ls.len(),
{
    if ls.len() == 0 {
        seq![]
    } else {
        preserve_lines(ls.drop_last(), t) + line_out(ls.last(), t)
    }
}

/// The bytes `to_gfm_preserve` produces: each captured line rebuilt with
/// the current cells (separators verbatim, lines of removed rows
/// dropped), each followed by a newline; pretty output when no lines
/// were captured.
pub open spec fn preserve_bytes(t: TableView) -> Seq<u8> {
    match t.original_lines {
        Some(ls) => preserve_lines(ls, t),
        None => text::utf8(pretty_text(t)),
    }
}

/// The cells of `cells` are what line `l` shows: one per span, each span
/// holding its cell's content as typed.
pub open spec fn line_holds(l: LineView, cells: Seq<CellView>) -> bool {
    &&& l.spans.len() == cells.len()
    &&& spans_ok(text::utf8(l.raw), l.spans)
    &&& forall|k: int|
        0 <= k < cells.len() ==> span_holds(
            text::utf8(l.raw).subrange((#[trigger] l.spans[k]).start as int, l.spans[k].end as int),
            cells[k].content,
        )
}

/// Captured line `l` still shows the current cells of table `t`.
pub open spec fn line_unchanged(l: LineView, t: TableView) -> bool {
    match l.kind {
        LineKind::Header => line_holds(l, t.headers),
        LineKind::Separator => true,
        LineKind::Body { row_index } => row_index < t.rows.len() && line_holds(l, t.rows[row_index as int]),
    }
}

/// The captured lines as text: each line followed by a newline.
pub open spec fn captured_text(ls: Seq<LineView>) -> Seq<u8>
    decreases ls.len(),
{
    if ls.len() == 0 {
        seq![]
    } else {
        captured_text(ls.drop_last()) + text::utf8(ls.last().raw).push(10u8)
    }
}

proof fn lemma_preserve_lines_unchanged(ls: Seq<LineView>, t: TableView)
    requires
        forall|k: int| 0 <= k < ls.len() ==> line_unchanged(#[trigger] ls[k], t),
    ensures
        preserve_lines(ls, t) == captured_text(ls),
    decreases ls.len(),
{
    if ls.len() > 0 {
        assert forall|k: int| 0 <= k < ls.drop_last().len() implies line_unchanged(#[trigger] ls.drop_last()[k], t) by {
            assert(ls.drop_last()[k] == ls[k]);
        }
        lemma_preserve_lines_unchanged(ls.drop_last(), t);
        let l = ls.last();
        assert(line_unchanged(ls[ls.len() - 1], t));
        match l.kind {
            LineKind::Header => {
                lemma_rebuild_unchanged(l, t.headers);
            },
            LineKind::Separator => {},
            LineKind::Body { row_index } => {
                lemma_rebuild_unchanged(l, t.rows[row_index as int]);
            },
        }
    }
}

/// Replaying a table whose captured lines all still show its cells gives
/// those lines back byte for byte, each followed by a newline: unedited
/// cells keep the user's formatting exactly.
pub proof fn lemma_preserve_round_trip(t: TableView)
    requires
        t.original_lines is Some,
        forall|k: int|
            0 <= k < t.original_lines->0.len() ==> line_unchanged(#[trigger] t.original_lines->0[k], t),
    ensures
        preserve_bytes(t) == captured_text(t.original_lines->0),
{
    lemma_preserve_lines_unchanged(t.original_lines->0, t);
}

/// A captured line can be rebuilt against the cells it stands for.
pub open spec fn line_rebuild_ok(l: LineView, t: TableView) -> bool {
    match l.kind {
        LineKind::Header => l.spans.len() == t.headers.len() ==> spans_ok(text::utf8(l.raw), l.spans),
        LineKind::Separator => true,
        LineKind::Body { row_index } => row_index < t.rows.len() && l.spans.len()
            == t.rows[row_index as int].len() ==> spans_ok(text::utf8(l.raw), l.spans),
    }
}

/// `to_gfm_preserve` does not panic on `t`.
pub open spec fn preserve_ok(t: TableView) -> bool {
    &&& t.original_lines is Some ==> forall|k: int|
        0 <= k < t.original_lines->0.len() ==> line_rebuild_ok(#[trigger] t.original_lines->0[k], t)
    &&& t.original_lines is None ==> t.headers.len() <= t.alignments.len()
}

/// Replay the captured original lines, substituting only changed cells.
pub fn to_gfm_preserve(table: &MarkdownTable, _buffer: &str) -> (s: String)
    requires
        preserve_ok(table@),
    ensures
        text::utf8(s@) == preserve_bytes(table@),
{
    let originals = match table.original_lines.as_ref() {
        Some(ls) => ls,
        None => {
            return to_gfm_pretty(table);
        },
    };
    let ghost t = table@;
    let ghost ls = model::lines_view(originals@);
    assert(t.original_lines == Some(ls));
    assert(preserve_ok(t));
    assert(t.original_lines->0 == ls);
    assert forall|j: int| 0 <= j < ls.len() implies line_rebuild_ok(#[trigger] ls[j], t) by {
        assert(line_rebuild_ok(t.original_lines->0[j], t));
    }
    let mut out = String::new();
    let mut k: usize = 0;
    while k < originals.len()
        invariant
            k <= originals.len(),
            t == table@,
            ls == model::lines_view(originals@),
            t.original_lines == Some(ls),
            forall|j: int| 0 <= j < ls.len() ==> line_rebuild_ok(#[trigger] ls[j], t),
            text::utf8(out@) == preserve_lines(ls.subrange(0, k as int), t),
        decreases originals.len() - k,
    {
        let line = &originals[k];
        assert(ls[k as int] == line@);
        assert(line_rebuild_ok(ls[k as int], t));
        let ghost before = out@;
        match line.kind {
            LineKind::Header => {
                let rebuilt = rebuild_line(line, table.headers.as_slice());
                push_str(&mut out, rebuilt.as_str());
                push_char(&mut out, '\n');
                assert(out@ =~= before + rebuilt@ + seq!['\n']);
                proof {
                    text::lemma_utf8_concat(before, rebuilt@);
                    text::lemma_utf8_concat(before + rebuilt@, seq!['\n']);
                }
            },
            LineKind::Separator => {
                push_str(&mut out, line.raw.as_str());
                push_char(&mut out, '\n');
                assert(out@ =~= before + line.raw@ + seq!['\n']);
                proof {
                    text::lemma_utf8_concat(before, line.raw@);
                    text::lemma_utf8_concat(before + line.raw@, seq!['\n']);
                }
            },
            LineKind::Body { row_index } => {
                if row_index < table.rows.len() {
                    let rebuilt = rebuild_line(line, table.rows[row_index].as_slice());
                    push_str(&mut out, rebuilt.as_str());
                    push_char(&mut out, '\n');
                    assert(out@ =~= before + rebuilt@ + seq!['\n']);
                    proof {
                        text::lemma_utf8_concat(before, rebuilt@);
                        text::lemma_utf8_concat(before + rebuilt@, seq!['\n']);
                    }
                }
            },
        }
        proof {
            text::lemma_utf8_newline();
            assert(ls.subrange(0, k + 1).drop_last() == ls.subrange(0, k as int));
            assert(ls.subrange(0, k + 1).last() == ls[k as int]);
            assert(text::utf8(out@) =~= preserve_lines(ls.subrange(0, k + 1), t));
        }
        k = k + 1;
    }
    assert(ls.subrange(0, originals.len() as int) == ls);
    out
}


/// The GFM bytes of a table in its own style.
pub open spec fn gfm_bytes(t: TableView) -> Seq<u8> {
    match t.style {
        TableStyle::Compact => text::utf8(compact_text(t)),
        TableStyle::Pretty => text::utf8(pretty_text(t)),
        TableStyle::PreserveOriginal => preserve_bytes(t),
    }
}

/// `to_gfm` does not panic on `t`.
pub open spec fn gfm_ok(t: TableView) -> bool {
    match t.style {
        TableStyle::Compact => true,
        TableStyle::Pretty => t.headers.len() <= t.alignments.len(),
        TableStyle::PreserveOriginal => preserve_ok(t),
    }
}

/// Serialise a table to GFM source per its style.
pub fn to_gfm(table: &MarkdownTable, buffer: &str) -> (s: String)
    requires
        gfm_ok(table@),
    ensures
        text::utf8(s@) == gfm_bytes(table@),
{
    match table.style {
        TableStyle::Compact => to_gfm_compact(table),
        TableStyle::Pretty => to_gfm_pretty(table),
        TableStyle::PreserveOriginal => to_gfm_preserve(table, buffer),
    }
}

/// A captured line stands for `row` (`-1`: the header line).
pub open spec fn line_matches(l: LineView, row: i32) -> bool {
    if row == -1 {
        l.kind == LineKind::Header
    } else {
        l.kind is Body && (l.kind->row_index as i32) == row
    }
}

/// Index of the first captured line standing for `row`.
pub open spec fn first_match(ls: Seq<LineView>, row: i32) -> Option<int>
    decreases ls.len(),
{
    if ls.len() == 0 {
        None
    } else if line_matches(ls[0], row) {
        Some(0)
    } else {
        match first_match(ls.drop_first(), row) {
            Some(i) => Some(i + 1),
            None => None,
        }
    }
}

/// Line `l` with span `col` replaced by `padded`, later spans moved by
/// the change of length.
pub open spec fn refreshed_line(l: LineView, col: usize, padded: Seq<char>) -> LineView {
    if col >= l.spans.len() {
        l
    } else {
        let sp = l.spans[col as int];
        let b = text::utf8(l.raw);
        let p = text::utf8(padded);
        let delta = p.len() - (sp.end - sp.start);
        LineView {
            raw: decode_utf8(b.subrange(0, sp.start as int) + p + b.subrange(sp.end as int, b.len() as int)),
            spans: Seq::new(
                l.spans.len(),
                |j: int|
                    if j < col {
                        l.spans[j]
                    } else if j == col {
                        Range { start: sp.start, end: (sp.start + p.len()) as usize }
                    } else {
                        Range {
                            start: (l.spans[j].start + delta) as usize,
                            end: (l.spans[j].end + delta) as usize,
                        }
                    },
            ),
            kind: l.kind,
        }
    }
}

/// The captured lines after cell `(row, col)` was rewritten as `padded`.
pub open spec fn refresh_lines(ls: Seq<LineView>, row: i32, col: usize, padded: Seq<char>) -> Seq<LineView> {
    match first_match(ls, row) {
        Some(i) => ls.update(i, refreshed_line(ls[i], col, padded)),
        None => ls,
    }
}

/// Span `col` of `l` can be replaced by `padded`.
pub open spec fn refresh_line_ok(l: LineView, col: usize, padded: Seq<char>) -> bool {
    let b = text::utf8(l.raw);
    let p = text::utf8(padded);
    col < l.spans.len() ==> {
        let sp = l.spans[col as int];
        let delta = p.len() - (sp.end - sp.start);
        &&& sp.start <= sp.end
        &&& is_char_boundary(b, sp.start as int)
        &&& is_char_boundary(b, sp.end as int)
        &&& b.len() + p.len() <= isize::MAX
        &&& forall|j: int|
            col < j < l.spans.len() ==> {
                &&& (#[trigger] l.spans[j]).start <= isize::MAX
                &&& l.spans[j].end <= isize::MAX
                &&& isize::MIN <= l.spans[j].start + delta <= isize::MAX
                &&& isize::MIN <= l.spans[j].end + delta <= isize::MAX
            }
    }
}

/// `refresh_original_line` does not panic.
pub open spec fn refresh_ok(ls: Seq<LineView>, row: i32, col: usize, padded: Seq<char>) -> bool {
    match first_match(ls, row) {
        Some(i) => refresh_line_ok(ls[i], col, padded),
        None => true,
    }
}

proof fn lemma_first_match(ls: Seq<LineView>, row: i32)
    ensures
        match first_match(ls, row) {
            Some(i) => 0 <= i < ls.len() && line_matches(ls[i], row) && forall|j: int|
                0 <= j < i ==> !line_matches(#[trigger] ls[j], row),
            None => forall|j: int| 0 <= j < ls.len() ==> !line_matches(#[trigger] ls[j], row),
        },
    decreases ls.len(),
{
    if ls.len() > 0 && !line_matches(ls[0], row) {
        lemma_first_match(ls.drop_first(), row);
        match first_match(ls.drop_first(), row) {
            Some(i) => {
                assert forall|j: int| 0 <= j < i + 1 implies !line_matches(#[trigger] ls[j], row) by {
                    if j > 0 {
                        assert(ls[j] == ls.drop_first()[j - 1]);
                    }
                }
            },
            None => {
                assert forall|j: int| 0 <= j < ls.len() implies !line_matches(#[trigger] ls[j], row) by {
                    if j > 0 {
                        assert(ls[j] == ls.drop_first()[j - 1]);
                    }
                }
            },
        }
    }
}

fn line_matches_exec(l: &OriginalLine, row: i32) -> (b: bool)
    ensures
        b == line_matches(l@, row),
{
    if row == -1 {
        match l.kind {
            LineKind::Header => true,
            _ => false,
        }
    } else {
        match l.kind {
            LineKind::Body { row_index } => row_index as i32 == row,
            _ => false,
        }
    }
}

/// Keep the captured line of an edited cell in sync with the new text.
fn refresh_original_line(lines: &mut Vec<OriginalLine>, row: i32, col: usize, padded: &str)
    requires
        refresh_ok(model::lines_view(old(lines)@), row, col, padded@),
    ensures
        model::lines_view(final(lines)@) == refresh_lines(model::lines_view(old(lines)@), row, col, padded@),
{
    let ghost ls = model::lines_view(lines@);
    proof {
        lemma_first_match(ls, row);
    }
    let mut idx: usize = 0;
    while idx < lines.len() && !line_matches_exec(&lines[idx], row)
        invariant
            idx <= lines.len(),
            ls == model::lines_view(lines@),
            forall|j: int| 0 <= j < idx ==> !line_matches(#[trigger] ls[j], row),
        decreases lines.len() - idx,
    {
        idx = idx + 1;
    }
    if idx == lines.len() {
        assert(first_match(ls, row) is None);
        return;
    }
    assert(first_match(ls, row) == Some(idx as int));
    if col >= lines[idx].cell_spans.len() {
        assert(ls.update(idx as int, refreshed_line(ls[idx as int], col, padded@)) =~= ls);
        return;
    }
    let ghost l = ls[idx as int];
    let ghost b = text::utf8(l.raw);
    let ghost p = text::utf8(padded@);
    let span_start = lines[idx].cell_spans[col].start;
    let span_end = lines[idx].cell_spans[col].end;
    let old_len = span_end - span_start;
    let new_len = padded.as_bytes().len();
    proof {
        vstd::utf8::encode_utf8_valid_utf8(l.raw);
        vstd::utf8::is_char_boundary_start_end_of_seq(b);
    }
    let delta: isize = new_len as isize - old_len as isize;
    replace_range(&mut lines[idx].raw, span_start, span_end, padded);
    let nspans = lines[idx].cell_spans.len();
    let mut j = col + 1;
    while j < nspans
        invariant
            col < nspans == lines@[idx as int].cell_spans.len() == l.spans.len(),
            idx < lines.len() == ls.len(),
            col + 1 <= j <= nspans,
            l == ls[idx as int],
            ls == model::lines_view(old(lines)@),
            refresh_line_ok(l, col, padded@),
            p == text::utf8(padded@),
            b == text::utf8(l.raw),
            span_end <= b.len(),
            delta == p.len() - (span_end - span_start),
            span_start == l.spans[col as int].start,
            span_end == l.spans[col as int].end,
            forall|k: int| 0 <= k < lines.len() && k != idx ==> #[trigger] lines@[k] == old(lines)@[k],
            lines@[idx as int].kind == l.kind,
            text::utf8(lines@[idx as int].raw@) == b.subrange(0, span_start as int) + p + b.subrange(span_end as int, b.len() as int),
            forall|k: int| 0 <= k < j && k != col ==> #[trigger] lines@[idx as int].cell_spans@[k] == refreshed_line(l, col, padded@).spans[k],
            forall|k: int| j <= k < nspans || k == col ==> #[trigger] lines@[idx as int].cell_spans@[k] == l.spans[k],
        decreases nspans - j,
    {
        let sp_start = lines[idx].cell_spans[j].start;
        let sp_end = lines[idx].cell_spans[j].end;
        assert(lines@[idx as int].cell_spans@[j as int] == l.spans[j as int]);
        assert(col < j < l.spans.len());
        assert(l.spans[j as int].start <= isize::MAX);
        assert(isize::MIN <= l.spans[j as int].start + delta <= isize::MAX);
        let ns = (sp_start as isize + delta) as usize;
        let ne = (sp_end as isize + delta) as usize;
        lines[idx].cell_spans[j] = ns..ne;
        j = j + 1;
    }
    lines[idx].cell_spans[col] = span_start..(span_start + new_len);
    proof {
        vstd::utf8::encode_utf8_decode_utf8(lines@[idx as int].raw@);
        assert(lines@[idx as int]@.spans =~= refreshed_line(l, col, padded@).spans);
        assert(model::lines_view(lines@) =~= refresh_lines(ls, row, col, padded@));
    }
}


pub open spec fn sat_sub(a: int, b: int) -> int {
    if a >= b {
        a - b
    } else {
        0
    }
}

/// The width in characters of cell `c`'s text in buffer bytes `b`.
pub open spec fn old_width(c: CellView, b: Seq<u8>) -> int {
    decode_utf8(b.subrange(c.range.start as int, c.range.end as int)).len() as int
}

/// The text an in-place edit writes for cell `c` of buffer bytes `b`: the
/// cell's leading and trailing whitespace (at least one space each)
/// around the escaped new content, left-aligned in the old inner width,
/// in characters, when it fits.
pub open spec fn edit_padded(c: CellView, new: Seq<char>, b: Seq<u8>) -> Seq<char> {
    let esc = escape(new);
    let inner = maxn(
        sat_sub(sat_sub(old_width(c, b), c.leading_ws as int), c.trailing_ws as int) as nat,
        esc.len(),
    );
    spaces(maxn(c.leading_ws as nat, 1) as int) + esc + spaces(inner - esc.len()) + spaces(
        maxn(c.trailing_ws as nat, 1) as int,
    )
}

/// Cell `c` holding `new`, its whitespace counts raised to at least 1.
pub open spec fn edited_cell(c: CellView, new: Seq<char>) -> CellView {
    CellView {
        content: new,
        leading_ws: if c.leading_ws >= 1 {
            c.leading_ws
        } else {
            1
        },
        trailing_ws: if c.trailing_ws >= 1 {
            c.trailing_ws
        } else {
            1
        },
        ..c
    }
}

/// `t` with the cell at `(row, col)` replaced by `c`.
pub open spec fn set_cell(t: TableView, row: i32, col: usize, c: CellView) -> TableView {
    if row == -1 {
        TableView { headers: t.headers.update(col as int, c), ..t }
    } else {
        TableView { rows: t.rows.update(row as int, t.rows[row as int].update(col as int, c)), ..t }
    }
}

/// Every range of the table lies within `0..=len`.
pub open spec fn ranges_within(t: TableView, len: int) -> bool {
    &&& t.range.start <= len && t.range.end <= len
    &&& forall|i: int|
        0 <= i < t.headers.len() ==> (#[trigger] t.headers[i]).range.start <= len && t.headers[i].range.end
            <= len
    &&& forall|r: int, i: int|
        0 <= r < t.rows.len() && 0 <= i < t.rows[r].len() ==> (#[trigger] t.rows[r][i]).range.start <= len
            && t.rows[r][i].range.end <= len
}

/// The byte change of an in-place edit of cell `c`.
pub open spec fn edit_delta(c: CellView, new: Seq<char>, b: Seq<u8>) -> int {
    text::utf8(edit_padded(c, new, b)).len() - (c.range.end - c.range.start)
}

/// An in-place edit of `(row, col)` in buffer bytes `b` does not panic.
pub open spec fn in_place_ok(t: TableView, row: i32, col: usize, new: Seq<char>, b: Seq<u8>) -> bool {
    match model::cell_view_at(t, row, col) {
        Some(c) => {
            &&& c.range.start <= c.range.end
            &&& is_char_boundary(b, c.range.start as int)
            &&& is_char_boundary(b, c.range.end as int)
            &&& ranges_within(t, b.len() as int)
            &&& b.len() + text::utf8(edit_padded(c, new, b)).len() <= isize::MAX
            &&& t.original_lines is Some ==> refresh_ok(
                t.original_lines->0,
                row,
                col,
                edit_padded(c, new, b),
            )
        },
        None => true,
    }
}

/// The table after an in-place edit of cell `c` at `(row, col)`.
pub open spec fn in_place_table(t: TableView, row: i32, col: usize, c: CellView, new: Seq<char>, b: Seq<u8>) -> TableView {
    let t2 = model::shift_table(set_cell(t, row, col, edited_cell(c, new)), c.range.end, edit_delta(c, new, b));
    TableView {
        original_lines: match t.original_lines {
            Some(ls) => Some(refresh_lines(ls, row, col, edit_padded(c, new, b))),
            None => None,
        },
        ..t2
    }
}

/// Buffer bytes `b` with bytes `s..e` replaced by `p`.
pub open spec fn splice(b: Seq<u8>, s: int, e: int, p: Seq<u8>) -> Seq<u8> {
    b.subrange(0, s) + p + b.subrange(e, b.len() as int)
}

proof fn lemma_shift_ok_after_set(t: TableView, row: i32, col: usize, c: CellView, c2: CellView, len: int, p_len: int)
    requires
        model::cell_view_at(t, row, col) == Some(c),
        c2.range == c.range,
        ranges_within(t, len),
        c.range.start <= c.range.end,
        len + p_len <= isize::MAX,
        p_len >= 0,
    ensures
        model::shift_ok(set_cell(t, row, col, c2), c.range.end, p_len - (c.range.end - c.range.start)),
{
    let t2 = set_cell(t, row, col, c2);
    let pos = c.range.end;
    let delta = p_len - (c.range.end - c.range.start);
    assert forall|i: int| 0 <= i < t2.headers.len() implies model::range_shift_ok(#[trigger] t2.headers[i].range, pos, delta) by {
        assert(t2.headers[i].range == t.headers[i].range);
    }
    assert forall|r: int, i: int| 0 <= r < t2.rows.len() && 0 <= i < t2.rows[r].len() implies model::range_shift_ok(#[trigger] t2.rows[r][i].range, pos, delta) by {
        assert(t2.rows[r][i].range == t.rows[r][i].range);
    }
}

fn set_cell_fields(table: &mut MarkdownTable, row: i32, col: usize, content: String, lead: u8, trail: u8)
    requires
        model::cell_view_at(old(table)@, row, col) is Some,
    ensures
        final(table)@ == set_cell(
            old(table)@,
            row,
            col,
            CellView {
                content: content@,
                leading_ws: lead,
                trailing_ws: trail,
                ..model::cell_view_at(old(table)@, row, col)->0
            },
        ),
{
    let ghost c = model::cell_view_at(table@, row, col)->0;
    if row == -1 {
        table.headers[col].content = content;
        table.headers[col].leading_ws = lead;
        table.headers[col].trailing_ws = trail;
        assert(model::cells_view(table.headers@) =~= old(table)@.headers.update(
            col as int,
            CellView { content: content@, leading_ws: lead, trailing_ws: trail, ..c },
        ));
    } else {
        let r = row as usize;
        table.rows[r][col].content = content;
        table.rows[r][col].leading_ws = lead;
        table.rows[r][col].trailing_ws = trail;
        assert(model::cells_view(table.rows@[r as int]@) =~= old(table)@.rows[r as int].update(
            col as int,
            CellView { content: content@, leading_ws: lead, trailing_ws: trail, ..c },
        ));
        assert(model::rows_view(table.rows@) =~= old(table)@.rows.update(
            r as int,
            old(table)@.rows[r as int].update(
                col as int,
                CellView { content: content@, leading_ws: lead, trailing_ws: trail, ..c },
            ),
        ));
    }
}


/// PreserveOriginal: patch only the cell's content range, keeping its
/// whitespace and widening it when the new content is longer.
fn update_cell_in_place(
    table: &mut MarkdownTable,
    row: i32,
    col: usize,
    new_content: &str,
    buffer: &mut String,
) -> (res: model::Result<EditDelta>)
    requires
        model::cell_view_at(old(table)@, row, col) is Some,
        in_place_ok(old(table)@, row, col, new_content@, text::utf8(old(buffer)@)),
    ensures
        ({
            let c = model::cell_view_at(old(table)@, row, col)->0;
            let delta = edit_delta(c, new_content@, text::utf8(old(buffer)@));
            &&& res is Ok
            &&& final(table)@ == in_place_table(old(table)@, row, col, c, new_content@, text::utf8(old(buffer)@))
            &&& text::utf8(final(buffer)@) == splice(
                text::utf8(old(buffer)@),
                c.range.start as int,
                c.range.end as int,
                text::utf8(edit_padded(c, new_content@, text::utf8(old(buffer)@))),
            )
            &&& res->Ok_0.byte_delta == delta
            &&& res->Ok_0.patched_range == c.range
            &&& res->Ok_0.new_range == model::shift_range(c.range, c.range.end, delta)
        }),
{
    let ghost t0 = table@;
    let ghost c = model::cell_view_at(t0, row, col)->0;
    let escaped = escape_cell(new_content);
    let (old_start, old_end, lead_ws, trail_ws) = match table.cell(row, col) {
        Ok(cell) => (cell.source_range.start, cell.source_range.end, cell.leading_ws, cell.trailing_ws),
        Err(e) => {
            return Err(e);
        },
    };
    let old_len = old_end - old_start;
    let old_w = str_slice(buffer.as_str(), old_start, old_end).unicode_len();
    let esc_w = visual_width(escaped.as_str());
    let a = if old_w >= lead_ws as usize {
        old_w - lead_ws as usize
    } else {
        0
    };
    let a = if a >= trail_ws as usize {
        a - trail_ws as usize
    } else {
        0
    };
    let inner_target = if a >= esc_w {
        a
    } else {
        esc_w
    };
    let lead_n: u8 = if lead_ws >= 1 {
        lead_ws
    } else {
        1
    };
    let trail_n: u8 = if trail_ws >= 1 {
        trail_ws
    } else {
        1
    };
    let mut padded = String::new();
    push_repeat(&mut padded, ' ', lead_n as usize);
    push_str(&mut padded, escaped.as_str());
    push_repeat(&mut padded, ' ', inner_target - esc_w);
    push_repeat(&mut padded, ' ', trail_n as usize);
    let ghost b0 = text::utf8(buffer@);
    assert(padded@ =~= edit_padded(c, new_content@, b0));
    let new_len = padded.as_str().as_bytes().len();
    let byte_delta: isize = new_len as isize - old_len as isize;

    set_cell_fields(table, row, col, new_content.to_owned(), lead_n, trail_n);
    assert(table@ == set_cell(t0, row, col, edited_cell(c, new_content@)));

    replace_range(buffer, old_start, old_end, padded.as_str());
    proof {
        lemma_shift_ok_after_set(t0, row, col, c, edited_cell(c, new_content@), b0.len() as int, new_len as int);
    }
    table.shift_after(old_end, byte_delta);

    let new_range = match table.cell(row, col) {
        Ok(cell) => cell.source_range.start..cell.source_range.end,
        Err(e) => {
            return Err(e);
        },
    };

    match &mut table.original_lines {
        Some(lines) => {
            refresh_original_line(lines, row, col, padded.as_str());
        },
        None => {},
    }
    proof {
        assert(table@.original_lines == in_place_table(t0, row, col, c, new_content@, b0).original_lines);
        assert(table@ == in_place_table(t0, row, col, c, new_content@, b0));
    }

    Ok(EditDelta { byte_delta, patched_range: old_start..old_end, new_range })
}


/// Cells `cs` with the first ones placed at `spans` shifted by `base`.
pub open spec fn with_ranges(cs: Seq<CellView>, spans: Seq<Range<usize>>, base: int) -> Seq<CellView> {
    Seq::new(
        cs.len(),
        |i: int|
            if i < spans.len() {
                CellView {
                    range: Range {
                        start: (base + spans[i].start) as usize,
                        end: (base + spans[i].end) as usize,
                    },
                    ..cs[i]
                }
            } else {
                cs[i]
            },
    )
}

/// Header and row cells after re-deriving their ranges from the lines
/// `ls`, the first of which starts at byte `base`; every line is taken
/// to end with one newline byte.
pub open spec fn refresh_fold(
    ls: Seq<Seq<char>>,
    base: int,
    seen: bool,
    rc: nat,
    hs: Seq<CellView>,
    rows: Seq<Seq<CellView>>,
) -> (Seq<CellView>, Seq<Seq<CellView>>)
    decreases ls.len(),
{
    if ls.len() == 0 {
        (hs, rows)
    } else {
        let l = ls[0];
        let rest = ls.drop_first();
        let nb = base + text::utf8(l).len() + 1;
        let spans = parse::cell_spans(text::utf8(l));
        if text::trim(l).len() == 0 {
            refresh_fold(rest, nb, seen, rc, hs, rows)
        } else if parse::is_separator(l) {
            refresh_fold(rest, nb, true, rc, hs, rows)
        } else if !seen {
            refresh_fold(rest, nb, seen, rc, with_ranges(hs, spans, base), rows)
        } else {
            refresh_fold(
                rest,
                nb,
                seen,
                rc + 1,
                hs,
                if rc < rows.len() {
                    rows.update(rc as int, with_ranges(rows[rc as int], spans, base))
                } else {
                    rows
                },
            )
        }
    }
}

/// The table block's source in a buffer with bytes `b`.
pub open spec fn table_source(t: TableView, b: Seq<u8>) -> Seq<char> {
    decode_utf8(b.subrange(t.range.start as int, t.range.end as int))
}

/// The table after `refresh_internal_ranges` against buffer bytes `b`.
pub open spec fn refreshed(t: TableView, b: Seq<u8>) -> TableView {
    let src = table_source(t, b);
    let fold = refresh_fold(text::lines(src), t.range.start as int, false, 0, t.headers, t.rows);
    TableView {
        headers: fold.0,
        rows: fold.1,
        original_lines: if t.style != TableStyle::PreserveOriginal {
            None
        } else {
            match t.original_lines {
                Some(_) => Some(parse::original_lines_of(src)),
                None => None,
            }
        },
        ..t
    }
}

/// `refresh_internal_ranges` does not panic.
pub open spec fn refresh_ranges_ok(t: TableView, b: Seq<u8>) -> bool {
    &&& t.range.start <= t.range.end
    &&& is_char_boundary(b, t.range.start as int)
    &&& is_char_boundary(b, t.range.end as int)
    &&& b.len() < usize::MAX
}

fn set_ranges(cells: &mut Vec<Cell>, spans: &Vec<Range<usize>>, base: usize)
    requires
        forall|i: int|
            0 <= i < spans.len() ==> (#[trigger] spans@[i]).start <= spans@[i].end && base + spans@[i].end
                <= usize::MAX,
    ensures
        model::cells_view(final(cells)@) == with_ranges(model::cells_view(old(cells)@), spans@, base as int),
{
    let mut col: usize = 0;
    while col < spans.len() && col < cells.len()
        invariant
            cells.len() == old(cells).len(),
            forall|i: int|
                0 <= i < spans.len() ==> (#[trigger] spans@[i]).start <= spans@[i].end && base
                    + spans@[i].end <= usize::MAX,
            forall|i: int|
                0 <= i < col ==> (#[trigger] cells@[i])@ == with_ranges(
                    model::cells_view(old(cells)@),
                    spans@,
                    base as int,
                )[i],
            forall|i: int| col <= i < cells.len() ==> #[trigger] cells@[i] == old(cells)@[i],
            col <= spans.len() || col <= cells.len(),
        decreases cells.len() - col,
    {
        let s = base + spans[col].start;
        let e = base + spans[col].end;
        cells[col].source_range = s..e;
        col = col + 1;
    }
    assert(model::cells_view(cells@) =~= with_ranges(model::cells_view(old(cells)@), spans@, base as int));
}

/// After a full re-serialise, re-scan the table block to refresh each
/// cell's `source_range`.
fn refresh_internal_ranges(table: &mut MarkdownTable, buffer: &str)
    requires
        refresh_ranges_ok(old(table)@, text::utf8(buffer@)),
    ensures
        final(table)@ == refreshed(old(table)@, text::utf8(buffer@)),
{
    let ghost t0 = table@;
    let ghost b = text::utf8(buffer@);
    let ghost src = table_source(t0, b);
    let sr_start = table.source_range.start;
    let sr_end = table.source_range.end;
    proof {
        vstd::utf8::encode_utf8_valid_utf8(buffer@);
    }
    let table_src = str_slice(buffer, sr_start, sr_end);
    proof {
        vstd::utf8::valid_utf8_split(b, sr_end as int);
        text::lemma_boundary_prefix(b, sr_start as int, sr_end as int);
        vstd::utf8::valid_utf8_split(b.subrange(0, sr_end as int), sr_start as int);
        assert(b.subrange(0, sr_end as int).subrange(sr_start as int, sr_end as int) =~= b.subrange(sr_start as int, sr_end as int));
        vstd::utf8::decode_utf8_encode_utf8(b.subrange(sr_start as int, sr_end as int));
        text::lemma_lines_budget(src);
        vstd::utf8::is_char_boundary_start_end_of_seq(b);
    }
    assert(table_src@ == src);
    assert(text::utf8(src).len() == sr_end - sr_start);
    let ls = lines_of(table_src);
    let ghost gl = text::lines(src);
    let mut row_cursor: usize = 0;
    let mut byte_cursor: usize = sr_start;
    let mut seen_separator = false;
    let mut k: usize = 0;
    assert(gl.subrange(0, 0) =~= Seq::<Seq<char>>::empty());
    assert(gl.subrange(0, gl.len() as int) =~= gl);
    while k < ls.len()
        invariant
            k <= ls.len(),
            text::views(ls@) == gl,
            gl == text::lines(src),
            row_cursor <= k,
            byte_cursor == sr_start + text::lines_budget(gl.subrange(0, k as int)),
            text::lines_budget(gl) <= sr_end - sr_start + 1,
            sr_end <= b.len() < usize::MAX,
            sr_start <= sr_end,
            refresh_fold(gl, sr_start as int, false, 0, t0.headers, t0.rows) == refresh_fold(
                gl.subrange(k as int, gl.len() as int),
                byte_cursor as int,
                seen_separator,
                row_cursor as nat,
                model::cells_view(table.headers@),
                model::rows_view(table.rows@),
            ),
            table.source_range == t0.range,
            table.id == t0.id,
            table.alignments@ == t0.alignments,
            table.style == t0.style,
            table.column_widths@ == t0.column_widths,
            table@.original_lines == t0.original_lines,
        decreases ls.len() - k,
    {
        let line = ls[k].as_str();
        let ghost l = gl[k as int];
        assert(line@ == l);
        let line_len = line.as_bytes().len();
        proof {
            text::lemma_budget_prefix(gl, k + 1);
            assert(gl.subrange(0, k + 1).drop_last() =~= gl.subrange(0, k as int));
            assert(gl.subrange(0, k + 1).last() == l);
        }
        let line_byte_start = byte_cursor;
        byte_cursor = byte_cursor + line_len + 1;
        let ghost rest = gl.subrange(k + 1, gl.len() as int);
        assert(gl.subrange(k as int, gl.len() as int).drop_first() =~= rest);
        assert(gl.subrange(k as int, gl.len() as int)[0] == l);
        let v = chars_of(line);
        let (lo, hi) = trim_bounds(&v);
        if lo < hi {
            if is_separator_line(line) {
                seen_separator = true;
            } else {
                let cells = split_cells(line);
                proof {
                    parse::lemma_cell_spans_bounds(text::utf8(l));
                    assert forall|i: int| 0 <= i < cells.len() implies (#[trigger] cells@[i]).start <= cells@[i].end
                        && line_byte_start + cells@[i].end <= usize::MAX by {
                        assert(cells@[i] == parse::cell_spans(text::utf8(l))[i]);
                    }
                }
                if !seen_separator {
                    set_ranges(&mut table.headers, &cells, line_byte_start);
                } else {
                    if row_cursor < table.rows.len() {
                        let ghost rv_old = model::rows_view(table.rows@);
                        set_ranges(&mut table.rows[row_cursor], &cells, line_byte_start);
                        assert(model::rows_view(table.rows@) =~= rv_old.update(
                            row_cursor as int,
                            with_ranges(rv_old[row_cursor as int], cells@, line_byte_start as int),
                        ));
                    }
                    row_cursor = row_cursor + 1;
                }
            }
        }
        k = k + 1;
    }
    match table.style {
        TableStyle::Pretty | TableStyle::Compact => {
            table.original_lines = None;
        },
        TableStyle::PreserveOriginal => {
            if table.original_lines.is_some() {
                table.original_lines = Some(capture_original_lines(table_src));
            }
        },
    }
    assert(table@ == refreshed(t0, b));
}


/// The whole-table text of a Pretty or Compact table.
pub open spec fn reserialize_text(t: TableView) -> Seq<char> {
    if t.style == TableStyle::Pretty {
        pretty_text(t)
    } else {
        compact_text(t)
    }
}

/// `t` occupying `s..s+len` in the buffer.
pub open spec fn placed(t: TableView, s: usize, len: int) -> TableView {
    TableView { range: Range { start: s, end: (s + len) as usize }, ..t }
}

/// Replacing the table block of `t` in `b` by `txt` and re-deriving its
/// ranges does not panic.
pub open spec fn replace_block_ok(t: TableView, b: Seq<u8>, txt: Seq<u8>) -> bool {
    &&& t.range.start <= t.range.end
    &&& is_char_boundary(b, t.range.start as int)
    &&& is_char_boundary(b, t.range.end as int)
    &&& b.len() + txt.len() <= isize::MAX
}

/// The cell `c` with new content.
pub open spec fn with_content(c: CellView, new: Seq<char>) -> CellView {
    CellView { content: new, ..c }
}

/// A re-serialising edit of `(row, col)` does not panic.
pub open spec fn reserialize_ok(t: TableView, row: i32, col: usize, new: Seq<char>, b: Seq<u8>) -> bool {
    match model::cell_view_at(t, row, col) {
        Some(c) => {
            let t1 = set_cell(t, row, col, with_content(c, new));
            &&& t.style == TableStyle::Pretty ==> t.headers.len() <= t.alignments.len()
            &&& replace_block_ok(t, b, text::utf8(reserialize_text(t1)))
        },
        None => true,
    }
}

proof fn lemma_block_boundaries(b: Seq<u8>, s: int, e: int, txt: Seq<u8>)
    requires
        valid_utf8(b),
        valid_utf8(txt),
        s <= e,
        is_char_boundary(b, s),
        is_char_boundary(b, e),
    ensures
        is_char_boundary(splice(b, s, e, txt), s),
        is_char_boundary(splice(b, s, e, txt), s + txt.len()),
        valid_utf8(splice(b, s, e, txt)),
        splice(b, s, e, txt).subrange(s, s + txt.len()) == txt,
{
    vstd::utf8::valid_utf8_split(b, s);
    vstd::utf8::valid_utf8_split(b, e);
    let a = b.subrange(0, s);
    let z = b.subrange(e, b.len() as int);
    vstd::utf8::is_char_boundary_start_end_of_seq(a);
    text::lemma_boundary_concat(a, txt, s);
    vstd::utf8::is_char_boundary_start_end_of_seq(a + txt);
    text::lemma_boundary_concat(a + txt, z, s);
    text::lemma_boundary_concat(a + txt, z, s + txt.len());
    assert(splice(b, s, e, txt).subrange(s, s + txt.len()) =~= txt);
}

/// Pretty / Compact: set the content, re-serialise the whole table
/// block and re-derive the cell ranges.
fn update_cell_via_reserialize(
    table: &mut MarkdownTable,
    row: i32,
    col: usize,
    new_content: &str,
    buffer: &mut String,
) -> (res: model::Result<EditDelta>)
    requires
        model::cell_view_at(old(table)@, row, col) is Some,
        old(table).style != TableStyle::PreserveOriginal,
        reserialize_ok(old(table)@, row, col, new_content@, text::utf8(old(buffer)@)),
    ensures
        ({
            let t = old(table)@;
            let b = text::utf8(old(buffer)@);
            let c = model::cell_view_at(t, row, col)->0;
            let t1 = set_cell(t, row, col, with_content(c, new_content@));
            let txt = text::utf8(reserialize_text(t1));
            let b2 = splice(b, t.range.start as int, t.range.end as int, txt);
            &&& res is Ok
            &&& text::utf8(final(buffer)@) == b2
            &&& final(table)@ == refreshed(placed(t1, t.range.start, txt.len() as int), b2)
            &&& res->Ok_0.byte_delta == txt.len() - (t.range.end - t.range.start)
            &&& res->Ok_0.patched_range == t.range
            &&& res->Ok_0.new_range == placed(t1, t.range.start, txt.len() as int).range
        }),
{
    let ghost t = table@;
    let ghost c = model::cell_view_at(t, row, col)->0;
    let (lead, trail) = match table.cell(row, col) {
        Ok(cell) => (cell.leading_ws, cell.trailing_ws),
        Err(e) => {
            return Err(e);
        },
    };
    set_cell_fields(table, row, col, new_content.to_owned(), lead, trail);
    assert(table@ == set_cell(t, row, col, with_content(c, new_content@)));
    let new_text = match table.style {
        TableStyle::Pretty => to_gfm_pretty(table),
        _ => to_gfm_compact(table),
    };
    let old_start = table.source_range.start;
    let old_end = table.source_range.end;
    let old_len = old_end - old_start;
    let new_len = new_text.as_str().as_bytes().len();
    let ghost b = text::utf8(buffer@);
    proof {
        vstd::utf8::encode_utf8_valid_utf8(buffer@);
    }
    assert(old_end <= b.len());
    assert(new_text@ == reserialize_text(table@));
    let byte_delta: isize = new_len as isize - old_len as isize;
    proof {
        vstd::utf8::encode_utf8_valid_utf8(new_text@);
        lemma_block_boundaries(b, old_start as int, old_end as int, text::utf8(new_text@));
    }
    replace_range(buffer, old_start, old_end, new_text.as_str());
    table.source_range = old_start..(old_start + new_len);
    refresh_internal_ranges(table, buffer.as_str());
    Ok(EditDelta { byte_delta, patched_range: old_start..old_end, new_range: old_start..(old_start + new_len) })
}

/// What `update_cell` requires: the cell edit does not panic.
pub open spec fn update_ok(t: TableView, row: i32, col: usize, new: Seq<char>, b: Seq<u8>) -> bool {
    if t.style == TableStyle::PreserveOriginal {
        in_place_ok(t, row, col, new, b)
    } else {
        reserialize_ok(t, row, col, new, b)
    }
}

/// Edit a single cell: PreserveOriginal tables are patched in place,
/// Pretty / Compact tables re-serialised. A missing cell is an error
/// and leaves table and buffer untouched.
pub fn update_cell(
    table: &mut MarkdownTable,
    row: i32,
    col: usize,
    new_content: &str,
    buffer: &mut String,
) -> (res: model::Result<EditDelta>)
    requires
        update_ok(old(table)@, row, col, new_content@, text::utf8(old(buffer)@)),
    ensures
        update_post(old(table)@, text::utf8(old(buffer)@), old(buffer)@, row, col, new_content@, final(table)@, final(buffer)@, res),
{
    match table.cell(row, col) {
        Ok(_) => {},
        Err(e) => {
            return Err(e);
        },
    }
    match table.style {
        TableStyle::PreserveOriginal => update_cell_in_place(table, row, col, new_content, buffer),
        _ => update_cell_via_reserialize(table, row, col, new_content, buffer),
    }
}


/// An empty cell as inserted by `insert_empty_row`.
pub open spec fn blank_cell() -> CellView {
    CellView { range: Range { start: 0, end: 0 }, content: seq![], leading_ws: 1, trailing_ws: 1 }
}

/// The style a structural re-serialise emits with: PreserveOriginal
/// tables are written Pretty.
pub open spec fn emit_style(s: TableStyle) -> TableStyle {
    if s == TableStyle::PreserveOriginal {
        TableStyle::Pretty
    } else {
        s
    }
}

/// `t` with an empty row inserted at `at`.
pub open spec fn with_blank_row(t: TableView, at: int) -> TableView {
    TableView {
        rows: t.rows.insert(at, Seq::new(t.alignments.len(), |i: int| blank_cell())),
        ..t
    }
}

/// The text written for `t` by a structural edit.
pub open spec fn emitted(t: TableView) -> Seq<u8> {
    gfm_bytes(TableView { style: emit_style(t.style), ..t })
}

/// `insert_empty_row` does not panic.
pub open spec fn insert_row_ok(t: TableView, at: usize, b: Seq<u8>) -> bool {
    t.alignments.len() > 0 && at <= t.rows.len() ==> {
        let t1 = with_blank_row(t, at as int);
        &&& emit_style(t.style) == TableStyle::Pretty ==> t.headers.len() <= t.alignments.len()
        &&& replace_block_ok(t, b, emitted(t1))
    }
}

/// The table and buffer bytes after inserting an empty row at `at`.
pub open spec fn inserted_table(t: TableView, at: usize, b: Seq<u8>) -> TableView {
    let t1 = with_blank_row(t, at as int);
    let txt = emitted(t1);
    let b2 = splice(b, t.range.start as int, t.range.end as int, txt);
    let t2 = refreshed(placed(t1, t.range.start, txt.len() as int), b2);
    if t.style == TableStyle::PreserveOriginal {
        TableView { original_lines: Some(parse::original_lines_of(table_source(t2, b2))), ..t2 }
    } else {
        t2
    }
}

fn blank_row(cols: usize) -> (row: Vec<Cell>)
    ensures
        model::cells_view(row@) == Seq::new(cols as nat, |i: int| blank_cell()),
{
    let mut row: Vec<Cell> = Vec::new();
    let mut i: usize = 0;
    while i < cols
        invariant
            i <= cols,
            row.len() == i,
            model::cells_view(row@) == Seq::new(i as nat, |j: int| blank_cell()),
        decreases cols - i,
    {
        let cell = Cell { source_range: 0..0, content: String::new(), leading_ws: 1, trailing_ws: 1 };
        assert(cell@.content =~= Seq::<char>::empty());
        assert(cell@ == blank_cell());
        let ghost prev = row@;
        row.push(cell);
        assert(row@ == prev.push(cell));
        assert(model::cells_view(row@)[i as int] == blank_cell());
        assert forall|j: int| 0 <= j < i + 1 implies model::cells_view(row@)[j] == blank_cell() by {
            if j < i {
                assert(model::cells_view(row@)[j] == model::cells_view(prev)[j]);
                assert(model::cells_view(prev)[j] == Seq::new(i as nat, |k: int| blank_cell())[j]);
            }
        }
        assert(model::cells_view(row@) =~= Seq::new((i + 1) as nat, |j: int| blank_cell()));
        i = i + 1;
    }
    row
}

/// Insert an empty body row at `at_index` and re-serialise the table
/// (PreserveOriginal tables are written Pretty for this and keep their
/// style, their captured lines re-taken from the new text).
pub fn insert_empty_row(table: &mut MarkdownTable, at_index: usize, buffer: &mut String) -> (res: model::Result<EditDelta>)
    requires
        insert_row_ok(old(table)@, at_index, text::utf8(old(buffer)@)),
    ensures
        insert_post(old(table)@, text::utf8(old(buffer)@), old(buffer)@, at_index, final(table)@, final(buffer)@, res),
{
    let ghost t = table@;
    let cols = table.alignments.len();
    if cols == 0 {
        return Err(TableError::InvalidStructure("table has no columns".to_string()));
    }
    if at_index > table.rows.len() {
        return Err(TableError::CellOutOfRange { row: at_index as i32, col: 0 });
    }
    let row = blank_row(cols);
    table.rows.insert(at_index, row);
    assert(table@ == with_blank_row(t, at_index as int)) by {
        assert(model::rows_view(table.rows@) =~= t.rows.insert(at_index as int, Seq::new(cols as nat, |i: int| blank_cell())));
    }
    let original_style = table.style;
    let emit = match original_style {
        TableStyle::PreserveOriginal => TableStyle::Pretty,
        other => other,
    };
    table.style = emit;
    let new_text = to_gfm(table, buffer.as_str());
    table.style = original_style;

    let old_start = table.source_range.start;
    let old_end = table.source_range.end;
    let old_len = old_end - old_start;
    let new_len = new_text.as_str().as_bytes().len();
    let ghost b = text::utf8(buffer@);
    proof {
        vstd::utf8::encode_utf8_valid_utf8(buffer@);
    }
    assert(old_end <= b.len());
    let byte_delta: isize = new_len as isize - old_len as isize;
    proof {
        vstd::utf8::encode_utf8_valid_utf8(new_text@);
        lemma_block_boundaries(b, old_start as int, old_end as int, text::utf8(new_text@));
    }
    replace_range(buffer, old_start, old_end, new_text.as_str());
    table.source_range = old_start..(old_start + new_len);
    refresh_internal_ranges(table, buffer.as_str());

    match original_style {
        TableStyle::PreserveOriginal => {
            let table_src = str_slice(buffer.as_str(), table.source_range.start, table.source_range.end);
            table.original_lines = Some(capture_original_lines(table_src));
        },
        _ => {},
    }
    Ok(EditDelta { byte_delta, patched_range: old_start..old_end, new_range: old_start..(old_start + new_len) })
}


/// What `update_cell` does: table `t0` and buffer `s0` (bytes `b0`)
/// become `t1` and `s1`, returning `res`.
pub open spec fn update_post(
    t0: TableView,
    b0: Seq<u8>,
    s0: Seq<char>,
    row: i32,
    col: usize,
    new_content: Seq<char>,
    t1: TableView,
    s1: Seq<char>,
    res: model::Result<EditDelta>,
) -> bool {
    ({
            let t = t0;
            let b = b0;
            match model::cell_view_at(t, row, col) {
                None => {
                    &&& res == Err::<EditDelta, TableError>(TableError::CellOutOfRange { row, col })
                    &&& t1 == t
                    &&& s1 == s0
                },
                Some(c) => if t.style == TableStyle::PreserveOriginal {
                    let delta = edit_delta(c, new_content, b);
                    &&& res is Ok
                    &&& t1 == in_place_table(t, row, col, c, new_content, b)
                    &&& text::utf8(s1) == splice(
                        b,
                        c.range.start as int,
                        c.range.end as int,
                        text::utf8(edit_padded(c, new_content, b)),
                    )
                    &&& res->Ok_0.byte_delta == delta
                    &&& res->Ok_0.patched_range == c.range
                    &&& res->Ok_0.new_range == model::shift_range(c.range, c.range.end, delta)
                } else {
                    let t2 = set_cell(t, row, col, with_content(c, new_content));
                    let txt = text::utf8(reserialize_text(t2));
                    let b2 = splice(b, t.range.start as int, t.range.end as int, txt);
                    &&& res is Ok
                    &&& text::utf8(s1) == b2
                    &&& t1 == refreshed(placed(t2, t.range.start, txt.len() as int), b2)
                    &&& res->Ok_0.byte_delta == txt.len() - (t.range.end - t.range.start)
                    &&& res->Ok_0.patched_range == t.range
                    &&& res->Ok_0.new_range == placed(t2, t.range.start, txt.len() as int).range
                },
            }
        })
}

/// What `insert_empty_row` does: table `t0` and buffer `s0` (bytes
/// `b0`) become `t1` and `s1`, returning `res`.
pub open spec fn insert_post(
    t0: TableView,
    b0: Seq<u8>,
    s0: Seq<char>,
    at_index: usize,
    t1: TableView,
    s1: Seq<char>,
    res: model::Result<EditDelta>,
) -> bool {
    ({
            let t = t0;
            let b = b0;
            if t.alignments.len() == 0 {
                &&& res is Err && res->Err_0 is InvalidStructure
                &&& t1 == t
                &&& s1 == s0
            } else if at_index > t.rows.len() {
                &&& res == Err::<EditDelta, TableError>(TableError::CellOutOfRange { row: at_index as i32, col: 0 })
                &&& t1 == t
                &&& s1 == s0
            } else {
                let txt = emitted(with_blank_row(t, at_index as int));
                &&& res is Ok
                &&& text::utf8(s1) == splice(b, t.range.start as int, t.range.end as int, txt)
                &&& t1 == inserted_table(t, at_index, b)
                &&& res->Ok_0.byte_delta == txt.len() - (t.range.end - t.range.start)
                &&& res->Ok_0.patched_range == t.range
                &&& res->Ok_0.new_range == Range { start: t.range.start, end: (t.range.start + txt.len()) as usize }
            }
        })
}

impl MarkdownTable {
    /// Edit a single cell; see [`update_cell`].
    pub fn update_cell(&mut self, row: i32, col: usize, new_content: &str, buffer: &mut String) -> (res:
        model::Result<EditDelta>)
        requires
            update_ok(old(self)@, row, col, new_content@, text::utf8(old(buffer)@)),
        ensures
            update_post(old(self)@, text::utf8(old(buffer)@), old(buffer)@, row, col, new_content@, final(self)@, final(buffer)@, res),
    {
        update_cell(self, row, col, new_content, buffer)
    }

    /// Insert an empty body row; see [`insert_empty_row`].
    pub fn insert_empty_row(&mut self, at_index: usize, buffer: &mut String) -> (res: model::Result<EditDelta>)
        requires
            insert_row_ok(old(self)@, at_index, text::utf8(old(buffer)@)),
        ensures
            insert_post(old(self)@, text::utf8(old(buffer)@), old(buffer)@, at_index, final(self)@, final(buffer)@, res),
    {
        insert_empty_row(self, at_index, buffer)
    }
}


/// The contents of cells.
pub open spec fn contents(cs: Seq<CellView>) -> Seq<Seq<char>> {
    cs.map_values(|c: CellView| c.content)
}

/// What a table reads: its header contents and each row's contents.
pub open spec fn table_contents(t: TableView) -> (Seq<Seq<char>>, Seq<Seq<Seq<char>>>) {
    (contents(t.headers), t.rows.map_values(|r: Seq<CellView>| contents(r)))
}

/// Table contents with cell `(row, col)` (`row == -1`: header) set to `new`.
pub open spec fn set_content(
    tc: (Seq<Seq<char>>, Seq<Seq<Seq<char>>>),
    row: i32,
    col: usize,
    new: Seq<char>,
) -> (Seq<Seq<char>>, Seq<Seq<Seq<char>>>) {
    if row == -1 {
        (tc.0.update(col as int, new), tc.1)
    } else {
        (tc.0, tc.1.update(row as int, tc.1[row as int].update(col as int, new)))
    }
}

proof fn lemma_with_ranges_contents(cs: Seq<CellView>, spans: Seq<Range<usize>>, base: int)
    ensures
        contents(with_ranges(cs, spans, base)) == contents(cs),
{
    assert(contents(with_ranges(cs, spans, base)) =~= contents(cs));
}

proof fn lemma_refresh_fold_contents(
    ls: Seq<Seq<char>>,
    base: int,
    seen: bool,
    rc: nat,
    hs: Seq<CellView>,
    rows: Seq<Seq<CellView>>,
)
    ensures
        contents(refresh_fold(ls, base, seen, rc, hs, rows).0) == contents(hs),
        refresh_fold(ls, base, seen, rc, hs, rows).1.map_values(|r: Seq<CellView>| contents(r)) == rows.map_values(
            |r: Seq<CellView>| contents(r),
        ),
    decreases ls.len(),
{
    if ls.len() > 0 {
        let l = ls[0];
        let rest = ls.drop_first();
        let nb = base + text::utf8(l).len() + 1;
        let spans = parse::cell_spans(text::utf8(l));
        if text::trim(l).len() == 0 {
            lemma_refresh_fold_contents(rest, nb, seen, rc, hs, rows);
        } else if parse::is_separator(l) {
            lemma_refresh_fold_contents(rest, nb, true, rc, hs, rows);
        } else if !seen {
            lemma_with_ranges_contents(hs, spans, base);
            lemma_refresh_fold_contents(rest, nb, seen, rc, with_ranges(hs, spans, base), rows);
        } else {
            let rows2 = if rc < rows.len() {
                rows.update(rc as int, with_ranges(rows[rc as int], spans, base))
            } else {
                rows
            };
            if rc < rows.len() {
                lemma_with_ranges_contents(rows[rc as int], spans, base);
            }
            assert(rows2.map_values(|r: Seq<CellView>| contents(r)) =~= rows.map_values(
                |r: Seq<CellView>| contents(r),
            ));
            lemma_refresh_fold_contents(rest, nb, seen, rc + 1, hs, rows2);
        }
    }
}

proof fn lemma_refreshed_contents(t: TableView, b: Seq<u8>)
    ensures
        table_contents(refreshed(t, b)) == table_contents(t),
{
    let src = table_source(t, b);
    lemma_refresh_fold_contents(text::lines(src), t.range.start as int, false, 0, t.headers, t.rows);
}

proof fn lemma_shift_contents(t: TableView, pos: usize, delta: int)
    ensures
        table_contents(model::shift_table(t, pos, delta)) == table_contents(t),
{
    let t2 = model::shift_table(t, pos, delta);
    assert(contents(t2.headers) =~= contents(t.headers));
    assert forall|r: int| 0 <= r < t.rows.len() implies #[trigger] contents(t2.rows[r]) == contents(t.rows[r]) by {
        assert(contents(t2.rows[r]) =~= contents(t.rows[r]));
    }
    assert(t2.rows.map_values(|r: Seq<CellView>| contents(r)) =~= t.rows.map_values(|r: Seq<CellView>| contents(r)));
}

proof fn lemma_set_cell_contents(t: TableView, row: i32, col: usize, c: CellView)
    requires
        model::cell_view_at(t, row, col) is Some,
    ensures
        table_contents(set_cell(t, row, col, c)) == set_content(table_contents(t), row, col, c.content),
{
    let t2 = set_cell(t, row, col, c);
    if row == -1 {
        assert(contents(t2.headers) =~= contents(t.headers).update(col as int, c.content));
        assert(t2.rows == t.rows);
    } else {
        let r = row as int;
        assert(contents(t2.rows[r]) =~= contents(t.rows[r]).update(col as int, c.content));
        assert(t2.rows.map_values(|x: Seq<CellView>| contents(x)) =~= t.rows.map_values(|x: Seq<CellView>| contents(x)).update(
            r,
            contents(t.rows[r]).update(col as int, c.content),
        ));
    }
}

/// What is written is read back: after a successful edit of cell
/// `(row, col)` that cell holds the new content and every other cell its
/// old content, in both the in-place and the re-serialising strategy; the
/// table keeps its id and its column alignments.
pub proof fn lemma_update_reads_back(
    t0: TableView,
    b0: Seq<u8>,
    s0: Seq<char>,
    row: i32,
    col: usize,
    new: Seq<char>,
    t1: TableView,
    s1: Seq<char>,
    res: model::Result<EditDelta>,
)
    requires
        update_post(t0, b0, s0, row, col, new, t1, s1, res),
        res is Ok,
    ensures
        table_contents(t1) == set_content(table_contents(t0), row, col, new),
        t1.id == t0.id,
        t1.alignments == t0.alignments,
{
    let c = model::cell_view_at(t0, row, col)->0;
    if t0.style == TableStyle::PreserveOriginal {
        let t2 = set_cell(t0, row, col, edited_cell(c, new));
        lemma_set_cell_contents(t0, row, col, edited_cell(c, new));
        lemma_shift_contents(t2, c.range.end, edit_delta(c, new, b0));
        assert(table_contents(t1) == table_contents(model::shift_table(t2, c.range.end, edit_delta(c, new, b0))));
    } else {
        let t2 = set_cell(t0, row, col, with_content(c, new));
        let txt = text::utf8(reserialize_text(t2));
        let b2 = splice(b0, t0.range.start as int, t0.range.end as int, txt);
        lemma_set_cell_contents(t0, row, col, with_content(c, new));
        lemma_refreshed_contents(placed(t2, t0.range.start, txt.len() as int), b2);
    }
}

/// Inserting an empty row at `at` adds a row of empty cells, one per
/// column, at that index and keeps every other cell's content, the
/// table's id and its column alignments.
pub proof fn lemma_insert_row_contents(
    t0: TableView,
    b0: Seq<u8>,
    s0: Seq<char>,
    at: usize,
    t1: TableView,
    s1: Seq<char>,
    res: model::Result<EditDelta>,
)
    requires
        insert_post(t0, b0, s0, at, t1, s1, res),
        res is Ok,
    ensures
        table_contents(t1) == (
            table_contents(t0).0,
            table_contents(t0).1.insert(at as int, Seq::new(t0.alignments.len(), |i: int| Seq::<char>::empty())),
        ),
        t1.id == t0.id,
        t1.alignments == t0.alignments,
{
    let tb = with_blank_row(t0, at as int);
    let txt = emitted(tb);
    let b2 = splice(b0, t0.range.start as int, t0.range.end as int, txt);
    lemma_refreshed_contents(placed(tb, t0.range.start, txt.len() as int), b2);
    assert(contents(Seq::new(t0.alignments.len(), |i: int| blank_cell())) =~= Seq::new(
        t0.alignments.len(),
        |i: int| Seq::<char>::empty(),
    ));
    assert(tb.rows.map_values(|r: Seq<CellView>| contents(r)) =~= t0.rows.map_values(|r: Seq<CellView>| contents(r)).insert(
        at as int,
        Seq::new(t0.alignments.len(), |i: int| Seq::<char>::empty()),
    ));
}


/// An edit as an editor buffer applies it, in characters: where the
/// replaced text starts and ends in the old text, and the replacement.
pub open spec fn patch_of(old: Seq<char>, new: Seq<char>, d: Range<usize>, n: Range<usize>) -> (int, int, Seq<char>) {
    let ob = text::utf8(old);
    let nb = text::utf8(new);
    (
        decode_utf8(ob.subrange(0, d.start as int)).len() as int,
        decode_utf8(ob.subrange(0, d.end as int)).len() as int,
        decode_utf8(nb.subrange(n.start as int, n.end as int)),
    )
}

/// The character offsets of an edit's replaced range in `old_text` and
/// its replacement text from `new_text`, for applying the edit to an
/// editor buffer that counts characters.
pub fn buffer_patch(old_text: &str, new_text: &str, delta: &EditDelta) -> (r: (usize, usize, String))
    requires
        delta.patched_range.start <= delta.patched_range.end,
        is_char_boundary(text::utf8(old_text@), delta.patched_range.start as int),
        is_char_boundary(text::utf8(old_text@), delta.patched_range.end as int),
        delta.new_range.start <= delta.new_range.end,
        is_char_boundary(text::utf8(new_text@), delta.new_range.start as int),
        is_char_boundary(text::utf8(new_text@), delta.new_range.end as int),
    ensures
        (r.0 as int, r.1 as int, r.2@) == patch_of(old_text@, new_text@, delta.patched_range, delta.new_range),
{
    proof {
        vstd::utf8::encode_utf8_valid_utf8(old_text@);
        vstd::utf8::is_char_boundary_start_end_of_seq(text::utf8(old_text@));
    }
    let before_start = str_slice(old_text, 0, delta.patched_range.start);
    let before_end = str_slice(old_text, 0, delta.patched_range.end);
    let replacement = str_slice(new_text, delta.new_range.start, delta.new_range.end);
    let mut out = String::new();
    push_str(&mut out, replacement);
    (before_start.unicode_len(), before_end.unicode_len(), out)
}


/// Cell `d` matches buffer bytes `b`: its range lies in `b` on character
/// boundaries and holds its escaped content, up to surrounding
/// whitespace.
pub open spec fn cell_in_sync(d: CellView, b: Seq<u8>) -> bool {
    &&& d.range.start <= d.range.end <= b.len()
    &&& is_char_boundary(b, d.range.start as int)
    &&& is_char_boundary(b, d.range.end as int)
    &&& text::trim(decode_utf8(b.subrange(d.range.start as int, d.range.end as int))) == text::trim(escape(d.content))
}

/// Every cell of `t` matches buffer bytes `b`.
pub open spec fn table_in_sync(t: TableView, b: Seq<u8>) -> bool {
    &&& forall|i: int| 0 <= i < t.headers.len() ==> cell_in_sync(#[trigger] t.headers[i], b)
    &&& forall|r: int, i: int|
        0 <= r < t.rows.len() && 0 <= i < t.rows[r].len() ==> cell_in_sync(#[trigger] t.rows[r][i], b)
}

/// Cell `d` lies apart from cell `c`, with at least one byte between.
pub open spec fn apart(d: CellView, c: CellView) -> bool {
    d.range.end < c.range.start || d.range.start > c.range.end
}

/// Every cell of `t` other than the one at `(row, col)` lies apart from `c`.
pub open spec fn others_apart(t: TableView, row: i32, col: usize, c: CellView) -> bool {
    &&& forall|i: int| 0 <= i < t.headers.len() && !(row == -1 && i == col) ==> apart(#[trigger] t.headers[i], c)
    &&& forall|r: int, i: int|
        0 <= r < t.rows.len() && 0 <= i < t.rows[r].len() && !(r == row && i == col) ==> apart(
            #[trigger] t.rows[r][i],
            c,
        )
}

proof fn lemma_boundary_same_byte(b: Seq<u8>, x: int, b2: Seq<u8>, y: int)
    requires
        valid_utf8(b),
        valid_utf8(b2),
        is_char_boundary(b, x),
        0 <= x,
        0 <= y,
        (x < b.len() && y < b2.len() && b2[y] == b[x]) || y == b2.len(),
    ensures
        is_char_boundary(b2, y),
{
    vstd::utf8::is_char_boundary_start_end_of_seq(b2);
    if y < b2.len() {
        vstd::utf8::is_char_boundary_iff_not_is_continuation_byte(b, x);
        vstd::utf8::is_char_boundary_iff_not_is_continuation_byte(b2, y);
    }
}

/// A cell apart from the edited one still matches the buffer after the
/// edit, at its shifted range.
proof fn lemma_other_cell_sync(d: CellView, c: CellView, b0: Seq<u8>, p: Seq<u8>)
    requires
        valid_utf8(b0),
        valid_utf8(p),
        cell_in_sync(d, b0),
        apart(d, c),
        c.range.start <= c.range.end <= b0.len(),
        is_char_boundary(b0, c.range.start as int),
        is_char_boundary(b0, c.range.end as int),
        splice(b0, c.range.start as int, c.range.end as int, p).len() <= usize::MAX,
    ensures
        cell_in_sync(
            model::shift_cell(d, c.range.end, p.len() - (c.range.end - c.range.start)),
            splice(b0, c.range.start as int, c.range.end as int, p),
        ),
{
    let cs = c.range.start as int;
    let ce = c.range.end as int;
    let delta = p.len() - (ce - cs);
    let b1 = splice(b0, cs, ce, p);
    lemma_block_boundaries(b0, cs, ce, p);
    let d1 = model::shift_cell(d, c.range.end, delta);
    let x = d.range.start as int;
    let y = d.range.end as int;
    if y < cs {
        assert(d1.range == d.range);
        assert(b1.subrange(x, y) =~= b0.subrange(x, y));
        if x < cs {
            lemma_boundary_same_byte(b0, x, b1, x);
        }
        lemma_boundary_same_byte(b0, y, b1, y);
    } else {
        assert(x > ce);
        assert(d1.range.start == x + delta);
        assert(d1.range.end == y + delta);
        assert(b1.len() == b0.len() + delta);
        assert(b1.subrange(x + delta, y + delta) =~= b0.subrange(x, y));
        if x < b0.len() {
            assert(b1[x + delta] == b0[x]);
        }
        lemma_boundary_same_byte(b0, x, b1, x + delta);
        if y < b0.len() {
            assert(b1[y + delta] == b0[y]);
        }
        lemma_boundary_same_byte(b0, y, b1, y + delta);
    }
}

/// Edits keep the table in step with the buffer: after a successful
/// in-place edit of a `PreserveOriginal` table whose cells matched the
/// buffer and lay apart from each other, every cell, the edited one at
/// its new range and the later ones at their shifted ranges, still
/// matches the new buffer.
pub proof fn lemma_update_keeps_sync(
    t0: TableView,
    s0: Seq<char>,
    row: i32,
    col: usize,
    new: Seq<char>,
    t1: TableView,
    s1: Seq<char>,
    res: model::Result<EditDelta>,
)
    requires
        update_post(t0, text::utf8(s0), s0, row, col, new, t1, s1, res),
        res is Ok,
        t0.style == TableStyle::PreserveOriginal,
        table_in_sync(t0, text::utf8(s0)),
        model::cell_view_at(t0, row, col) is Some,
        others_apart(t0, row, col, model::cell_view_at(t0, row, col)->0),
        text::utf8(s1).len() <= usize::MAX,
    ensures
        table_in_sync(t1, text::utf8(s1)),
        t1.headers.len() == t0.headers.len(),
        t1.rows.len() == t0.rows.len(),
{
    let b0 = text::utf8(s0);
    let b1 = text::utf8(s1);
    let c = model::cell_view_at(t0, row, col)->0;
    let pc = edit_padded(c, new, b0);
    let p = text::utf8(pc);
    let cs = c.range.start as int;
    let ce = c.range.end as int;
    let delta = p.len() - (ce - cs);
    vstd::utf8::encode_utf8_valid_utf8(s0);
    vstd::utf8::encode_utf8_valid_utf8(pc);
    vstd::utf8::encode_utf8_decode_utf8(pc);
    assert(cell_in_sync(c, b0));
    assert(b1 == splice(b0, cs, ce, p));
    assert(delta == edit_delta(c, new, b0));
    lemma_block_boundaries(b0, cs, ce, p);
    let ec = edited_cell(c, new);
    let t2 = set_cell(t0, row, col, ec);
    // The edited cell: it now spans the written text.
    let c1 = model::shift_cell(ec, c.range.end, delta);
    assert(c1.range.start == cs && c1.range.end == cs + p.len());
    assert(b1.subrange(cs, cs + p.len()) == p);
    text::lemma_trim_spaces_around(
        maxn(c.leading_ws as nat, 1),
        escape(new) + spaces(
            maxn(
                sat_sub(sat_sub(old_width(c, b0), c.leading_ws as int), c.trailing_ws as int) as nat,
                escape(new).len(),
            ) - escape(new).len(),
        ),
        maxn(c.trailing_ws as nat, 1),
    );
    text::lemma_trim_spaces_around(
        0,
        escape(new),
        (maxn(
            sat_sub(sat_sub(old_width(c, b0), c.leading_ws as int), c.trailing_ws as int) as nat,
            escape(new).len(),
        ) - escape(new).len()) as nat,
    );
    assert(text::repeat(' ', 0) + escape(new) =~= escape(new));
    assert(pc =~= spaces(maxn(c.leading_ws as nat, 1) as int) + (escape(new) + spaces(
        maxn(
            sat_sub(sat_sub(old_width(c, b0), c.leading_ws as int), c.trailing_ws as int) as nat,
            escape(new).len(),
        ) - escape(new).len(),
    )) + spaces(maxn(c.trailing_ws as nat, 1) as int));
    assert(cell_in_sync(c1, b1));
    assert forall|i: int| 0 <= i < t1.headers.len() implies cell_in_sync(#[trigger] t1.headers[i], b1) by {
        assert(t1.headers[i] == model::shift_cell(t2.headers[i], c.range.end, delta));
        if row == -1 && i == col {
            assert(t2.headers[i] == ec);
        } else {
            assert(t2.headers[i] == t0.headers[i]);
            lemma_other_cell_sync(t0.headers[i], c, b0, p);
        }
    }
    assert forall|r: int, i: int| 0 <= r < t1.rows.len() && 0 <= i < t1.rows[r].len() implies cell_in_sync(
        #[trigger] t1.rows[r][i],
        b1,
    ) by {
        assert(t1.rows[r] == model::shift_cells(t2.rows[r], c.range.end, delta));
        assert(t1.rows[r][i] == model::shift_cell(t2.rows[r][i], c.range.end, delta));
        if r == row && i == col {
            assert(t2.rows[r][i] == ec);
        } else {
            assert(t2.rows[r][i] == t0.rows[r][i]);
            lemma_other_cell_sync(t0.rows[r][i], c, b0, p);
        }
    }
}


proof fn lemma_repeat_in_place(
    t0: TableView,
    s0: Seq<char>,
    row: i32,
    col: usize,
    new: Seq<char>,
    t1: TableView,
    s1: Seq<char>,
    res1: model::Result<EditDelta>,
    t2: TableView,
    s2: Seq<char>,
    res2: model::Result<EditDelta>,
)
    requires
        update_post(t0, text::utf8(s0), s0, row, col, new, t1, s1, res1),
        update_post(t1, text::utf8(s1), s1, row, col, new, t2, s2, res2),
        res1 is Ok,
        t0.style == TableStyle::PreserveOriginal,
        model::cell_view_at(t0, row, col) is Some,
        model::cell_view_at(t0, row, col)->0.range.start <= model::cell_view_at(t0, row, col)->0.range.end
            <= text::utf8(s0).len(),
        is_char_boundary(text::utf8(s0), model::cell_view_at(t0, row, col)->0.range.start as int),
        is_char_boundary(text::utf8(s0), model::cell_view_at(t0, row, col)->0.range.end as int),
        text::utf8(s1).len() <= usize::MAX,
    ensures
        res2 is Ok,
        res2->Ok_0.byte_delta == 0,
        s2 == s1,
{
    let b0 = text::utf8(s0);
    let b1 = text::utf8(s1);
    let c = model::cell_view_at(t0, row, col)->0;
    let pc = edit_padded(c, new, b0);
    let p = text::utf8(pc);
    let cs = c.range.start as int;
    let ce = c.range.end as int;
    let delta = p.len() - (ce - cs);
    vstd::utf8::encode_utf8_valid_utf8(s0);
    vstd::utf8::encode_utf8_valid_utf8(pc);
    vstd::utf8::encode_utf8_decode_utf8(pc);
    lemma_block_boundaries(b0, cs, ce, p);
    let ec = edited_cell(c, new);
    let t2s = set_cell(t0, row, col, ec);
    assert(model::cell_view_at(t2s, row, col) == Some(ec));
    let c1 = model::shift_cell(ec, c.range.end, delta);
    assert(model::cell_view_at(t1, row, col) == Some(c1));
    assert(c1.range.start == cs && c1.range.end == cs + p.len());
    assert(t1.style == TableStyle::PreserveOriginal);
    assert(b1.subrange(cs, cs + p.len()) == p);
    assert(old_width(c1, b1) == pc.len());
    let e = escape(new);
    let inner = maxn(sat_sub(sat_sub(old_width(c, b0), c.leading_ws as int), c.trailing_ws as int) as nat, e.len());
    assert(pc.len() == maxn(c.leading_ws as nat, 1) + e.len() + (inner - e.len()) + maxn(c.trailing_ws as nat, 1));
    assert(c1.leading_ws as nat == maxn(c.leading_ws as nat, 1));
    assert(c1.trailing_ws as nat == maxn(c.trailing_ws as nat, 1));
    assert(edit_padded(c1, new, b1) =~= pc);
    assert(b1 =~= splice(b1, cs, cs + p.len(), p));
    vstd::utf8::encode_utf8_decode_utf8(s1);
    vstd::utf8::encode_utf8_decode_utf8(s2);
}


proof fn lemma_contents_cells(cs: Seq<CellView>, ds: Seq<CellView>)
    requires
        contents(cs) == contents(ds),
    ensures
        cs.len() == ds.len(),
        forall|k: int| 0 <= k < cs.len() ==> (#[trigger] cs[k]).content == ds[k].content,
{
    assert(contents(cs).len() == cs.len());
    assert(contents(ds).len() == ds.len());
    assert forall|k: int| 0 <= k < cs.len() implies (#[trigger] cs[k]).content == ds[k].content by {
        assert(contents(cs)[k] == cs[k].content);
        assert(contents(ds)[k] == ds[k].content);
    }
}

proof fn lemma_compact_cells_by_contents(cs: Seq<CellView>, ds: Seq<CellView>)
    requires
        contents(cs) == contents(ds),
    ensures
        compact_cells(cs) == compact_cells(ds),
    decreases cs.len(),
{
    lemma_contents_cells(cs, ds);
    if cs.len() > 0 {
        assert(contents(cs.drop_last()) =~= contents(ds.drop_last()));
        lemma_compact_cells_by_contents(cs.drop_last(), ds.drop_last());
    }
}

proof fn lemma_rows_by_contents(rs: Seq<Seq<CellView>>, qs: Seq<Seq<CellView>>)
    requires
        rs.map_values(|r: Seq<CellView>| contents(r)) == qs.map_values(|r: Seq<CellView>| contents(r)),
    ensures
        rs.len() == qs.len(),
        forall|k: int| 0 <= k < rs.len() ==> contents(#[trigger] rs[k]) == contents(qs[k]),
{
    assert(rs.len() == rs.map_values(|r: Seq<CellView>| contents(r)).len());
    assert forall|k: int| 0 <= k < rs.len() implies contents(#[trigger] rs[k]) == contents(qs[k]) by {
        assert(rs.map_values(|r: Seq<CellView>| contents(r))[k] == qs.map_values(|r: Seq<CellView>| contents(r))[k]);
    }
}

proof fn lemma_compact_rows_by_contents(rs: Seq<Seq<CellView>>, qs: Seq<Seq<CellView>>)
    requires
        rs.len() == qs.len(),
        forall|k: int| 0 <= k < rs.len() ==> contents(#[trigger] rs[k]) == contents(qs[k]),
    ensures
        compact_rows(rs) == compact_rows(qs),
    decreases rs.len(),
{
    if rs.len() > 0 {
        lemma_compact_rows_by_contents(rs.drop_last(), qs.drop_last());
        lemma_compact_cells_by_contents(rs.last(), qs.last());
    }
}

proof fn lemma_pretty_cells_by_contents(al: Seq<Alignment>, ws: Seq<usize>, cs: Seq<CellView>, ds: Seq<CellView>, k: int)
    requires
        contents(cs) == contents(ds),
        k <= cs.len(),
    ensures
        pretty_cells(al, ws, cs, k) == pretty_cells(al, ws, ds, k),
    decreases k,
{
    lemma_contents_cells(cs, ds);
    if k > 0 {
        lemma_pretty_cells_by_contents(al, ws, cs, ds, k - 1);
    }
}

proof fn lemma_pretty_rows_by_contents(al: Seq<Alignment>, ws: Seq<usize>, rs: Seq<Seq<CellView>>, qs: Seq<Seq<CellView>>)
    requires
        rs.len() == qs.len(),
        forall|k: int| 0 <= k < rs.len() ==> contents(#[trigger] rs[k]) == contents(qs[k]),
    ensures
        pretty_rows(al, ws, rs) == pretty_rows(al, ws, qs),
    decreases rs.len(),
{
    if rs.len() > 0 {
        lemma_pretty_rows_by_contents(al, ws, rs.drop_last(), qs.drop_last());
        let r = rs.last();
        let q = qs.last();
        lemma_contents_cells(r, q);
        lemma_pretty_cells_by_contents(al, ws, r, q, min_int(r.len() as int, al.len() as int));
    }
}

proof fn lemma_rows_w_by_contents(rs: Seq<Seq<CellView>>, qs: Seq<Seq<CellView>>, col: int)
    requires
        rs.len() == qs.len(),
        forall|k: int| 0 <= k < rs.len() ==> contents(#[trigger] rs[k]) == contents(qs[k]),
    ensures
        rows_w(rs, col) == rows_w(qs, col),
    decreases rs.len(),
{
    if rs.len() > 0 {
        lemma_rows_w_by_contents(rs.drop_last(), qs.drop_last(), col);
        lemma_contents_cells(rs.last(), qs.last());
    }
}

/// The re-serialised text of a table depends only on what its cells
/// hold, its alignments and its style.
proof fn lemma_reserialize_by_contents(t: TableView, u: TableView)
    requires
        table_contents(t) == table_contents(u),
        t.alignments == u.alignments,
        t.style == u.style,
    ensures
        reserialize_text(t) == reserialize_text(u),
{
    lemma_contents_cells(t.headers, u.headers);
    lemma_rows_by_contents(t.rows, u.rows);
    lemma_compact_cells_by_contents(t.headers, u.headers);
    lemma_compact_rows_by_contents(t.rows, u.rows);
    assert forall|col: int| 0 <= col < t.alignments.len() implies col_width(t, col) == col_width(u, col) by {
        lemma_rows_w_by_contents(t.rows, u.rows, col);
    }
    assert(widths_of(t) =~= widths_of(u));
    let ws = widths_of(t);
    lemma_pretty_cells_by_contents(t.alignments, ws, t.headers, u.headers, t.headers.len() as int);
    lemma_pretty_rows_by_contents(t.alignments, ws, t.rows, u.rows);
}

proof fn lemma_repeat_reserialize(
    t0: TableView,
    s0: Seq<char>,
    row: i32,
    col: usize,
    new: Seq<char>,
    t1: TableView,
    s1: Seq<char>,
    res1: model::Result<EditDelta>,
    t2: TableView,
    s2: Seq<char>,
    res2: model::Result<EditDelta>,
)
    requires
        update_post(t0, text::utf8(s0), s0, row, col, new, t1, s1, res1),
        update_post(t1, text::utf8(s1), s1, row, col, new, t2, s2, res2),
        res1 is Ok,
        t0.style != TableStyle::PreserveOriginal,
        model::cell_view_at(t0, row, col) is Some,
        t0.range.start <= t0.range.end <= text::utf8(s0).len(),
        is_char_boundary(text::utf8(s0), t0.range.start as int),
        is_char_boundary(text::utf8(s0), t0.range.end as int),
        text::utf8(s1).len() <= usize::MAX,
    ensures
        res2 is Ok,
        res2->Ok_0.byte_delta == 0,
        s2 == s1,
{
    let b0 = text::utf8(s0);
    let b1 = text::utf8(s1);
    let c = model::cell_view_at(t0, row, col)->0;
    let ta = set_cell(t0, row, col, with_content(c, new));
    let txt = text::utf8(reserialize_text(ta));
    let ts = t0.range.start as int;
    vstd::utf8::encode_utf8_valid_utf8(s0);
    vstd::utf8::encode_utf8_valid_utf8(reserialize_text(ta));
    lemma_block_boundaries(b0, ts, t0.range.end as int, txt);
    let tp = placed(ta, t0.range.start, txt.len() as int);
    lemma_refreshed_contents(tp, b1);
    assert(t1 == refreshed(tp, b1));
    assert(t1.range == tp.range);
    assert(t1.style == t0.style && t1.alignments == t0.alignments);
    lemma_set_cell_contents(t0, row, col, with_content(c, new));
    assert(table_contents(t1) == table_contents(ta));
    // The cell still exists in t1, holding `new`.
    let tc = table_contents(ta);
    if row == -1 {
        lemma_contents_cells(t1.headers, ta.headers);
        assert(tc.0[col as int] == new);
    } else {
        lemma_rows_by_contents(t1.rows, ta.rows);
        lemma_contents_cells(t1.rows[row as int], ta.rows[row as int]);
    }
    assert(model::cell_view_at(t1, row, col) is Some);
    let c1 = model::cell_view_at(t1, row, col)->0;
    assert(c1.content == new);
    let tb = set_cell(t1, row, col, with_content(c1, new));
    lemma_set_cell_contents(t1, row, col, with_content(c1, new));
    assert(set_content(table_contents(t1), row, col, new) =~= table_contents(t1)) by {
        if row == -1 {
            assert(table_contents(t1).0[col as int] == new);
            assert(table_contents(t1).0.update(col as int, new) =~= table_contents(t1).0);
        } else {
            assert(table_contents(t1).1[row as int][col as int] == new);
            assert(table_contents(t1).1[row as int].update(col as int, new) =~= table_contents(t1).1[row as int]);
            assert(table_contents(t1).1.update(row as int, table_contents(t1).1[row as int]) =~= table_contents(t1).1);
        }
    }
    lemma_reserialize_by_contents(tb, ta);
    assert(b1 == splice(b0, ts, t0.range.end as int, txt));
    assert(b1.subrange(ts, ts + txt.len()) == txt);
    assert(t1.range.start == ts && t1.range.end == ts + txt.len());
    assert(text::utf8(reserialize_text(tb)) == txt);
    assert(b1 =~= splice(b1, ts, ts + txt.len(), txt));
    vstd::utf8::encode_utf8_decode_utf8(s1);
    vstd::utf8::encode_utf8_decode_utf8(s2);
}

/// Writing the same content again changes nothing, in every table style:
/// after a successful edit of cell `(row, col)` to `new`, editing it to
/// `new` once more leaves the buffer as it is, with a byte change of 0.
pub proof fn lemma_repeat_edit_unchanged(
    t0: TableView,
    s0: Seq<char>,
    row: i32,
    col: usize,
    new: Seq<char>,
    t1: TableView,
    s1: Seq<char>,
    res1: model::Result<EditDelta>,
    t2: TableView,
    s2: Seq<char>,
    res2: model::Result<EditDelta>,
)
    requires
        update_post(t0, text::utf8(s0), s0, row, col, new, t1, s1, res1),
        update_post(t1, text::utf8(s1), s1, row, col, new, t2, s2, res2),
        res1 is Ok,
        update_ok(t0, row, col, new, text::utf8(s0)),
        model::cell_view_at(t0, row, col) is Some,
        text::utf8(s1).len() <= usize::MAX,
    ensures
        res2 is Ok,
        res2->Ok_0.byte_delta == 0,
        s2 == s1,
{
    vstd::utf8::encode_utf8_valid_utf8(s0);
    if t0.style == TableStyle::PreserveOriginal {
        lemma_repeat_in_place(t0, s0, row, col, new, t1, s1, res1, t2, s2, res2);
    } else {
        vstd::utf8::is_char_boundary_start_end_of_seq(text::utf8(s0));
        lemma_repeat_reserialize(t0, s0, row, col, new, t1, s1, res1, t2, s2, res2);
    }
}


/// How GFM reads a (trimmed) separator cell: a leading colon aligns the
/// column left, a trailing one right, both center, none leaves it
/// unaligned.
pub open spec fn read_align(tok: Seq<char>) -> Alignment {
    let l = tok.len() > 0 && tok[0] == ':';
    let r = tok.len() > 0 && tok.last() == ':';
    if l && r {
        Alignment::Center
    } else if l {
        Alignment::Left
    } else if r {
        Alignment::Right
    } else {
        Alignment::Unaligned
    }
}

/// The index of the last `|` of `p`, or -1.
pub open spec fn last_pipe(p: Seq<char>) -> int
    decreases p.len(),
{
    if p.len() == 0 {
        -1
    } else if p.last() == '|' {
        p.len() - 1
    } else {
        last_pipe(p.drop_last())
    }
}

pub proof fn lemma_last_pipe(p: Seq<char>)
    ensures
        -1 <= last_pipe(p) < p.len(),
    decreases p.len(),
{
    if p.len() > 0 && p.last() != '|' {
        lemma_last_pipe(p.drop_last());
    }
}

/// The cells of a table line that ends in `|`: the texts between
/// consecutive pipes, in order.
pub open spec fn pipe_cells(s: Seq<char>) -> Seq<Seq<char>>
    decreases s.len(),
{
    if s.len() == 0 || s.last() != '|' {
        seq![]
    } else {
        let p = s.drop_last();
        let i = last_pipe(p);
        proof {
            lemma_last_pipe(p);
        }
        if i < 0 {
            seq![]
        } else {
            pipe_cells(p.subrange(0, i + 1)).push(p.subrange(i + 1, p.len() as int))
        }
    }
}

proof fn lemma_last_pipe_after(a: Seq<char>, x: Seq<char>)
    requires
        a.len() > 0,
        a.last() == '|',
        forall|i: int| 0 <= i < x.len() ==> x[i] != '|',
    ensures
        last_pipe(a + x) == a.len() - 1,
    decreases x.len(),
{
    if x.len() == 0 {
        assert(a + x =~= a);
    } else {
        assert((a + x).last() == x.last());
        assert((a + x).drop_last() =~= a + x.drop_last());
        lemma_last_pipe_after(a, x.drop_last());
    }
}

/// Appending a cell `x` (no pipe) and its closing pipe to a line that ends
/// in a pipe appends `x` to the line's cells.
proof fn lemma_pipe_cells_push(a: Seq<char>, x: Seq<char>)
    requires
        a.len() > 0,
        a.last() == '|',
        forall|i: int| 0 <= i < x.len() ==> x[i] != '|',
    ensures
        pipe_cells(a + x + seq!['|']) == pipe_cells(a).push(x),
{
    let s = a + x + seq!['|'];
    let p = s.drop_last();
    assert(p =~= a + x);
    lemma_last_pipe_after(a, x);
    assert(p.subrange(0, a.len() as int) =~= a);
    assert(p.subrange(a.len() as int, p.len() as int) =~= x);
}

proof fn lemma_sep_token(tok: Seq<char>, a: Alignment)
    requires
        tok.len() > 0,
        tok[0] == ':' || tok[0] == '-',
        tok.last() == ':' || tok.last() == '-',
        forall|i: int| 0 <= i < tok.len() ==> tok[i] != '|',
        read_align(tok) == a,
    ensures
        forall|i: int| 0 <= i < (seq![' '] + tok + seq![' ']).len() ==> (seq![' '] + tok + seq![' '])[i] != '|',
        read_align(text::trim(seq![' '] + tok + seq![' '])) == a,
{
    assert(seq![' '] =~= text::repeat(' ', 1));
    text::lemma_trim_padding(1, tok, 1);
    assert forall|i: int| 0 <= i < (seq![' '] + tok + seq![' ']).len() implies (seq![' '] + tok + seq![' '])[i] != '|' by {
        if 1 <= i < 1 + tok.len() {
            assert((seq![' '] + tok + seq![' '])[i] == tok[i - 1]);
        }
    }
}

/// The separator line that `to_gfm_compact` writes reads back as the
/// table's alignments: one cell per column, and GFM's reading of each
/// cell gives that column's alignment.
pub proof fn lemma_compact_separator_reads_back(t: TableView)
    ensures
        ({
            let line = seq!['|'] + compact_sep_cells(t.alignments);
            &&& compact_text(t) == compact_row(t.headers) + (line + seq!['\n']) + compact_rows(t.rows)
            &&& pipe_cells(line).len() == t.alignments.len()
            &&& forall|k: int|
                0 <= k < t.alignments.len() ==> read_align(text::trim(#[trigger] pipe_cells(line)[k]))
                    == t.alignments[k]
        }),
{
    lemma_compact_sep_cells(t.alignments);
}

proof fn lemma_compact_sep_cells(al: Seq<Alignment>)
    ensures
        ({
            let line = seq!['|'] + compact_sep_cells(al);
            &&& line.last() == '|'
            &&& pipe_cells(line).len() == al.len()
            &&& forall|k: int| 0 <= k < al.len() ==> read_align(text::trim(#[trigger] pipe_cells(line)[k])) == al[k]
        }),
    decreases al.len(),
{
    let line = seq!['|'] + compact_sep_cells(al);
    if al.len() == 0 {
        assert(line =~= seq!['|']);
        assert(pipe_cells(line) =~= Seq::<Seq<char>>::empty()) by {
            assert(line.drop_last() =~= Seq::<char>::empty());
        }
    } else {
        let pre = al.drop_last();
        lemma_compact_sep_cells(pre);
        let a = seq!['|'] + compact_sep_cells(pre);
        let tok = align_token(al.last());
        let x = seq![' '] + tok + seq![' '];
        assert(line =~= a + x + seq!['|']);
        lemma_sep_token(tok, al.last());
        lemma_pipe_cells_push(a, x);
        assert forall|k: int| 0 <= k < al.len() implies read_align(text::trim(#[trigger] pipe_cells(line)[k])) == al[k] by {
            if k < pre.len() {
                assert(pipe_cells(line)[k] == pipe_cells(a)[k]);
                assert(pre[k] == al[k]);
            } else {
                assert(pipe_cells(line)[k] == x);
            }
        }
    }
}

proof fn lemma_sep_inner_token(a: Alignment, w: nat)
    requires
        w >= 2,
    ensures
        sep_inner(a, w).len() > 0,
        sep_inner(a, w)[0] == ':' || sep_inner(a, w)[0] == '-',
        sep_inner(a, w).last() == ':' || sep_inner(a, w).last() == '-',
        forall|i: int| 0 <= i < sep_inner(a, w).len() ==> sep_inner(a, w)[i] != '|',
        read_align(sep_inner(a, w)) == a,
{
    let tok = sep_inner(a, w);
    assert forall|i: int| 0 <= i < tok.len() implies tok[i] == ':' || tok[i] == '-' by {
        match a {
            Alignment::Unaligned => {},
            Alignment::Left => {
                if i > 0 {
                    assert(tok[i] == dashes(w - 1)[i - 1]);
                }
            },
            Alignment::Right => {
                if i < w - 1 {
                    assert(tok[i] == dashes(w - 1)[i]);
                }
            },
            Alignment::Center => {
                if 0 < i < w - 1 {
                    assert(tok[i] == dashes(w - 2)[i - 1]);
                }
            },
        }
    }
    match a {
        Alignment::Unaligned => {
            assert(tok[0] == '-');
            assert(tok.last() == '-');
        },
        Alignment::Left => {
            assert(tok.last() == dashes(w - 1)[w - 2]);
        },
        Alignment::Right => {
            assert(tok[0] == dashes(w - 1)[0]);
        },
        Alignment::Center => {},
    }
}

proof fn lemma_pretty_sep_cells(al: Seq<Alignment>, ws: Seq<usize>, k: int)
    requires
        0 <= k <= al.len(),
        k <= ws.len(),
        forall|j: int| 0 <= j < k ==> #[trigger] ws[j] >= 2,
    ensures
        ({
            let line = seq!['|'] + pretty_sep_cells(al, ws, k);
            &&& line.last() == '|'
            &&& pipe_cells(line).len() == k
            &&& forall|j: int| 0 <= j < k ==> read_align(text::trim(#[trigger] pipe_cells(line)[j])) == al[j]
        }),
    decreases k,
{
    let line = seq!['|'] + pretty_sep_cells(al, ws, k);
    if k == 0 {
        assert(line =~= seq!['|']);
        assert(pipe_cells(line) =~= Seq::<Seq<char>>::empty()) by {
            assert(line.drop_last() =~= Seq::<char>::empty());
        }
    } else {
        lemma_pretty_sep_cells(al, ws, k - 1);
        let a = seq!['|'] + pretty_sep_cells(al, ws, k - 1);
        let tok = sep_inner(al[k - 1], ws[k - 1] as nat);
        let x = seq![' '] + tok + seq![' '];
        assert(line =~= a + x + seq!['|']);
        lemma_sep_inner_token(al[k - 1], ws[k - 1] as nat);
        lemma_sep_token(tok, al[k - 1]);
        lemma_pipe_cells_push(a, x);
        assert forall|j: int| 0 <= j < k implies read_align(text::trim(#[trigger] pipe_cells(line)[j])) == al[j] by {
            if j < k - 1 {
                assert(pipe_cells(line)[j] == pipe_cells(a)[j]);
            } else {
                assert(pipe_cells(line)[j] == x);
            }
        }
    }
}

/// The separator line that `to_gfm_pretty` writes reads back as the
/// table's alignments: one cell per column, and GFM's reading of each
/// cell gives that column's alignment (every column is at least three
/// wide; the widths must fit in `usize`).
pub proof fn lemma_pretty_separator_reads_back(t: TableView)
    requires
        forall|k: int| 0 <= k < t.alignments.len() ==> col_width(t, k) <= usize::MAX,
    ensures
        ({
            let ws = widths_of(t);
            let line = seq!['|'] + pretty_sep_cells(t.alignments, ws, t.alignments.len() as int);
            &&& pretty_text(t) == (seq!['|'] + pretty_cells(t.alignments, ws, t.headers, t.headers.len() as int)
                + seq!['\n']) + (line + seq!['\n']) + pretty_rows(t.alignments, ws, t.rows)
            &&& pipe_cells(line).len() == t.alignments.len()
            &&& forall|k: int|
                0 <= k < t.alignments.len() ==> read_align(text::trim(#[trigger] pipe_cells(line)[k]))
                    == t.alignments[k]
        }),
{
    let ws = widths_of(t);
    assert forall|j: int| 0 <= j < t.alignments.len() implies #[trigger] ws[j] >= 2 by {
        assert(col_width(t, j) >= 3);
    }
    lemma_pretty_sep_cells(t.alignments, ws, t.alignments.len() as int);
}

} // verus!
