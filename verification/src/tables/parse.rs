//! Parsing GFM tables: line classification, cell spans and cells.

use std::ops::Range;
use vstd::prelude::*;
use vstd::string::StringSliceAdditionalSpecFns;

use pulldown_cmark::Event::{End, Start};
use pulldown_cmark::Tag::{Table, TableCell, TableHead, TableRow};
use pulldown_cmark::{Options, Parser, TagEnd};

use super::model::{Alignment, Cell, CellView, LineKind, LineView, MarkdownTable, OriginalLine, TableId, TableStyle};
use super::model::TableView;
use self::EventKind::{CellEnd, CellStart, HeadEnd, HeadStart, Other, RowEnd, RowStart, TableEnd, TableStart};
use super::model;
use crate::text;
use crate::text::{chars_of, count_lead, count_trail, lines_of, str_slice, string_from_chars, trim_bounds};

verus! {

/// The ASCII backslash.
pub open spec fn backslash() -> u8 {
    92u8
}

/// The ASCII pipe.
pub open spec fn pipe() -> u8 {
    124u8
}

/// Number of consecutive backslashes ending just before byte `i`.
pub open spec fn backslashes_before(b: Seq<u8>, i: int) -> nat
    decreases i,
{
    if i <= 0 || i > b.len() {
        0
    } else if b[i - 1] == backslash() {
        1 + backslashes_before(b, i - 1)
    } else {
        0
    }
}

/// A pipe that is not escaped: preceded by an even run of backslashes.
pub open spec fn is_cell_delimiter(b: Seq<u8>, i: int) -> bool {
    0 <= i < b.len() && b[i] == pipe() && backslashes_before(b, i) % 2 == 0
}

/// Positions of the unescaped pipes among the first `n` bytes, ascending.
pub open spec fn delimiters_before(b: Seq<u8>, n: int) -> Seq<int>
    decreases n,
{
    if n <= 0 {
        seq![]
    } else if is_cell_delimiter(b, n - 1) {
        delimiters_before(b, n - 1).push(n - 1)
    } else {
        delimiters_before(b, n - 1)
    }
}

/// The spans strictly between consecutive delimiters.
pub open spec fn inner_spans(d: Seq<int>) -> Seq<Range<usize>> {
    if d.len() == 0 {
        seq![]
    } else {
        Seq::new(
            (d.len() - 1) as nat,
            |k: int| Range { start: (d[k] + 1) as usize, end: d[k + 1] as usize },
        )
    }
}

/// The span before the first delimiter, when the line does not start
/// with one.
pub open spec fn lead_span(d: Seq<int>) -> Seq<Range<usize>> {
    if d.len() > 0 && d[0] > 0 {
        seq![Range { start: 0, end: d[0] as usize }]
    } else {
        seq![]
    }
}

/// The span after the last delimiter (the whole line when there is
/// none), when it is not empty.
pub open spec fn tail_span(d: Seq<int>, n: int) -> Seq<Range<usize>> {
    if d.len() > 0 {
        if d.last() + 1 < n {
            seq![Range { start: (d.last() + 1) as usize, end: n as usize }]
        } else {
            seq![]
        }
    } else if n > 0 {
        seq![Range { start: 0, end: n as usize }]
    } else {
        seq![]
    }
}

/// What `split_cells` returns for a line with bytes `b`: the line split
/// at its unescaped pipes, without the empty span before a leading pipe
/// and the empty span after a trailing one (the outer wrapping pipes).
pub open spec fn cell_spans(b: Seq<u8>) -> Seq<Range<usize>> {
    let d = delimiters_before(b, b.len() as int);
    lead_span(d) + inner_spans(d) + tail_span(d, b.len() as int)
}

/// The delimiters are ascending positions below `n`.
pub proof fn lemma_delimiters_sorted(b: Seq<u8>, n: int)
    requires
        n <= b.len(),
    ensures
        forall|i: int|
            0 <= i < delimiters_before(b, n).len() ==> 0 <= #[trigger] delimiters_before(b, n)[i] < n
                && is_cell_delimiter(b, delimiters_before(b, n)[i]),
        forall|i: int, j: int|
            0 <= i < j < delimiters_before(b, n).len() ==> #[trigger] delimiters_before(b, n)[i]
                < #[trigger] delimiters_before(b, n)[j],
    decreases n,
{
    if n > 0 {
        lemma_delimiters_sorted(b, n - 1);
        let p = delimiters_before(b, n - 1);
        let d = delimiters_before(b, n);
        if is_cell_delimiter(b, n - 1) {
            assert(d == p.push(n - 1));
            assert forall|i: int| 0 <= i < d.len() implies 0 <= #[trigger] d[i] < n && is_cell_delimiter(b, d[i]) by {
                if i < p.len() {
                    assert(d[i] == p[i]);
                }
            }
            assert forall|i: int, j: int| 0 <= i < j < d.len() implies #[trigger] d[i] < #[trigger] d[j] by {
                assert(d[i] == p[i]);
                if j < p.len() {
                    assert(d[j] == p[j]);
                }
            }
        } else {
            assert(d == p);
        }
    }
}

/// Cell spans are ordered, well-formed and inside the line.
pub proof fn lemma_cell_spans_bounds(b: Seq<u8>)
    requires
        b.len() <= usize::MAX,
    ensures
        forall|k: int|
            0 <= k < cell_spans(b).len() ==> (#[trigger] cell_spans(b)[k]).start <= cell_spans(b)[k].end
                <= b.len(),
        forall|k: int|
            0 <= k < cell_spans(b).len() - 1 ==> (#[trigger] cell_spans(b)[k]).end <= cell_spans(b)[k
                + 1].start,
{
    let n = b.len() as int;
    let d = delimiters_before(b, n);
    lemma_delimiters_sorted(b, n);
    let sp = cell_spans(b);
    let lead = lead_span(d);
    let inner = inner_spans(d);
    let tail = tail_span(d, n);
    assert(sp == lead + inner + tail);
    assert(inner.len() == if d.len() == 0 { 0 } else { d.len() - 1 });
    assert forall|k: int| 0 <= k < inner.len() implies (#[trigger] inner[k]).start == d[k] + 1 && inner[k].end == d[k + 1] by {
        assert(0 <= d[k] < n);
        assert(0 <= d[k + 1] < n);
    }
    assert forall|k: int| 0 <= k < sp.len() implies (#[trigger] sp[k]).start <= sp[k].end <= n by {
        if k < lead.len() {
            assert(sp[k] == lead[k]);
        } else if k < lead.len() + inner.len() {
            assert(sp[k] == inner[k - lead.len()]);
            assert(d[k - lead.len()] < d[k - lead.len() + 1]);
        } else {
            assert(sp[k] == tail[k - lead.len() - inner.len()]);
        }
    }
    assert forall|k: int| 0 <= k < sp.len() - 1 implies (#[trigger] sp[k]).end <= sp[k + 1].start by {
        if k < lead.len() {
            assert(sp[k] == lead[k]);
            assert(d.len() > 0);
            if k + 1 < lead.len() + inner.len() {
                assert(sp[k + 1] == inner[0]);
            } else {
                assert(sp[k + 1] == tail[0]);
            }
        } else if k < lead.len() + inner.len() {
            let j = k - lead.len();
            assert(sp[k] == inner[j]);
            if k + 1 < lead.len() + inner.len() {
                assert(sp[k + 1] == inner[j + 1]);
            } else {
                assert(sp[k + 1] == tail[0]);
                assert(j + 1 == d.len() - 1);
            }
        } else {
            assert(false);
        }
    }
}

proof fn lemma_lead_span_push(d: Seq<int>, x: int)
    requires
        d.len() > 0,
    ensures
        lead_span(d.push(x)) == lead_span(d),
{
    assert(d.push(x)[0] == d[0]);
}

proof fn lemma_inner_spans_push(d: Seq<int>, x: int)
    requires
        d.len() > 0,
    ensures
        inner_spans(d.push(x)) =~= inner_spans(d).push(
            Range { start: (d.last() + 1) as usize, end: x as usize },
        ),
{
}

/// Split a table line by unescaped pipes into the byte ranges of the
/// cell contents between them.
pub fn split_cells(line: &str) -> (out: Vec<Range<usize>>)
    ensures
        out@ == cell_spans(line.spec_bytes()),
{
    let bytes = line.as_bytes();
    let n = bytes.len();
    let ghost b = bytes@;
    let mut out: Vec<Range<usize>> = Vec::new();
    let mut start: usize = 0;
    let mut prev_was_backslash = false;
    let mut started = false;
    let mut i: usize = 0;
    while i < n
        invariant
            n == b.len(),
            b == bytes@,
            i <= n,
            prev_was_backslash == (backslashes_before(b, i as int) % 2 == 1),
            started == (delimiters_before(b, i as int).len() > 0),
            started ==> start == delimiters_before(b, i as int).last() + 1,
            out@ == lead_span(delimiters_before(b, i as int)) + inner_spans(delimiters_before(b, i as int)),
        decreases n - i,
    {
        let c = bytes[i];
        let ghost d = delimiters_before(b, i as int);
        if c == 92u8 && !prev_was_backslash {
            prev_was_backslash = true;
        } else {
            if c == 124u8 && !prev_was_backslash {
                if started {
                    proof {
                        lemma_inner_spans_push(d, i as int);
                        lemma_lead_span_push(d, i as int);
                    }
                    out.push(start..i);
                    assert(out@ =~= lead_span(d.push(i as int)) + inner_spans(d.push(i as int)));
                } else if i > 0 {
                    out.push(0..i);
                    assert(out@ =~= lead_span(d.push(i as int)) + inner_spans(d.push(i as int)));
                } else {
                    assert(out@ =~= lead_span(d.push(i as int)) + inner_spans(d.push(i as int)));
                }
                start = i + 1;
                started = true;
            }
            prev_was_backslash = false;
        }
        assert(delimiters_before(b, i + 1) == (if is_cell_delimiter(b, i as int) {
            d.push(i as int)
        } else {
            d
        }));
        i = i + 1;
    }
    let ghost d = delimiters_before(b, n as int);
    if started {
        if start < n {
            out.push(start..n);
        }
    } else if n > 0 {
        out.push(0..n);
    }
    assert(out@ =~= lead_span(d) + inner_spans(d) + tail_span(d, n as int));
    out
}


/// A character allowed in a separator line.
pub open spec fn is_separator_char(c: char) -> bool {
    c == '|' || c == '-' || c == ':' || c == ' '
}

/// A GFM separator line: after trimming, non-empty, only pipes, dashes,
/// colons and spaces, with at least one dash.
pub open spec fn is_separator(s: Seq<char>) -> bool {
    let t = text::trim(s);
    &&& t.len() > 0
    &&& forall|i: int| 0 <= i < t.len() ==> is_separator_char(#[trigger] t[i])
    &&& t.contains('-')
}

/// `true` if `s` is a GFM separator line — pipes, dashes, colons,
/// whitespace only, with at least one dash.
pub fn is_separator_line(s: &str) -> (b: bool)
    ensures
        b == is_separator(s@),
{
    let v = chars_of(s);
    let (lo, hi) = trim_bounds(&v);
    let ghost t = text::trim(s@);
    if lo == hi {
        return false;
    }
    let mut all_ok = true;
    let mut dash = false;
    let mut i = lo;
    while i < hi
        invariant
            lo <= i <= hi <= v.len(),
            v@ == s@,
            t == v@.subrange(lo as int, hi as int),
            all_ok == (forall|j: int| 0 <= j < i - lo ==> is_separator_char(#[trigger] t[j])),
            dash == (exists|j: int| 0 <= j < i - lo && t[j] == '-'),
        decreases hi - i,
    {
        let c = v[i];
        assert(t[i - lo] == c);
        if !(c == '|' || c == '-' || c == ':' || c == ' ') {
            all_ok = false;
        }
        if c == '-' {
            dash = true;
        }
        i = i + 1;
    }
    proof {
        if dash {
            let j = choose|j: int| 0 <= j < hi - lo && t[j] == '-';
            assert(t.contains('-'));
        }
        if t.contains('-') {
            let j = choose|j: int| 0 <= j < t.len() && t[j] == '-';
            assert(0 <= j < hi - lo && t[j] == '-');
        }
    }
    all_ok && dash
}

/// `l` holds the three characters `a b c` consecutively.
pub open spec fn contains3(l: Seq<char>, a: char, b: char, c: char) -> bool {
    exists|i: int| #[trigger] has3_at(l, i, a, b, c)
}

/// `l[i..i+3]` is `a b c`.
pub open spec fn has3_at(l: Seq<char>, i: int, a: char, b: char, c: char) -> bool {
    0 <= i && i + 3 <= l.len() && l[i] == a && l[i + 1] == b && l[i + 2] == c
}

/// A line with two-space padding next to a pipe.
pub open spec fn has_wide_pad(l: Seq<char>) -> bool {
    contains3(l, ' ', ' ', '|') || contains3(l, '|', ' ', ' ')
}

/// A non-blank, non-separator line.
pub open spec fn is_body_line(l: Seq<char>) -> bool {
    !is_separator(l) && text::trim(l).len() > 0
}

/// The style `detect_style` reports: `Pretty` when some body line has
/// wide padding, else `Compact`.
pub open spec fn style_of(src: Seq<char>) -> TableStyle {
    if exists|k: int|
        0 <= k < text::lines(src).len() && is_body_line(#[trigger] text::lines(src)[k])
            && has_wide_pad(text::lines(src)[k]) {
        TableStyle::Pretty
    } else {
        TableStyle::Compact
    }
}

fn chars_contain3(v: &Vec<char>, a: char, b: char, c: char) -> (r: bool)
    ensures
        r == contains3(v@, a, b, c),
{
    let n = v.len();
    let mut i: usize = 0;
    while i < n && n - i >= 3
        invariant
            n == v.len(),
            forall|j: int| 0 <= j < i ==> !#[trigger] has3_at(v@, j, a, b, c),
        decreases n - i,
    {
        if v[i] == a && v[i + 1] == b && v[i + 2] == c {
            assert(has3_at(v@, i as int, a, b, c));
            return true;
        }
        i = i + 1;
    }
    false
}

/// Detect the formatting style of a table source: `Pretty` when a body
/// line has two-space padding around a pipe, otherwise `Compact`.
pub fn detect_style(table_src: &str) -> (st: TableStyle)
    ensures
        st == style_of(table_src@),
{
    let ls = lines_of(table_src);
    let ghost gl = text::lines(table_src@);
    let mut k: usize = 0;
    while k < ls.len()
        invariant
            text::views(ls@) == gl,
            gl == text::lines(table_src@),
            k <= ls.len(),
            forall|j: int| 0 <= j < k ==> !(is_body_line(#[trigger] gl[j]) && has_wide_pad(gl[j])),
        decreases ls.len() - k,
    {
        let line = ls[k].as_str();
        assert(line@ == gl[k as int]);
        let sep = is_separator_line(line);
        let v = chars_of(line);
        let (lo, hi) = trim_bounds(&v);
        if !sep && lo < hi {
            let wide = chars_contain3(&v, ' ', ' ', '|') || chars_contain3(&v, '|', ' ', ' ');
            if wide {
                assert(text::trim(gl[k as int]).len() > 0);
                assert(0 <= k < gl.len() && is_body_line(gl[k as int]) && has_wide_pad(gl[k as int]));
                return TableStyle::Pretty;
            }
        }
        k = k + 1;
    }
    TableStyle::Compact
}

/// How `capture_original_lines` classifies the lines `ls`, given whether
/// a separator was seen and the next body-row index.
pub open spec fn classify_lines(ls: Seq<Seq<char>>, seen: bool, row: nat) -> Seq<LineView>
    decreases ls.len(),
{
    if ls.len() == 0 {
        seq![]
    } else {
        let l = ls[0];
        let rest = ls.drop_first();
        let spans = cell_spans(text::utf8(l));
        if text::trim(l).len() == 0 {
            classify_lines(rest, seen, row)
        } else if is_separator(l) {
            seq![LineView { raw: l, spans, kind: LineKind::Separator }] + classify_lines(rest, true, row)
        } else if !seen {
            seq![LineView { raw: l, spans, kind: LineKind::Header }] + classify_lines(rest, seen, row)
        } else {
            seq![LineView { raw: l, spans, kind: LineKind::Body { row_index: row as usize } }]
                + classify_lines(rest, seen, row + 1)
        }
    }
}

/// The captured lines of a table source: every non-blank line verbatim
/// with its cell spans; lines before the first separator are `Header`,
/// separators are `Separator`, other lines after one are numbered `Body`
/// rows from 0.
pub open spec fn original_lines_of(src: Seq<char>) -> Seq<LineView> {
    classify_lines(text::lines(src), false, 0)
}

/// Capture verbatim source lines for the PreserveOriginal round-trip
/// strategy. Empty lines inside the table block are skipped.
pub fn capture_original_lines(table_src: &str) -> (out: Vec<OriginalLine>)
    ensures
        model::lines_view(out@) == original_lines_of(table_src@),
{
    let ls = lines_of(table_src);
    let ghost gl = text::lines(table_src@);
    let n = ls.len();
    let mut out: Vec<OriginalLine> = Vec::new();
    let mut row_index: usize = 0;
    let mut seen_separator = false;
    let mut k: usize = 0;
    assert(gl.subrange(0, n as int) == gl);
    while k < n
        invariant
            n == ls.len(),
            text::views(ls@) == gl,
            gl == text::lines(table_src@),
            k <= n,
            row_index <= k,
            model::lines_view(out@) + classify_lines(gl.subrange(k as int, n as int), seen_separator, row_index as nat)
                == original_lines_of(table_src@),
        decreases n - k,
    {
        let line = ls[k].as_str();
        let ghost rest = gl.subrange(k + 1, n as int);
        assert(gl.subrange(k as int, n as int).drop_first() == rest);
        assert(gl.subrange(k as int, n as int)[0] == line@);
        let v = chars_of(line);
        let (lo, hi) = trim_bounds(&v);
        if lo < hi {
            let sep = is_separator_line(line);
            let kind = if sep {
                seen_separator = true;
                LineKind::Separator
            } else if !seen_separator {
                LineKind::Header
            } else {
                let kd = LineKind::Body { row_index };
                row_index = row_index + 1;
                kd
            };
            let spans = split_cells(line);
            let ol = OriginalLine { raw: line.to_owned(), cell_spans: spans, kind };
            let ghost before = model::lines_view(out@);
            out.push(ol);
            assert(model::lines_view(out@) == before.push(ol@)) by {
                assert(model::lines_view(out@) =~= model::lines_view(out@.drop_last()).push(ol@));
            }
            assert(before.push(ol@) + classify_lines(rest, seen_separator, row_index as nat)
                =~= before + (seq![ol@] + classify_lines(rest, seen_separator, row_index as nat)));
        }
        k = k + 1;
    }
    assert(model::lines_view(out@) + classify_lines(gl.subrange(n as int, n as int), seen_separator, row_index as nat)
        =~= model::lines_view(out@));
    out
}


/// `s` moved left over spaces/tabs.
pub open spec fn expand_left(b: Seq<u8>, s: int) -> int
    decreases s,
{
    if 0 < s <= b.len() && text::is_sp(b[s - 1]) {
        expand_left(b, s - 1)
    } else {
        s
    }
}

/// `e` moved right over spaces/tabs.
pub open spec fn expand_right(b: Seq<u8>, e: int) -> int
    decreases b.len() - e,
{
    if 0 <= e < b.len() && text::is_sp(b[e]) {
        expand_right(b, e + 1)
    } else {
        e
    }
}

/// The cell `cell_from_range` builds from range `r` of a buffer with
/// bytes `b`: the range widened over the spaces/tabs around it, the
/// trimmed text, and the space/tab counts at both ends (modulo 256).
pub open spec fn cell_at(b: Seq<u8>, r: Range<usize>) -> CellView {
    let s = expand_left(b, r.start as int);
    let e = expand_right(b, r.end as int);
    let raw = b.subrange(s, e);
    CellView {
        range: Range { start: s as usize, end: e as usize },
        content: text::trim(vstd::utf8::decode_utf8(raw)),
        leading_ws: text::lead_count(raw) as u8,
        trailing_ws: text::trail_count(raw) as u8,
    }
}

/// `cell_from_range` does not panic: the widened range is a valid slice.
pub open spec fn cell_range_ok(b: Seq<u8>, r: Range<usize>) -> bool {
    let s = expand_left(b, r.start as int);
    let e = expand_right(b, r.end as int);
    &&& s <= e
    &&& vstd::utf8::is_char_boundary(b, s)
    &&& vstd::utf8::is_char_boundary(b, e)
}

/// Byte offsets `r` widened over the spaces/tabs around them.
fn widen(bytes: &[u8], r: &Range<usize>) -> (out: (usize, usize))
    ensures
        out.0 == expand_left(bytes@, r.start as int),
        out.1 == expand_right(bytes@, r.end as int),
{
    let ghost b = bytes@;
    let mut start = r.start;
    let mut end = r.end;
    while start > 0 && start <= bytes.len() && (bytes[start - 1] == 32u8 || bytes[start - 1] == 9u8)
        invariant
            b == bytes@,
            expand_left(b, start as int) == expand_left(b, r.start as int),
        decreases start,
    {
        start = start - 1;
    }
    while end < bytes.len() && (bytes[end] == 32u8 || bytes[end] == 9u8)
        invariant
            b == bytes@,
            expand_right(b, end as int) == expand_right(b, r.end as int),
        decreases bytes.len() - end,
    {
        end = end + 1;
    }
    (start, end)
}

/// Whether `cell_from_range(buf, r)` can slice its widened range.
pub fn cell_range_valid(buf: &str, r: &Range<usize>) -> (ok: bool)
    ensures
        ok == cell_range_ok(text::utf8(buf@), *r),
{
    let (start, end) = widen(buf.as_bytes(), r);
    start <= end && buf.is_char_boundary(start) && buf.is_char_boundary(end)
}

/// Build a [`Cell`] from a byte range, widening it over the whitespace
/// between the content and the surrounding pipes.
pub fn cell_from_range(buf: &str, r: Range<usize>) -> (c: Cell)
    requires
        cell_range_ok(text::utf8(buf@), r),
    ensures
        c@ == cell_at(text::utf8(buf@), r),
{
    let bytes = buf.as_bytes();
    proof {
        vstd::utf8::encode_utf8_valid_utf8(buf@);
        vstd::utf8::is_char_boundary_start_end_of_seq(bytes@);
    }
    let (start, end) = widen(bytes, &r);
    let raw = str_slice(buf, start, end);
    let v = chars_of(raw);
    let (lo, hi) = trim_bounds(&v);
    let content = string_from_chars(&v, lo, hi);
    let lead = count_lead(bytes, start, end);
    let trail = count_trail(bytes, start, end);
    Cell { source_range: start..end, content, leading_ws: lead as u8, trailing_ws: trail as u8 }
}


/// What the table collector reads of a parser event.
#[derive(Clone, Copy, Debug, PartialEq, Eq, Structural)]
pub enum EventKind {
    TableStart,
    TableEnd,
    HeadStart,
    HeadEnd,
    RowStart,
    RowEnd,
    CellStart,
    CellEnd,
    /// Any event outside the table structure.
    Other,
}

/// A parser event with its byte range in the source.
#[derive(Debug)]
pub struct TableEvent {
    pub kind: EventKind,
    /// For a `TableStart`: the column alignments, coded 0 none, 1 left,
    /// 2 center, 3 right.
    pub alignments: Vec<u8>,
    pub range: Range<usize>,
}

/// View of a [`TableEvent`].
pub struct EventView {
    pub kind: EventKind,
    pub alignments: Seq<u8>,
    pub range: Range<usize>,
}

impl View for TableEvent {
    type V = EventView;

    open spec fn view(&self) -> EventView {
        EventView { kind: self.kind, alignments: self.alignments@, range: self.range }
    }
}

pub open spec fn events_view(v: Seq<TableEvent>) -> Seq<EventView> {
    v.map_values(|e: TableEvent| e@)
}

/// The events pulldown-cmark emits for `text` with the table extension
/// enabled, as [`offset_events`] reduces them.
pub uninterp spec fn pulldown_table_events(text: Seq<char>) -> Seq<EventView>;

/// Runs `pulldown_cmark::Parser::new_ext(buffer, Options::ENABLE_TABLES)`
/// and `into_offset_iter`, reducing each `(Event, Range)` pair to a
/// [`TableEvent`]: table, head, row and cell starts and ends keep their
/// kind, every other event is `Other`, and a table start keeps its column
/// alignments as the declaration-order index of `pulldown_cmark::Alignment`
/// (`None`, `Left`, `Center`, `Right`). The contract claims only that the
/// result is determined by `buffer`; nothing is assumed of the ranges,
/// which the caller checks before slicing.
#[verifier::external_body]
fn offset_events(buffer: &str) -> (evs: Vec<TableEvent>)
    ensures
        events_view(evs@) == pulldown_table_events(buffer@),
{
    Parser::new_ext(buffer, Options::ENABLE_TABLES).into_offset_iter().map(|(ev, range)| {
        let (kind, a) = match ev {
            Start(Table(a)) => (TableStart, Some(a)), End(TagEnd::Table) => (TableEnd, None),
            Start(TableHead) => (HeadStart, None), End(TagEnd::TableHead) => (HeadEnd, None),
            Start(TableRow) => (RowStart, None), End(TagEnd::TableRow) => (RowEnd, None),
            Start(TableCell) => (CellStart, None), End(TagEnd::TableCell) => (CellEnd, None),
            _ => (Other, None),
        };
        TableEvent { kind, alignments: a.into_iter().flatten().map(|x| x as u8).collect(), range }
    }).collect()
}

/// The alignment an event's alignment code stands for.
pub open spec fn alignment_of(code: u8) -> Alignment {
    if code == 1 {
        Alignment::Left
    } else if code == 2 {
        Alignment::Center
    } else if code == 3 {
        Alignment::Right
    } else {
        Alignment::Unaligned
    }
}

fn map_align(code: u8) -> (a: Alignment)
    ensures
        a == alignment_of(code),
{
    if code == 1 {
        Alignment::Left
    } else if code == 2 {
        Alignment::Center
    } else if code == 3 {
        Alignment::Right
    } else {
        Alignment::Unaligned
    }
}

/// The collector's state while it walks the events of one table.
pub struct CollectView {
    pub headers: Seq<CellView>,
    pub rows: Seq<Seq<CellView>>,
    pub current: Seq<CellView>,
    pub in_head: bool,
    pub cell_start: Option<usize>,
}

pub open spec fn collect_init() -> CollectView {
    CollectView { headers: seq![], rows: seq![], current: seq![], in_head: false, cell_start: None }
}

/// The range of a cell closed by an event with range `r`: from the
/// opening event's start, if one was seen, to `r`'s end.
pub open spec fn closed_range(start: Option<usize>, r: Range<usize>) -> Range<usize> {
    match start {
        Some(s) => Range { start: s, end: r.end },
        None => r,
    }
}

/// Walk `evs` from `i` in state `st` up to the end of the table: the final
/// state and the index after the table's end event, or `None` where a
/// cell's range cannot be sliced out of `b`.
pub open spec fn collect_from(b: Seq<u8>, evs: Seq<EventView>, i: int, st: CollectView) -> Option<(CollectView, int)>
    decreases evs.len() - i,
{
    if i < 0 || i >= evs.len() {
        Some((st, i))
    } else {
        let e = evs[i];
        match e.kind {
            EventKind::TableEnd => Some((st, i + 1)),
            EventKind::HeadStart => collect_from(b, evs, i + 1, CollectView { in_head: true, ..st }),
            EventKind::HeadEnd => collect_from(
                b,
                evs,
                i + 1,
                CollectView { headers: st.current, current: seq![], in_head: false, ..st },
            ),
            EventKind::RowStart => collect_from(b, evs, i + 1, CollectView { current: seq![], ..st }),
            EventKind::RowEnd => if st.in_head {
                collect_from(b, evs, i + 1, st)
            } else {
                collect_from(b, evs, i + 1, CollectView { rows: st.rows.push(st.current), current: seq![], ..st })
            },
            EventKind::CellStart => collect_from(
                b,
                evs,
                i + 1,
                CollectView { cell_start: Some(e.range.start), ..st },
            ),
            EventKind::CellEnd => {
                let r = closed_range(st.cell_start, e.range);
                if cell_range_ok(b, r) {
                    collect_from(
                        b,
                        evs,
                        i + 1,
                        CollectView { current: st.current.push(cell_at(b, r)), cell_start: None, ..st },
                    )
                } else {
                    None
                }
            },
            _ => collect_from(b, evs, i + 1, st),
        }
    }
}


/// The collector state of the given pieces.
pub open spec fn state_of(
    headers: Seq<Cell>,
    rows: Seq<Vec<Cell>>,
    current: Seq<Cell>,
    in_head: bool,
    cell_start: Option<usize>,
) -> CollectView {
    CollectView {
        headers: model::cells_view(headers),
        rows: model::rows_view(rows),
        current: model::cells_view(current),
        in_head,
        cell_start,
    }
}

/// Walk the events of one table from `start`: its header cells, its body
/// rows and the index after its end event; `None` where a cell's range
/// cannot be sliced.
fn collect_rows(buf: &str, events: &Vec<TableEvent>, start: usize) -> (res: Option<(Vec<Cell>, Vec<Vec<Cell>>, usize)>)
    requires
        start <= events.len(),
    ensures
        match collect_from(text::utf8(buf@), events_view(events@), start as int, collect_init()) {
            None => res is None,
            Some((st, next)) => res matches Some((h, r, n)) && model::cells_view(h@) == st.headers
                && model::rows_view(r@) == st.rows && n == next && start <= n <= events.len(),
        },
{
    let ghost b = text::utf8(buf@);
    let ghost evs = events_view(events@);
    let mut headers: Vec<Cell> = Vec::new();
    let mut rows: Vec<Vec<Cell>> = Vec::new();
    let mut current: Vec<Cell> = Vec::new();
    let mut in_head = false;
    let mut cell_start: Option<usize> = None;
    let mut i = start;
    assert(model::cells_view(headers@) =~= seq![]);
    assert(model::rows_view(rows@) =~= seq![]);
    assert(model::cells_view(current@) =~= seq![]);
    while i < events.len()
        invariant
            start <= i <= events.len(),
            evs == events_view(events@),
            b == text::utf8(buf@),
            collect_from(b, evs, start as int, collect_init()) == collect_from(
                b,
                evs,
                i as int,
                state_of(headers@, rows@, current@, in_head, cell_start),
            ),
        decreases events.len() - i,
    {
        let ev = &events[i];
        let ghost st = state_of(headers@, rows@, current@, in_head, cell_start);
        match ev.kind {
            EventKind::TableEnd => {
                return Some((headers, rows, i + 1));
            },
            EventKind::HeadStart => {
                in_head = true;
            },
            EventKind::HeadEnd => {
                headers = current;
                current = Vec::new();
                in_head = false;
                assert(model::cells_view(current@) =~= seq![]);
            },
            EventKind::RowStart => {
                current = Vec::new();
                assert(model::cells_view(current@) =~= seq![]);
            },
            EventKind::RowEnd => {
                if !in_head {
                    rows.push(current);
                    current = Vec::new();
                    assert(model::cells_view(current@) =~= seq![]);
                    assert(model::rows_view(rows@) =~= st.rows.push(st.current));
                }
            },
            EventKind::CellStart => {
                cell_start = Some(ev.range.start);
            },
            EventKind::CellEnd => {
                let r = match cell_start {
                    Some(s) => s..ev.range.end,
                    None => ev.range.start..ev.range.end,
                };
                assert(r == closed_range(cell_start, ev.range));
                cell_start = None;
                if !cell_range_valid(buf, &r) {
                    return None;
                }
                let c = cell_from_range(buf, r);
                current.push(c);
                assert(model::cells_view(current@) =~= st.current.push(cell_at(b, r)));
            },
            _ => {},
        }
        i = i + 1;
    }
    Some((headers, rows, i))
}

/// The table whose start event is at `i`, with the index after its end
/// event; `None` where its ranges cannot be sliced out of `b`.
pub open spec fn table_at(b: Seq<u8>, evs: Seq<EventView>, i: int, id: TableId) -> Option<(TableView, int)> {
    let e = evs[i];
    match collect_from(b, evs, i + 1, collect_init()) {
        None => None,
        Some((st, next)) => if e.range.start <= e.range.end && vstd::utf8::is_char_boundary(b, e.range.start as int)
            && vstd::utf8::is_char_boundary(b, e.range.end as int) {
            Some(
                (
                    TableView {
                        id,
                        range: e.range,
                        alignments: e.alignments.map_values(|c: u8| alignment_of(c)),
                        headers: st.headers,
                        rows: st.rows,
                        style: TableStyle::PreserveOriginal,
                        column_widths: Seq::new(e.alignments.len(), |k: int| None::<u32>),
                        original_lines: Some(
                            original_lines_of(
                                vstd::utf8::decode_utf8(b.subrange(e.range.start as int, e.range.end as int)),
                            ),
                        ),
                    },
                    next,
                ),
            )
        } else {
            None
        },
    }
}

/// Build the table whose start event is at `i`.
fn collect_table(buf: &str, events: &Vec<TableEvent>, i: usize, id: TableId) -> (res: Option<(MarkdownTable, usize)>)
    requires
        i < events.len(),
    ensures
        match table_at(text::utf8(buf@), events_view(events@), i as int, id) {
            None => res is None,
            Some((t, next)) => res matches Some((mt, n)) && mt@ == t && n == next && i < n <= events.len(),
        },
{
    let ghost b = text::utf8(buf@);
    let ev = &events[i];
    let collected = collect_rows(buf, events, i + 1);
    let (headers, rows, next) = match collected {
        None => {
            return None;
        },
        Some(x) => x,
    };
    let start = ev.range.start;
    let end = ev.range.end;
    if !(start <= end && buf.is_char_boundary(start) && buf.is_char_boundary(end)) {
        return None;
    }
    let n = ev.alignments.len();
    let mut alignments: Vec<Alignment> = Vec::new();
    let mut column_widths: Vec<Option<u32>> = Vec::new();
    let mut k: usize = 0;
    while k < n
        invariant
            k <= n == ev.alignments.len(),
            alignments@ == ev.alignments@.subrange(0, k as int).map_values(|c: u8| alignment_of(c)),
            column_widths@ == Seq::new(k as nat, |j: int| None::<u32>),
        decreases n - k,
    {
        let a = map_align(ev.alignments[k]);
        alignments.push(a);
        column_widths.push(None);
        proof {
            assert(ev.alignments@.subrange(0, k + 1) =~= ev.alignments@.subrange(0, k as int).push(ev.alignments@[k as int]));
        }
        assert(column_widths@ =~= Seq::new((k + 1) as nat, |j: int| None::<u32>));
        k = k + 1;
    }
    assert(ev.alignments@.subrange(0, n as int) =~= ev.alignments@);
    let table_src = str_slice(buf, start, end);
    let original_lines = capture_original_lines(table_src);
    let table = MarkdownTable {
        id,
        source_range: start..end,
        alignments,
        headers,
        rows,
        style: TableStyle::PreserveOriginal,
        column_widths,
        original_lines: Some(original_lines),
    };
    Some((table, next))
}

/// The tables of the events from `i` on, numbered from `id`; `None`
/// where one of them cannot be sliced out of `b`.
pub open spec fn tables_from(b: Seq<u8>, evs: Seq<EventView>, i: int, id: nat) -> Option<Seq<TableView>>
    decreases evs.len() - i,
{
    if i < 0 || i >= evs.len() {
        Some(seq![])
    } else if evs[i].kind == EventKind::TableStart {
        match table_at(b, evs, i, id as TableId) {
            None => None,
            Some((t, next)) => if i < next <= evs.len() {
                match tables_from(b, evs, next, id + 1) {
                    None => None,
                    Some(ts) => Some(seq![t] + ts),
                }
            } else {
                None
            },
        }
    } else {
        tables_from(b, evs, i + 1, id)
    }
}

pub open spec fn tables_view(v: Seq<MarkdownTable>) -> Seq<TableView> {
    v.map_values(|t: MarkdownTable| t@)
}

/// The tables of a buffer with bytes `b` whose parser events are `evs`,
/// numbered from 1 in document order; empty where a range the parser
/// reported cannot be sliced out of `b`.
pub open spec fn parsed_tables(b: Seq<u8>, evs: Seq<EventView>) -> Seq<TableView> {
    match tables_from(b, evs, 0, 1) {
        Some(ts) => ts,
        None => seq![],
    }
}

/// Build the tables of `buffer` from its parser events, numbering them
/// from 1 in document order.
pub fn tables_from_events(buffer: &str, events: &Vec<TableEvent>) -> (tables: Vec<MarkdownTable>)
    ensures
        tables_view(tables@) == parsed_tables(text::utf8(buffer@), events_view(events@)),
{
    let ghost b = text::utf8(buffer@);
    let ghost evs = events_view(events@);
    let mut tables: Vec<MarkdownTable> = Vec::new();
    let mut next_id: TableId = 1;
    let mut i: usize = 0;
    while i < events.len()
        invariant
            i <= events.len(),
            1 <= next_id <= i + 1,
            b == text::utf8(buffer@),
            evs == events_view(events@),
            tables_from(b, evs, 0, 1) == match tables_from(b, evs, i as int, next_id as nat) {
                None => None,
                Some(ts) => Some(tables_view(tables@) + ts),
            },
        decreases events.len() - i,
    {
        if events[i].kind == EventKind::TableStart {
            match collect_table(buffer, events, i, next_id) {
                None => {
                    return Vec::new();
                },
                Some((t, next)) => {
                    let ghost before = tables_view(tables@);
                    tables.push(t);
                    assert(tables_view(tables@) =~= before.push(t@));
                    proof {
                        match tables_from(b, evs, next as int, (next_id + 1) as nat) {
                            None => {},
                            Some(ts) => {
                                assert(before + (seq![t@] + ts) =~= before.push(t@) + ts);
                            },
                        }
                    }
                    proof {
                        if next_id == u64::MAX {
                            assert(next == events.len());
                        }
                    }
                    // Never saturates: there are fewer tables than events.
                    next_id = next_id.saturating_add(1);
                    i = next;
                },
            }
        } else {
            i = i + 1;
        }
    }
    assert(tables_view(tables@) + seq![] =~= tables_view(tables@));
    tables
}

/// Parse all tables in `buffer`, in document order, with ids from 1.
/// Parsed tables are `PreserveOriginal`, so later cell edits leave the
/// user's whitespace alone.
pub fn parse_tables(buffer: &str) -> (tables: Vec<MarkdownTable>)
    ensures
        tables_view(tables@) == parsed_tables(text::utf8(buffer@), pulldown_table_events(buffer@)),
{
    let events = offset_events(buffer);
    tables_from_events(buffer, &events)
}


proof fn lemma_tables_from_numbered(b: Seq<u8>, evs: Seq<EventView>, i: int, id: nat)
    requires
        0 <= i <= evs.len(),
    ensures
        tables_from(b, evs, i, id) matches Some(ts) ==> {
            &&& i + ts.len() <= evs.len()
            &&& forall|k: int|
                0 <= k < ts.len() ==> {
                    &&& (#[trigger] ts[k]).id == (id + k) as TableId
                    &&& ts[k].style == TableStyle::PreserveOriginal
                    &&& ts[k].original_lines is Some
                }
        },
    decreases evs.len() - i,
{
    if i < evs.len() {
        if evs[i].kind == EventKind::TableStart {
            match table_at(b, evs, i, id as TableId) {
                None => {},
                Some((t, next)) => {
                    if i < next <= evs.len() {
                        lemma_tables_from_numbered(b, evs, next, id + 1);
                        match tables_from(b, evs, next, id + 1) {
                            None => {},
                            Some(rest) => {
                                let ts = seq![t] + rest;
                                assert(tables_from(b, evs, i, id) == Some(ts));
                                assert forall|k: int| 0 <= k < ts.len() implies {
                                    &&& (#[trigger] ts[k]).id == (id + k) as TableId
                                    &&& ts[k].style == TableStyle::PreserveOriginal
                                    &&& ts[k].original_lines is Some
                                } by {
                                    if k > 0 {
                                        assert(ts[k] == rest[k - 1]);
                                        assert(id + 1 + (k - 1) == id + k);
                                    }
                                }
                            },
                        }
                    }
                },
            }
        } else {
            lemma_tables_from_numbered(b, evs, i + 1, id);
        }
    }
}

/// Parsed tables are numbered 1, 2, 3, … in document order, are
/// `PreserveOriginal` and keep their captured source lines.
pub proof fn lemma_parsed_tables_numbered(b: Seq<u8>, evs: Seq<EventView>)
    requires
        evs.len() <= usize::MAX,
    ensures
        forall|k: int|
            0 <= k < parsed_tables(b, evs).len() ==> {
                &&& (#[trigger] parsed_tables(b, evs)[k]).id == k + 1
                &&& parsed_tables(b, evs)[k].style == TableStyle::PreserveOriginal
                &&& parsed_tables(b, evs)[k].original_lines is Some
            },
{
    lemma_tables_from_numbered(b, evs, 0, 1);
}

} // verus!
