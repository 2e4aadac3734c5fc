//! The in-memory table model and its mathematical view.

use std::ops::Range;
use vstd::prelude::*;

verus! {

/// Stable table identifier, assigned in document order starting at 1.
pub type TableId = u64;

/// Column alignment from the separator row.
#[derive(Clone, Copy, Debug, PartialEq, Eq, Structural)]
pub enum Alignment {
    /// No alignment marker (`---`).
    Unaligned,
    Left,
    Center,
    Right,
}

/// How a table is written back to source.
#[derive(Clone, Copy, Debug, PartialEq, Eq, Structural)]
pub enum TableStyle {
    /// Column-aligned output, widths recomputed from the contents.
    Pretty,
    /// Single-space padding.
    Compact,
    /// Replay the captured source lines, patching only edited cells.
    PreserveOriginal,
}

/// Role of a captured source line.
#[derive(Clone, Copy, Debug, PartialEq, Eq, Structural)]
pub enum LineKind {
    Header,
    Separator,
    Body { row_index: usize },
}

/// One table cell: its raw markdown content and where it sits in the buffer.
#[derive(Debug)]
pub struct Cell {
    /// Byte range of the whole content area between the two pipes,
    /// padding included.
    pub source_range: Range<usize>,
    /// Trimmed raw markdown of the cell.
    pub content: String,
    /// Leading spaces/tabs inside the content area (counted modulo 256).
    pub leading_ws: u8,
    /// Trailing spaces/tabs inside the content area (counted modulo 256).
    pub trailing_ws: u8,
}

/// A verbatim source line of a table, kept for byte-preserving edits.
#[derive(Debug)]
pub struct OriginalLine {
    pub raw: String,
    /// Byte ranges of the cells within `raw`.
    pub cell_spans: Vec<Range<usize>>,
    pub kind: LineKind,
}

/// A parsed GFM table.
#[derive(Debug)]
pub struct MarkdownTable {
    pub id: TableId,
    /// Byte range of the whole table block in the buffer.
    pub source_range: Range<usize>,
    pub alignments: Vec<Alignment>,
    pub headers: Vec<Cell>,
    pub rows: Vec<Vec<Cell>>,
    pub style: TableStyle,
    /// Optional per-column widths set from the preview; `None` = unset.
    pub column_widths: Vec<Option<u32>>,
    /// Captured source lines (PreserveOriginal round-trips).
    pub original_lines: Option<Vec<OriginalLine>>,
}

/// Errors of table edits.
#[derive(Clone, Debug)]
pub enum TableError {
    /// The addressed cell does not exist (`row == -1` is the header row).
    CellOutOfRange { row: i32, col: usize },
    /// The table cannot take the operation.
    InvalidStructure(String),
}

pub type Result<T> = std::result::Result<T, TableError>;

/// What an edit did to the buffer.
#[derive(Debug)]
pub struct EditDelta {
    /// New length minus old length of the patched region.
    pub byte_delta: isize,
    /// The replaced byte range, in the old buffer.
    pub patched_range: Range<usize>,
    /// The range the replacement occupies in the new buffer.
    pub new_range: Range<usize>,
}

impl Clone for Cell {
    fn clone(&self) -> (c: Self)
        ensures
            c@ == self@,
    {
        Cell {
            source_range: self.source_range.start..self.source_range.end,
            content: self.content.clone(),
            leading_ws: self.leading_ws,
            trailing_ws: self.trailing_ws,
        }
    }
}

/// View of a [`Cell`].
pub struct CellView {
    pub range: Range<usize>,
    pub content: Seq<char>,
    pub leading_ws: u8,
    pub trailing_ws: u8,
}

impl View for Cell {
    type V = CellView;

    open spec fn view(&self) -> CellView {
        CellView {
            range: self.source_range,
            content: self.content@,
            leading_ws: self.leading_ws,
            trailing_ws: self.trailing_ws,
        }
    }
}

/// View of an [`OriginalLine`].
pub struct LineView {
    pub raw: Seq<char>,
    pub spans: Seq<Range<usize>>,
    pub kind: LineKind,
}

impl View for OriginalLine {
    type V = LineView;

    open spec fn view(&self) -> LineView {
        LineView { raw: self.raw@, spans: self.cell_spans@, kind: self.kind }
    }
}

pub open spec fn cells_view(v: Seq<Cell>) -> Seq<CellView> {
    v.map_values(|c: Cell| c@)
}

pub open spec fn rows_view(v: Seq<Vec<Cell>>) -> Seq<Seq<CellView>> {
    v.map_values(|r: Vec<Cell>| cells_view(r@))
}

pub open spec fn lines_view(v: Seq<OriginalLine>) -> Seq<LineView> {
    v.map_values(|l: OriginalLine| l@)
}

/// View of a [`MarkdownTable`].
pub struct TableView {
    pub id: TableId,
    pub range: Range<usize>,
    pub alignments: Seq<Alignment>,
    pub headers: Seq<CellView>,
    pub rows: Seq<Seq<CellView>>,
    pub style: TableStyle,
    pub column_widths: Seq<Option<u32>>,
    pub original_lines: Option<Seq<LineView>>,
}

impl View for MarkdownTable {
    type V = TableView;

    open spec fn view(&self) -> TableView {
        TableView {
            id: self.id,
            range: self.source_range,
            alignments: self.alignments@,
            headers: cells_view(self.headers@),
            rows: rows_view(self.rows@),
            style: self.style,
            column_widths: self.column_widths@,
            original_lines: match self.original_lines {
                Some(v) => Some(lines_view(v@)),
                None => None,
            },
        }
    }
}


/// The cell at `(row, col)`: `row == -1` is the header row, `row >= 0`
/// a body row.
pub open spec fn cell_view_at(t: TableView, row: i32, col: usize) -> Option<CellView> {
    if row == -1 {
        if col < t.headers.len() {
            Some(t.headers[col as int])
        } else {
            None
        }
    } else if 0 <= row < t.rows.len() && col < t.rows[row as int].len() {
        Some(t.rows[row as int][col as int])
    } else {
        None
    }
}

/// A position moved by an edit of `delta` bytes ending at `pos`.
pub open spec fn shifted(v: usize, delta: int) -> usize {
    (v + delta) as usize
}

/// A range after `shift_after(pos, delta)`: a start strictly after `pos`
/// and an end at or after `pos` move by `delta`.
pub open spec fn shift_range(r: Range<usize>, pos: usize, delta: int) -> Range<usize> {
    Range {
        start: if r.start > pos {
            shifted(r.start, delta)
        } else {
            r.start
        },
        end: if r.end >= pos {
            shifted(r.end, delta)
        } else {
            r.end
        },
    }
}

pub open spec fn shift_cell(c: CellView, pos: usize, delta: int) -> CellView {
    CellView { range: shift_range(c.range, pos, delta), ..c }
}

pub open spec fn shift_cells(cs: Seq<CellView>, pos: usize, delta: int) -> Seq<CellView> {
    cs.map_values(|c: CellView| shift_cell(c, pos, delta))
}

/// The table after `shift_after(pos, delta)`.
pub open spec fn shift_table(t: TableView, pos: usize, delta: int) -> TableView {
    TableView {
        range: shift_range(t.range, pos, delta),
        headers: shift_cells(t.headers, pos, delta),
        rows: t.rows.map_values(|r: Seq<CellView>| shift_cells(r, pos, delta)),
        ..t
    }
}

/// Moving `r` keeps its ends inside `0..=usize::MAX`.
pub open spec fn range_shift_ok(r: Range<usize>, pos: usize, delta: int) -> bool {
    &&& r.start > pos ==> 0 <= r.start + delta <= usize::MAX
    &&& r.end >= pos ==> 0 <= r.end + delta <= usize::MAX
}

pub open spec fn shift_ok(t: TableView, pos: usize, delta: int) -> bool {
    &&& range_shift_ok(t.range, pos, delta)
    &&& forall|i: int| 0 <= i < t.headers.len() ==> range_shift_ok(#[trigger] t.headers[i].range, pos, delta)
    &&& forall|r: int, i: int|
        0 <= r < t.rows.len() && 0 <= i < t.rows[r].len() ==> range_shift_ok(
            #[trigger] t.rows[r][i].range,
            pos,
            delta,
        )
}

fn shift_value(v: usize, delta: isize) -> (r: usize)
    requires
        0 <= v + delta <= usize::MAX,
    ensures
        r == shifted(v, delta as int),
{
    ((v as i128) + (delta as i128)) as usize
}

fn shift_range_exec(r: &Range<usize>, pos: usize, delta: isize) -> (out: Range<usize>)
    requires
        range_shift_ok(*r, pos, delta as int),
    ensures
        out == shift_range(*r, pos, delta as int),
{
    let start = if r.start > pos {
        shift_value(r.start, delta)
    } else {
        r.start
    };
    let end = if r.end >= pos {
        shift_value(r.end, delta)
    } else {
        r.end
    };
    start..end
}

fn shift_cells_exec(cells: &mut Vec<Cell>, pos: usize, delta: isize)
    requires
        forall|i: int| 0 <= i < old(cells).len() ==> range_shift_ok(#[trigger] old(cells)@[i].source_range, pos, delta as int),
    ensures
        cells_view(final(cells)@) == shift_cells(cells_view(old(cells)@), pos, delta as int),
{
    let mut i: usize = 0;
    while i < cells.len()
        invariant
            i <= cells.len() == old(cells).len(),
            forall|j: int| 0 <= j < old(cells).len() ==> range_shift_ok(#[trigger] old(cells)@[j].source_range, pos, delta as int),
            forall|j: int| 0 <= j < i ==> (#[trigger] cells@[j])@ == shift_cell(old(cells)@[j]@, pos, delta as int),
            forall|j: int| i <= j < cells.len() ==> (#[trigger] cells@[j]) == old(cells)@[j],
        decreases cells.len() - i,
    {
        let nr = shift_range_exec(&cells[i].source_range, pos, delta);
        cells[i].source_range = nr;
        i = i + 1;
    }
    assert(cells_view(cells@) =~= shift_cells(cells_view(old(cells)@), pos, delta as int));
}

impl MarkdownTable {
    /// The cell at `(row, col)` (`row == -1` is the header row).
    pub fn cell(&self, row: i32, col: usize) -> (res: Result<&Cell>)
        ensures
            match res {
                Ok(c) => cell_view_at(self@, row, col) == Some(c@),
                Err(e) => cell_view_at(self@, row, col) is None && e == (TableError::CellOutOfRange {
                    row,
                    col,
                }),
            },
    {
        if row == -1 {
            if col < self.headers.len() {
                return Ok(&self.headers[col]);
            }
        } else if row >= 0 && (row as usize) < self.rows.len() {
            let r = &self.rows[row as usize];
            if col < r.len() {
                return Ok(&r[col]);
            }
        }
        Err(TableError::CellOutOfRange { row, col })
    }

    /// Move every range that reaches `pos` by `delta` bytes: starts after
    /// `pos` and ends at or after `pos`.
    pub fn shift_after(&mut self, pos: usize, delta: isize)
        requires
            shift_ok(old(self)@, pos, delta as int),
        ensures
            final(self)@ == shift_table(old(self)@, pos, delta as int),
    {
        let nr = shift_range_exec(&self.source_range, pos, delta);
        self.source_range = nr;
        assert forall|i: int| 0 <= i < self.headers.len() implies range_shift_ok(#[trigger] self.headers@[i].source_range, pos, delta as int) by {
            assert(old(self)@.headers[i].range == self.headers@[i].source_range);
        }
        shift_cells_exec(&mut self.headers, pos, delta);
        let mut r: usize = 0;
        while r < self.rows.len()
            invariant
                r <= self.rows.len() == old(self).rows.len(),
                shift_ok(old(self)@, pos, delta as int),
                forall|j: int| 0 <= j < r ==> cells_view(#[trigger] self.rows@[j]@) == shift_cells(cells_view(old(self).rows@[j]@), pos, delta as int),
                forall|j: int| r <= j < self.rows.len() ==> (#[trigger] self.rows@[j]) == old(self).rows@[j],
                self.source_range == shift_range(old(self).source_range, pos, delta as int),
                cells_view(self.headers@) == shift_cells(cells_view(old(self).headers@), pos, delta as int),
                self.id == old(self).id,
                self.alignments == old(self).alignments,
                self.style == old(self).style,
                self.column_widths == old(self).column_widths,
                self.original_lines == old(self).original_lines,
            decreases self.rows.len() - r,
        {
            assert forall|i: int| 0 <= i < self.rows@[r as int].len() implies range_shift_ok(#[trigger] self.rows@[r as int]@[i].source_range, pos, delta as int) by {
                assert(old(self)@.rows[r as int][i].range == self.rows@[r as int]@[i].source_range);
            }
            shift_cells_exec(&mut self.rows[r], pos, delta);
            r = r + 1;
        }
        assert(rows_view(self.rows@) =~= old(self)@.rows.map_values(|rr: Seq<CellView>| shift_cells(rr, pos, delta as int)));
    }
}

} // verus!
