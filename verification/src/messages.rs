//! The tab-separated messages the preview's scripts post back to the
//! application (`table_id\trow\tcol\tcontent`, `src\twidth\talt`, …) and
//! the number fields inside them.

use vstd::prelude::*;

use crate::text;
use crate::text::{chars_of, string_from_chars};

verus! {

/// The first index from `i` on where `s` holds a tab.
pub open spec fn tab_from(s: Seq<char>, i: int) -> Option<int>
    decreases s.len() - i,
{
    if i < 0 || i >= s.len() {
        None
    } else if s[i] == '\t' {
        Some(i)
    } else {
        tab_from(s, i + 1)
    }
}

/// `s` split at tabs into at most `n` fields, the last field taking the
/// rest (`str::splitn(n, '\t')`).
pub open spec fn split_n(s: Seq<char>, n: nat) -> Seq<Seq<char>>
    decreases n,
{
    if n == 0 {
        seq![]
    } else if n == 1 {
        seq![s]
    } else {
        match tab_from(s, 0) {
            Some(i) => seq![s.subrange(0, i)] + split_n(s.subrange(i + 1, s.len() as int), (n - 1) as nat),
            None => seq![s],
        }
    }
}

proof fn lemma_tab_from(s: Seq<char>, i: int)
    requires
        0 <= i,
    ensures
        match tab_from(s, i) {
            Some(k) => i <= k < s.len() && s[k] == '\t' && forall|j: int| i <= j < k ==> s[j] != '\t',
            None => forall|j: int| i <= j < s.len() ==> s[j] != '\t',
        },
    decreases s.len() - i,
{
    if i < s.len() && s[i] != '\t' {
        lemma_tab_from(s, i + 1);
    }
}

proof fn lemma_tab_from_shift(s: Seq<char>, lo: int, i: int)
    requires
        0 <= lo <= i,
        lo <= s.len(),
    ensures
        tab_from(s.subrange(lo, s.len() as int), i - lo) == match tab_from(s, i) {
            Some(k) => Some(k - lo),
            None => None::<int>,
        },
    decreases s.len() - i,
{
    let sub = s.subrange(lo, s.len() as int);
    if i < s.len() {
        assert(sub[i - lo] == s[i]);
        if s[i] != '\t' {
            lemma_tab_from_shift(s, lo, i + 1);
        }
    }
}

/// Split `message` at tabs into at most `n` fields, the last one keeping
/// any further tabs.
pub fn split_fields(message: &str, n: usize) -> (out: Vec<String>)
    ensures
        text::views(out@) == split_n(message@, n as nat),
{
    let v = chars_of(message);
    let len = v.len();
    let mut out: Vec<String> = Vec::new();
    if n == 0 {
        return out;
    }
    let mut lo: usize = 0;
    let mut left = n;
    assert(v@.subrange(0, len as int) =~= v@);
    while left > 1
        invariant
            lo <= len == v.len(),
            1 <= left <= n,
            v@ == message@,
            split_n(message@, n as nat) == text::views(out@) + split_n(v@.subrange(lo as int, len as int), left as nat),
        decreases left,
    {
        let ghost rest = v@.subrange(lo as int, len as int);
        let mut k = lo;
        while k < len && v[k] != '\t'
            invariant
                lo <= k <= len == v.len(),
                forall|j: int| lo <= j < k ==> v@[j] != '\t',
            decreases len - k,
        {
            k = k + 1;
        }
        proof {
            lemma_tab_from_shift(v@, lo as int, lo as int);
            lemma_tab_from(v@, lo as int);
            assert(tab_from(v@, lo as int) == if k < len { Some(k as int) } else { None::<int> }) by {
                lemma_tab_from(v@, lo as int);
            }
        }
        if k == len {
            let last = string_from_chars(&v, lo, len);
            let ghost before = text::views(out@);
            out.push(last);
            assert(text::views(out@) =~= before + seq![rest]);
            assert(text::views(out@) =~= before + split_n(rest, left as nat));
            return out;
        }
        let field = string_from_chars(&v, lo, k);
        let ghost before = text::views(out@);
        out.push(field);
        assert(rest.subrange(0, k - lo) =~= v@.subrange(lo as int, k as int));
        assert(rest.subrange(k - lo + 1, rest.len() as int) =~= v@.subrange(k + 1, len as int));
        assert(text::views(out@) + split_n(v@.subrange(k + 1, len as int), (left - 1) as nat) =~= before + split_n(
            rest,
            left as nat,
        ));
        lo = k + 1;
        left = left - 1;
    }
    let last = string_from_chars(&v, lo, len);
    let ghost before = text::views(out@);
    out.push(last);
    assert(text::views(out@) =~= before + split_n(v@.subrange(lo as int, len as int), 1));
    out
}

/// Field `k` of `fields`, or the empty string when there are fewer.
pub open spec fn field_or_empty(fields: Seq<Seq<char>>, k: int) -> Seq<char> {
    if 0 <= k < fields.len() {
        fields[k]
    } else {
        seq![]
    }
}

/// Field `k` of `fields`, or the empty string when there are fewer.
pub fn field(fields: &Vec<String>, k: usize) -> (s: String)
    ensures
        s@ == field_or_empty(text::views(fields@), k as int),
{
    if k < fields.len() {
        fields[k].clone()
    } else {
        String::new()
    }
}

/// An ASCII decimal digit.
pub open spec fn is_digit(c: char) -> bool {
    '0' <= c && c <= '9'
}

/// `ds` consists of decimal digits only.
pub open spec fn all_digits(ds: Seq<char>) -> bool
    decreases ds.len(),
{
    ds.len() == 0 || (is_digit(ds.last()) && all_digits(ds.drop_last()))
}

/// The value of a sequence of decimal digits.
pub open spec fn digits_value(ds: Seq<char>) -> nat
    decreases ds.len(),
{
    if ds.len() == 0 {
        0
    } else {
        digits_value(ds.drop_last()) * 10 + (ds.last() as nat - '0' as nat) as nat
    }
}

/// The natural number `s` spells: an optional `+` then one or more
/// decimal digits, nothing else.
pub open spec fn nat_text(s: Seq<char>) -> Option<nat> {
    let ds = if s.len() > 0 && s[0] == '+' {
        s.drop_first()
    } else {
        s
    };
    if ds.len() > 0 && all_digits(ds) {
        Some(digits_value(ds))
    } else {
        None
    }
}

/// The integer `s` spells: an optional `+` or `-` then one or more
/// decimal digits, nothing else.
pub open spec fn int_text(s: Seq<char>) -> Option<int> {
    if s.len() > 0 && s[0] == '-' {
        let ds = s.drop_first();
        if ds.len() > 0 && all_digits(ds) {
            Some(-(digits_value(ds) as int))
        } else {
            None
        }
    } else {
        match nat_text(s) {
            Some(v) => Some(v as int),
            None => None,
        }
    }
}

/// A sequence with a non-digit at `j` is not all digits.
proof fn lemma_all_digits_at(ds: Seq<char>, j: int)
    requires
        0 <= j < ds.len(),
        !is_digit(ds[j]),
    ensures
        !all_digits(ds),
    decreases ds.len(),
{
    if j < ds.len() - 1 {
        lemma_all_digits_at(ds.drop_last(), j);
    }
}

/// The value of the digits `v[lo..]`, if they all are digits, there is at
/// least one and the value fits in a `u64`.
fn digits_u64(v: &Vec<char>, lo: usize) -> (r: Option<u64>)
    requires
        lo <= v.len(),
    ensures
        ({
            let ds = v@.subrange(lo as int, v.len() as int);
            let ok = ds.len() > 0 && all_digits(ds);
            match r {
                Some(x) => ok && x == digits_value(ds),
                None => !ok || digits_value(ds) > u64::MAX,
            }
        }),
{
    let ghost ds = v@.subrange(lo as int, v.len() as int);
    if lo == v.len() {
        return None;
    }
    let mut value: u64 = 0;
    let mut k = lo;
    let mut overflow = false;
    while k < v.len()
        invariant
            lo <= k <= v.len(),
            ds == v@.subrange(lo as int, v.len() as int),
            all_digits(v@.subrange(lo as int, k as int)),
            !overflow ==> value == digits_value(v@.subrange(lo as int, k as int)),
            overflow ==> digits_value(v@.subrange(lo as int, k as int)) > u64::MAX,
        decreases v.len() - k,
    {
        let c = v[k];
        if !('0' <= c && c <= '9') {
            proof {
                lemma_all_digits_at(ds, k - lo);
            }
            return None;
        }
        let d = (c as u32 - '0' as u32) as u64;
        let ghost pre = v@.subrange(lo as int, k as int);
        assert(v@.subrange(lo as int, k + 1).drop_last() =~= pre);
        assert(digits_value(v@.subrange(lo as int, k + 1)) == digits_value(pre) * 10 + d);
        assert(all_digits(v@.subrange(lo as int, k + 1)));
        if overflow {
            assert(digits_value(pre) * 10 + d > u64::MAX) by (nonlinear_arith)
                requires
                    digits_value(pre) > u64::MAX,
            ;
        } else {
            match value.checked_mul(10) {
                Some(m) => match m.checked_add(d) {
                    Some(s) => {
                        value = s;
                    },
                    None => {
                        overflow = true;
                    },
                },
                None => {
                    assert(digits_value(pre) * 10 + d > u64::MAX) by (nonlinear_arith)
                        requires
                            digits_value(pre) * 10 > u64::MAX,
                    ;
                    overflow = true;
                },
            }
        }
        k = k + 1;
    }
    assert(v@.subrange(lo as int, k as int) =~= ds);
    if overflow {
        None
    } else {
        Some(value)
    }
}

/// Parse an unsigned number (`u64::from_str`): an optional `+`, then
/// decimal digits only; `None` on anything else or on overflow.
pub fn parse_u64(s: &str) -> (r: Option<u64>)
    ensures
        match r {
            Some(x) => nat_text(s@) == Some(x as nat),
            None => nat_text(s@) is None || nat_text(s@)->0 > u64::MAX,
        },
{
    let v = chars_of(s);
    let lo: usize = if v.len() > 0 && v[0] == '+' {
        1
    } else {
        0
    };
    let ghost ds = if s@.len() > 0 && s@[0] == '+' {
        s@.drop_first()
    } else {
        s@
    };
    assert(v@.subrange(lo as int, v.len() as int) =~= ds);
    let r = digits_u64(&v, lo);
    proof {
        assert(nat_text(s@) == if ds.len() > 0 && all_digits(ds) {
            Some(digits_value(ds))
        } else {
            None
        });
    }
    r
}

/// Parse a signed 32-bit number (`i32::from_str`): an optional `+` or `-`,
/// then decimal digits only; `None` on anything else or out of range.
pub fn parse_i32(s: &str) -> (r: Option<i32>)
    ensures
        match r {
            Some(x) => int_text(s@) == Some(x as int),
            None => int_text(s@) is None || int_text(s@)->0 < i32::MIN || int_text(s@)->0 > i32::MAX,
        },
{
    let v = chars_of(s);
    if v.len() > 0 && v[0] == '-' {
        assert(v@.subrange(1, v.len() as int) =~= v@.drop_first());
        match digits_u64(&v, 1) {
            Some(m) => {
                if m <= 2147483648 {
                    Some((0 - (m as i64)) as i32)
                } else {
                    None
                }
            },
            None => None,
        }
    } else {
        match parse_u64(s) {
            Some(m) => {
                if m <= 2147483647 {
                    Some(m as i32)
                } else {
                    None
                }
            },
            None => None,
        }
    }
}

/// Parse a `usize` (`usize::from_str`).
pub fn parse_usize(s: &str) -> (r: Option<usize>)
    ensures
        match r {
            Some(x) => nat_text(s@) == Some(x as nat),
            None => nat_text(s@) is None || nat_text(s@)->0 > usize::MAX,
        },
{
    match parse_u64(s) {
        Some(m) => {
            if m as u128 <= usize::MAX as u128 {
                Some(m as usize)
            } else {
                None
            }
        },
        None => None,
    }
}

/// A cell edit posted by the preview: table id, row (`-1`: header),
/// column and the new content.
#[derive(Debug)]
pub struct CellEdit {
    pub table_id: u64,
    pub row: i32,
    pub col: usize,
    pub content: String,
}

/// A number field as the application reads it: its value, or 0 when it
/// does not parse.
pub open spec fn or_zero(v: Option<nat>, max: nat) -> nat {
    match v {
        Some(x) => if x <= max {
            x
        } else {
            0
        },
        None => 0,
    }
}

/// A signed number field, or 0 when it does not parse.
pub open spec fn int_or_zero(v: Option<int>) -> int {
    match v {
        Some(x) => if i32::MIN <= x <= i32::MAX {
            x
        } else {
            0
        },
        None => 0,
    }
}

/// The cell edit a message `table_id\trow\tcol\tcontent` asks for: each
/// number field reads as 0 when it does not parse, the content keeps any
/// tabs and newlines; no edit when the table id reads 0.
pub open spec fn cell_edit_of(m: Seq<char>) -> Option<(nat, int, nat, Seq<char>)> {
    let f = split_n(m, 4);
    let id = or_zero(nat_text(field_or_empty(f, 0)), u64::MAX as nat);
    if id == 0 {
        None
    } else {
        Some(
            (
                id,
                int_or_zero(int_text(field_or_empty(f, 1))),
                or_zero(nat_text(field_or_empty(f, 2)), usize::MAX as nat),
                field_or_empty(f, 3),
            ),
        )
    }
}

/// Read a cell-edit message `table_id\trow\tcol\tcontent`.
pub fn parse_cell_edit(message: &str) -> (r: Option<CellEdit>)
    ensures
        match r {
            Some(e) => cell_edit_of(message@) == Some((e.table_id as nat, e.row as int, e.col as nat, e.content@)),
            None => cell_edit_of(message@) is None,
        },
{
    let fields = split_fields(message, 4);
    let id_text = field(&fields, 0);
    let row_text = field(&fields, 1);
    let col_text = field(&fields, 2);
    let table_id = match parse_u64(id_text.as_str()) {
        Some(x) => x,
        None => 0,
    };
    let row = match parse_i32(row_text.as_str()) {
        Some(x) => x,
        None => 0,
    };
    let col = match parse_usize(col_text.as_str()) {
        Some(x) => x,
        None => 0,
    };
    if table_id == 0 {
        return None;
    }
    let content = field(&fields, 3);
    Some(CellEdit { table_id, row, col, content })
}


/// Where a row operation of the table toolbar puts the new empty body row.
#[derive(Clone, Copy, Debug, PartialEq, Eq, Structural)]
pub enum RowInsert {
    /// Insert at this body-row index.
    At(usize),
    /// `row-above` on the header row, which is refused.
    AboveHeader,
    /// The operation does not insert a row.
    NoInsert,
}

/// The row insert that `op` asks for on the clicked row `row` (`-1` is the
/// header; other rows below 0 count as the first body row): `row-above`
/// inserts at the row, `row-below` after it, and the header's `row-below`
/// at the start of the body.
pub open spec fn row_insert_of(op: Seq<char>, row: i32) -> RowInsert {
    let body_row = if row < 0 {
        0
    } else {
        row as int
    };
    if op == "row-above"@ {
        if row == -1 {
            RowInsert::AboveHeader
        } else {
            RowInsert::At(body_row as usize)
        }
    } else if op == "row-below"@ {
        if row == -1 {
            RowInsert::At(0)
        } else {
            RowInsert::At((body_row + 1) as usize)
        }
    } else {
        RowInsert::NoInsert
    }
}

/// Read the row insert of a toolbar operation `op` on row `row`.
pub fn row_insert_target(op: &str, row: i32) -> (r: RowInsert)
    ensures
        r == row_insert_of(op@, row),
{
    let body_row: usize = if row < 0 {
        0
    } else {
        row as usize
    };
    if text::str_eq(op, "row-above") {
        if row == -1 {
            RowInsert::AboveHeader
        } else {
            RowInsert::At(body_row)
        }
    } else if text::str_eq(op, "row-below") {
        if row == -1 {
            RowInsert::At(0)
        } else {
            RowInsert::At(body_row + 1)
        }
    } else {
        RowInsert::NoInsert
    }
}


} // verus!
