//! Mermaid fences turned into raw HTML blocks before markdown rendering.
//!
//! A closed ```` ```mermaid ```` fence becomes `<pre class="mermaid">` with
//! the HTML-escaped diagram source. `<pre>` is a CommonMark type-1 HTML
//! block, which ends only at `</pre>`, so blank lines inside a diagram
//! survive; the preview script turns it into Mermaid's `<div>`.

use vstd::prelude::*;

use crate::html::{html_escape, html_escaped};
use crate::text;
use crate::text::{chars_eq, chars_of, lines_of, push_char, push_str};

verus! {

/// The text that opens a converted diagram.
pub open spec fn pre_open() -> Seq<char> {
    "\n<pre class=\"mermaid\">\n"@
}

/// The text that closes a converted diagram.
pub open spec fn pre_close() -> Seq<char> {
    "</pre>\n\n"@
}

/// The opening fence of an unclosed diagram, restored verbatim.
pub open spec fn mermaid_fence() -> Seq<char> {
    "```mermaid\n"@
}

/// The mermaid pass over the lines `ls`: the text written and whether a
/// diagram was converted. `in_block` tells whether a mermaid fence is
/// open, `buf` holds the diagram lines read so far. Lines whose trimmed
/// text is ```` ```mermaid ```` open a diagram and ```` ``` ```` closes it;
/// an unclosed diagram is written back as its fence and lines.
pub open spec fn mermaid_lines(ls: Seq<Seq<char>>, in_block: bool, buf: Seq<char>) -> (Seq<char>, bool)
    decreases ls.len(),
{
    if ls.len() == 0 {
        if in_block {
            (mermaid_fence() + buf, false)
        } else {
            (seq![], false)
        }
    } else {
        let line = ls[0];
        let rest = ls.drop_first();
        if in_block {
            if text::trim(line) == "```"@ {
                let r = mermaid_lines(rest, false, seq![]);
                (pre_open() + html_escaped(buf) + pre_close() + r.0, true)
            } else {
                mermaid_lines(rest, true, buf + line + seq!['\n'])
            }
        } else if text::trim(line) == "```mermaid"@ {
            mermaid_lines(rest, true, seq![])
        } else {
            let r = mermaid_lines(rest, false, buf);
            (line + seq!['\n'] + r.0, r.1)
        }
    }
}

/// The mermaid pass over a whole text.
pub open spec fn mermaid_text(t: Seq<char>) -> (Seq<char>, bool) {
    mermaid_lines(text::lines(t), false, seq![])
}

/// What is known after reading `ls[..k]`: `out` written, `had` converted,
/// the rest still to come in state (`in_block`, `buf`).
pub open spec fn mermaid_after(out: Seq<char>, had: bool, rest: (Seq<char>, bool)) -> (Seq<char>, bool) {
    (out + rest.0, had || rest.1)
}

/// Whether the trimmed `line` is `p`.
fn trimmed_is(line: &str, p: &str) -> (b: bool)
    ensures
        b == (text::trim(line@) == p@),
{
    let v = chars_of(line);
    let (lo, hi) = text::trim_bounds(&v);
    chars_eq(&v, lo, hi, p)
}

/// Convert ```` ```mermaid ```` fences to `<pre class="mermaid">` blocks
/// holding the escaped diagram source. Returns the text and whether any
/// diagram was converted.
pub fn preprocess_mermaid_blocks(text: &str) -> (res: (String, bool))
    ensures
        (res.0@, res.1) == mermaid_text(text@),
{
    let lines = lines_of(text);
    let ghost ls = text::lines(text@);
    let mut out = String::new();
    let mut had_mermaid = false;
    let mut in_block = false;
    let mut buf = String::new();
    let mut k: usize = 0;
    assert(ls.subrange(0, ls.len() as int) =~= ls);
    assert(out@ + mermaid_lines(ls, false, buf@).0 =~= mermaid_lines(ls, false, buf@).0);
    while k < lines.len()
        invariant
            k <= lines.len(),
            text::views(lines@) == ls,
            ls == text::lines(text@),
            mermaid_text(text@) == mermaid_after(
                out@,
                had_mermaid,
                mermaid_lines(ls.subrange(k as int, ls.len() as int), in_block, buf@),
            ),
        decreases lines.len() - k,
    {
        let line = lines[k].as_str();
        assert(line@ == ls[k as int]);
        let ghost rest = ls.subrange(k as int, ls.len() as int);
        assert(rest.drop_first() =~= ls.subrange(k + 1, ls.len() as int));
        assert(rest[0] == line@);
        let ghost before = out@;
        let ghost had0 = had_mermaid;
        let ghost ib0 = in_block;
        let ghost buf0 = buf@;
        if in_block {
            if trimmed_is(line, "```") {
                let ghost b = buf@;
                push_str(&mut out, "\n<pre class=\"mermaid\">\n");
                let escaped = html_escape(buf.as_str());
                push_str(&mut out, escaped.as_str());
                push_str(&mut out, "</pre>\n\n");
                in_block = false;
                had_mermaid = true;
                buf = String::new();
                assert(buf@ =~= seq![]);
                assert(out@ =~= before + (pre_open() + html_escaped(b) + pre_close()));
            } else {
                push_str(&mut buf, line);
                push_char(&mut buf, '\n');
                assert(buf@ =~= buf0 + line@ + seq!['\n']);
            }
        } else if trimmed_is(line, "```mermaid") {
            in_block = true;
            buf = String::new();
            assert(buf@ =~= seq![]);
        } else {
            push_str(&mut out, line);
            push_char(&mut out, '\n');
        }
        proof {
            let nxt = mermaid_lines(ls.subrange(k + 1, ls.len() as int), in_block, buf@);
            let cur = mermaid_lines(rest, ib0, buf0);
            assert(mermaid_after(out@, had_mermaid, nxt).0 =~= mermaid_after(before, had0, cur).0);
            assert(mermaid_after(out@, had_mermaid, nxt).1 == mermaid_after(before, had0, cur).1);
            assert(mermaid_after(out@, had_mermaid, nxt) == mermaid_after(before, had0, cur));
        }
        k = k + 1;
    }
    assert(ls.subrange(k as int, ls.len() as int) =~= Seq::<Seq<char>>::empty());
    if in_block {
        push_str(&mut out, "```mermaid\n");
        push_str(&mut out, buf.as_str());
    }
    (out, had_mermaid)
}


proof fn lemma_mermaid_lines_plain(ls: Seq<Seq<char>>, buf: Seq<char>)
    requires
        forall|k: int| 0 <= k < ls.len() ==> text::trim(#[trigger] ls[k]) != "```mermaid"@,
    ensures
        mermaid_lines(ls, false, buf) == (text::terminated(ls), false),
    decreases ls.len(),
{
    if ls.len() > 0 {
        assert(text::trim(ls[0]) != "```mermaid"@);
        assert forall|k: int| 0 <= k < ls.drop_first().len() implies text::trim(#[trigger] ls.drop_first()[k]) != "```mermaid"@ by {
            assert(ls.drop_first()[k] == ls[k + 1]);
        }
        lemma_mermaid_lines_plain(ls.drop_first(), buf);
    }
}

/// A text without a mermaid fence comes out as its lines, each ending
/// in a newline, with no diagram converted.
pub proof fn lemma_no_mermaid_unchanged(t: Seq<char>)
    requires
        forall|k: int| 0 <= k < text::lines(t).len() ==> text::trim(#[trigger] text::lines(t)[k]) != "```mermaid"@,
    ensures
        mermaid_text(t) == (text::terminated(text::lines(t)), false),
{
    lemma_mermaid_lines_plain(text::lines(t), seq![]);
}

} // verus!
