//! GitHub-style alerts: a blockquote opened by `> [!NOTE]`, `> [!TIP]`,
//! `> [!IMPORTANT]`, `> [!WARNING]` or `> [!CAUTION]` becomes a single-line
//! `<div class="alert alert-…">`.
//!
//! The body of each alert is rendered to HTML by the markdown renderer;
//! [`alert_bodies`] lists the bodies to render and [`preprocess_alerts`]
//! assembles the text from the rendered bodies. The `<div>` is a
//! CommonMark type-6 HTML block, which a blank line ends, so the rendered
//! body's newlines become spaces.

use vstd::prelude::*;

use crate::text;
use crate::text::{chars_of, lines_of, push_char, push_str, replace_str, skip_ws, string_from_chars};

verus! {

// Octicons (MIT-licensed), close to the icons GitHub shows on alerts.
pub const ALERT_ICON_NOTE: &'static str = r##"<svg viewBox="0 0 16 16" width="16" height="16" fill="currentColor" aria-hidden="true"><path d="M0 8a8 8 0 1 1 16 0A8 8 0 0 1 0 8Zm8-6.5a6.5 6.5 0 1 0 0 13 6.5 6.5 0 0 0 0-13ZM6.5 7.75A.75.75 0 0 1 7.25 7h1a.75.75 0 0 1 .75.75v2.75h.25a.75.75 0 0 1 0 1.5h-2a.75.75 0 0 1 0-1.5h.25v-2h-.25a.75.75 0 0 1-.75-.75ZM8 6a1 1 0 1 1 0-2 1 1 0 0 1 0 2Z"/></svg>"##;

pub const ALERT_ICON_TIP: &'static str = r##"<svg viewBox="0 0 16 16" width="16" height="16" fill="currentColor" aria-hidden="true"><path d="M8 1.5c-2.363 0-4 1.69-4 3.75 0 .984.424 1.625.984 2.304l.214.253c.223.264.47.556.673.848.284.411.537.896.621 1.49a.75.75 0 0 1-1.484.211c-.04-.282-.163-.547-.37-.847a8.456 8.456 0 0 0-.542-.68c-.084-.1-.173-.205-.268-.32C3.201 7.75 2.5 6.766 2.5 5.25 2.5 2.31 4.863 0 8 0s5.5 2.31 5.5 5.25c0 1.516-.701 2.5-1.328 3.259-.095.115-.184.22-.268.319-.207.245-.383.453-.541.681-.208.3-.33.565-.37.847a.751.751 0 0 1-1.485-.212c.084-.593.337-1.078.621-1.489.203-.292.45-.584.673-.848.075-.088.147-.173.213-.253.561-.679.985-1.32.985-2.304 0-2.06-1.637-3.75-4-3.75ZM5.75 12h4.5a.75.75 0 0 1 0 1.5h-4.5a.75.75 0 0 1 0-1.5ZM6 15.25a.75.75 0 0 1 .75-.75h2.5a.75.75 0 0 1 0 1.5h-2.5a.75.75 0 0 1-.75-.75Z"/></svg>"##;

pub const ALERT_ICON_IMPORTANT: &'static str = r##"<svg viewBox="0 0 16 16" width="16" height="16" fill="currentColor" aria-hidden="true"><path d="M0 1.75C0 .784.784 0 1.75 0h12.5C15.216 0 16 .784 16 1.75v9.5A1.75 1.75 0 0 1 14.25 13H8.06l-2.573 2.573A1.458 1.458 0 0 1 3 14.543V13H1.75A1.75 1.75 0 0 1 0 11.25Zm1.75-.25a.25.25 0 0 0-.25.25v9.5c0 .138.112.25.25.25h2a.75.75 0 0 1 .75.75v2.19l2.72-2.72a.749.749 0 0 1 .53-.22h6.5a.25.25 0 0 0 .25-.25v-9.5a.25.25 0 0 0-.25-.25Zm7 2.25v2.5a.75.75 0 0 1-1.5 0v-2.5a.75.75 0 0 1 1.5 0ZM9 9a1 1 0 1 1-2 0 1 1 0 0 1 2 0Z"/></svg>"##;

pub const ALERT_ICON_WARNING: &'static str = r##"<svg viewBox="0 0 16 16" width="16" height="16" fill="currentColor" aria-hidden="true"><path d="M6.457 1.047c.659-1.234 2.427-1.234 3.086 0l6.082 11.378A1.75 1.75 0 0 1 14.082 15H1.918a1.75 1.75 0 0 1-1.543-2.575Zm1.763.707a.25.25 0 0 0-.44 0L1.698 13.132a.25.25 0 0 0 .22.368h12.164a.25.25 0 0 0 .22-.368Zm.53 3.996v2.5a.75.75 0 0 1-1.5 0v-2.5a.75.75 0 0 1 1.5 0ZM9 11a1 1 0 1 1-2 0 1 1 0 0 1 2 0Z"/></svg>"##;

pub const ALERT_ICON_CAUTION: &'static str = r##"<svg viewBox="0 0 16 16" width="16" height="16" fill="currentColor" aria-hidden="true"><path d="M4.47.22A.749.749 0 0 1 5 0h6c.199 0 .389.079.53.22l4.25 4.25c.141.14.22.331.22.53v6a.749.749 0 0 1-.22.53l-4.25 4.25A.749.749 0 0 1 11 16H5a.749.749 0 0 1-.53-.22L.22 11.53A.749.749 0 0 1 0 11V5c0-.199.079-.389.22-.53Zm.84 1.28L1.5 5.31v5.38l3.81 3.81h5.38l3.81-3.81V5.31L10.69 1.5ZM8 4a.75.75 0 0 1 .75.75v3.5a.75.75 0 0 1-1.5 0v-3.5A.75.75 0 0 1 8 4Zm0 8a1 1 0 1 1 0-2 1 1 0 0 1 0 2Z"/></svg>"##;

/// The alert variants: (marker, CSS class suffix, label, icon).
pub open spec fn alert_table() -> Seq<(Seq<char>, Seq<char>, Seq<char>, Seq<char>)> {
    seq![
        ("[!NOTE]"@, "note"@, "Note"@, ALERT_ICON_NOTE@),
        ("[!TIP]"@, "tip"@, "Tip"@, ALERT_ICON_TIP@),
        ("[!IMPORTANT]"@, "important"@, "Important"@, ALERT_ICON_IMPORTANT@),
        ("[!WARNING]"@, "warning"@, "Warning"@, ALERT_ICON_WARNING@),
        ("[!CAUTION]"@, "caution"@, "Caution"@, ALERT_ICON_CAUTION@),
    ]
}

/// An alert variant: (marker, CSS class suffix, label, icon).
pub type AlertVariant = (&'static str, &'static str, &'static str, &'static str);

pub open spec fn variant_view(v: AlertVariant) -> (Seq<char>, Seq<char>, Seq<char>, Seq<char>) {
    (v.0@, v.1@, v.2@, v.3@)
}

/// The alert variants, in the order of [`alert_table`].
pub fn alert_variants() -> (v: Vec<AlertVariant>)
    ensures
        v@.map_values(|x: AlertVariant| variant_view(x)) == alert_table(),
{
    let mut v: Vec<AlertVariant> = Vec::new();
    v.push(("[!NOTE]", "note", "Note", ALERT_ICON_NOTE));
    v.push(("[!TIP]", "tip", "Tip", ALERT_ICON_TIP));
    v.push(("[!IMPORTANT]", "important", "Important", ALERT_ICON_IMPORTANT));
    v.push(("[!WARNING]", "warning", "Warning", ALERT_ICON_WARNING));
    v.push(("[!CAUTION]", "caution", "Caution", ALERT_ICON_CAUTION));
    assert(v@.map_values(|x: AlertVariant| variant_view(x)) =~= alert_table());
    v
}

/// The first variant from `i` on whose marker is `s`.
pub open spec fn find_variant(
    tab: Seq<(Seq<char>, Seq<char>, Seq<char>, Seq<char>)>,
    s: Seq<char>,
    i: int,
) -> Option<(Seq<char>, Seq<char>, Seq<char>, Seq<char>)>
    decreases tab.len() - i,
{
    if i < 0 || i >= tab.len() {
        None
    } else if tab[i].0 == s {
        Some(tab[i])
    } else {
        find_variant(tab, s, i + 1)
    }
}

/// The alert a line opens: its trimmed text is `>` and, after more
/// whitespace, exactly a variant's marker (case-sensitive, as on GitHub).
pub open spec fn alert_opener(line: Seq<char>) -> Option<(Seq<char>, Seq<char>, Seq<char>, Seq<char>)> {
    let t = text::trim(line);
    if t.len() > 0 && t[0] == '>' {
        find_variant(alert_table(), text::trim(t.drop_first()), 0)
    } else {
        None
    }
}

/// The alert variant `line` opens, if any.
pub fn detect_alert_opener(line: &str) -> (r: Option<AlertVariant>)
    ensures
        match r {
            Some(v) => alert_opener(line@) == Some(variant_view(v)),
            None => alert_opener(line@) is None,
        },
{
    let v = chars_of(line);
    let (lo, hi) = text::trim_bounds(&v);
    if lo == hi || v[lo] != '>' {
        return None;
    }
    let ghost t = v@.subrange(lo as int, hi as int);
    assert(t.drop_first() =~= v@.subrange(lo + 1, hi as int));
    let after = string_from_chars(&v, lo + 1, hi);
    let av = chars_of(after.as_str());
    let (alo, ahi) = text::trim_bounds(&av);
    let marker = string_from_chars(&av, alo, ahi);
    let variants = alert_variants();
    let ghost tab = alert_table();
    let mut i: usize = 0;
    while i < variants.len()
        invariant
            i <= variants.len(),
            variants@.map_values(|x: AlertVariant| variant_view(x)) == tab,
            tab == alert_table(),
            t.len() > 0,
            t[0] == '>',
            marker@ == text::trim(t.drop_first()),
            t == text::trim(line@),
            find_variant(tab, marker@, 0) == find_variant(tab, marker@, i as int),
        decreases variants.len() - i,
    {
        let cand = variants[i];
        assert(tab[i as int] == variant_view(cand));
        if text::str_eq(marker.as_str(), cand.0) {
            return Some(cand);
        }
        i = i + 1;
    }
    None
}

/// `line` with its blockquote marker removed: leading whitespace, the `>`
/// and one optional space after it; a line without `>` is kept whole.
pub open spec fn unquoted(line: Seq<char>) -> Seq<char> {
    let t = text::trim_start(line);
    if t.len() > 0 && t[0] == '>' {
        let rest = t.drop_first();
        if rest.len() > 0 && rest[0] == ' ' {
            rest.drop_first()
        } else {
            rest
        }
    } else {
        line
    }
}

/// Strip a blockquote marker: leading whitespace, the `>` and (per
/// CommonMark) one optional space after it.
pub fn strip_blockquote_prefix(line: &str) -> (out: String)
    ensures
        out@ == unquoted(line@),
{
    let v = chars_of(line);
    let n = v.len();
    assert(v@.subrange(0, n as int) =~= v@);
    let lo = skip_ws(&v, 0, n);
    if lo < n && v[lo] == '>' {
        let ghost t = v@.subrange(lo as int, n as int);
        assert(t.drop_first() =~= v@.subrange(lo + 1, n as int));
        if lo + 1 < n && v[lo + 1] == ' ' {
            assert(t.drop_first().drop_first() =~= v@.subrange(lo + 2, n as int));
            string_from_chars(&v, lo + 2, n)
        } else {
            string_from_chars(&v, lo + 1, n)
        }
    } else {
        string_from_chars(&v, 0, n)
    }
}

/// A blockquote line: its text after leading whitespace starts with `>`.
pub open spec fn is_quote_line(line: Seq<char>) -> bool {
    let t = text::trim_start(line);
    t.len() > 0 && t[0] == '>'
}

fn quote_line(line: &str) -> (b: bool)
    ensures
        b == is_quote_line(line@),
{
    let v = chars_of(line);
    let n = v.len();
    assert(v@.subrange(0, n as int) =~= v@);
    let lo = skip_ws(&v, 0, n);
    lo < n && v[lo] == '>'
}

/// The end of the run of blockquote lines in `ls` starting at `j`.
pub open spec fn quote_end(ls: Seq<Seq<char>>, j: int) -> int
    decreases ls.len() - j,
{
    if j < 0 || j >= ls.len() || !is_quote_line(ls[j]) {
        j
    } else {
        quote_end(ls, j + 1)
    }
}

pub proof fn lemma_quote_end(ls: Seq<Seq<char>>, j: int)
    requires
        0 <= j <= ls.len(),
    ensures
        j <= quote_end(ls, j) <= ls.len(),
    decreases ls.len() - j,
{
    if j < ls.len() && is_quote_line(ls[j]) {
        lemma_quote_end(ls, j + 1);
    }
}

/// The markdown body of an alert whose quoted lines are `ls`.
pub open spec fn alert_body(ls: Seq<Seq<char>>) -> Seq<char> {
    text::join_lines(ls.map_values(|l: Seq<char>| unquoted(l)))
}

/// The markdown bodies of the alerts in `ls` from line `k` on, in order.
pub open spec fn alert_bodies_from(ls: Seq<Seq<char>>, k: int) -> Seq<Seq<char>>
    decreases ls.len() - k,
{
    if k < 0 || k >= ls.len() {
        seq![]
    } else if alert_opener(ls[k]) is Some {
        let e = quote_end(ls, k + 1);
        proof {
            lemma_quote_end(ls, k + 1);
        }
        seq![alert_body(ls.subrange(k + 1, e))] + alert_bodies_from(ls, e)
    } else {
        alert_bodies_from(ls, k + 1)
    }
}

/// The markdown bodies of the alerts of a text, in order.
pub open spec fn alert_bodies_of(t: Seq<char>) -> Seq<Seq<char>> {
    alert_bodies_from(text::lines(t), 0)
}

/// The single-line HTML of an alert of variant `v` whose body renders to
/// `html`, with a newline before and a blank line after.
pub open spec fn alert_block(v: (Seq<char>, Seq<char>, Seq<char>, Seq<char>), html: Seq<char>) -> Seq<char> {
    seq!['\n'] + "<div class=\"alert alert-"@ + v.1 + "\"><div class=\"alert-title\">"@ + v.3 + " <span>"@ + v.2
        + "</span></div>"@ + text::replace_all(html, seq!['\n'], seq![' ']) + "</div>"@ + "\n\n"@
}

/// The alert pass over the lines `ls` from `k` on, the alerts' rendered
/// bodies taken in order from `hs[h..]`: every alert becomes its block,
/// every other line is kept and ends in `\n`.
pub open spec fn alert_pass_from(ls: Seq<Seq<char>>, k: int, hs: Seq<Seq<char>>, h: int) -> Seq<char>
    decreases ls.len() - k,
{
    if k < 0 || k >= ls.len() {
        seq![]
    } else {
        match alert_opener(ls[k]) {
            Some(v) => {
                let e = quote_end(ls, k + 1);
                proof {
                    lemma_quote_end(ls, k + 1);
                }
                alert_block(v, hs[h]) + alert_pass_from(ls, e, hs, h + 1)
            },
            None => ls[k] + seq!['\n'] + alert_pass_from(ls, k + 1, hs, h),
        }
    }
}

/// The alert pass over a text whose alert bodies render to `hs`.
pub open spec fn alert_text(t: Seq<char>, hs: Seq<Seq<char>>) -> Seq<char> {
    alert_pass_from(text::lines(t), 0, hs, 0)
}

/// The single-line HTML of an alert of `variant` whose body rendered to
/// `body_html`.
pub fn alert_html(variant: AlertVariant, body_html: &str) -> (out: String)
    ensures
        out@ == alert_block(variant_view(variant), body_html@),
{
    let mut out = String::new();
    push_char(&mut out, '\n');
    push_str(&mut out, "<div class=\"alert alert-");
    push_str(&mut out, variant.1);
    push_str(&mut out, "\"><div class=\"alert-title\">");
    push_str(&mut out, variant.3);
    push_str(&mut out, " <span>");
    push_str(&mut out, variant.2);
    push_str(&mut out, "</span></div>");
    proof {
        reveal_strlit("\n");
        reveal_strlit(" ");
        assert("\n"@ =~= seq!['\n']);
        assert(" "@ =~= seq![' ']);
    }
    let oneline = replace_str(body_html, "\n", " ");
    push_str(&mut out, oneline.as_str());
    push_str(&mut out, "</div>");
    push_str(&mut out, "\n\n");
    assert(out@ =~= alert_block(variant_view(variant), body_html@));
    out
}


/// The body of the alert whose quoted lines start at `j`, and the index
/// after them.
fn collect_body(lines: &Vec<String>, j: usize) -> (res: (String, usize))
    requires
        j <= lines.len(),
    ensures
        res.1 == quote_end(text::views(lines@), j as int),
        res.0@ == alert_body(text::views(lines@).subrange(j as int, res.1 as int)),
{
    let ghost ls = text::views(lines@);
    let n = lines.len();
    let mut body = String::new();
    let mut i = j;
    proof {
        assert(ls.subrange(j as int, j as int).map_values(|l: Seq<char>| unquoted(l)) =~= Seq::<Seq<char>>::empty());
    }
    while i < n && quote_line(lines[i].as_str())
        invariant
            j <= i <= n == lines.len(),
            ls == text::views(lines@),
            quote_end(ls, i as int) == quote_end(ls, j as int),
            body@ == alert_body(ls.subrange(j as int, i as int)),
        decreases n - i,
    {
        let line = strip_blockquote_prefix(lines[i].as_str());
        let ghost m = ls.subrange(j as int, i + 1).map_values(|l: Seq<char>| unquoted(l));
        proof {
            assert(m.drop_last() =~= ls.subrange(j as int, i as int).map_values(|l: Seq<char>| unquoted(l)));
            assert(m.last() == unquoted(ls[i as int]));
        }
        if i > j {
            push_char(&mut body, '\n');
        }
        push_str(&mut body, line.as_str());
        proof {
            if i > j {
                assert(body@ =~= text::join_lines(m.drop_last()) + seq!['\n'] + m.last());
            } else {
                assert(m.len() == 1);
            }
        }
        i = i + 1;
    }
    (body, i)
}

/// The markdown bodies of the alerts in `text`, in order: for each, the
/// blockquote lines after its opener with their markers stripped, joined
/// with `\n`. Render each and hand the results to [`preprocess_alerts`].
pub fn alert_bodies(text: &str) -> (bodies: Vec<String>)
    ensures
        text::views(bodies@) == alert_bodies_of(text@),
{
    let lines = lines_of(text);
    let ghost ls = text::lines(text@);
    let n = lines.len();
    let mut bodies: Vec<String> = Vec::new();
    let mut k: usize = 0;
    assert(text::views(bodies@) + alert_bodies_from(ls, 0) =~= alert_bodies_from(ls, 0));
    while k < n
        invariant
            k <= n == lines.len(),
            text::views(lines@) == ls,
            ls == text::lines(text@),
            text::views(bodies@) + alert_bodies_from(ls, k as int) == alert_bodies_from(ls, 0),
        decreases n - k,
    {
        assert(lines@[k as int]@ == ls[k as int]);
        if detect_alert_opener(lines[k].as_str()).is_some() {
            let (body, e) = collect_body(&lines, k + 1);
            proof {
                lemma_quote_end(ls, k + 1);
            }
            let ghost before = text::views(bodies@);
            bodies.push(body);
            assert(text::views(bodies@) =~= before.push(body@));
            assert(text::views(bodies@) + alert_bodies_from(ls, e as int) =~= before + alert_bodies_from(ls, k as int));
            k = e;
        } else {
            k = k + 1;
        }
    }
    assert(text::views(bodies@) + alert_bodies_from(ls, k as int) =~= text::views(bodies@));
    bodies
}

/// Replace every alert of `text` by its single-line `<div>`, the alerts'
/// bodies rendered to `rendered` (in the order of [`alert_bodies`]); other
/// lines are kept, each ending in `\n`.
pub fn preprocess_alerts(text: &str, rendered: &Vec<String>) -> (out: String)
    requires
        rendered@.len() == alert_bodies_of(text@).len(),
    ensures
        out@ == alert_text(text@, text::views(rendered@)),
{
    let lines = lines_of(text);
    let ghost ls = text::lines(text@);
    let ghost hs = text::views(rendered@);
    let n = lines.len();
    let mut out = String::new();
    let mut k: usize = 0;
    let mut h: usize = 0;
    assert(out@ + alert_pass_from(ls, 0, hs, 0) =~= alert_pass_from(ls, 0, hs, 0));
    while k < n
        invariant
            k <= n == lines.len(),
            text::views(lines@) == ls,
            ls == text::lines(text@),
            hs == text::views(rendered@),
            h + alert_bodies_from(ls, k as int).len() == hs.len(),
            out@ + alert_pass_from(ls, k as int, hs, h as int) == alert_pass_from(ls, 0, hs, 0),
        decreases n - k,
    {
        let line = lines[k].as_str();
        assert(line@ == ls[k as int]);
        let ghost before = out@;
        match detect_alert_opener(line) {
            Some(variant) => {
                let e = skip_quoted(&lines, k + 1);
                proof {
                    lemma_quote_end(ls, k + 1);
                }
                assert(alert_bodies_from(ls, k as int).len() >= 1);
                assert(h < rendered.len());
                let block = alert_html(variant, rendered[h].as_str());
                push_str(&mut out, block.as_str());
                assert(out@ + alert_pass_from(ls, e as int, hs, h + 1) =~= before + alert_pass_from(ls, k as int, hs, h as int));
                k = e;
                h = h + 1;
            },
            None => {
                push_str(&mut out, line);
                push_char(&mut out, '\n');
                assert(out@ + alert_pass_from(ls, k + 1, hs, h as int) =~= before + alert_pass_from(ls, k as int, hs, h as int));
                k = k + 1;
            },
        }
    }
    assert(out@ + alert_pass_from(ls, k as int, hs, h as int) =~= out@);
    out
}

/// The index after the blockquote lines starting at `j`.
fn skip_quoted(lines: &Vec<String>, j: usize) -> (e: usize)
    requires
        j <= lines.len(),
    ensures
        e == quote_end(text::views(lines@), j as int),
{
    let ghost ls = text::views(lines@);
    let mut i = j;
    while i < lines.len() && quote_line(lines[i].as_str())
        invariant
            j <= i <= lines.len(),
            ls == text::views(lines@),
            quote_end(ls, i as int) == quote_end(ls, j as int),
        decreases lines.len() - i,
    {
        i = i + 1;
    }
    i
}


proof fn lemma_alert_pass_plain(ls: Seq<Seq<char>>, k: int, hs: Seq<Seq<char>>, h: int)
    requires
        0 <= k <= ls.len(),
        forall|j: int| 0 <= j < ls.len() ==> alert_opener(#[trigger] ls[j]) is None,
    ensures
        alert_pass_from(ls, k, hs, h) == text::terminated(ls.subrange(k, ls.len() as int)),
        alert_bodies_from(ls, k) == Seq::<Seq<char>>::empty(),
    decreases ls.len() - k,
{
    if k < ls.len() {
        assert(alert_opener(ls[k]) is None);
        lemma_alert_pass_plain(ls, k + 1, hs, h);
        assert(ls.subrange(k, ls.len() as int).drop_first() =~= ls.subrange(k + 1, ls.len() as int));
        assert(ls.subrange(k, ls.len() as int)[0] == ls[k]);
    } else {
        assert(ls.subrange(k, ls.len() as int) =~= Seq::<Seq<char>>::empty());
    }
}

/// A text without an alert opener has no alert bodies and comes out as
/// its lines, each ending in a newline: blockquotes with an unknown
/// marker stay blockquotes.
pub proof fn lemma_no_alert_unchanged(t: Seq<char>, hs: Seq<Seq<char>>)
    requires
        forall|j: int| 0 <= j < text::lines(t).len() ==> alert_opener(#[trigger] text::lines(t)[j]) is None,
    ensures
        alert_bodies_of(t) == Seq::<Seq<char>>::empty(),
        alert_text(t, hs) == text::terminated(text::lines(t)),
{
    let ls = text::lines(t);
    lemma_alert_pass_plain(ls, 0, hs, 0);
    assert(ls.subrange(0, ls.len() as int) =~= ls);
}


/// `l` is the lower-case form of the upper-case ASCII letter `u`.
pub open spec fn lower_pair(u: char, l: char) -> bool {
    'A' <= u && u <= 'Z' && l as int == u as int + 32
}

/// `l[i..]` is the lower-case form of the upper-case ASCII letters `u[i..]`.
pub open spec fn lowered_from(u: Seq<char>, l: Seq<char>, i: nat) -> bool
    decreases u.len() - i,
{
    i >= u.len() || (i < l.len() && lower_pair(u[i as int], l[i as int]) && lowered_from(u, l, i + 1))
}

/// `l` is `u`, a run of upper-case ASCII letters, in lower case.
pub open spec fn lowered(u: Seq<char>, l: Seq<char>) -> bool {
    u.len() == l.len() && lowered_from(u, l, 0)
}

/// `l` is `u`, a run of upper-case ASCII letters, capitalised: its first
/// letter kept, the others in lower case.
pub open spec fn capitalized(u: Seq<char>, l: Seq<char>) -> bool {
    u.len() > 0 && l.len() == u.len() && l[0] == u[0] && 'A' <= u[0] && u[0] <= 'Z' && lowered_from(u, l, 1)
}

/// The name inside a marker `[!NAME]`.
pub open spec fn marker_name(m: Seq<char>) -> Seq<char> {
    m.subrange(2, m.len() - 1)
}

/// A variant is named by its marker: the marker is `[!NAME]` with `NAME`
/// upper-case ASCII letters, the CSS class suffix is `NAME` in lower case
/// and the label is `NAME` capitalised.
pub open spec fn variant_named(v: (Seq<char>, Seq<char>, Seq<char>, Seq<char>)) -> bool {
    let m = v.0;
    &&& m.len() >= 4
    &&& m[0] == '[' && m[1] == '!' && m.last() == ']'
    &&& lowered(marker_name(m), v.1)
    &&& capitalized(marker_name(m), v.2)
}

/// Every variant of the table is named by its marker, and no two variants
/// share a marker, a CSS class or an icon.
pub proof fn lemma_alert_table_named()
    ensures
        forall|i: int| 0 <= i < alert_table().len() ==> variant_named(#[trigger] alert_table()[i]),
        forall|i: int, j: int|
            0 <= i < j < alert_table().len() ==> alert_table()[i].0 != alert_table()[j].0 && alert_table()[i].1
                != alert_table()[j].1 && alert_table()[i].3 != alert_table()[j].3,
{
    reveal_strlit(r##"<svg viewBox="0 0 16 16" width="16" height="16" fill="currentColor" aria-hidden="true"><path d="M0 8a8 8 0 1 1 16 0A8 8 0 0 1 0 8Zm8-6.5a6.5 6.5 0 1 0 0 13 6.5 6.5 0 0 0 0-13ZM6.5 7.75A.75.75 0 0 1 7.25 7h1a.75.75 0 0 1 .75.75v2.75h.25a.75.75 0 0 1 0 1.5h-2a.75.75 0 0 1 0-1.5h.25v-2h-.25a.75.75 0 0 1-.75-.75ZM8 6a1 1 0 1 1 0-2 1 1 0 0 1 0 2Z"/></svg>"##);
    assert(ALERT_ICON_NOTE@.len() == 352);
    reveal_strlit(r##"<svg viewBox="0 0 16 16" width="16" height="16" fill="currentColor" aria-hidden="true"><path d="M8 1.5c-2.363 0-4 1.69-4 3.75 0 .984.424 1.625.984 2.304l.214.253c.223.264.47.556.673.848.284.411.537.896.621 1.49a.75.75 0 0 1-1.484.211c-.04-.282-.163-.547-.37-.847a8.456 8.456 0 0 0-.542-.68c-.084-.1-.173-.205-.268-.32C3.201 7.75 2.5 6.766 2.5 5.25 2.5 2.31 4.863 0 8 0s5.5 2.31 5.5 5.25c0 1.516-.701 2.5-1.328 3.259-.095.115-.184.22-.268.319-.207.245-.383.453-.541.681-.208.3-.33.565-.37.847a.751.751 0 0 1-1.485-.212c.084-.593.337-1.078.621-1.489.203-.292.45-.584.673-.848.075-.088.147-.173.213-.253.561-.679.985-1.32.985-2.304 0-2.06-1.637-3.75-4-3.75ZM5.75 12h4.5a.75.75 0 0 1 0 1.5h-4.5a.75.75 0 0 1 0-1.5ZM6 15.25a.75.75 0 0 1 .75-.75h2.5a.75.75 0 0 1 0 1.5h-2.5a.75.75 0 0 1-.75-.75Z"/></svg>"##);
    assert(ALERT_ICON_TIP@.len() == 798);
    reveal_strlit(r##"<svg viewBox="0 0 16 16" width="16" height="16" fill="currentColor" aria-hidden="true"><path d="M0 1.75C0 .784.784 0 1.75 0h12.5C15.216 0 16 .784 16 1.75v9.5A1.75 1.75 0 0 1 14.25 13H8.06l-2.573 2.573A1.458 1.458 0 0 1 3 14.543V13H1.75A1.75 1.75 0 0 1 0 11.25Zm1.75-.25a.25.25 0 0 0-.25.25v9.5c0 .138.112.25.25.25h2a.75.75 0 0 1 .75.75v2.19l2.72-2.72a.749.749 0 0 1 .53-.22h6.5a.25.25 0 0 0 .25-.25v-9.5a.25.25 0 0 0-.25-.25Zm7 2.25v2.5a.75.75 0 0 1-1.5 0v-2.5a.75.75 0 0 1 1.5 0ZM9 9a1 1 0 1 1-2 0 1 1 0 0 1 2 0Z"/></svg>"##);
    assert(ALERT_ICON_IMPORTANT@.len() == 522);
    reveal_strlit(r##"<svg viewBox="0 0 16 16" width="16" height="16" fill="currentColor" aria-hidden="true"><path d="M6.457 1.047c.659-1.234 2.427-1.234 3.086 0l6.082 11.378A1.75 1.75 0 0 1 14.082 15H1.918a1.75 1.75 0 0 1-1.543-2.575Zm1.763.707a.25.25 0 0 0-.44 0L1.698 13.132a.25.25 0 0 0 .22.368h12.164a.25.25 0 0 0 .22-.368Zm.53 3.996v2.5a.75.75 0 0 1-1.5 0v-2.5a.75.75 0 0 1 1.5 0ZM9 11a1 1 0 1 1-2 0 1 1 0 0 1 2 0Z"/></svg>"##);
    assert(ALERT_ICON_WARNING@.len() == 407);
    reveal_strlit(r##"<svg viewBox="0 0 16 16" width="16" height="16" fill="currentColor" aria-hidden="true"><path d="M4.47.22A.749.749 0 0 1 5 0h6c.199 0 .389.079.53.22l4.25 4.25c.141.14.22.331.22.53v6a.749.749 0 0 1-.22.53l-4.25 4.25A.749.749 0 0 1 11 16H5a.749.749 0 0 1-.53-.22L.22 11.53A.749.749 0 0 1 0 11V5c0-.199.079-.389.22-.53Zm.84 1.28L1.5 5.31v5.38l3.81 3.81h5.38l3.81-3.81V5.31L10.69 1.5ZM8 4a.75.75 0 0 1 .75.75v3.5a.75.75 0 0 1-1.5 0v-3.5A.75.75 0 0 1 8 4Zm0 8a1 1 0 1 1 0-2 1 1 0 0 1 0 2Z"/></svg>"##);
    assert(ALERT_ICON_CAUTION@.len() == 491);
    reveal_strlit("[!NOTE]");
    reveal_strlit("[!TIP]");
    reveal_strlit("[!IMPORTANT]");
    reveal_strlit("[!WARNING]");
    reveal_strlit("[!CAUTION]");
    reveal_strlit("note");
    reveal_strlit("tip");
    reveal_strlit("important");
    reveal_strlit("warning");
    reveal_strlit("caution");
    reveal_strlit("Note");
    reveal_strlit("Tip");
    reveal_strlit("Important");
    reveal_strlit("Warning");
    reveal_strlit("Caution");
    reveal_with_fuel(lowered_from, 12);
    let t = alert_table();
    assert(variant_named(t[0]));
    assert(variant_named(t[1]));
    assert(variant_named(t[2]));
    assert(variant_named(t[3]));
    assert(variant_named(t[4]));
    assert forall|i: int, j: int| 0 <= i < j < t.len() implies t[i].0 != t[j].0 && t[i].1 != t[j].1 by {
        assert(t[i].0[2] != t[j].0[2] || t[i].0.len() != t[j].0.len());
        assert(t[i].1[0] != t[j].1[0] || t[i].1.len() != t[j].1.len());
    }
}

proof fn lemma_find_variant_in(tab: Seq<(Seq<char>, Seq<char>, Seq<char>, Seq<char>)>, s: Seq<char>, i: int)
    requires
        0 <= i,
    ensures
        find_variant(tab, s, i) matches Some(v) ==> exists|k: int| i <= k < tab.len() && tab[k] == v && v.0 == s,
    decreases tab.len() - i,
{
    if i < tab.len() && tab[i].0 != s {
        lemma_find_variant_in(tab, s, i + 1);
    }
}

/// The alert a line opens is the one its marker names: the variant found
/// carries exactly the marker written after `>`, its class is the marker's
/// name in lower case and its label the name capitalised.
pub proof fn lemma_alert_opener_named(line: Seq<char>)
    ensures
        alert_opener(line) matches Some(v) ==> {
            let m = text::trim(text::trim(line).drop_first());
            &&& v.0 == m
            &&& variant_named(v)
            &&& lowered(marker_name(m), v.1)
            &&& capitalized(marker_name(m), v.2)
        },
{
    lemma_alert_table_named();
    let t = text::trim(line);
    if t.len() > 0 && t[0] == '>' {
        lemma_find_variant_in(alert_table(), text::trim(t.drop_first()), 0);
    }
}

} // verus!
