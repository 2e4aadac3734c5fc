//! Change markers: after the open file changes on disk, every top-level
//! block holding a changed line gets a marker `<div>` before it, carrying
//! the block's previous version as HTML for a hover view.
//!
//! [`change_marker_sources`] decides which blocks get a marker and what
//! their previous version is: an HTML diff for code blocks, annotated
//! markdown for the others (rendered by the markdown renderer). The
//! rendered markers are placed by [`inject_change_markers`].

use std::collections::HashSet;
use vstd::prelude::*;

use crate::diff;
use crate::diff::{build_annotated_diff_md, build_code_block_diff_html, block_starts_with_fence, split_top_level_blocks};
use crate::html;
use crate::html::uri_escape;
use crate::text;
use crate::text::{decimal_string, join_range, lines_of, push_char, push_str};

verus! {

/// What a reload found: the changed lines (1-based), the text before the
/// reload and when the reload happened (Unix seconds).
#[derive(Debug)]
pub struct PendingChanges {
    pub changed_lines: HashSet<usize>,
    pub old_text: String,
    pub reload_ts: i64,
}

/// The previous version of a changed block.
#[derive(Debug)]
pub enum MarkerDiff {
    /// Ready HTML (code blocks).
    Html(String),
    /// Annotated markdown, to be rendered to HTML.
    Markdown(String),
}

/// A marker to place before the block starting at line `start` (1-based).
#[derive(Debug)]
pub struct MarkerSource {
    pub start: usize,
    pub diff: MarkerDiff,
}

pub enum DiffView {
    Html(Seq<char>),
    Markdown(Seq<char>),
}

pub struct SourceView {
    pub start: usize,
    pub diff: DiffView,
}

impl View for MarkerSource {
    type V = SourceView;

    open spec fn view(&self) -> SourceView {
        SourceView {
            start: self.start,
            diff: match &self.diff {
                MarkerDiff::Html(s) => DiffView::Html(s@),
                MarkerDiff::Markdown(s) => DiffView::Markdown(s@),
            },
        }
    }
}

pub open spec fn sources_view(v: Seq<MarkerSource>) -> Seq<SourceView> {
    v.map_values(|m: MarkerSource| m@)
}

/// Some line of `s..=e` is changed.
pub open spec fn touches(changed: Set<usize>, s: usize, e: usize) -> bool {
    exists|l: usize| s <= l <= e && #[trigger] changed.contains(l)
}

/// Lines `s..=e` (1-based) of `ls` joined with `\n`, clamped to the lines
/// there are.
pub open spec fn block_slice(ls: Seq<Seq<char>>, s: int, e: int) -> Seq<char> {
    if ls.len() == 0 || s > ls.len() {
        seq![]
    } else {
        text::join_lines(ls.subrange(s - 1, if e <= ls.len() { e } else { ls.len() as int }))
    }
}

/// The previous version of a block: the HTML code diff when either
/// version starts with a fence, else the annotated markdown diff.
pub open spec fn block_diff(old_block: Seq<char>, new_block: Seq<char>) -> DiffView {
    if diff::is_fence_start(diff::first_line(new_block)) || diff::is_fence_start(diff::first_line(old_block)) {
        DiffView::Html(diff::code_block_diff(old_block, new_block))
    } else {
        DiffView::Markdown(diff::annotated_diff(old_block, new_block))
    }
}

/// The markers for the blocks `bs[k..]` of the new lines `ls` against the
/// old lines `olds`.
pub open spec fn sources_from(
    bs: Seq<(usize, usize)>,
    k: int,
    ls: Seq<Seq<char>>,
    olds: Seq<Seq<char>>,
    changed: Set<usize>,
) -> Seq<SourceView>
    decreases bs.len() - k,
{
    if k < 0 || k >= bs.len() {
        seq![]
    } else {
        let (s, e) = bs[k];
        let rest = sources_from(bs, k + 1, ls, olds, changed);
        if touches(changed, s, e) {
            seq![
                SourceView {
                    start: s,
                    diff: block_diff(block_slice(olds, s as int, e as int), block_slice(ls, s as int, e as int)),
                },
            ] + rest
        } else {
            rest
        }
    }
}

/// The markers of `text` for `changed` lines against `old_text`, one per
/// changed top-level block, in order.
pub open spec fn marker_sources(text: Seq<char>, changed: Set<usize>, old_text: Seq<char>) -> Seq<SourceView> {
    sources_from(diff::top_level_blocks(text), 0, text::lines(text), text::lines(old_text), changed)
}

/// Lines `s..=e` (1-based) joined with `\n`, clamped to the lines there are.
fn slice_lines(lines: &Vec<String>, s: usize, e: usize) -> (out: String)
    requires
        1 <= s <= e,
    ensures
        out@ == block_slice(text::views(lines@), s as int, e as int),
{
    if lines.len() == 0 || s > lines.len() {
        return String::new();
    }
    let hi = if e <= lines.len() {
        e
    } else {
        lines.len()
    };
    join_range(lines, s - 1, hi)
}

/// Whether some line of `s..=e` is in `changed`.
fn any_changed(changed: &HashSet<usize>, s: usize, e: usize) -> (b: bool)
    requires
        s <= e,
    ensures
        b == touches(changed@, s, e),
{
    broadcast use vstd::std_specs::hash::group_hash_axioms;
    let mut l = s;
    loop
        invariant
            s <= l <= e,
            forall|m: usize| s <= m < l ==> !changed@.contains(m),
        decreases e - l,
    {
        if changed.contains(&l) {
            return true;
        }
        if l == e {
            assert forall|m: usize| s <= m <= e implies !(#[trigger] changed@.contains(m)) by {
                if m < l {
                } else {
                    assert(m == l);
                }
            }
            return false;
        }
        l = l + 1;
    }
}

/// The markers to place in `text` for `changes`: one per top-level block
/// holding a changed line, with the block's previous version taken from
/// the same line range of the old text. Render the `Markdown` ones and
/// hand the results to [`inject_change_markers`].
pub fn change_marker_sources(text: &str, changes: &PendingChanges) -> (v: Vec<MarkerSource>)
    ensures
        sources_view(v@) == marker_sources(text@, changes.changed_lines@, changes.old_text@),
{
    let blocks = split_top_level_blocks(text);
    let new_lines = lines_of(text);
    let old_lines = lines_of(changes.old_text.as_str());
    let ghost ls = text::lines(text@);
    let ghost olds = text::lines(changes.old_text@);
    let ghost bs = blocks@;
    proof {
        assert(text::views(new_lines@).len() == new_lines@.len());
        assert(ls.len() == new_lines.len());
        assert(ls.len() <= usize::MAX);
        diff::lemma_blocks_from_bounds(ls, 0, None, false, seq![]);
    }
    let mut out: Vec<MarkerSource> = Vec::new();
    let mut k: usize = 0;
    assert(sources_view(out@) + marker_sources(text@, changes.changed_lines@, changes.old_text@)
        =~= marker_sources(text@, changes.changed_lines@, changes.old_text@));
    while k < blocks.len()
        invariant
            k <= blocks.len(),
            bs == blocks@,
            bs == diff::top_level_blocks(text@),
            ls == text::lines(text@),
            text::views(new_lines@) == ls,
            text::views(old_lines@) == olds,
            olds == text::lines(changes.old_text@),
            forall|j: int| 0 <= j < bs.len() ==> 1 <= (#[trigger] bs[j]).0 <= bs[j].1 <= ls.len(),
            sources_view(out@) + sources_from(bs, k as int, ls, olds, changes.changed_lines@) == marker_sources(
                text@,
                changes.changed_lines@,
                changes.old_text@,
            ),
        decreases blocks.len() - k,
    {
        let (start, end) = blocks[k];
        assert(bs[k as int] == (start, end));
        let ghost before = sources_view(out@);
        if any_changed(&changes.changed_lines, start, end) {
            let old_block = slice_lines(&old_lines, start, end);
            let new_block = slice_lines(&new_lines, start, end);
            let d = if block_starts_with_fence(new_block.as_str()) || block_starts_with_fence(old_block.as_str()) {
                MarkerDiff::Html(build_code_block_diff_html(old_block.as_str(), new_block.as_str()))
            } else {
                MarkerDiff::Markdown(build_annotated_diff_md(old_block.as_str(), new_block.as_str()))
            };
            let m = MarkerSource { start, diff: d };
            out.push(m);
            assert(sources_view(out@) =~= before.push(m@));
        }
        assert(sources_view(out@) + sources_from(bs, k + 1, ls, olds, changes.changed_lines@) =~= before
            + sources_from(bs, k as int, ls, olds, changes.changed_lines@));
        k = k + 1;
    }
    assert(sources_view(out@) + sources_from(bs, k as int, ls, olds, changes.changed_lines@) =~= sources_view(out@));
    out
}

pub const CHANGE_TOOLTIP_JS: &'static str = r#"<script>
(function() {
  function fmtAge(s) {
    if (s < 5) return "just now";
    if (s < 60) return s + " seconds ago";
    if (s < 3600) {
      var m = Math.floor(s / 60);
      return m + (m === 1 ? " minute ago" : " minutes ago");
    }
    if (s < 86400) {
      var h = Math.floor(s / 3600);
      return h + (h === 1 ? " hour ago" : " hours ago");
    }
    var d = Math.floor(s / 86400);
    return d + (d === 1 ? " day ago" : " days ago");
  }
  function unwrapToInner(html, expectedTag) {
    // Comrak wraps each block in its outer tag (e.g. <p>, <h2>, <ul>).
    // Since the target element ALREADY is that wrapper, strip the outer
    // tag so we don't end up with nested <p><p>... etc.
    var tmp = document.createElement("div");
    tmp.innerHTML = html;
    var first = tmp.firstElementChild;
    if (first && first.tagName === expectedTag) {
      return first.innerHTML;
    }
    return html;
  }
  function init() {
    document.querySelectorAll(".rmd-changed-marker").forEach(function(m) {
      var t = m.nextElementSibling;
      if (!t) return;
      var ts = parseInt(m.getAttribute("data-age-ts"), 10);
      var prevRaw = m.getAttribute("data-prev-html") || "";
      var prevHtml = "";
      try { prevHtml = decodeURIComponent(prevRaw); } catch (e) { prevHtml = ""; }
      var inner = prevHtml ? unwrapToInner(prevHtml, t.tagName) : "";
      var swapTimer = null;
      t.addEventListener("mouseenter", function() {
        if (t.classList.contains("rmd-showing-prev")) return;
        if (swapTimer) clearTimeout(swapTimer);
        swapTimer = setTimeout(function() {
          swapTimer = null;
          if (!("rmdOriginal" in t.dataset)) {
            t.dataset.rmdOriginal = t.innerHTML;
          }
          var ageS = Math.floor(Date.now() / 1000) - ts;
          var banner = '<div class="rmd-prev-banner">Edited externally ' + fmtAge(ageS) + '</div>';
          var content = inner || '<em class="rmd-prev-empty">(no prior content for this block)</em>';
          t.innerHTML = content + banner;
          t.classList.add("rmd-showing-prev");
        }, 1000);
      });
      t.addEventListener("mouseleave", function() {
        if (swapTimer) { clearTimeout(swapTimer); swapTimer = null; }
        if (t.classList.contains("rmd-showing-prev") && "rmdOriginal" in t.dataset) {
          t.innerHTML = t.dataset.rmdOriginal;
          delete t.dataset.rmdOriginal;
          t.classList.remove("rmd-showing-prev");
        }
      });
    });
    buildMinimap();
  }
  // Right-edge minimap of all changed blocks. Ticks are positioned
  // proportionally to where their target block sits in the document so
  // the user can see at a glance where edits landed in a long file,
  // and click any tick to scroll there.
  function buildMinimap() {
    var existing = document.querySelector(".rmd-minimap");
    if (existing) existing.remove();
    var markers = document.querySelectorAll(".rmd-changed-marker");
    if (!markers.length) return;
    var docHeight = document.documentElement.scrollHeight;
    if (docHeight <= window.innerHeight + 4) return;
    var minimap = document.createElement("div");
    minimap.className = "rmd-minimap";
    markers.forEach(function(m) {
      var target = m.nextElementSibling;
      if (!target) return;
      var rect = target.getBoundingClientRect();
      var topInDoc = rect.top + window.scrollY;
      var ratio = Math.max(0, Math.min(1, topInDoc / docHeight));
      var tick = document.createElement("div");
      tick.className = "rmd-minimap-tick";
      tick.style.top = (ratio * 100) + "%";
      tick.title = "Changed block — click to jump";
      tick.addEventListener("click", function() {
        target.scrollIntoView({ behavior: "smooth", block: "center" });
      });
      minimap.appendChild(tick);
    });
    document.body.appendChild(minimap);
  }
  if (document.readyState === "loading") {
    document.addEventListener("DOMContentLoaded", init);
  } else {
    init();
  }
  // Recompute on resize so tick positions stay accurate.
  var resizeTimer = null;
  window.addEventListener("resize", function() {
    if (resizeTimer) clearTimeout(resizeTimer);
    resizeTimer = setTimeout(buildMinimap, 120);
  });
})();
</script>
"#;

/// The marker `<div>` for a block whose previous version is `prev_html`:
/// the HTML percent-encoded into an attribute, with the reload time.
pub open spec fn marker_div(prev_html: Seq<char>, ts: i64) -> Seq<char> {
    "<div class=\"rmd-changed-marker\" data-prev-html=\""@ + html::uri_escaped(text::utf8(prev_html), seq![])
        + "\" data-age-ts=\""@ + text::decimal(ts as int) + "\"></div>\n\n"@
}

/// The marker HTML for line `line` among `ms` (line, HTML): the last one
/// given for that line.
pub open spec fn marker_for(ms: Seq<(usize, Seq<char>)>, line: int) -> Option<Seq<char>>
    decreases ms.len(),
{
    if ms.len() == 0 {
        None
    } else if ms.last().0 == line {
        Some(ms.last().1)
    } else {
        marker_for(ms.drop_last(), line)
    }
}

/// The lines `ls[k..]`, each ending in `\n` and preceded by its marker
/// if it has one.
pub open spec fn marked_from(ls: Seq<Seq<char>>, k: int, ms: Seq<(usize, Seq<char>)>, ts: i64) -> Seq<char>
    decreases ls.len() - k,
{
    if k < 0 || k >= ls.len() {
        seq![]
    } else {
        let m = match marker_for(ms, k + 1) {
            Some(h) => marker_div(h, ts),
            None => seq![],
        };
        m + ls[k] + seq!['\n'] + marked_from(ls, k + 1, ms, ts)
    }
}

/// `text` with change markers: unchanged when no line changed, else its
/// lines with the markers of `ms` and the tooltip script at the end.
pub open spec fn marked_text(text: Seq<char>, changed: Set<usize>, ms: Seq<(usize, Seq<char>)>, ts: i64) -> Seq<char> {
    if changed.is_empty() {
        text
    } else {
        marked_from(text::lines(text), 0, ms, ts) + seq!['\n'] + CHANGE_TOOLTIP_JS@
    }
}

pub open spec fn markers_view(v: Seq<(usize, String)>) -> Seq<(usize, Seq<char>)> {
    v.map_values(|m: (usize, String)| (m.0, m.1@))
}

/// The marker HTML given for line `line`, if any.
fn find_marker(markers: &Vec<(usize, String)>, line: usize) -> (r: Option<usize>)
    ensures
        match r {
            Some(i) => i < markers.len() && marker_for(markers_view(markers@), line as int) == Some(
                markers@[i as int].1@,
            ),
            None => marker_for(markers_view(markers@), line as int) is None,
        },
{
    let ghost ms = markers_view(markers@);
    let mut k = markers.len();
    assert(ms.subrange(0, k as int) =~= ms);
    while k > 0
        invariant
            k <= markers.len(),
            ms == markers_view(markers@),
            marker_for(ms, line as int) == marker_for(ms.subrange(0, k as int), line as int),
        decreases k,
    {
        let ghost sub = ms.subrange(0, k as int);
        assert(sub.drop_last() =~= ms.subrange(0, k - 1));
        if markers[k - 1].0 == line {
            return Some(k - 1);
        }
        k = k - 1;
    }
    None
}

/// Insert the rendered markers `prev_html` (block start line, previous
/// version as HTML) before their blocks' first lines and append the
/// tooltip script; the text is returned unchanged when no line changed.
pub fn inject_change_markers(text: &str, changes: &PendingChanges, prev_html: &Vec<(usize, String)>) -> (out: String)
    ensures
        out@ == marked_text(text@, changes.changed_lines@, markers_view(prev_html@), changes.reload_ts),
{
    if changes.changed_lines.is_empty() {
        let mut same = String::new();
        push_str(&mut same, text);
        return same;
    }
    let ghost ms = markers_view(prev_html@);
    let ts = changes.reload_ts;
    let new_lines = lines_of(text);
    let ghost ls = text::lines(text@);
    let mut out = String::new();
    let mut idx: usize = 0;
    assert(out@ + marked_from(ls, 0, ms, ts) =~= marked_from(ls, 0, ms, ts));
    while idx < new_lines.len()
        invariant
            idx <= new_lines.len(),
            text::views(new_lines@) == ls,
            ls == text::lines(text@),
            ms == markers_view(prev_html@),
            ts == changes.reload_ts,
            out@ + marked_from(ls, idx as int, ms, ts) == marked_from(ls, 0, ms, ts),
        decreases new_lines.len() - idx,
    {
        let ghost before = out@;
        assert(new_lines@[idx as int]@ == ls[idx as int]);
        match find_marker(prev_html, idx + 1) {
            Some(i) => {
                push_str(&mut out, "<div class=\"rmd-changed-marker\" data-prev-html=\"");
                let escaped = uri_escape(prev_html[i].1.as_str(), "");
                proof {
                    reveal_strlit("");
                    assert(""@ =~= Seq::<char>::empty());
                }
                push_str(&mut out, escaped.as_str());
                push_str(&mut out, "\" data-age-ts=\"");
                let t = decimal_string(ts);
                push_str(&mut out, t.as_str());
                push_str(&mut out, "\"></div>\n\n");
            },
            None => {},
        }
        push_str(&mut out, new_lines[idx].as_str());
        push_char(&mut out, '\n');
        assert(out@ + marked_from(ls, idx + 1, ms, ts) =~= before + marked_from(ls, idx as int, ms, ts));
        idx = idx + 1;
    }
    assert(out@ + marked_from(ls, idx as int, ms, ts) =~= out@);
    push_char(&mut out, '\n');
    push_str(&mut out, CHANGE_TOOLTIP_JS);
    out
}

} // verus!
