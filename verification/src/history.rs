//! The commit timeline shown beside the preview when the open file is
//! tracked by git.

use vstd::prelude::*;

use crate::html;
use crate::html::html_escape;
use crate::text;
use crate::messages::{split_fields, split_n};
use crate::text::{chars_of, lines_of, push_str, string_from_chars};

verus! {

/// A commit that touched the open file.
#[derive(Clone, Debug)]
pub struct Commit {
    /// The full hash.
    pub sha: String,
    /// The hash as displayed.
    pub short_sha: String,
    /// The author date, ISO 8601.
    pub iso_date: String,
    pub subject: String,
}

pub struct CommitView {
    pub sha: Seq<char>,
    pub short_sha: Seq<char>,
    pub iso_date: Seq<char>,
    pub subject: Seq<char>,
}

impl View for Commit {
    type V = CommitView;

    open spec fn view(&self) -> CommitView {
        CommitView { sha: self.sha@, short_sha: self.short_sha@, iso_date: self.iso_date@, subject: self.subject@ }
    }
}

/// The hint shown when history exists but the rail is hidden; clicking it
/// shows the rail again.
pub const HISTORY_HINT: &'static str = r##"<div class="rmd-history-hint" title="Git history available — click to show"></div>
<script>
(function() {
  var msg = (window.webkit && window.webkit.messageHandlers) || null;
  if (!msg || !msg.toggleHistory) return;
  var hint = document.querySelector(".rmd-history-hint");
  if (hint) hint.addEventListener("click", function() {
    msg.toggleHistory.postMessage("");
  });
})();
</script>"##;

/// The script that posts a clicked commit's hash to the application.
pub const HISTORY_RAIL_JS: &'static str = r#"<script>
(function() {
  var msg = (window.webkit && window.webkit.messageHandlers) || null;
  if (!msg || !msg.commitClick) return;
  document.querySelectorAll(".rmd-history-circle").forEach(function(c) {
    c.addEventListener("click", function() {
      msg.commitClick.postMessage(c.getAttribute("data-sha") || "");
    });
  });
})();
</script>"#;

/// The text of `s` before its first `T` (all of it when it has none).
pub open spec fn before_t(s: Seq<char>) -> Seq<char>
    decreases s.len(),
{
    if s.len() == 0 {
        seq![]
    } else if s[0] == 'T' {
        seq![]
    } else {
        seq![s[0]] + before_t(s.drop_first())
    }
}

/// The tooltip of a commit: short hash, date and subject.
pub open spec fn commit_tooltip(c: CommitView) -> Seq<char> {
    c.short_sha + " — "@ + before_t(c.iso_date) + seq!['\n'] + c.subject
}

/// The button of a commit in the rail; the viewed commit is marked active.
pub open spec fn commit_button(c: CommitView, viewing: Option<Seq<char>>) -> Seq<char> {
    let cls = if viewing == Some(c.sha) {
        "rmd-history-circle rmd-history-active"@
    } else {
        "rmd-history-circle"@
    };
    "<button type=\"button\" class=\""@ + cls + "\" data-sha=\""@ + html::html_escaped(c.sha) + "\" title=\""@
        + html::html_escaped(commit_tooltip(c)) + "\"></button>"@
}

/// The buttons of `cs`, in order.
pub open spec fn commit_buttons(cs: Seq<CommitView>, viewing: Option<Seq<char>>) -> Seq<char>
    decreases cs.len(),
{
    if cs.len() == 0 {
        seq![]
    } else {
        commit_buttons(cs.drop_last(), viewing) + commit_button(cs.last(), viewing)
    }
}

/// The history rail: nothing without commits, only the hint when hidden,
/// else the rail of commit buttons (newest first, as given) and its script.
pub open spec fn history_rail(cs: Seq<CommitView>, viewing: Option<Seq<char>>, visible: bool) -> Seq<char> {
    if cs.len() == 0 {
        seq![]
    } else if !visible {
        HISTORY_HINT@
    } else {
        "<div class=\"rmd-history-rail\" role=\"navigation\" aria-label=\"Commit history\">"@
            + "<div class=\"rmd-history-track\"></div>"@ + commit_buttons(cs, viewing) + "</div>"@ + HISTORY_RAIL_JS@
    }
}

pub open spec fn commits_view(cs: Seq<Commit>) -> Seq<CommitView> {
    cs.map_values(|c: Commit| c@)
}

/// The part of `s` before its first `T`.
fn date_part(s: &str) -> (out: String)
    ensures
        out@ == before_t(s@),
{
    let v = chars_of(s);
    let mut k: usize = 0;
    assert(v@.subrange(0, v.len() as int) =~= v@);
    assert(v@.subrange(0, 0) + before_t(v@) =~= before_t(v@));
    while k < v.len() && v[k] != 'T'
        invariant
            k <= v.len(),
            before_t(v@) == v@.subrange(0, k as int) + before_t(v@.subrange(k as int, v.len() as int)),
        decreases v.len() - k,
    {
        let ghost rest = v@.subrange(k as int, v.len() as int);
        assert(rest.drop_first() =~= v@.subrange(k + 1, v.len() as int));
        assert(v@.subrange(0, k + 1) =~= v@.subrange(0, k as int) + seq![v@[k as int]]);
        k = k + 1;
    }
    assert(before_t(v@.subrange(k as int, v.len() as int)) =~= Seq::<char>::empty());
    string_from_chars(&v, 0, k)
}

/// The HTML of the commit timeline beside the preview: empty without
/// commits; when hidden, a hint dot that shows it again on click; else a
/// rail of commit buttons, the viewed one active, and the script that
/// posts a clicked commit's hash.
pub fn build_history_rail_html(commits: &[Commit], viewing_sha: Option<&str>, visible: bool) -> (out: String)
    ensures
        out@ == history_rail(
            commits_view(commits@),
            match viewing_sha {
                Some(v) => Some(v@),
                None => None,
            },
            visible,
        ),
{
    let ghost cs = commits_view(commits@);
    let ghost viewing = match viewing_sha {
        Some(v) => Some(v@),
        None => None,
    };
    let mut out = String::new();
    if commits.len() == 0 {
        return out;
    }
    if !visible {
        push_str(&mut out, HISTORY_HINT);
        return out;
    }
    push_str(&mut out, "<div class=\"rmd-history-rail\" role=\"navigation\" aria-label=\"Commit history\">");
    push_str(&mut out, "<div class=\"rmd-history-track\"></div>");
    let ghost head = out@;
    let mut k: usize = 0;
    assert(cs.subrange(0, 0) =~= Seq::<CommitView>::empty());
    while k < commits.len()
        invariant
            k <= commits.len(),
            cs == commits_view(commits@),
            out@ == head + commit_buttons(cs.subrange(0, k as int), viewing),
            viewing == match viewing_sha {
                Some(v) => Some(v@),
                None => None,
            },
        decreases commits.len() - k,
    {
        let c = &commits[k];
        assert(cs.subrange(0, k + 1).drop_last() =~= cs.subrange(0, k as int));
        assert(cs.subrange(0, k + 1).last() == c@);
        let active = match viewing_sha {
            Some(v) => text::str_eq(v, c.sha.as_str()),
            None => false,
        };
        let mut tooltip = String::new();
        push_str(&mut tooltip, c.short_sha.as_str());
        push_str(&mut tooltip, " — ");
        let date = date_part(c.iso_date.as_str());
        push_str(&mut tooltip, date.as_str());
        text::push_char(&mut tooltip, '\n');
        push_str(&mut tooltip, c.subject.as_str());
        assert(tooltip@ =~= commit_tooltip(c@));
        push_str(&mut out, "<button type=\"button\" class=\"");
        if active {
            push_str(&mut out, "rmd-history-circle rmd-history-active");
        } else {
            push_str(&mut out, "rmd-history-circle");
        }
        push_str(&mut out, "\" data-sha=\"");
        let sha = html_escape(c.sha.as_str());
        push_str(&mut out, sha.as_str());
        push_str(&mut out, "\" title=\"");
        let title = html_escape(tooltip.as_str());
        push_str(&mut out, title.as_str());
        push_str(&mut out, "\"></button>");
        assert(out@ =~= head + commit_buttons(cs.subrange(0, k + 1), viewing));
        k = k + 1;
    }
    assert(cs.subrange(0, commits.len() as int) =~= cs);
    push_str(&mut out, "</div>");
    push_str(&mut out, HISTORY_RAIL_JS);
    out
}


/// The commit a `git log` line `%H\t%h\t%cI\t%s` describes, if it has the
/// four fields (the subject keeps any further tabs).
pub open spec fn commit_of_line(l: Seq<char>) -> Option<CommitView> {
    let f = split_n(l, 4);
    if f.len() == 4 {
        Some(CommitView { sha: f[0], short_sha: f[1], iso_date: f[2], subject: f[3] })
    } else {
        None
    }
}

/// The commits of the lines `ls`, in order, lines without four fields
/// skipped.
pub open spec fn commits_of_lines(ls: Seq<Seq<char>>) -> Seq<CommitView>
    decreases ls.len(),
{
    if ls.len() == 0 {
        seq![]
    } else {
        match commit_of_line(ls.last()) {
            Some(c) => commits_of_lines(ls.drop_last()).push(c),
            None => commits_of_lines(ls.drop_last()),
        }
    }
}

/// The commits listed by `git log --pretty=format:%H%x09%h%x09%cI%x09%s`,
/// newest first as git prints them; lines without the four fields are
/// skipped.
pub fn commits_from_log(log: &str) -> (out: Vec<Commit>)
    ensures
        commits_view(out@) == commits_of_lines(text::lines(log@)),
{
    let lines = lines_of(log);
    let ghost ls = text::lines(log@);
    let mut out: Vec<Commit> = Vec::new();
    let mut k: usize = 0;
    assert(ls.subrange(0, 0) =~= Seq::<Seq<char>>::empty());
    while k < lines.len()
        invariant
            k <= lines.len(),
            text::views(lines@) == ls,
            commits_view(out@) == commits_of_lines(ls.subrange(0, k as int)),
        decreases lines.len() - k,
    {
        assert(ls.subrange(0, k + 1).drop_last() =~= ls.subrange(0, k as int));
        assert(ls.subrange(0, k + 1).last() == lines@[k as int]@);
        let f = split_fields(lines[k].as_str(), 4);
        if f.len() == 4 {
            let c = Commit {
                sha: f[0].clone(),
                short_sha: f[1].clone(),
                iso_date: f[2].clone(),
                subject: f[3].clone(),
            };
            let ghost before = commits_view(out@);
            out.push(c);
            assert(commits_view(out@) =~= before.push(c@));
        }
        k = k + 1;
    }
    assert(ls.subrange(0, lines.len() as int) =~= ls);
    out
}

} // verus!
