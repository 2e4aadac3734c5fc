//! Viewing a commit of the history rail: what a click on a commit does,
//! the toast that reports it, and the change markers of the viewed
//! revision against its parent.

use std::collections::HashSet;

use vstd::prelude::*;
use vstd::utf8::{decode_utf8, is_char_boundary};

use crate::diff::{changed_lines, compute_changed_lines};
use crate::history::{Commit, CommitView};
use crate::markers::PendingChanges;
use crate::text;
use crate::text::{chars_of, push_str, str_eq, str_slice, string_from_chars, trim_bounds};

verus! {

/// What a click on the commit `sha` of the rail asks for.
#[derive(Debug)]
pub enum CommitClick {
    /// An empty message: nothing.
    Ignore,
    /// The commit being viewed was clicked again: back to the working copy.
    ReturnToWorkingCopy,
    /// Show the revision of this commit (the message, trimmed).
    View(String),
}

pub enum ClickView {
    Ignore,
    ReturnToWorkingCopy,
    View(Seq<char>),
}

impl View for CommitClick {
    type V = ClickView;

    open spec fn view(&self) -> ClickView {
        match self {
            CommitClick::Ignore => ClickView::Ignore,
            CommitClick::ReturnToWorkingCopy => ClickView::ReturnToWorkingCopy,
            CommitClick::View(s) => ClickView::View(s@),
        }
    }
}

/// The click on `message` while the commit `viewing` (if any) is shown.
pub open spec fn click_of(message: Seq<char>, viewing: Option<Seq<char>>) -> ClickView {
    let sha = text::trim(message);
    if sha.len() == 0 {
        ClickView::Ignore
    } else if viewing == Some(sha) {
        ClickView::ReturnToWorkingCopy
    } else {
        ClickView::View(sha)
    }
}

/// Decide what a click on the commit `message` of the rail does while
/// the commit `viewing` (if any) is shown.
pub fn commit_click(message: &str, viewing: Option<&str>) -> (c: CommitClick)
    ensures
        c@ == click_of(
            message@,
            match viewing {
                Some(v) => Some(v@),
                None => None,
            },
        ),
{
    let v = chars_of(message);
    let (lo, hi) = trim_bounds(&v);
    let sha = string_from_chars(&v, lo, hi);
    if lo == hi {
        return CommitClick::Ignore;
    }
    match viewing {
        Some(s) => {
            if str_eq(s, sha.as_str()) {
                return CommitClick::ReturnToWorkingCopy;
            }
        },
        None => {},
    }
    CommitClick::View(sha)
}

/// The first commit of `cs` from `i` on with hash `sha`.
pub open spec fn commit_index_from(cs: Seq<CommitView>, sha: Seq<char>, i: int) -> Option<int>
    decreases cs.len() - i,
{
    if i < 0 || i >= cs.len() {
        None
    } else if cs[i].sha == sha {
        Some(i)
    } else {
        commit_index_from(cs, sha, i + 1)
    }
}

/// The index of the first commit of `commits` with hash `sha`.
pub fn find_commit(commits: &[Commit], sha: &str) -> (r: Option<usize>)
    ensures
        match r {
            Some(k) => commit_index_from(commits@.map_values(|c: Commit| c@), sha@, 0) == Some(k as int),
            None => commit_index_from(commits@.map_values(|c: Commit| c@), sha@, 0) is None,
        },
{
    let ghost cs = commits@.map_values(|c: Commit| c@);
    let mut i: usize = 0;
    while i < commits.len()
        invariant
            i <= commits.len(),
            cs == commits@.map_values(|c: Commit| c@),
            commit_index_from(cs, sha@, 0) == commit_index_from(cs, sha@, i as int),
        decreases commits.len() - i,
    {
        assert(cs[i as int] == commits@[i as int]@);
        if str_eq(commits[i].sha.as_str(), sha) {
            return Some(i);
        }
        i = i + 1;
    }
    None
}

/// The toast for viewing commit `sha`: its short hash and subject when
/// the history knows it, else the first seven bytes of `sha`.
pub open spec fn toast_of(cs: Seq<CommitView>, sha: Seq<char>) -> Seq<char> {
    match commit_index_from(cs, sha, 0) {
        Some(k) => "Viewing "@ + cs[k].short_sha + " \u{2014} "@ + cs[k].subject,
        None => {
            let b = text::utf8(sha);
            let n = if b.len() < 7 {
                b.len() as int
            } else {
                7
            };
            "Viewing "@ + decode_utf8(b.subrange(0, n))
        },
    }
}

/// The toast for viewing commit `sha`. For a hash the history does not
/// know, it is cut after its seventh byte, which must then end a
/// character (the hashes git prints are ASCII).
pub fn commit_toast(commits: &[Commit], sha: &str) -> (t: String)
    requires
        commit_index_from(commits@.map_values(|c: Commit| c@), sha@, 0) is None ==> is_char_boundary(
            text::utf8(sha@),
            if text::utf8(sha@).len() < 7 {
                text::utf8(sha@).len() as int
            } else {
                7
            },
        ),
    ensures
        t@ == toast_of(commits@.map_values(|c: Commit| c@), sha@),
{
    let mut t = String::new();
    push_str(&mut t, "Viewing ");
    match find_commit(commits, sha) {
        Some(k) => {
            proof {
                lemma_commit_index(commits@.map_values(|c: Commit| c@), sha@, 0);
            }
            push_str(&mut t, commits[k].short_sha.as_str());
            push_str(&mut t, " \u{2014} ");
            push_str(&mut t, commits[k].subject.as_str());
        },
        None => {
            proof {
                vstd::utf8::encode_utf8_valid_utf8(sha@);
                vstd::utf8::is_char_boundary_start_end_of_seq(text::utf8(sha@));
            }
            let n = sha.as_bytes().len();
            let n = if n < 7 {
                n
            } else {
                7
            };
            push_str(&mut t, str_slice(sha, 0, n));
        },
    }
    t
}

proof fn lemma_commit_index(cs: Seq<CommitView>, sha: Seq<char>, i: int)
    requires
        0 <= i,
    ensures
        commit_index_from(cs, sha, i) matches Some(k) ==> i <= k < cs.len(),
    decreases cs.len() - i,
{
    if i < cs.len() && cs[i].sha != sha {
        lemma_commit_index(cs, sha, i + 1);
    }
}

/// The change markers of text `new` against `old`, dated `ts`: none when
/// no line changed.
pub open spec fn changes_of(old: Seq<char>, new: Seq<char>) -> Option<Set<usize>> {
    if changed_lines(old, new).is_empty() {
        None
    } else {
        Some(changed_lines(old, new))
    }
}

/// The pending change markers of `new` against `old`, dated `ts`, or
/// `None` when no line changed.
pub fn changes_against(old: &str, new: &str, ts: i64) -> (r: Option<PendingChanges>)
    ensures
        match r {
            Some(p) => changes_of(old@, new@) == Some(p.changed_lines@) && p.old_text@ == old@ && p.reload_ts == ts,
            None => changes_of(old@, new@) is None,
        },
{
    let changed: HashSet<usize> = compute_changed_lines(old, new);
    if changed.is_empty() {
        None
    } else {
        let mut o = String::new();
        push_str(&mut o, old);
        Some(PendingChanges { changed_lines: changed, old_text: o, reload_ts: ts })
    }
}

/// When the preview renders a viewed revision `text` of parent
/// `parent`: its markers against the parent, dated `ts`, unless markers
/// are already pending or there is no parent.
pub fn snapshot_changes(pending: bool, parent: Option<&str>, text: &str, ts: i64) -> (r: Option<PendingChanges>)
    ensures
        match parent {
            Some(p) if !pending => match r {
                Some(c) => changes_of(p@, text@) == Some(c.changed_lines@) && c.old_text@ == p@ && c.reload_ts == ts,
                None => changes_of(p@, text@) is None,
            },
            _ => r is None,
        },
{
    if pending {
        return None;
    }
    match parent {
        Some(p) => changes_against(p, text, ts),
        None => None,
    }
}

} // verus!
