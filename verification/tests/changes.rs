use rendermd::viewing::{
    changes_against, commit_click, commit_toast, find_commit, snapshot_changes, CommitClick,
};
use std::collections::HashSet;

use rendermd::diff::{
    block_starts_with_fence, build_annotated_diff_md, build_annotated_word_diff_md,
    build_code_block_diff_html, compute_changed_lines, is_modified_pair, line_diff_ops,
    render_word_diff_html, split_top_level_blocks, token_overlap, tokenize_for_diff, LineOp,
};
use rendermd::history::{
    build_history_rail_html, commits_from_log, Commit, HISTORY_HINT, HISTORY_RAIL_JS,
};
use rendermd::images::{build_image_markup, char_to_byte_offset, find_image_ref};
use rendermd::markers::{
    change_marker_sources, inject_change_markers, MarkerDiff, PendingChanges, CHANGE_TOOLTIP_JS,
};

fn strings(v: &[&str]) -> Vec<String> {
    v.iter().map(|s| s.to_string()).collect()
}

#[test]
fn tokenizer_splits_words_spaces_and_marks() {
    assert_eq!(tokenize_for_diff("foo, bar  baz"), strings(&["foo", ",", " ", "bar", "  ", "baz"]));
    assert_eq!(tokenize_for_diff("é1 ü"), strings(&["é1", " ", "ü"]));
    assert!(tokenize_for_diff("").is_empty());
}

#[test]
fn line_ops_match_greedily() {
    let ops = line_diff_ops(&strings(&["a", "b", "c"]), &strings(&["a", "x", "c"]));
    let kinds: Vec<String> = ops
        .iter()
        .map(|o| match o {
            LineOp::Equal(s) => format!("={}", s),
            LineOp::Delete(s) => format!("-{}", s),
            LineOp::Add(s) => format!("+{}", s),
        })
        .collect();
    assert_eq!(kinds, strings(&["=a", "+x", "-b", "=c"]));
}

#[test]
fn similarity_counts_common_tokens() {
    assert_eq!(token_overlap("the quick fox", "the slow fox"), (2, 3));
    assert_eq!(token_overlap("", "  "), (0, 0));
    assert_eq!(token_overlap("a a b", "a b b"), (2, 3));
    assert!(is_modified_pair("the quick fox", "the slow fox"));
    assert!(is_modified_pair("", ""));
    assert!(!is_modified_pair("a b c d", "x y z a"));
}

#[test]
fn word_diff_markdown_and_html() {
    assert_eq!(
        build_annotated_word_diff_md("the quick fox", "the slow fox"),
        "the <del class=\"rmd-diff-w-del\">quick</del><ins class=\"rmd-diff-w-add\">slow</ins> fox"
    );
    assert_eq!(
        render_word_diff_html("a<b", "a>b"),
        "a<span class=\"rmd-diff-w-del\">&lt;</span><span class=\"rmd-diff-w-add\">&gt;</span>b"
    );
}

#[test]
fn annotated_block_diff() {
    assert_eq!(
        build_annotated_diff_md("one\ntwo words here\nthree", "one\ntwo words there\nthree"),
        "one\ntwo words <del class=\"rmd-diff-w-del\">here</del><ins class=\"rmd-diff-w-add\">there</ins>\nthree\n"
    );
    assert_eq!(
        build_annotated_diff_md("a", "zzz"),
        "<del class=\"rmd-diff-w-del\">a</del>\n<ins class=\"rmd-diff-w-add\">zzz</ins>\n"
    );
}

#[test]
fn code_block_diff_strips_fences() {
    assert_eq!(
        build_code_block_diff_html("```\nx = 1\n```", "```\nx = 2\n```"),
        "<pre><code>x = <span class=\"rmd-diff-w-del\">1</span><span class=\"rmd-diff-w-add\">2</span>\n</code></pre>"
    );
    assert_eq!(
        build_code_block_diff_html("```\nabc\n```", "```\nxyz\n```"),
        "<pre><code><span class=\"rmd-diff-w-del\">abc</span>\n<span class=\"rmd-diff-w-add\">xyz</span>\n</code></pre>"
    );
}

#[test]
fn fence_detection() {
    assert!(block_starts_with_fence("  ~~~rust\nx"));
    assert!(block_starts_with_fence("```"));
    assert!(!block_starts_with_fence("text\n```"));
    assert!(!block_starts_with_fence(""));
}

#[test]
fn blocks_split_on_blank_lines_but_not_in_fences() {
    assert_eq!(
        split_top_level_blocks("a\nb\n\n```\nx\n\ny\n```\n\nc"),
        vec![(1, 2), (4, 8), (10, 10)]
    );
    assert!(split_top_level_blocks("\n\n").is_empty());
}

#[test]
fn changed_lines_by_multiset_subtraction() {
    let changed = compute_changed_lines("a\nb\nc", "a\nx\nc\nc");
    let expected: HashSet<usize> = [2usize, 4].into_iter().collect();
    assert_eq!(changed, expected);
    assert!(compute_changed_lines("same\n", "same\n").is_empty());
}

#[test]
fn marker_sources_and_injection() {
    let text = "p1\n\np2 new\n";
    let changes = PendingChanges {
        changed_lines: [3usize].into_iter().collect(),
        old_text: "p1\n\np2 old\n".to_string(),
        reload_ts: 42,
    };
    let sources = change_marker_sources(text, &changes);
    assert_eq!(sources.len(), 1);
    assert_eq!(sources[0].start, 3);
    match &sources[0].diff {
        MarkerDiff::Markdown(md) => assert_eq!(
            md,
            "p2 <del class=\"rmd-diff-w-del\">old</del><ins class=\"rmd-diff-w-add\">new</ins>\n"
        ),
        MarkerDiff::Html(_) => panic!("prose block diffed as code"),
    }
    let out = inject_change_markers(text, &changes, &vec![(3, "<p>h</p>".to_string())]);
    let expected = format!(
        "p1\n\n<div class=\"rmd-changed-marker\" data-prev-html=\"%3Cp%3Eh%3C%2Fp%3E\" data-age-ts=\"42\"></div>\n\np2 new\n\n{}",
        CHANGE_TOOLTIP_JS
    );
    assert_eq!(out, expected);
}

#[test]
fn code_block_markers_are_html() {
    let text = "```\nx = 2\n```\n";
    let changes = PendingChanges {
        changed_lines: [2usize].into_iter().collect(),
        old_text: "```\nx = 1\n```\n".to_string(),
        reload_ts: -5,
    };
    let sources = change_marker_sources(text, &changes);
    assert_eq!(sources.len(), 1);
    assert!(matches!(&sources[0].diff, MarkerDiff::Html(h) if h.starts_with("<pre><code>")));
    let out = inject_change_markers(text, &changes, &vec![(1, "a b".to_string())]);
    assert!(out.starts_with("<div class=\"rmd-changed-marker\" data-prev-html=\"a%20b\" data-age-ts=\"-5\"></div>\n\n```\n"));
}

#[test]
fn no_changes_leave_text_alone() {
    let changes = PendingChanges { changed_lines: HashSet::new(), old_text: String::new(), reload_ts: 0 };
    assert_eq!(inject_change_markers("a\nb", &changes, &vec![]), "a\nb");
    assert!(change_marker_sources("a\nb", &changes).is_empty());
}

#[test]
fn image_refs_in_markdown_and_html() {
    assert_eq!(find_image_ref("see ![cat](cat.png \"t\") ok", "cat.png"), Some((4, 19)));
    assert_eq!(find_image_ref("x <img width=\"5\" src='a.png'> y", "a.png"), Some((2, 27)));
    assert_eq!(find_image_ref("é ![](p)", "p"), Some((2, 6)));
    assert_eq!(find_image_ref("nothing here", "p"), None);
    assert_eq!(find_image_ref("(p) without brackets", "p"), None);
}

#[test]
fn image_markup_forms() {
    assert_eq!(build_image_markup("a b.png", None, "alt"), "![alt](a b.png)");
    assert_eq!(build_image_markup("x\".png", Some("50%"), ""), "<img src=\"x&quot;.png\" width=\"50%\">");
    assert_eq!(
        build_image_markup("p.png", Some("10"), "a&b"),
        "<img src=\"p.png\" alt=\"a&amp;b\" width=\"10\">"
    );
}

#[test]
fn char_offsets_to_bytes() {
    assert_eq!(char_to_byte_offset("aé b", 2), 3);
    assert_eq!(char_to_byte_offset("aé b", 0), 0);
    assert_eq!(char_to_byte_offset("aé", 5), 3);
}

#[test]
fn history_rail_forms() {
    assert_eq!(build_history_rail_html(&[], None, true), "");
    let c = Commit {
        sha: "abc123".to_string(),
        short_sha: "abc".to_string(),
        iso_date: "2024-01-02T03:04:05Z".to_string(),
        subject: "Fix <x>".to_string(),
    };
    assert_eq!(build_history_rail_html(&[c.clone()], None, false), HISTORY_HINT);
    let html = build_history_rail_html(&[c.clone()], Some("abc123"), true);
    assert!(html.starts_with(
        "<div class=\"rmd-history-rail\" role=\"navigation\" aria-label=\"Commit history\"><div class=\"rmd-history-track\"></div>"
    ));
    assert!(html.contains(
        "<button type=\"button\" class=\"rmd-history-circle rmd-history-active\" data-sha=\"abc123\" title=\"abc — 2024-01-02\nFix &lt;x&gt;\"></button>"
    ));
    assert!(html.ends_with(&format!("</div>{}", HISTORY_RAIL_JS)));
    let other = build_history_rail_html(&[c], Some("zzz"), true);
    assert!(other.contains("class=\"rmd-history-circle\" data-sha"));
}

#[test]
fn commits_parsed_from_git_log() {
    let log = "aaa111\taaa\t2024-05-01T10:00:00+02:00\tFirst\nbad line\nbbb222\tbbb\t2024-04-01T09:00:00Z\tSub\twith tab\n";
    let cs = commits_from_log(log);
    assert_eq!(cs.len(), 2);
    assert_eq!(cs[0].sha, "aaa111");
    assert_eq!(cs[0].short_sha, "aaa");
    assert_eq!(cs[0].iso_date, "2024-05-01T10:00:00+02:00");
    assert_eq!(cs[0].subject, "First");
    assert_eq!(cs[1].subject, "Sub\twith tab");
    assert!(commits_from_log("").is_empty());
}

/// Removes the spans opened by `open` up to `close`, and the bare tags
/// `keep_open` / `keep_close` of the other kind.
fn strip(s: &str, open: &str, close: &str, keep_open: &str, keep_close: &str) -> String {
    let mut out = String::new();
    let mut rest = s;
    while !rest.is_empty() {
        if let Some(r) = rest.strip_prefix(open) {
            let end = r.find(close).unwrap();
            rest = &r[end + close.len()..];
        } else if let Some(r) = rest.strip_prefix(keep_open) {
            rest = r;
        } else if let Some(r) = rest.strip_prefix(keep_close) {
            rest = r;
        } else {
            let c = rest.chars().next().unwrap();
            out.push(c);
            rest = &rest[c.len_utf8()..];
        }
    }
    out
}

#[test]
fn word_diff_keeps_both_sides() {
    let (del_o, del_c) = ("<del class=\"rmd-diff-w-del\">", "</del>");
    let (ins_o, ins_c) = ("<ins class=\"rmd-diff-w-add\">", "</ins>");
    for (old, new) in [
        ("the quick brown fox", "the slow brown dog"),
        ("a, b", "a; b c"),
        ("", "new words"),
        ("gone", ""),
        ("same text", "same text"),
    ] {
        let d = build_annotated_word_diff_md(old, new);
        assert_eq!(strip(&d, del_o, del_c, ins_o, ins_c), new);
        assert_eq!(strip(&d, ins_o, ins_c, del_o, del_c), old);
    }
}

#[test]
fn commit_clicks_and_toasts() {
    assert!(matches!(commit_click("  ", None), CommitClick::Ignore));
    assert!(matches!(commit_click(" abc \n", Some("abc")), CommitClick::ReturnToWorkingCopy));
    match commit_click(" abc ", Some("def")) {
        CommitClick::View(s) => assert_eq!(s, "abc"),
        _ => panic!("expected a view"),
    }
    let cs = commits_from_log("aaa111\taaa\t2024-05-01T10:00:00+02:00\tFirst\nbbb222\tbbb\t2024-04-01T09:00:00Z\tSecond\n");
    assert_eq!(find_commit(&cs, "bbb222"), Some(1));
    assert_eq!(find_commit(&cs, "zzz"), None);
    assert_eq!(commit_toast(&cs, "bbb222"), "Viewing bbb — Second");
    assert_eq!(commit_toast(&cs, "0123456789abcdef"), "Viewing 0123456");
    assert_eq!(commit_toast(&cs, "01"), "Viewing 01");
    let c = changes_against("a\nb\n", "a\nc\n", 42).unwrap();
    assert_eq!(c.changed_lines, HashSet::from([2]));
    assert_eq!(c.old_text, "a\nb\n");
    assert_eq!(c.reload_ts, 42);
    assert!(changes_against("same\n", "same\n", 1).is_none());
    assert!(snapshot_changes(true, Some("x\n"), "y\n", 1).is_none());
    assert!(snapshot_changes(false, None, "y\n", 1).is_none());
    assert_eq!(snapshot_changes(false, Some("x\n"), "y\n", 7).unwrap().changed_lines, HashSet::from([1]));
}
