//! The Markdown source the preview hands to the renderer: emoji
//! shortcodes replaced, GitHub alerts turned into their HTML blocks
//! (their bodies rendered by the caller) and Mermaid fences into
//! diagram blocks, in that order.

use vstd::prelude::*;

use crate::alerts::{alert_bodies, alert_bodies_of, alert_text, preprocess_alerts};
use crate::emoji::{emoji_lines, preprocess_emoji};
use crate::mermaid::{mermaid_text, preprocess_mermaid_blocks};
use crate::text;

verus! {

/// `t` with its emoji shortcodes replaced.
pub open spec fn with_emoji(t: Seq<char>) -> Seq<char> {
    emoji_lines(text::lines(t), false)
}

/// The alert bodies of `t` as the preview sees them: after the emoji
/// pass, in document order.
pub open spec fn preview_alert_bodies_of(t: Seq<char>) -> Seq<Seq<char>> {
    alert_bodies_of(with_emoji(t))
}

/// The renderer's input for `t`, the alert bodies rendered to `hs`, and
/// whether it holds a Mermaid diagram.
pub open spec fn preview_source_of(t: Seq<char>, hs: Seq<Seq<char>>) -> (Seq<char>, bool) {
    mermaid_text(alert_text(with_emoji(t), hs))
}

/// The Markdown bodies of the alerts in `text`, after the emoji pass:
/// render each and hand the results to [`preview_source`].
pub fn preview_alert_bodies(text: &str) -> (bodies: Vec<String>)
    ensures
        text::views(bodies@) == preview_alert_bodies_of(text@),
{
    let e = preprocess_emoji(text);
    alert_bodies(e.as_str())
}

/// The renderer's input for `text` and whether it has a diagram, with
/// `rendered` the alert bodies of [`preview_alert_bodies`] rendered to
/// HTML, one per alert.
pub fn preview_source(text: &str, rendered: &Vec<String>) -> (res: (String, bool))
    requires
        rendered@.len() == preview_alert_bodies_of(text@).len(),
    ensures
        (res.0@, res.1) == preview_source_of(text@, text::views(rendered@)),
{
    let e = preprocess_emoji(text);
    let a = preprocess_alerts(e.as_str(), rendered);
    preprocess_mermaid_blocks(a.as_str())
}

} // verus!
