//! What the editor window shows of its document and writes into it: the
//! window title and the reference to an image pasted from the clipboard.

use vstd::prelude::*;

use crate::html;
use crate::html::uri_escape;
use crate::page::APP_NAME;
use crate::text::push_str;

verus! {

/// The window title: a bullet when the document has unsaved changes, the
/// file name (`Untitled` without a file) and the application's name.
pub open spec fn title_of(file_name: Option<Seq<char>>, modified: bool) -> Seq<char> {
    let prefix = if modified {
        "\u{2022} "@
    } else {
        seq![]
    };
    let name = match file_name {
        Some(n) => n,
        None => "Untitled"@,
    };
    prefix + name + " \u{2014} "@ + APP_NAME@
}

/// The window title for the document `file_name`, `modified` or not.
pub fn window_title(file_name: Option<&str>, modified: bool) -> (t: String)
    ensures
        t@ == title_of(
            match file_name {
                Some(n) => Some(n@),
                None => None,
            },
            modified,
        ),
{
    let mut t = String::new();
    if modified {
        push_str(&mut t, "\u{2022} ");
    }
    match file_name {
        Some(n) => push_str(&mut t, n),
        None => push_str(&mut t, "Untitled"),
    }
    push_str(&mut t, " \u{2014} ");
    push_str(&mut t, APP_NAME);
    t
}

/// Where a pasted image goes: the assets directory beside the document,
/// the file's name in it, its path relative to the document, and the
/// markdown that shows it.
pub struct PastedImage {
    pub assets_dir: String,
    pub file_name: String,
    pub rel_path: String,
    pub markdown: String,
}

/// The assets directory of a document with file stem `stem` (`doc`
/// without one).
pub open spec fn assets_dir_of(stem: Option<Seq<char>>) -> Seq<char> {
    let s = match stem {
        Some(s) => s,
        None => "doc"@,
    };
    s + "-assets"@
}

/// The name of an image pasted at time `stamp` (`image` without one).
pub open spec fn pasted_name_of(stamp: Option<Seq<char>>) -> Seq<char> {
    let s = match stamp {
        Some(s) => s,
        None => "image"@,
    };
    "paste-"@ + s + ".png"@
}

/// The image reference: its relative path percent-encoded so that it is
/// safe inside markdown's `()`, keeping `/`, `-`, `.`, `_` and `~`.
pub open spec fn image_ref_of(rel_path: Seq<char>) -> Seq<char> {
    "![]("@ + html::uri_escaped(crate::text::utf8(rel_path), "/-._~"@) + ")"@
}

/// Where an image pasted into the document with file stem `stem` at time
/// `stamp` is saved and how the document refers to it.
pub fn pasted_image(stem: Option<&str>, stamp: Option<&str>) -> (p: PastedImage)
    ensures
        p.assets_dir@ == assets_dir_of(
            match stem {
                Some(s) => Some(s@),
                None => None,
            },
        ),
        p.file_name@ == pasted_name_of(
            match stamp {
                Some(s) => Some(s@),
                None => None,
            },
        ),
        p.rel_path@ == p.assets_dir@ + "/"@ + p.file_name@,
        p.markdown@ == image_ref_of(p.rel_path@),
{
    let mut assets_dir = String::new();
    match stem {
        Some(s) => push_str(&mut assets_dir, s),
        None => push_str(&mut assets_dir, "doc"),
    }
    push_str(&mut assets_dir, "-assets");
    let mut file_name = String::new();
    push_str(&mut file_name, "paste-");
    match stamp {
        Some(s) => push_str(&mut file_name, s),
        None => push_str(&mut file_name, "image"),
    }
    push_str(&mut file_name, ".png");
    let mut rel_path = String::new();
    push_str(&mut rel_path, assets_dir.as_str());
    push_str(&mut rel_path, "/");
    push_str(&mut rel_path, file_name.as_str());
    let encoded = uri_escape(rel_path.as_str(), "/-._~");
    let mut markdown = String::new();
    push_str(&mut markdown, "![](");
    push_str(&mut markdown, encoded.as_str());
    push_str(&mut markdown, ")");
    PastedImage { assets_dir, file_name, rel_path, markdown }
}

} // verus!
