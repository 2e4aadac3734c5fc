//! Markdown text processing for a GTK markdown viewer/editor: the
//! table subsystem (GFM pipe-table parsing, serialisation and cell
//! editing) and the preview pre-processing passes.

pub mod alerts;
pub mod diff;
pub mod editor;
pub mod emoji;
pub mod history;
pub mod html;
pub mod images;
pub mod markers;
pub mod mermaid;
pub mod messages;
pub mod page;
pub mod preview;
pub mod tables;
pub mod text;
pub mod viewing;

use vstd::prelude::*;

verus! {

} // verus!
