//! Markdown table subsystem: GFM pipe-tables parsed into a
//! round-trippable model, serialised back in three styles, and edited
//! cell by cell with minimal byte changes.

pub mod model;
pub mod parse;

pub use model::{
    Alignment, Cell, EditDelta, LineKind, MarkdownTable, OriginalLine, Result, TableError, TableId,
    TableStyle,
};
pub mod serialize;

pub use parse::parse_tables;
