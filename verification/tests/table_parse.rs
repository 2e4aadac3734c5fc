use rendermd::tables::parse::{
    capture_original_lines, cell_from_range, detect_style, is_separator_line, parse_tables,
    split_cells, tables_from_events, EventKind, TableEvent,
};
use rendermd::tables::{Alignment, LineKind, TableStyle};

#[test]
fn parses_simple_table() {
    let src = "| a | b |\n|---|---|\n| 1 | 2 |\n";
    let tables = parse_tables(src);
    assert_eq!(tables.len(), 1);
    let t = &tables[0];
    assert_eq!(t.headers.len(), 2);
    assert_eq!(t.headers[0].content, "a");
    assert_eq!(t.headers[1].content, "b");
    assert_eq!(t.rows.len(), 1);
    assert_eq!(t.rows[0][0].content, "1");
    assert_eq!(t.rows[0][1].content, "2");
}

#[test]
fn parses_alignment_separator() {
    let src = "| a | b | c |\n|:--|:-:|--:|\n| 1 | 2 | 3 |\n";
    let tables = parse_tables(src);
    assert_eq!(
        tables[0].alignments,
        vec![Alignment::Left, Alignment::Center, Alignment::Right]
    );
}

#[test]
fn parsed_table_defaults_to_preserve_original() {
    let src = "| a | b |\n|---|---|\n| 1 | 2 |\n";
    let tables = parse_tables(src);
    assert_eq!(tables[0].style, TableStyle::PreserveOriginal);
    assert!(tables[0].original_lines.is_some());
    // header + separator + 1 body row
    assert_eq!(tables[0].original_lines.as_ref().unwrap().len(), 3);
}

#[test]
fn cell_source_range_includes_padding() {
    let src = "|  name  | score |\n|--------|-------|\n|  Alice |  42   |\n";
    let tables = parse_tables(src);
    let header = &tables[0].headers[0];
    assert_eq!(&src[header.source_range.clone()], "  name  ");
    assert_eq!(header.leading_ws, 2);
    assert_eq!(header.trailing_ws, 2);
    assert_eq!(header.content, "name");
}

#[test]
fn parses_multiple_tables_with_separate_ids() {
    let src = "\
| a |\n|---|\n| 1 |\n\n| b |\n|---|\n| 2 |\n";
    let tables = parse_tables(src);
    assert_eq!(tables.len(), 2);
    assert_ne!(tables[0].id, tables[1].id);
    assert!(tables[0].source_range.end <= tables[1].source_range.start);
}

#[test]
fn split_cells_handles_escaped_pipes() {
    let line = "| foo \\| bar | baz |";
    let cells = split_cells(line);
    assert_eq!(cells.len(), 2);
    assert_eq!(&line[cells[0].clone()], " foo \\| bar ");
    assert_eq!(&line[cells[1].clone()], " baz ");
}

#[test]
fn is_separator_line_recognises_alignment_colons() {
    assert!(is_separator_line("|---|---|"));
    assert!(is_separator_line("|:---|---:|"));
    assert!(is_separator_line("| :---: | :---: |"));
    assert!(!is_separator_line("| a | b |"));
    assert!(!is_separator_line("|||"));
}

#[test]
fn detects_pretty_compact_preserve() {
    let compact = "| a | b |\n|---|---|\n| 1 | 2 |\n";
    let pretty = "| name  | score |\n|-------|------:|\n| Alice |    42 |\n";
    assert_eq!(detect_style(compact), TableStyle::Compact);
    assert_eq!(detect_style(pretty), TableStyle::Pretty);
}

#[test]
fn cell_content_inline_markdown_preserved() {
    let src = "| **bold** | [link](x) |\n|---|---|\n| `code` | _em_ |\n";
    let t = &parse_tables(src)[0];
    assert_eq!(t.headers[0].content, "**bold**");
    assert_eq!(t.headers[1].content, "[link](x)");
    assert_eq!(t.rows[0][0].content, "`code`");
    assert_eq!(t.rows[0][1].content, "_em_");
}

#[test]
fn empty_cells_round_trip() {
    let src = "| a |  |\n|---|---|\n|   | b |\n";
    let t = &parse_tables(src)[0];
    assert_eq!(t.headers[0].content, "a");
    assert_eq!(t.headers[1].content, "");
    assert_eq!(t.rows[0][0].content, "");
    assert_eq!(t.rows[0][1].content, "b");
}

#[test]
fn parse_numbers_tables_from_one_and_records_ranges() {
    let src = "intro\n\n| a |\n|---|\n| 1 |\n\ntext\n\n| b |\n|---|\n| 2 |\n";
    let tables = parse_tables(src);
    assert_eq!(tables.len(), 2);
    assert_eq!(tables[0].id, 1);
    assert_eq!(tables[1].id, 2);
    assert!(src[tables[0].source_range.clone()].starts_with("| a |\n|---|\n| 1 |"));
    assert_eq!(tables[0].column_widths, vec![None]);
}

#[test]
fn parse_without_tables_is_empty() {
    assert!(parse_tables("# title\n\nplain | text\n").is_empty());
    assert!(parse_tables("").is_empty());
}

#[test]
fn tables_from_events_rejects_unsliceable_ranges() {
    let buf = "| é |\n";
    let ev = |kind: EventKind, start: usize, end: usize| TableEvent {
        kind,
        alignments: vec![],
        range: start..end,
    };
    // A cell range ending inside the two-byte 'é' cannot be sliced.
    let events = vec![
        TableEvent { kind: EventKind::TableStart, alignments: vec![0], range: 0..buf.len() },
        ev(EventKind::HeadStart, 0, 7),
        ev(EventKind::CellStart, 2, 3),
        ev(EventKind::CellEnd, 2, 3),
        ev(EventKind::HeadEnd, 0, 7),
        ev(EventKind::TableEnd, 0, 7),
    ];
    assert!(tables_from_events(buf, &events).is_empty());
}

#[test]
fn tables_from_events_builds_cells_from_events() {
    let buf = "| x |\n|---|\n| y |\n";
    let ev = |kind: EventKind, start: usize, end: usize| TableEvent {
        kind,
        alignments: vec![],
        range: start..end,
    };
    let events = vec![
        ev(EventKind::Other, 0, 0),
        TableEvent { kind: EventKind::TableStart, alignments: vec![3], range: 0..buf.len() },
        ev(EventKind::HeadStart, 0, 6),
        ev(EventKind::CellStart, 2, 3),
        ev(EventKind::CellEnd, 2, 3),
        ev(EventKind::HeadEnd, 0, 6),
        ev(EventKind::RowStart, 12, 18),
        ev(EventKind::CellStart, 14, 15),
        ev(EventKind::CellEnd, 14, 15),
        ev(EventKind::RowEnd, 12, 18),
        ev(EventKind::TableEnd, 0, buf.len()),
    ];
    let tables = tables_from_events(buf, &events);
    assert_eq!(tables.len(), 1);
    let t = &tables[0];
    assert_eq!(t.id, 1);
    assert_eq!(t.alignments, vec![Alignment::Right]);
    assert_eq!(t.headers[0].content, "x");
    assert_eq!(t.headers[0].source_range, 1..4);
    assert_eq!(t.rows[0][0].content, "y");
    assert_eq!(t.rows[0][0].source_range, 13..16);
}

#[test]
fn capture_original_lines_classifies_lines() {
    let lines = capture_original_lines("| a |\n|---|\n\n| 1 |\n| 2 |\n");
    assert_eq!(lines.len(), 4);
    assert_eq!(lines[0].kind, LineKind::Header);
    assert_eq!(lines[1].kind, LineKind::Separator);
    assert_eq!(lines[2].kind, LineKind::Body { row_index: 0 });
    assert_eq!(lines[3].kind, LineKind::Body { row_index: 1 });
    assert_eq!(lines[3].raw, "| 2 |");
    assert_eq!(lines[0].cell_spans, vec![1..4]);
}

#[test]
fn cell_from_range_widens_over_blanks() {
    let buf = "|\t x  |";
    let c = cell_from_range(buf, 3..4);
    assert_eq!(c.source_range, 1..6);
    assert_eq!(c.content, "x");
    assert_eq!(c.leading_ws, 2);
    assert_eq!(c.trailing_ws, 2);
}

#[test]
fn detect_style_any_wide_padding_is_pretty() {
    assert_eq!(detect_style("| a |\n|---|\n| x   |\n"), TableStyle::Pretty);
    assert_eq!(detect_style("|  a |\n|---|\n| x |\n"), TableStyle::Pretty);
    assert_eq!(detect_style("| a |\n|  ---  |\n| x |\n"), TableStyle::Compact);
}

#[test]
fn split_cells_keeps_a_first_cell_without_outer_pipe() {
    assert_eq!(split_cells("a | b"), vec![0..2, 3..5]);
    assert_eq!(split_cells("| a | b |"), vec![1..4, 5..8]);
    assert_eq!(split_cells("a | b |"), vec![0..2, 3..6]);
    assert_eq!(split_cells("abc"), vec![0..3]);
    assert_eq!(split_cells(""), Vec::<std::ops::Range<usize>>::new());
    assert_eq!(split_cells("|"), Vec::<std::ops::Range<usize>>::new());
    assert_eq!(split_cells("||"), vec![1..1]);
    assert_eq!(split_cells("a \\| b"), vec![0..6]);
}
