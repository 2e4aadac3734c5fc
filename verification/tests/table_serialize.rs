use rendermd::tables::parse::parse_tables;
use rendermd::tables::serialize::{
    escape_cell, insert_empty_row, to_gfm, to_gfm_compact, to_gfm_preserve, to_gfm_pretty,
    update_cell,
};
use rendermd::tables::{TableError, TableStyle};

fn round_trip_preserve(src: &str) -> String {
    let tables = parse_tables(src);
    let t = &tables[0];
    to_gfm_preserve(t, src)
}

#[test]
fn preserve_round_trips_compact_unchanged() {
    let src = "| a | b |\n|---|---|\n| 1 | 2 |\n";
    let out = round_trip_preserve(src);
    // Trailing newline differences are acceptable; compare trimmed.
    assert_eq!(out.trim_end(), src.trim_end());
}

#[test]
fn preserve_round_trips_padded_unchanged() {
    let src = "| name  | score |\n|-------|------:|\n| Alice |    42 |\n";
    let out = round_trip_preserve(src);
    assert_eq!(out.trim_end(), src.trim_end());
}

#[test]
fn pretty_emits_aligned_columns() {
    let mut tables = parse_tables("| a | name |\n|---|------|\n| x | longer |\n");
    let t = &mut tables[0];
    t.style = TableStyle::Pretty;
    let out = to_gfm_pretty(t);
    // Header and body row should agree on column widths.
    let lines: Vec<&str> = out.lines().collect();
    let header_pipes: Vec<usize> = lines[0].match_indices('|').map(|(i, _)| i).collect();
    let body_pipes: Vec<usize> = lines[2].match_indices('|').map(|(i, _)| i).collect();
    assert_eq!(header_pipes, body_pipes);
}

#[test]
fn compact_uses_single_space_padding() {
    let mut tables = parse_tables("| name | score |\n|------|-------|\n| Alice | 42 |\n");
    let t = &mut tables[0];
    t.style = TableStyle::Compact;
    let out = to_gfm_compact(t);
    assert!(out.starts_with("| name |"));
    assert!(out.contains("| Alice |"));
}

#[test]
fn update_cell_preserve_keeps_unchanged_bytes_byte_identical() {
    let original =
        "| name  | score |\n|-------|------:|\n| Alice |    42 |\n| Bob   |    99 |\n";
    let mut buffer = String::from(original);
    let mut tables = parse_tables(&buffer);
    let t = &mut tables[0];

    // Edit body row 0 col 0: Alice → Alex (4 chars, fits existing width).
    let delta = t.update_cell(0, 0, "Alex", &mut buffer).unwrap();
    assert_eq!(delta.byte_delta, 0); // no width change

    // Header and unrelated body row should be byte-identical to original.
    assert!(buffer.contains("| name  | score |"));
    assert!(buffer.contains("| Bob   |    99 |"));
    // Edited cell shows "Alex" with preserved padding.
    assert!(buffer.contains("| Alex  |"));
}

#[test]
fn update_cell_preserve_grows_width_when_content_longer() {
    let original = "| name  |\n|-------|\n| Alice |\n";
    let mut buffer = String::from(original);
    let mut tables = parse_tables(&buffer);
    let t = &mut tables[0];

    let delta = t.update_cell(0, 0, "Alexandra", &mut buffer).unwrap();
    assert!(delta.byte_delta > 0);
    assert!(buffer.contains("Alexandra"));
    // Cell source range must reflect the new length.
    let cell = t.cell(0, 0).unwrap();
    assert_eq!(&buffer[cell.source_range.clone()].trim(), &"Alexandra");
}

#[test]
fn update_cell_pretty_re_aligns_columns() {
    let mut buffer = String::from("| a | name |\n|---|------|\n| x | y |\n");
    let mut tables = parse_tables(&buffer);
    let t = &mut tables[0];
    t.style = TableStyle::Pretty;
    t.original_lines = None;

    t.update_cell(0, 1, "longer", &mut buffer).unwrap();
    let lines: Vec<&str> = buffer.lines().collect();
    assert!(lines[2].contains("longer"));
    // Header line should be at least as long as body line.
    assert!(lines[0].len() >= lines[2].len() - 1);
}

#[test]
fn update_cell_escapes_pipes() {
    let mut buffer = String::from("| a |\n|---|\n| x |\n");
    let mut tables = parse_tables(&buffer);
    let t = &mut tables[0];

    t.update_cell(0, 0, "foo | bar", &mut buffer).unwrap();
    assert!(buffer.contains("foo \\| bar"));
}

#[test]
fn update_cell_handles_multiline_via_br() {
    let mut buffer = String::from("| a |\n|---|\n| x |\n");
    let mut tables = parse_tables(&buffer);
    let t = &mut tables[0];

    t.update_cell(0, 0, "line1\nline2", &mut buffer).unwrap();
    assert!(buffer.contains("line1<br>line2"));
}

#[test]
fn update_cell_out_of_range_errors_without_buffer_change() {
    let mut buffer = String::from("| a |\n|---|\n| x |\n");
    let before = buffer.clone();
    let mut tables = parse_tables(&buffer);
    let t = &mut tables[0];

    let err = t.update_cell(99, 0, "x", &mut buffer).unwrap_err();
    assert!(matches!(err, TableError::CellOutOfRange { .. }));
    assert_eq!(buffer, before);
}

#[test]
fn shift_after_runs_on_in_place_edit() {
    let mut buffer = String::from("| a |\n|---|\n| short |\n");
    let mut tables = parse_tables(&buffer);
    let t = &mut tables[0];
    let original_end = t.source_range.end;

    t.update_cell(0, 0, "much longer text", &mut buffer).unwrap();
    assert!(t.source_range.end > original_end);
}

#[test]
fn escape_cell_idempotent_for_safe_content() {
    assert_eq!(escape_cell("foo bar"), "foo bar");
    assert_eq!(escape_cell("**bold**"), "**bold**");
}

#[test]
fn escape_cell_handles_backslash_before_pipe() {
    // \ -> \\ first, then | -> \| → original literal backslash stays
    // distinguishable from an escape sequence.
    assert_eq!(escape_cell("a\\|b"), "a\\\\\\|b");
}

#[test]
fn insert_empty_row_appends_at_end() {
    let mut buffer = String::from("| a | b |\n|---|---|\n| 1 | 2 |\n");
    let mut tables = parse_tables(&buffer);
    let t = &mut tables[0];
    let before_rows = t.rows.len();
    let delta = t.insert_empty_row(before_rows, &mut buffer).unwrap();
    assert_eq!(t.rows.len(), before_rows + 1);
    assert!(delta.byte_delta > 0);
    // Buffer now has a new blank row line.
    assert!(buffer.matches('\n').count() >= 4);
}

#[test]
fn insert_empty_row_at_middle_position() {
    let mut buffer = String::from("| a |\n|---|\n| 1 |\n| 2 |\n");
    let mut tables = parse_tables(&buffer);
    let t = &mut tables[0];
    t.insert_empty_row(1, &mut buffer).unwrap();
    assert_eq!(t.rows.len(), 3);
    // The inserted row is at index 1 → empty.
    assert!(t.rows[1].iter().all(|c| c.content.is_empty()));
    // Surrounding rows are intact.
    assert_eq!(t.rows[0][0].content, "1");
    assert_eq!(t.rows[2][0].content, "2");
}

#[test]
fn insert_empty_row_in_preserve_table_recaptures_original_lines() {
    let original = "| name  | score |\n|-------|------:|\n| Alice |    42 |\n";
    let mut buffer = String::from(original);
    let mut tables = parse_tables(&buffer);
    let t = &mut tables[0];
    assert_eq!(t.style, TableStyle::PreserveOriginal);

    t.insert_empty_row(1, &mut buffer).unwrap();
    assert_eq!(t.rows.len(), 2);
    // Style stays PreserveOriginal even though we re-serialised
    // through Pretty for the emit.
    assert_eq!(t.style, TableStyle::PreserveOriginal);
    // original_lines re-captured against the new source.
    assert!(t.original_lines.is_some());
    // Subsequent cell edit should still work in PreserveOriginal mode.
    t.update_cell(1, 0, "Bob", &mut buffer).unwrap();
    assert!(buffer.contains("Bob"));
}

#[test]
fn insert_empty_row_out_of_range_errors() {
    let mut buffer = String::from("| a |\n|---|\n| 1 |\n");
    let mut tables = parse_tables(&buffer);
    let t = &mut tables[0];
    let err = t.insert_empty_row(99, &mut buffer).unwrap_err();
    assert!(matches!(err, TableError::CellOutOfRange { .. }));
}

#[test]
fn escape_cell_escapes_newlines_and_pipes() {
    assert_eq!(escape_cell("a|b"), "a\\|b");
    assert_eq!(escape_cell("x\ny\nz"), "x<br>y<br>z");
    assert_eq!(escape_cell("a\r\nb"), "a\r<br>b");
    assert_eq!(escape_cell(""), "");
}

#[test]
fn compact_exact_output() {
    let tables = parse_tables("| a | b |\n|:-:|--:|\n| 1 | 2 |\n");
    assert_eq!(to_gfm_compact(&tables[0]), "| a | b |\n| :---: | ---: |\n| 1 | 2 |\n");
}

#[test]
fn pretty_exact_output() {
    let tables = parse_tables("| a | name |\n|:--|---|\n| longer | x |\n");
    assert_eq!(
        to_gfm_pretty(&tables[0]),
        "| a      | name |\n| :----- | ---- |\n| longer | x    |\n"
    );
}

#[test]
fn to_gfm_follows_style() {
    let src = "| a | b |\n|---|---|\n| 1 | 2 |\n";
    let mut tables = parse_tables(src);
    assert_eq!(to_gfm(&tables[0], src), src);
    tables[0].style = TableStyle::Compact;
    assert_eq!(to_gfm(&tables[0], src), to_gfm_compact(&tables[0]));
}

#[test]
fn free_functions_match_methods() {
    let src = "| a |\n|---|\n| 1 |\n";
    let mut buf1 = String::from(src);
    let mut buf2 = String::from(src);
    let mut t1 = parse_tables(src);
    let mut t2 = parse_tables(src);
    let d1 = update_cell(&mut t1[0], 0, 0, "two", &mut buf1).unwrap();
    let d2 = t2[0].update_cell(0, 0, "two", &mut buf2).unwrap();
    assert_eq!(buf1, buf2);
    assert_eq!(d1.byte_delta, d2.byte_delta);
    let e1 = insert_empty_row(&mut t1[0], 0, &mut buf1).unwrap();
    assert_eq!(e1.patched_range.start, 0);
    assert!(buf1.starts_with("| a   |\n| --- |\n|     |\n| two |\n"));
}

#[test]
fn update_header_cell_in_place() {
    let mut buffer = String::from("text\n\n| a | b |\n|---|---|\n| 1 | 2 |\n");
    let mut tables = parse_tables(&buffer);
    let d = tables[0].update_cell(-1, 1, "bee", &mut buffer).unwrap();
    assert_eq!(buffer, "text\n\n| a | bee |\n|---|---|\n| 1 | 2 |\n");
    assert_eq!(d.byte_delta, 2);
    assert_eq!(d.patched_range, 11..14);
    assert_eq!(d.new_range, 11..16);
    assert_eq!(tables[0].rows[0][0].source_range.start, 29);
}

#[test]
fn insert_empty_row_without_columns_is_invalid() {
    let mut buffer = String::from("| a |\n|---|\n| 1 |\n");
    let mut tables = parse_tables(&buffer);
    tables[0].alignments.clear();
    let err = tables[0].insert_empty_row(0, &mut buffer).unwrap_err();
    assert!(matches!(err, TableError::InvalidStructure(_)));
}

#[test]
fn edits_keep_table_ids_and_alignments() {
    let mut buffer = String::from("| a | b |\n|:--|--:|\n| 1 | 2 |\n\n| x |\n|---|\n| y |\n");
    let mut tables = parse_tables(&buffer);
    assert_eq!(tables[1].id, 2);
    tables[1].update_cell(0, 0, "why", &mut buffer).unwrap();
    assert_eq!(tables[1].id, 2);
    assert_eq!(tables[1].rows[0][0].content, "why");
    let before = tables[0].alignments.clone();
    tables[0].insert_empty_row(1, &mut buffer).unwrap();
    assert_eq!(tables[0].id, 1);
    assert_eq!(tables[0].alignments, before);
    assert_eq!(tables[0].rows.len(), 2);
    assert_eq!(tables[0].rows[1][0].content, "");
}

#[test]
fn preserve_keeps_unedited_blank_and_tight_cells() {
    let src = "| a |  |\n|---|---|\n|   | b |\n";
    let t = &parse_tables(src)[0];
    assert_eq!(to_gfm_preserve(t, src), src);
    let tight = "|a|b|\n|-|-|\n|1|2|\n";
    let t = &parse_tables(tight)[0];
    assert_eq!(to_gfm_preserve(t, tight), tight);
}

#[test]
fn repeating_an_edit_changes_nothing() {
    let mut buffer = String::from("| x | ab |\n|---|---|\n| 1 | 2 |\n");
    let mut tables = parse_tables(&buffer);
    tables[0].update_cell(0, 1, "é", &mut buffer).unwrap();
    let after_first = buffer.clone();
    let d = tables[0].update_cell(0, 1, "é", &mut buffer).unwrap();
    assert_eq!(d.byte_delta, 0);
    assert_eq!(buffer, after_first);
    assert_eq!(tables[0].rows[0][1].content, "é");
    let mut b2 = String::from("| x |\n|---|\n| é |\n");
    let mut t2 = parse_tables(&b2);
    let d2 = t2[0].update_cell(0, 0, "é", &mut b2).unwrap();
    assert_eq!(d2.byte_delta, 0);
    assert_eq!(b2, "| x |\n|---|\n| é |\n");
}

#[test]
fn escaped_cell_splits_as_one_span() {
    for s in ["a|b", "a\\|b", "x\\", "\\\\|", "é|ü", "", "multi\nline|"] {
        let e = escape_cell(s);
        let line = format!("|{}|", e);
        assert_eq!(rendermd::tables::parse::split_cells(&line), vec![1..1 + e.len()]);
    }
}

#[test]
fn edits_keep_cell_ranges_in_sync() {
    let mut buffer = String::from("| a | bb |\n|---|---|\n| é | x |\n| 3 | 4 |\n");
    let mut tables = parse_tables(&buffer);
    for (row, col, text) in [(0, 0, "longer é text"), (-1, 1, "B"), (1, 1, "a|b"), (0, 1, "")] {
        tables[0].update_cell(row, col, text, &mut buffer).unwrap();
        let t = &tables[0];
        for c in t.headers.iter().chain(t.rows.iter().flatten()) {
            assert_eq!(buffer[c.source_range.clone()].trim(), escape_cell(&c.content).trim());
        }
    }
}

#[test]
fn repeating_an_edit_changes_nothing_in_pretty_and_compact_tables() {
    for style in [TableStyle::Pretty, TableStyle::Compact] {
        let mut buffer = String::from("intro\n\n| a | b |\n|---|---|\n| 1 | 2 |\n\nafter\n");
        let mut tables = parse_tables(&buffer);
        tables[0].style = style;
        tables[0].update_cell(0, 1, "wide é|x", &mut buffer).unwrap();
        let once = buffer.clone();
        let d = tables[0].update_cell(0, 1, "wide é|x", &mut buffer).unwrap();
        assert_eq!(d.byte_delta, 0);
        assert_eq!(buffer, once);
        assert!(buffer.ends_with("\nafter\n"));
    }
}
