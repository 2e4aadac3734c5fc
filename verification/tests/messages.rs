use rendermd::editor::{pasted_image, window_title};
use rendermd::images::plan_image_move;
use rendermd::messages::{
    field, parse_cell_edit, parse_i32, parse_u64, parse_usize, row_insert_target, split_fields, RowInsert,
};
use rendermd::tables::parse::parse_tables;
use rendermd::tables::serialize::buffer_patch;
use rendermd::tables::EditDelta;

fn strings(v: &[&str]) -> Vec<String> {
    v.iter().map(|s| s.to_string()).collect()
}

#[test]
fn split_fields_like_splitn() {
    assert_eq!(split_fields("a\tb\tc\td\te", 4), strings(&["a", "b", "c", "d\te"]));
    assert_eq!(split_fields("a", 4), strings(&["a"]));
    assert_eq!(split_fields("", 3), strings(&[""]));
    assert!(split_fields("x\ty", 0).is_empty());
    assert_eq!(split_fields("x\ty", 1), strings(&["x\ty"]));
    assert_eq!(split_fields("\t", 2), strings(&["", ""]));
    let f = split_fields("src\t120", 3);
    assert_eq!(field(&f, 1), "120");
    assert_eq!(field(&f, 2), "");
}

#[test]
fn number_fields_parse_like_std() {
    assert_eq!(parse_u64("42"), Some(42));
    assert_eq!(parse_u64("+7"), Some(7));
    assert_eq!(parse_u64(""), None);
    assert_eq!(parse_u64("+"), None);
    assert_eq!(parse_u64("-1"), None);
    assert_eq!(parse_u64("18446744073709551615"), Some(u64::MAX));
    assert_eq!(parse_u64("18446744073709551616"), None);
    assert_eq!(parse_u64(" 1"), None);
    assert_eq!(parse_u64("1a"), None);
    assert_eq!(parse_i32("-2147483648"), Some(i32::MIN));
    assert_eq!(parse_i32("2147483647"), Some(i32::MAX));
    assert_eq!(parse_i32("2147483648"), None);
    assert_eq!(parse_i32("-0"), Some(0));
    assert_eq!(parse_i32("-"), None);
    assert_eq!(parse_i32("+5"), Some(5));
    assert_eq!(parse_usize("12"), Some(12));
    assert_eq!(parse_usize("x"), None);
}

#[test]
fn cell_edit_messages() {
    let e = parse_cell_edit("3\t-1\t2\tfoo\tbar").unwrap();
    assert_eq!((e.table_id, e.row, e.col, e.content.as_str()), (3, -1, 2, "foo\tbar"));
    assert!(parse_cell_edit("0\t1\t1\tx").is_none());
    assert!(parse_cell_edit("zz\t1\t1\tx").is_none());
    let e = parse_cell_edit("5\tx\t\t").unwrap();
    assert_eq!((e.table_id, e.row, e.col, e.content.as_str()), (5, 0, 0, ""));
    let e = parse_cell_edit("7").unwrap();
    assert_eq!((e.table_id, e.row, e.col, e.content.as_str()), (7, 0, 0, ""));
}

#[test]
fn image_move_plans() {
    let mv = plan_image_move("![a](a.png) text ![b](b.png)", "b.png", "a.png").unwrap();
    assert_eq!((mv.remove_start, mv.remove_len, mv.insert_at, mv.insertion.as_str()), (17, 11, 0, "![b](b.png)\n\n"));
    let mv = plan_image_move("p\n\n![a](a.png)", "a.png", "").unwrap();
    assert_eq!((mv.remove_start, mv.remove_len, mv.insert_at, mv.insertion.as_str()), (3, 11, 3, "![a](a.png)"));
    let mv = plan_image_move("x ![a](a) y", "a", "").unwrap();
    assert_eq!((mv.remove_start, mv.remove_len, mv.insert_at, mv.insertion.as_str()), (2, 7, 4, "\n\n![a](a)"));
    assert!(plan_image_move("nothing", "a", "").is_none());
}

#[test]
fn buffer_patch_counts_characters() {
    let delta = EditDelta { byte_delta: 1, patched_range: 3..4, new_range: 3..5 };
    assert_eq!(buffer_patch("é|a|", "é|bb|", &delta), (2, 3, "bb".to_string()));
}

#[test]
fn buffer_patch_of_a_cell_edit() {
    let src = "ü\n\n| a |\n|---|\n| x |\n";
    let mut shadow = src.to_string();
    let mut tables = parse_tables(src);
    let delta = tables[0].update_cell(0, 0, "yy", &mut shadow).unwrap();
    let (start, end, replacement) = buffer_patch(src, &shadow, &delta);
    let old_chars: Vec<char> = src.chars().collect();
    let mut applied: String = old_chars[..start].iter().collect();
    applied.push_str(&replacement);
    applied.extend(old_chars[end..].iter());
    assert_eq!(applied, shadow);
}

#[test]
fn row_operations_pick_the_insert_index() {
    assert_eq!(row_insert_target("row-above", 3), RowInsert::At(3));
    assert_eq!(row_insert_target("row-below", 3), RowInsert::At(4));
    assert_eq!(row_insert_target("row-below", -1), RowInsert::At(0));
    assert_eq!(row_insert_target("row-above", -1), RowInsert::AboveHeader);
    assert_eq!(row_insert_target("row-above", -7), RowInsert::At(0));
    assert_eq!(row_insert_target("row-below", -7), RowInsert::At(1));
    assert_eq!(row_insert_target("col-left", 0), RowInsert::NoInsert);
    assert_eq!(row_insert_target("", 0), RowInsert::NoInsert);
}

#[test]
fn window_titles() {
    assert_eq!(window_title(Some("notes.md"), false), "notes.md — RenderMD");
    assert_eq!(window_title(Some("notes.md"), true), "• notes.md — RenderMD");
    assert_eq!(window_title(None, false), "Untitled — RenderMD");
    assert_eq!(window_title(None, true), "• Untitled — RenderMD");
}

#[test]
fn pasted_image_paths_and_reference() {
    let p = pasted_image(Some("my notes"), Some("20240102-030405"));
    assert_eq!(p.assets_dir, "my notes-assets");
    assert_eq!(p.file_name, "paste-20240102-030405.png");
    assert_eq!(p.rel_path, "my notes-assets/paste-20240102-030405.png");
    assert_eq!(p.markdown, "![](my%20notes-assets/paste-20240102-030405.png)");
    let d = pasted_image(None, None);
    assert_eq!(d.rel_path, "doc-assets/paste-image.png");
    assert_eq!(d.markdown, "![](doc-assets/paste-image.png)");
    let u = pasted_image(Some("é(1)"), Some("t"));
    assert_eq!(u.markdown, "![](%C3%A9%281%29-assets/paste-t.png)");
}
