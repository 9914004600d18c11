use solite::cli::docs::{
    leading_trivia_len, strip_expect_error_directive, strip_stale_result, strip_trailing_anchors,
    trailing_error_line, DocsError,
};
use solite::cli::inline::{
    apply_edits, code_block_edit, edits_applicable, error_caret_offset, format_results, heading_anchor_edit,
    heading_function_name, undocumented,
};

#[test]
fn test_leading_trivia_len() {
    assert_eq!(leading_trivia_len("select 1;"), 0);
    assert_eq!(leading_trivia_len("  select 1;"), 2);
    assert_eq!(leading_trivia_len("-- c\nselect 1;"), 5);
    assert_eq!(leading_trivia_len("/* c */ select 1;"), 8);
    assert_eq!(leading_trivia_len("\n-- a\n/* b */\n-- c\nx"), 19);
    assert_eq!(leading_trivia_len("-- only a comment"), 17);
    assert_eq!(leading_trivia_len("/* unterminated"), 15);
}

#[test]
fn test_strip_expect_error_directive() {
    assert_eq!(
        strip_expect_error_directive("-- @expect-error\nselect 1;"),
        ("select 1;".to_string(), true)
    );
    assert_eq!(
        strip_expect_error_directive("-- a\n-- @expect-error\n-- b\nselect 1;"),
        ("-- a\n-- b\nselect 1;".to_string(), true)
    );
    assert_eq!(
        strip_expect_error_directive("select 1;\n-- @expect-error"),
        ("select 1;\n-- @expect-error".to_string(), false)
    );
    assert_eq!(strip_expect_error_directive("-- @expect-errors\nselect 1;").1, false);
}

#[test]
fn test_trailing_error_line() {
    assert_eq!(trailing_error_line("\n-- error: boom\nselect 1;"), Some("-- error: boom"));
    assert_eq!(trailing_error_line("\n-- 1\nselect 1;"), None);
    assert_eq!(trailing_error_line("\nselect 1;"), None);
    assert_eq!(trailing_error_line(""), None);
}

#[test]
fn test_undocumented_functions_display_lists_each_once() {
    let err = DocsError::Undocumented { functions: vec!["a".into(), "b".into()], modules: vec![] };
    let s = err.to_string();
    assert_eq!(s, "The following functions are not documented:\n  - a\n  - b");
    assert_eq!(s.matches("- a").count(), 1);
}

#[test]
fn test_undocumented_display_labels_functions_and_modules() {
    let err = DocsError::Undocumented { functions: vec!["my_func".into()], modules: vec!["vtab_foo".into()] };
    assert_eq!(
        err.to_string(),
        "The following functions are not documented:\n  - my_func\n\
         The following modules are not documented:\n  - vtab_foo"
    );
}

#[test]
fn test_undocumented_display_modules_only() {
    let err = DocsError::Undocumented { functions: vec![], modules: vec!["vtab_foo".into()] };
    assert_eq!(err.to_string(), "The following modules are not documented:\n  - vtab_foo");
}

#[test]
fn test_strip_trailing_anchors() {
    assert_eq!(strip_trailing_anchors("### `f(a)`"), "### `f(a)`");
    assert_eq!(strip_trailing_anchors("### `f(a)` {#f}"), "### `f(a)`");
    assert_eq!(strip_trailing_anchors("### `my_func(a)` {#my\\_func} {#my_func}"), "### `my_func(a)`");
    assert_eq!(strip_trailing_anchors("### a {b} c"), "### a {b} c");
}

#[test]
fn test_heading_function_name() {
    assert_eq!(heading_function_name(Some("my_func(a, b)")), Some("my_func".to_string()));
    assert_eq!(heading_function_name(Some("vtab_foo")), Some("vtab_foo".to_string()));
    assert_eq!(heading_function_name(None), None);
}

#[test]
fn docs_error_messages() {
    assert_eq!(DocsError::SqlError("x".into()).to_string(), "SQL error: x");
    assert_eq!(DocsError::FileRead("a.md: gone".into()).to_string(), "Failed to read file: a.md: gone");
    assert_eq!(DocsError::AlreadyReported.to_string(), "SQL error in code block");
}

#[test]
fn stale_result_is_stripped_only_at_line_boundaries() {
    let last = Some("-- 3\n".to_string());
    assert_eq!(strip_stale_result("-- 3\nselect 2;", &last), "select 2;");
    assert_eq!(strip_stale_result("-- 3\n-- 3\n  select 2;", &last), "select 2;");
    assert_eq!(strip_stale_result("-- 33\nselect 2;", &last), "-- 33\nselect 2;");
    assert_eq!(strip_stale_result("-- 3\nselect 2;", &None), "-- 3\nselect 2;");
}

#[test]
fn results_are_formatted_as_comments() {
    let cols = vec!["a".to_string()];
    assert_eq!(format_results(&cols, &vec![]), "-- No results\n");
    assert_eq!(format_results(&cols, &vec![vec!["3".to_string()]]), "-- 3\n");
    assert_eq!(format_results(&cols, &vec![vec!["'x\ny'".to_string()]]), "-- 'x\n-- y'\n");
    let two = format_results(&cols, &vec![vec!["1".to_string()], vec!["2".to_string()]]);
    assert_eq!(two, "/*\n┌───┐\n│ a │\n├───┤\n│ 1 │\n│ 2 │\n└───┘\n*/\n");
    let closing = format_results(&cols, &vec![vec!["*/".to_string()], vec!["2".to_string()]]);
    assert!(closing.starts_with("-- ┌"), "{closing}");
    assert!(!closing.contains("/*\n"), "{closing}");
}

#[test]
fn heading_anchor_edit_replaces_old_anchors() {
    let src = "# T\n### `f(a)` {#old}\n";
    let start = 4;
    let end = src.len() - 1;
    let e = heading_anchor_edit(start, end, src, "f").unwrap();
    assert_eq!((e.start, e.end, e.replacement.as_str()), (14, end, " {#f}"));
    let out = apply_edits(src, &vec![e]);
    assert_eq!(out, "# T\n### `f(a)` {#f}\n");
    assert!(heading_anchor_edit(5, 2, src, "f").is_none());
}

#[test]
fn code_block_edit_keeps_fences() {
    let src = "```sql\nselect 1;\n```\n";
    let e = code_block_edit(0, src.len() - 1, 1, src, "select 1;\n-- 1").unwrap();
    assert_eq!((e.start, e.end), (7, 17));
    assert_eq!(e.replacement, "select 1;\n-- 1\n");
    let edits = vec![e];
    assert!(edits_applicable(src, &edits));
    assert_eq!(apply_edits(src, &edits), "```sql\nselect 1;\n-- 1\n```\n");
    let indented = code_block_edit(0, src.len() - 1, 3, src, "a\n\nb").unwrap();
    assert_eq!(indented.replacement, "  a\n\n  b\n");
    assert!(code_block_edit(0, 3, 1, src, "x").is_none());
}

#[test]
fn error_caret_skips_leading_trivia() {
    assert_eq!(error_caret_offset(Some(3), "-- c\nselect x;", 10), 10);
    assert_eq!(error_caret_offset(None, "-- c\nselect x;", 10), 15);
}

#[test]
fn undocumented_names_are_filtered_and_sorted() {
    let loaded = vec!["zeta".to_string(), "alpha".to_string(), "mid".to_string(), "Beta".to_string()];
    let documented = vec!["mid".to_string()];
    assert_eq!(undocumented(&loaded, &documented), vec!["Beta", "alpha", "zeta"]);
    assert!(undocumented(&vec![], &documented).is_empty());
}

#[test]
fn stripping_anchors_twice_is_stripping_once() {
    for h in [
        "### `my_func(a)` {#my\\_func} {#my_func}",
        "### `f(a)` {#f}",
        "### a {b} c",
        "## title {#x}   ",
        "{#only}",
    ] {
        let once = strip_trailing_anchors(h);
        assert_eq!(strip_trailing_anchors(once), once);
        assert!(h.starts_with(once));
    }
    assert_eq!(strip_trailing_anchors("## title {#x}   "), "## title");
    assert_eq!(strip_trailing_anchors("{#only}"), "");
}
