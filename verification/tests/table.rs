use solite::cli::table::{render_table, render_table_widths};

/// The display width of text whose characters are each one column wide.
fn width(s: &str) -> usize {
    s.chars().count()
}

fn widths(cells: &[String]) -> Vec<usize> {
    cells.iter().map(|c| width(c)).collect()
}

#[test]
fn test_empty_columns() {
    assert_eq!(render_table_widths(&vec![], &vec![], &vec![], &vec![]), "");
}

#[test]
fn test_basic_table() {
    let columns = vec!["name".to_string(), "n".to_string()];
    let results = vec![
        vec!["'alex'".to_string(), "1".to_string()],
        vec!["'brian'".to_string(), "2".to_string()],
    ];
    let row_widths: Vec<Vec<usize>> = results.iter().map(|r| widths(r)).collect();
    let out = render_table_widths(&columns, &widths(&columns), &results, &row_widths);
    assert_eq!(
        out,
        "┌─────────┬───┐\n\
         │ name    │ n │\n\
         ├─────────┼───┤\n\
         │ 'alex'  │ 1 │\n\
         │ 'brian' │ 2 │\n\
         └─────────┴───┘\n"
    );
}

#[test]
fn test_multibyte_alignment() {
    let columns = vec!["a".to_string()];
    let results = vec![vec!["'héllo wörld'".to_string()], vec!["'plain ascii x'".to_string()]];
    let row_widths: Vec<Vec<usize>> = results.iter().map(|r| widths(r)).collect();
    let out = render_table_widths(&columns, &widths(&columns), &results, &row_widths);
    let lines: Vec<usize> = out.lines().map(width).collect();
    assert!(lines.windows(2).all(|w| w[0] == w[1]), "all lines must have equal display width:\n{out}");
}

#[test]
fn byte_width_table_counts_bytes() {
    let columns = vec!["a".to_string()];
    let out = render_table(&columns, &vec![vec!["é".to_string()]]);
    assert_eq!(out, "┌────┐\n│ a  │\n├────┤\n│ é │\n└────┘\n");
    assert_eq!(render_table(&vec![], &vec![vec!["x".to_string()]]), "");
}

#[test]
fn short_rows_are_not_padded_out() {
    let columns = vec!["a".to_string(), "b".to_string()];
    let out = render_table(&columns, &vec![vec!["1".to_string()]]);
    assert_eq!(out, "┌───┬───┐\n│ a │ b │\n├───┼───┤\n│ 1 ││\n└───┴───┘\n");
}
