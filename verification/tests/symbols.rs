use solite::analyzer::schema::Schema;
use solite::analyzer::symbols::{format_hover_content, get_definition_span, ResolvedSymbol};
use solite::ast::{DocComment, Span};
use solite::strmap::StrMap;

#[test]
fn test_hover_content_table_alias() {
    let symbol = ResolvedSymbol::TableAlias {
        alias: "u".to_string(),
        table_name: "users".to_string(),
        definition_span: Span::new(0, 1),
    };
    let content = format_hover_content(&symbol, None);
    assert!(content.contains("**u**"));
    assert!(content.contains("users"));
}

#[test]
fn test_hover_content_column() {
    let symbol = ResolvedSymbol::Column {
        name: "id".to_string(),
        table_name: Some("users".to_string()),
        qualifier: Some("u".to_string()),
    };
    let content = format_hover_content(&symbol, None);
    assert!(content.contains("**id**"));
    assert!(content.contains("users"));
}

#[test]
fn test_definition_span_for_alias() {
    let symbol = ResolvedSymbol::TableAlias {
        alias: "u".to_string(),
        table_name: "users".to_string(),
        definition_span: Span::new(20, 21),
    };
    let span = get_definition_span(&symbol);
    assert!(span.is_some());
    assert_eq!(span.unwrap().start, 20);
}

#[test]
fn test_definition_span_for_column() {
    let symbol = ResolvedSymbol::Column { name: "id".to_string(), table_name: None, qualifier: None };
    let span = get_definition_span(&symbol);
    assert!(span.is_none());
}

#[test]
fn test_format_hover_content_table_with_doc() {
    let mut schema = Schema::new();
    let mut table_doc = DocComment::with_description("All students at Foo University.");
    table_doc.tags.insert("details".to_string(), vec!["https://foo.edu/students".to_string()]);

    let mut column_docs = StrMap::new();
    let mut col_doc = DocComment::with_description("Student ID assigned at orientation");
    col_doc.tags.insert("example".to_string(), vec!["'S10483'".to_string()]);
    column_docs.insert("student_id".to_string(), col_doc);

    schema.add_table_with_doc(
        "students",
        vec!["student_id".to_string(), "name".to_string()],
        false,
        Some(table_doc),
        column_docs,
    );

    let table_symbol = ResolvedSymbol::Table { name: "students".to_string(), span: Span::new(0, 8) };
    let hover = format_hover_content(&table_symbol, Some(&schema));
    assert!(hover.contains("**students** (table)"));
    assert!(hover.contains("All students at Foo University."));
    assert!(hover.contains("**Details:** https://foo.edu/students"));
    assert!(hover.contains("student_id — Student ID assigned at orientation"));
}

#[test]
fn test_format_hover_content_column_with_doc() {
    let mut schema = Schema::new();
    let mut column_docs = StrMap::new();
    let mut col_doc = DocComment::with_description("Student ID assigned at orientation");
    col_doc.tags.insert("example".to_string(), vec!["'S10483'".to_string()]);
    column_docs.insert("student_id".to_string(), col_doc);

    schema.add_table_with_doc("students", vec!["student_id".to_string()], false, None, column_docs);

    let col_symbol = ResolvedSymbol::Column {
        name: "student_id".to_string(),
        table_name: Some("students".to_string()),
        qualifier: None,
    };
    let hover = format_hover_content(&col_symbol, Some(&schema));
    assert!(hover.contains("**student_id** (column from `students`)"));
    assert!(hover.contains("Student ID assigned at orientation"));
    assert!(hover.contains("**Example:** 'S10483'"));
}

#[test]
fn test_format_hover_content_no_doc() {
    let mut schema = Schema::new();
    schema.add_table("users", vec!["id".to_string(), "name".to_string()], false);

    let table_symbol = ResolvedSymbol::Table { name: "users".to_string(), span: Span::new(0, 5) };
    let hover = format_hover_content(&table_symbol, Some(&schema));
    assert!(hover.contains("**users** (table)"));
    assert!(hover.contains("**Columns:**"));
    assert!(hover.contains("- id"));
    assert!(hover.contains("- name"));
    assert!(!hover.contains("**Details:**"));
    assert!(!hover.contains("**Example:**"));
}
