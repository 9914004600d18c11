use solite::cli::codegen::{
    determine_db_type, determine_result_type, first_line, first_line_at, offset_to_line_col, parse_name_line,
    parse_parameter, prepare_error_message, validate_annotations, BaseDatabaseType, ResultType,
};

#[test]
fn test_parse_name_line_simple() {
    let result = parse_name_line("-- name: getUsers");
    assert!(result.is_some());
    let (name, annotations) = result.unwrap();
    assert_eq!(name, "getUsers");
    assert!(annotations.is_empty());
}

#[test]
fn test_parse_name_line_with_annotation() {
    let result = parse_name_line("-- name: getUsers :rows");
    assert!(result.is_some());
    let (name, annotations) = result.unwrap();
    assert_eq!(name, "getUsers");
    assert_eq!(annotations, vec!["rows"]);
}

#[test]
fn test_parse_name_line_multiple_annotations() {
    let result = parse_name_line("-- name: insertUser :row :returning");
    assert!(result.is_some());
    let (name, annotations) = result.unwrap();
    assert_eq!(name, "insertUser");
    assert_eq!(annotations, vec!["row", "returning"]);
}

#[test]
fn test_parse_name_line_invalid() {
    assert!(parse_name_line("-- not a name line").is_none());
    assert!(parse_name_line("select * from users").is_none());
    assert!(parse_name_line("").is_none());
}

#[test]
fn test_parse_parameter_simple() {
    let param = parse_parameter("$name");
    assert_eq!(param.full_name, "$name");
    assert_eq!(param.name, "name");
    assert!(param.annotated_type.is_none());
}

#[test]
fn test_parse_parameter_with_type() {
    let param = parse_parameter("$name::text");
    assert_eq!(param.full_name, "$name::text");
    assert_eq!(param.name, "name");
    assert_eq!(param.annotated_type, Some("text".to_string()));
}

#[test]
fn test_parse_parameter_colon_prefix() {
    let param = parse_parameter(":id::int");
    assert_eq!(param.full_name, ":id::int");
    assert_eq!(param.name, "id");
    assert_eq!(param.annotated_type, Some("int".to_string()));
}

#[test]
fn test_determine_result_type() {
    assert_eq!(determine_result_type(&["rows".to_string()], 3), ResultType::Rows);
    assert_eq!(determine_result_type(&["row".to_string()], 3), ResultType::Row);
    assert_eq!(determine_result_type(&["value".to_string()], 1), ResultType::Value);
    assert_eq!(determine_result_type(&["list".to_string()], 1), ResultType::List);
    assert_eq!(determine_result_type(&[], 0), ResultType::Void);
    assert_eq!(determine_result_type(&[], 3), ResultType::Rows);
}

#[test]
fn test_offset_to_line_col_first_line() {
    assert_eq!(offset_to_line_col("select 1", 0), (1, 1));
    assert_eq!(offset_to_line_col("select 1", 7), (1, 8));
}

#[test]
fn test_offset_to_line_col_mid_file() {
    let src = "line one\nline two\nline three";
    let off = src.find("line two").unwrap();
    assert_eq!(offset_to_line_col(src, off), (2, 1));
    let off = src.find("three").unwrap();
    assert_eq!(offset_to_line_col(src, off), (3, 6));
}

#[test]
fn test_offset_to_line_col_past_end() {
    let src = "short";
    assert_eq!(offset_to_line_col(src, 999), (1, 6));
}

#[test]
fn test_first_line_at_start() {
    let src = "create table t(a);\nselect * from t;\n";
    let off = src.find("select").unwrap();
    assert_eq!(first_line_at(src, off), "select * from t;");
}

#[test]
fn test_first_line_at_no_trailing_newline() {
    let src = "one\ntwo";
    let off = src.find("two").unwrap();
    assert_eq!(first_line_at(src, off), "two");
}

#[test]
fn test_first_line_at_empty_src() {
    assert_eq!(first_line_at("", 0), "");
}

#[test]
fn test_handle_step_error_formats_line_col() {
    let src = "\ncreate table t(a);\n\nselect * from missing;\n";
    let offset = "\ncreate table t(a);\n\n".len();
    let msg = prepare_error_message("queries.sql", src, offset, None, "no such table: missing");
    assert!(msg.contains("queries.sql:4:1"), "msg = {msg}");
    assert!(msg.contains("no such table: missing"), "msg = {msg}");
    assert!(msg.contains("> select * from missing;"), "msg = {msg}");
}

#[test]
fn prepare_error_message_exact_text() {
    let msg = prepare_error_message("a.sql", "select 1;\nselect x;", 10, Some(7), "no such column: x");
    assert_eq!(msg, "Failed to prepare statement at a.sql:2:8: no such column: x\n  > select x;");
    let blank = prepare_error_message("a.sql", "select 1;\n\n", 10, None, "boom");
    assert_eq!(blank, "Failed to prepare statement at a.sql:2:1: boom");
}

#[test]
fn first_line_trims_and_stops_at_newline() {
    assert_eq!(first_line("  select 1\n  from t"), "select 1");
    assert_eq!(first_line(""), "");
}

#[test]
fn validate_annotations_rejects_unknown_and_conflicting() {
    assert!(validate_annotations("q", &["rows".to_string()], "f.sql:1").is_ok());
    let unknown = validate_annotations("q", &["vaule".to_string()], "f.sql:1").unwrap_err();
    assert!(unknown.contains("Unknown annotation `:vaule`"), "{unknown}");
    let conflict = validate_annotations("q", &["row".to_string(), "value".to_string()], "f.sql:1").unwrap_err();
    assert!(conflict.contains(":row :value"), "{conflict}");
}

#[test]
fn determine_db_type_by_extension() {
    assert!(matches!(determine_db_type(&None), Ok(BaseDatabaseType::InMemory)));
    assert!(matches!(determine_db_type(&Some("s.db".to_string())), Ok(BaseDatabaseType::Database(p)) if p == "s.db"));
    assert!(matches!(determine_db_type(&Some("s.sql".to_string())), Ok(BaseDatabaseType::SqlFile(p)) if p == "s.sql"));
    let err = determine_db_type(&Some("s.csv".to_string())).unwrap_err();
    assert_eq!(err, "Unsupported schema file type: s.csv. Use .db or .sql");
}
