use solite::cli::exec::SqlSource as SqlInput;
use solite::cli::query::{parse_arguments, read_sql_outcome, resolve_sql, QueryArgFacts, QueryError, SqlSource};

/// The outcome `read_sql_file` gives for a path that does not exist.
fn missing_file() -> Result<String, String> {
    Err("file not found".to_string())
}

/// Resolves a SQL argument, reading a `.sql` file through `read`.
fn resolve_with(sql: &str, read: Result<String, String>) -> Result<String, QueryError> {
    match resolve_sql(sql.to_string()) {
        SqlInput::Text(t) => Ok(t),
        SqlInput::File(p) => read_sql_outcome(p, read),
    }
}

#[test]
fn test_query_error_display() {
    let err = QueryError::DatabaseNotFound("/tmp/test.db".to_string());
    assert!(err.to_string().contains("/tmp/test.db"));

    let err = QueryError::ParameterSet("invalid value".to_string());
    assert!(err.to_string().contains("invalid value"));

    let err = QueryError::EmptyPrepare;
    assert!(err.to_string().contains("no statement"));
}

#[test]
fn test_resolve_sql_inline() {
    let result = resolve_with("SELECT 1", missing_file()).unwrap();
    assert_eq!(result, "SELECT 1");
}

#[test]
fn query_test_resolve_sql_nonexistent_file() {
    let result = resolve_with("/tmp/solite_does_not_exist.sql", missing_file());
    assert!(result.is_err());
    let err = result.unwrap_err();
    assert!(matches!(err, QueryError::FileReadError(..)));
    assert!(err.to_string().contains("solite_does_not_exist.sql"));
}

#[test]
fn test_resolve_sql_non_sql_extension_not_read() {
    let result = resolve_with(":memory:", missing_file()).unwrap();
    assert_eq!(result, ":memory:");
}

#[test]
fn test_trailing_sql_display_mentions_run() {
    let msg = QueryError::TrailingSql.to_string();
    assert!(msg.contains("solite run"));
}

#[test]
fn test_file_read_error_display() {
    let err = QueryError::FileReadError("/tmp/test.sql".to_string(), "file not found".to_string());
    let msg = err.to_string();
    assert!(msg.contains("/tmp/test.sql"));
    assert!(msg.contains("file not found"));
}

#[test]
fn test_resolve_sql_from_file() {
    let result = resolve_with("/tmp/query.sql", Ok("  SELECT 42;\n".to_string())).unwrap();
    assert_eq!(result, "SELECT 42;");
}

const NONE: QueryArgFacts = QueryArgFacts { exists: false, remote: false };
const EXISTS: QueryArgFacts = QueryArgFacts { exists: true, remote: false };

fn parse(
    statement: Option<&str>,
    database: Option<&str>,
    f0: QueryArgFacts,
    f1: QueryArgFacts,
    piped: bool,
) -> Result<(Option<String>, SqlSource), QueryError> {
    parse_arguments(&statement.map(String::from), &database.map(String::from), f0, f1, piped)
}

#[test]
fn test_parse_arguments_sql_file_only() {
    let (db, sql) = parse(Some("test.sql"), None, NONE, NONE, false).unwrap();
    assert!(db.is_none());
    assert_eq!(sql, SqlSource::Inline("test.sql".to_string()));
}

#[test]
fn test_parse_arguments_sql_file_then_db() {
    let (db, sql) = parse(Some("query.sql"), Some("data.db"), NONE, NONE, false).unwrap();
    assert_eq!(db.unwrap(), "data.db");
    assert_eq!(sql, SqlSource::Inline("query.sql".to_string()));
}

#[test]
fn test_parse_arguments_db_then_sql_file() {
    let (db, sql) = parse(Some(":memory:"), Some("query.sql"), NONE, NONE, false).unwrap();
    assert_eq!(db.unwrap(), ":memory:");
    assert_eq!(sql, SqlSource::Inline("query.sql".to_string()));
}

#[test]
fn test_parse_arguments_memory_as_second_arg() {
    let (db, sql) = parse(Some("select 1"), Some(":memory:"), NONE, NONE, false).unwrap();
    assert_eq!(db.unwrap(), ":memory:");
    assert_eq!(sql, SqlSource::Inline("select 1".to_string()));
}

#[test]
fn test_parse_arguments_memory_as_first_arg() {
    let (db, sql) = parse(Some(":memory:"), Some("select 1"), NONE, NONE, false).unwrap();
    assert_eq!(db.unwrap(), ":memory:");
    assert_eq!(sql, SqlSource::Inline("select 1".to_string()));
}

#[test]
fn test_parse_arguments_missing_db_blames_db_arg() {
    let err = parse(Some("select 1"), Some("/tmp/solite_definitely_nonexistent.db"), NONE, NONE, false).unwrap_err();
    let msg = err.to_string();
    assert!(msg.contains("solite_definitely_nonexistent.db"), "{msg}");
    assert!(!msg.contains("select 1"), "{msg}");
}

#[test]
fn test_parse_arguments_missing_db_first_arg_blamed() {
    let err = parse(Some("/tmp/solite_definitely_nonexistent.db"), Some("select 1"), NONE, NONE, false).unwrap_err();
    let msg = err.to_string();
    assert!(msg.contains("solite_definitely_nonexistent.db"), "{msg}");
    assert!(!msg.contains("select 1"), "{msg}");
}

#[test]
fn test_parse_arguments_dash_reads_stdin() {
    let (db, sql) = parse(Some("-"), None, NONE, NONE, true).unwrap();
    assert!(db.is_none());
    assert_eq!(sql, SqlSource::Stdin);
}

#[test]
fn test_parse_arguments_dash_with_database() {
    let (db, sql) = parse(Some("-"), Some("/tmp/x/data.db"), NONE, EXISTS, true).unwrap();
    assert_eq!(db.unwrap(), "/tmp/x/data.db");
    assert_eq!(sql, SqlSource::Stdin);
    let (db, sql) = parse(Some("/tmp/x/data.db"), Some("-"), EXISTS, NONE, true).unwrap();
    assert_eq!(db.unwrap(), "/tmp/x/data.db");
    assert_eq!(sql, SqlSource::Stdin);
}

#[test]
fn test_parse_arguments_dash_with_missing_database_errors() {
    let err = parse(Some("-"), Some("nope_does_not_exist.db"), NONE, NONE, true).unwrap_err();
    assert!(matches!(err, QueryError::DatabaseNotFound(_)), "{}", err.to_string());
    let err = parse(Some("select 1"), Some("-"), NONE, NONE, true).unwrap_err();
    assert!(matches!(err, QueryError::DatabaseNotFound(_)), "{}", err.to_string());
    let (db, sql) = parse(Some(":memory:"), Some("-"), NONE, NONE, true).unwrap();
    assert_eq!(db.unwrap(), ":memory:");
    assert_eq!(sql, SqlSource::Stdin);
}

#[test]
fn test_parse_arguments_no_statement_uses_stdin() {
    let (db, sql) = parse(None, None, NONE, NONE, true).unwrap();
    assert!(db.is_none());
    assert_eq!(sql, SqlSource::Stdin);
}

#[test]
fn test_parse_arguments_lone_database_with_piped_stdin() {
    let (db, sql) = parse(Some(":memory:"), None, NONE, NONE, true).unwrap();
    assert_eq!(db.unwrap(), ":memory:");
    assert_eq!(sql, SqlSource::Stdin);

    let (db, sql) = parse(Some("/tmp/y/app.db"), None, EXISTS, NONE, true).unwrap();
    assert_eq!(db.unwrap(), "/tmp/y/app.db");
    assert_eq!(sql, SqlSource::Stdin);

    let err = parse(Some("nope_does_not_exist.db"), None, NONE, NONE, true).unwrap_err();
    assert!(matches!(err, QueryError::DatabaseNotFound(_)), "{}", err.to_string());

    let (db, sql) = parse(Some("select 1"), None, NONE, NONE, true).unwrap();
    assert!(db.is_none());
    assert_eq!(sql, SqlSource::Inline("select 1".to_string()));
}

#[test]
fn test_parse_arguments_two_dashes_error() {
    assert!(parse(Some("-"), Some("-"), NONE, NONE, true).is_err());
}

#[test]
fn remote_statement_alone_is_a_usage_error() {
    let remote = QueryArgFacts { exists: false, remote: true };
    let err = parse(Some("ssh://host/db"), None, remote, NONE, false).unwrap_err();
    assert_eq!(err.to_string(), "Execution failed: Usage: solite query <sql> <database>");
    let (db, sql) = parse(Some("select 1"), Some("ssh://host/db"), NONE, remote, false).unwrap();
    assert_eq!(db.unwrap(), "ssh://host/db");
    assert_eq!(sql, SqlSource::Inline("select 1".to_string()));
}
