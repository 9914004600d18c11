use solite::cli::bench::{
    check_attach_pairs, check_database_count, has_statement_step, read_sql_outcome, resolve_sql, BenchError,
    PrepareOutcome, ScanStep,
};
use solite::cli::exec::SqlSource;

/// Resolves a benchmarked SQL argument, reading a `.sql` file through `read`.
fn resolve_with(sql: &str, read: Result<String, String>) -> Result<String, BenchError> {
    match resolve_sql(sql) {
        SqlSource::Text(t) => Ok(t),
        SqlSource::File(p) => read_sql_outcome(&p, read),
    }
}

#[test]
fn test_resolve_sql_direct() {
    let result = resolve_with("SELECT 1", Err("unused".to_string())).unwrap();
    assert_eq!(result, "SELECT 1");
}

#[test]
fn mod_test_resolve_sql_nonexistent_file() {
    let err = resolve_with("nonexistent.sql", Err("No such file or directory (os error 2)".to_string())).unwrap_err();
    assert!(err.to_string().contains("nonexistent.sql"), "got: {}", err.to_string());
}

#[test]
fn test_resolve_sql_reads_existing_file() {
    let result = resolve_with("/tmp/q/query.sql", Ok("SELECT 1;".to_string())).unwrap();
    assert_eq!(result, "SELECT 1;");
}

#[test]
fn bench_error_messages() {
    let err = resolve_with("x.sql", Err("denied".to_string())).unwrap_err();
    assert_eq!(err.to_string(), "Failed to read file: x.sql: denied");
    assert_eq!(BenchError::ExtensionLoad("e.so: nope".into()).to_string(), "Failed to load extension: e.so: nope");
}

#[test]
fn database_count_must_be_one_or_one_per_query() {
    assert!(check_database_count(None, 3).is_ok());
    assert!(check_database_count(Some(1), 3).is_ok());
    assert!(check_database_count(Some(3), 3).is_ok());
    assert_eq!(
        check_database_count(Some(2), 3).unwrap_err(),
        "--database must be given once or once per SQL argument (got 2 databases for 3 queries)"
    );
}

#[test]
fn attach_values_come_in_pairs() {
    assert!(check_attach_pairs(4).is_ok());
    assert_eq!(check_attach_pairs(3).unwrap_err(), "--attach requires PATH NAME pairs");
}

#[test]
fn statement_search_steps() {
    assert_eq!(has_statement_step(PrepareOutcome::Statement), ScanStep::Found);
    assert_eq!(has_statement_step(PrepareOutcome::Failed), ScanStep::Found);
    assert_eq!(has_statement_step(PrepareOutcome::Empty(Some(7))), ScanStep::Advance(7));
    assert_eq!(has_statement_step(PrepareOutcome::Empty(Some(0))), ScanStep::Exhausted);
    assert_eq!(has_statement_step(PrepareOutcome::Empty(None)), ScanStep::Exhausted);
}
