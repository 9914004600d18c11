use solite::cli::exec::{parse_arguments, ArgFacts, SqlSource};
use solite::cli::paths::{arg_facts, is_database_path, is_sql_file, offers_memory};

fn make_args(args: Vec<&str>) -> Vec<String> {
    args.into_iter().map(String::from).collect()
}

/// What the command learns of each argument when none of them exists on
/// disk.
fn facts_of(args: &[String]) -> Vec<ArgFacts> {
    args.iter().map(|a| arg_facts(a, false)).collect()
}

fn parse(args: Vec<&str>, piped: bool) -> Result<(Option<String>, Option<SqlSource>), String> {
    let args = make_args(args);
    let facts = facts_of(&args);
    parse_arguments(&args, &facts, piped)
}

#[test]
fn parse_args_sql_only() {
    let (db, sql) = parse(vec!["INSERT INTO t VALUES (1)"], false).unwrap();
    assert!(db.is_none());
    assert_eq!(sql, Some(SqlSource::Text("INSERT INTO t VALUES (1)".to_string())));
}

#[test]
fn parse_args_neither_is_file_errors() {
    let err = parse(vec!["CREATE TABLE t(a)", "INSERT INTO t VALUES (1)"], false).unwrap_err();
    assert!(err.contains("cannot tell"), "{err}");
}

#[test]
fn parse_args_nonexistent_db_extension_is_database() {
    let (db, sql) = parse(vec!["/tmp/solite_brand_new_db_does_not_exist.db", "CREATE TABLE t(a)"], false).unwrap();
    assert_eq!(db.unwrap(), "/tmp/solite_brand_new_db_does_not_exist.db");
    assert_eq!(sql, Some(SqlSource::Text("CREATE TABLE t(a)".to_string())));
}

#[test]
fn parse_args_memory_is_database() {
    let (db, sql) = parse(vec![":memory:", "CREATE TABLE t(a)"], false).unwrap();
    assert_eq!(db.unwrap(), ":memory:");
    assert_eq!(sql, Some(SqlSource::Text("CREATE TABLE t(a)".to_string())));
}

#[test]
fn parse_args_two_databases_errors() {
    let err = parse(vec!["a.db", "b.db"], false).unwrap_err();
    assert!(err.contains("two database arguments"), "{err}");
}

#[test]
fn parse_args_two_sql_files_errors() {
    let err = parse(vec!["a.sql", "b.sql"], false).unwrap_err();
    assert!(err.contains("two .sql file arguments"), "{err}");
}

#[test]
fn parse_args_dash_reads_stdin() {
    let (db, sql) = parse(vec!["-"], true).unwrap();
    assert!(db.is_none());
    assert!(sql.is_none());

    let (db, sql) = parse(vec!["-", "new.db"], true).unwrap();
    assert_eq!(db.unwrap(), "new.db");
    assert!(sql.is_none());

    let (db, sql) = parse(vec![":memory:", "-"], true).unwrap();
    assert_eq!(db.unwrap(), ":memory:");
    assert!(sql.is_none());
}

#[test]
fn parse_args_no_args_reads_stdin() {
    let (db, sql) = parse(vec![], true).unwrap();
    assert!(db.is_none());
    assert!(sql.is_none());
}

#[test]
fn parse_args_lone_db_with_piped_stdin() {
    let (db, sql) = parse(vec!["app.db"], true).unwrap();
    assert_eq!(db.unwrap(), "app.db");
    assert!(sql.is_none());

    let (db, sql) = parse(vec!["app.db"], false).unwrap();
    assert_eq!(db.unwrap(), "app.db");
    assert_eq!(sql, Some(SqlSource::Text(String::new())));
}

#[test]
fn parse_args_two_dashes_errors() {
    assert!(parse(vec!["-", "-"], true).is_err());
}

#[test]
fn parse_args_existing_file_is_database() {
    let args = make_args(vec!["INSERT INTO t VALUES (1)", "data"]);
    let facts = vec![arg_facts(&args[0], false), arg_facts(&args[1], true)];
    let (db, sql) = parse_arguments(&args, &facts, false).unwrap();
    assert_eq!(db.unwrap(), "data");
    assert_eq!(sql, Some(SqlSource::Text("INSERT INTO t VALUES (1)".to_string())));
}

#[test]
fn parse_args_sql_file_with_unrecognized_missing_db_errors() {
    let err = parse(vec!["script.sql", "newdb_without_extension"], false).unwrap_err();
    assert!(err.contains("does not exist"), "{err}");
    let (db, sql) = parse(vec!["script.sql"], false).unwrap();
    assert!(db.is_none());
    assert_eq!(sql, Some(SqlSource::File("script.sql".to_string())));
}

#[test]
fn parse_args_too_many_errors() {
    let err = parse(vec!["a", "b", "c"], false).unwrap_err();
    assert_eq!(err, "expected at most 2 arguments: a SQL statement and an optional database");
}

#[test]
fn database_path_extensions() {
    for ok in ["a.db", "a.sqlite", "a.sqlite3", "/x/y/a.db"] {
        assert!(is_database_path(ok), "{ok}");
    }
    for not in ["a.sql", "a.csv", "a", "a.db.bak", "db"] {
        assert!(!is_database_path(not), "{not}");
    }
}

#[test]
fn sql_file_extension_follows_path_rules() {
    assert!(is_sql_file("q.sql"));
    assert!(is_sql_file("dir/q.sql/"));
    assert!(!is_sql_file(".sql"));
    assert!(!is_sql_file("q.sql/.."));
    assert!(!is_sql_file("q.SQL"));
}

#[test]
fn memory_is_offered_while_it_matches() {
    assert!(offers_memory(""));
    assert!(offers_memory(":mem"));
    assert!(offers_memory(":memory:"));
    assert!(!offers_memory("m"));
    assert!(!offers_memory(":memory:x"));
}
