//! Each test drives the block steps with what SQLite reports for the
//! statements of the block: the statement's SQL (from the start of the
//! remaining text, leading comments included), where the text after it
//! starts, and what running it gave.

use solite::cli::block::{block_step, BlockAction, BlockEvent, BlockRun};

fn ran(sql: &str, rest: Option<usize>, outcome: Result<Option<&str>, &str>) -> BlockEvent {
    BlockEvent::Ran {
        sql: sql.to_string(),
        rest,
        outcome: match outcome {
            Ok(r) => Ok(r.map(|t| t.to_string())),
            Err(m) => Err(m.to_string()),
        },
    }
}

fn failed(message: &str) -> BlockEvent {
    BlockEvent::PrepareFailed(message.to_string())
}

/// Runs the steps of a block until one does not ask for more.
fn run_block(src: &str, events: Vec<BlockEvent>) -> BlockAction {
    let mut run = BlockRun { new_value: String::new(), remaining: src.to_string(), last_result: None };
    for event in events {
        let action = block_step(&mut run, event);
        if action != BlockAction::Continue {
            return action;
        }
    }
    panic!("the block did not finish");
}

fn finished(action: BlockAction) -> String {
    match action {
        BlockAction::Finish(t) => t,
        other => panic!("expected the block to finish, got {other:?}"),
    }
}

#[test]
fn test_expect_error_directive_inlines_prepare_error() {
    let out = finished(run_block(
        "-- @expect-error\nselect * from missing;",
        vec![failed("no such table: missing"), BlockEvent::Exhausted],
    ));
    assert_eq!(out, "select * from missing;\n-- error: no such table: missing");
}

#[test]
fn test_expect_error_directive_inlines_runtime_error() {
    let src = "-- @expect-error\nselect json_extract('x', '$.a');";
    let out = finished(run_block(src, vec![ran(src, None, Err("malformed JSON"))]));
    assert_eq!(out, "select json_extract('x', '$.a');\n-- error: malformed JSON");
}

#[test]
fn test_expect_error_rerun_is_byte_stable() {
    // A missing table fails at prepare, on the first run and on the rerun.
    let src = "-- @expect-error\nselect * from missing;";
    let once = finished(run_block(src, vec![failed("no such table: missing"), BlockEvent::Exhausted]));
    let twice = finished(run_block(&once, vec![failed("no such table: missing"), BlockEvent::Exhausted]));
    assert_eq!(once, twice, "rerun not byte-stable for {src:?}");

    // Malformed JSON fails when the statement runs.
    let src = "-- @expect-error\nselect json_extract('x', '$.a');";
    let once = finished(run_block(src, vec![ran(src, None, Err("malformed JSON"))]));
    let stmt = "select json_extract('x', '$.a');";
    let twice = finished(run_block(
        &once,
        vec![ran(stmt, Some(stmt.len()), Err("malformed JSON")), BlockEvent::Exhausted],
    ));
    assert_eq!(once, twice, "rerun not byte-stable for {src:?}");

    // A statement after the failing one still runs.
    let src = "-- @expect-error\nselect * from missing;\nselect 'after';";
    let once = finished(run_block(
        src,
        vec![failed("no such table: missing"), ran("\nselect 'after';", None, Ok(Some("-- 'after'\n")))],
    ));
    let second = "\n-- error: no such table: missing\nselect 'after';";
    let twice = finished(run_block(
        &once,
        vec![
            failed("no such table: missing"),
            ran(second, Some(second.len()), Ok(Some("-- 'after'\n"))),
            BlockEvent::Exhausted,
        ],
    ));
    assert_eq!(once, twice, "rerun not byte-stable for {src:?}");
}

#[test]
fn test_expect_error_execute_error_on_columnless_statement() {
    let src = "create table t(a int unique);\ninsert into t values (1);\n-- @expect-error\ninsert into t values (1);";
    let events = vec![
        ran("create table t(a int unique);", Some(29), Ok(None)),
        ran("\ninsert into t values (1);", Some(26), Ok(None)),
        ran("\n-- @expect-error\ninsert into t values (1);", None, Err("UNIQUE constraint failed: t.a")),
    ];
    let out = finished(run_block(src, events));
    assert_eq!(
        out,
        "create table t(a int unique);\ninsert into t values (1);\ninsert into t values (1);\n-- error: UNIQUE constraint failed: t.a"
    );
    let rerun = vec![
        ran("create table t(a int unique);", Some(29), Ok(None)),
        ran("\ninsert into t values (1);", Some(26), Ok(None)),
        ran("\ninsert into t values (1);", Some(26), Err("UNIQUE constraint failed: t.a")),
        BlockEvent::Exhausted,
    ];
    assert_eq!(finished(run_block(&out, rerun)), out);
}

#[test]
fn test_statements_after_expected_error_still_run() {
    let out = finished(run_block(
        "-- @expect-error\nselect * from missing;\nselect 'after';",
        vec![failed("no such table: missing"), ran("\nselect 'after';", None, Ok(Some("-- 'after'\n")))],
    ));
    assert_eq!(out, "select * from missing;\n-- error: no such table: missing\nselect 'after';\n-- 'after'");
}

#[test]
fn test_stale_error_message_is_replaced_not_duplicated() {
    let second = "\n-- error: old message\nselect 'after';";
    let out = finished(run_block(
        "select * from missing;\n-- error: old message\nselect 'after';",
        vec![failed("no such table: missing"), ran(second, None, Ok(Some("-- 'after'\n")))],
    ));
    assert_eq!(out, "select * from missing;\n-- error: no such table: missing\nselect 'after';\n-- 'after'");
}

#[test]
fn test_expect_error_on_succeeding_statement_fails() {
    let src = "-- @expect-error\nselect 1;";
    let action = run_block(src, vec![ran(src, None, Ok(Some("-- 1\n")))]);
    assert!(matches!(action, BlockAction::ExpectedErrorSucceeded(_)));
    // rerun form: a stale `-- error:` marker on a now-succeeding statement
    let action = run_block("select 1;\n-- error: whatever", vec![ran("select 1;", Some(9), Ok(Some("-- 1\n")))]);
    assert!(matches!(action, BlockAction::ExpectedErrorSucceeded(_)));
}

#[test]
fn test_error_without_marker_is_still_fatal() {
    let action = run_block("select * from missing;", vec![failed("no such table: missing")]);
    assert!(matches!(action, BlockAction::Report));
}

#[test]
fn test_stale_result_comment_is_not_an_error_marker() {
    let src = "select 1;\n-- 1\nselect 2;";
    let out = finished(run_block(
        src,
        vec![ran("select 1;", Some(9), Ok(Some("-- 1\n"))), ran("\n-- 1\nselect 2;", None, Ok(Some("-- 2\n")))],
    ));
    assert_eq!(out, "select 1;\n-- 1\nselect 2;\n-- 2");
}

#[test]
fn test_consecutive_expect_error_statements() {
    let src = "-- @expect-error\nselect * from a_missing;\n-- @expect-error\nselect * from b_missing;";
    let out = finished(run_block(
        src,
        vec![failed("no such table: a_missing"), failed("no such table: b_missing"), BlockEvent::Exhausted],
    ));
    assert_eq!(
        out,
        "select * from a_missing;\n-- error: no such table: a_missing\nselect * from b_missing;\n-- error: no such table: b_missing"
    );
    let rerun = finished(run_block(
        &out,
        vec![failed("no such table: a_missing"), failed("no such table: b_missing"), BlockEvent::Exhausted],
    ));
    assert_eq!(rerun, out);
}

#[test]
fn expected_error_succeeding_reports_the_trimmed_statement() {
    let src = "-- @expect-error\nselect 1;  ";
    let action = run_block(src, vec![ran(src, None, Ok(Some("-- 1\n")))]);
    assert_eq!(action, BlockAction::ExpectedErrorSucceeded("select 1;".to_string()));
}

#[test]
fn rest_off_a_character_boundary_ends_the_block() {
    // Byte 1 falls inside 'é'.
    let mut run = BlockRun { new_value: String::new(), remaining: "é".to_string(), last_result: None };
    let action = block_step(&mut run, ran("select 1;", Some(1), Ok(Some("-- 1\n"))));
    assert_eq!(action, BlockAction::Finish("select 1;\n-- 1".to_string()));
}

#[test]
fn marked_statement_failing_at_run_regenerates_the_same_block() {
    let src = "-- @expect-error\nselect abs('x', 1);";
    let message = "wrong number of arguments to function abs()";
    let once = finished(run_block(src, vec![ran(src, Some(src.len()), Err(message)), BlockEvent::Exhausted]));
    assert_eq!(once, "select abs('x', 1);\n-- error: wrong number of arguments to function abs()");
    let stmt = "select abs('x', 1);";
    let twice = finished(run_block(&once, vec![ran(stmt, Some(stmt.len()), Err(message)), BlockEvent::Exhausted]));
    assert_eq!(twice, once);
}

#[test]
fn block_with_results_and_a_failure_regenerates_the_same_text() {
    let src = "select 1;\n-- @expect-error\nselect abs('x', 1);\nselect 2;";
    let message = "wrong number of arguments to function abs()";
    let once = finished(run_block(
        src,
        vec![
            ran("select 1;", Some(9), Ok(Some("-- 1\n"))),
            ran("\n-- @expect-error\nselect abs('x', 1);", Some(37), Err(message)),
            ran("\nselect 2;", Some(10), Ok(Some("-- 2\n"))),
            BlockEvent::Exhausted,
        ],
    ));
    assert_eq!(
        once,
        "select 1;\n-- 1\nselect abs('x', 1);\n-- error: wrong number of arguments to function abs()\nselect 2;\n-- 2"
    );
    let s1 = "select 1;";
    let s2 = "\n-- 1\nselect abs('x', 1);";
    let s3 = "\n-- error: wrong number of arguments to function abs()\nselect 2;";
    let twice = finished(run_block(
        &once,
        vec![
            ran(s1, Some(s1.len()), Ok(Some("-- 1\n"))),
            ran(s2, Some(s2.len()), Err(message)),
            ran(s3, Some(s3.len()), Ok(Some("-- 2\n"))),
            BlockEvent::Exhausted,
        ],
    ));
    assert_eq!(twice, once);
}
