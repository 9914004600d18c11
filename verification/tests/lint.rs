use solite::analyzer::lint::{lint_fixes_ok, lint_with_config};
use solite::analyzer::rules::{Fix, LintConfig, LintResult, RuleSeverity};
use solite::analyzer::suppressions::Suppressions;
use solite::analyzer::symbols::{find_statement_at_offset, find_symbol_at_offset, ResolvedSymbol};
use solite::ast::{
    BinaryOp, DistinctAll, Expr, FromClause, JoinConstraint, JoinType, Program, ResultColumn, SelectStmt, Span,
    Statement, TableOrSubquery,
};
use solite::cli::lint::{apply_fixes, fixes_applicable, lint_report, offset_to_line_col, sort_fixes};

fn select(columns: Vec<ResultColumn>, from: Option<FromClause>, where_clause: Option<Expr>, end: usize) -> Program {
    Program {
        statements: vec![Statement::Select(SelectStmt {
            with_clause: None,
            distinct: DistinctAll::All,
            columns,
            from,
            where_clause,
            group_by: None,
            having: None,
            compounds: Vec::new(),
            order_by: None,
            limit: None,
            span: Span::new(0, end),
        })],
    }
}

fn table(name: &str, alias: Option<&str>, alias_has_as: bool, start: usize, end: usize) -> TableOrSubquery {
    TableOrSubquery::Table {
        schema: None,
        name: name.to_string(),
        alias: alias.map(|a| a.to_string()),
        alias_has_as,
        indexed: None,
        span: Span::new(start, end),
    }
}

fn from(t: TableOrSubquery) -> FromClause {
    let span = match &t {
        TableOrSubquery::Table { span, .. } => span.clone(),
        TableOrSubquery::Join { span, .. } => span.clone(),
        _ => Span::new(0, 0),
    };
    FromClause { tables: vec![t], span }
}

fn ident(name: &str, start: usize, end: usize) -> Expr {
    Expr::Ident(name.to_string(), false, Span::new(start, end))
}

fn qualified(table: &str, column: &str, start: usize, end: usize) -> Expr {
    Expr::Column {
        schema: None,
        table: Some(table.to_string()),
        column: column.to_string(),
        span: Span::new(start, end),
    }
}

fn aliased(expr: Expr, alias: &str, alias_has_as: bool, start: usize, end: usize) -> ResultColumn {
    ResultColumn::Expr { expr, alias: Some(alias.to_string()), alias_has_as, span: Span::new(start, end) }
}

fn plain(expr: Expr) -> ResultColumn {
    let span = expr.span().clone();
    ResultColumn::Expr { expr, alias: None, alias_has_as: false, span }
}

fn missing_as(results: &[LintResult]) -> Vec<&LintResult> {
    results.iter().filter(|r| r.diagnostic.rule_id == "missing-as").collect()
}

/// SELECT foo bar FROM t
fn column_alias_without_as() -> Program {
    select(
        vec![aliased(ident("foo", 7, 10), "bar", false, 7, 14)],
        Some(from(table("t", None, false, 20, 21))),
        None,
        21,
    )
}

/// SELECT * FROM users u
fn table_alias_without_as() -> Program {
    select(
        vec![ResultColumn::Star(Span::new(7, 8))],
        Some(from(table("users", Some("u"), false, 14, 21))),
        None,
        21,
    )
}

fn find_symbol(program: &Program, sql: &str, offset: usize) -> Option<(ResolvedSymbol, Span)> {
    let stmt = find_statement_at_offset(program, offset)?;
    find_symbol_at_offset(stmt, sql, offset, None)
}

#[test]
fn test_default_config() {
    let config = LintConfig::default();
    assert!(config.rules.is_empty());
}

#[test]
fn test_get_severity_with_default() {
    let config = LintConfig::default();
    assert_eq!(config.get_severity("some-rule", RuleSeverity::Warning), RuleSeverity::Warning);
}

#[test]
fn test_get_severity_with_override() {
    let mut config = LintConfig::default();
    config.rules.insert("some-rule".to_string(), RuleSeverity::Error);
    assert_eq!(config.get_severity("some-rule", RuleSeverity::Warning), RuleSeverity::Error);
}

#[test]
fn test_parse_ignore_next_line() {
    let source = "-- solite-ignore: empty-blob-literal\nSELECT X''";
    let suppressions = Suppressions::parse(source);
    assert!(suppressions.is_suppressed("empty-blob-literal", 2));
    assert!(!suppressions.is_suppressed("empty-blob-literal", 1));
}

#[test]
fn test_parse_multiple_rules() {
    let source = "-- solite-ignore: rule1, rule2\nSELECT 1";
    let suppressions = Suppressions::parse(source);
    assert!(suppressions.is_suppressed("rule1", 2));
    assert!(suppressions.is_suppressed("rule2", 2));
}

#[test]
fn test_no_suppression_without_directive() {
    let source = "-- just a comment\nSELECT X''";
    let suppressions = Suppressions::parse(source);
    assert!(!suppressions.is_suppressed("empty-blob-literal", 2));
}

#[test]
fn test_missing_as_in_column_alias() {
    let source = "SELECT foo bar FROM t";
    let program = column_alias_without_as();
    let config = LintConfig::default();
    let results = lint_with_config(&program, source, &config, None);
    let found = missing_as(&results);
    assert_eq!(found.len(), 1);
    assert!(found[0].diagnostic.message.contains("bar"));
}

#[test]
fn test_as_in_column_alias_no_warning() {
    let source = "SELECT foo AS bar FROM t";
    let program = select(
        vec![aliased(ident("foo", 7, 10), "bar", true, 7, 17)],
        Some(from(table("t", None, false, 23, 24))),
        None,
        24,
    );
    let config = LintConfig::default();
    let results = lint_with_config(&program, source, &config, None);
    assert_eq!(missing_as(&results).len(), 0);
}

#[test]
fn test_missing_as_in_table_alias() {
    let source = "SELECT * FROM users u";
    let program = table_alias_without_as();
    let config = LintConfig::default();
    let results = lint_with_config(&program, source, &config, None);
    let found = missing_as(&results);
    assert_eq!(found.len(), 1);
    assert!(found[0].diagnostic.message.contains("'u'"));
}

#[test]
fn test_as_in_table_alias_no_warning() {
    let source = "SELECT * FROM users AS u";
    let program = select(
        vec![ResultColumn::Star(Span::new(7, 8))],
        Some(from(table("users", Some("u"), true, 14, 24))),
        None,
        24,
    );
    let config = LintConfig::default();
    let results = lint_with_config(&program, source, &config, None);
    assert_eq!(missing_as(&results).len(), 0);
}

#[test]
fn test_fix_column_alias() {
    let source = "SELECT foo bar";
    let program = select(vec![aliased(ident("foo", 7, 10), "bar", false, 7, 14)], None, None, 14);
    let config = LintConfig::default();
    let results = lint_with_config(&program, source, &config, None);
    let found = missing_as(&results);
    assert_eq!(found.len(), 1);
    let fix = found[0].fix.as_ref().unwrap();
    assert_eq!(fix.replacement, "foo AS bar");
}

#[test]
fn test_fix_table_alias() {
    let source = "SELECT * FROM users u";
    let program = table_alias_without_as();
    let config = LintConfig::default();
    let results = lint_with_config(&program, source, &config, None);
    let found = missing_as(&results);
    assert_eq!(found.len(), 1);
    let fix = found[0].fix.as_ref().unwrap();
    assert_eq!(fix.replacement, "users AS u");
}

#[test]
fn test_resolve_simple_column() {
    let sql = "SELECT id FROM users";
    let program = select(vec![plain(ident("id", 7, 9))], Some(from(table("users", None, false, 15, 20))), None, 20);
    let result = find_symbol(&program, sql, 7);
    assert!(result.is_some());
    let (symbol, _) = result.unwrap();
    match symbol {
        ResolvedSymbol::Column { name, table_name, qualifier } => {
            assert_eq!(name, "id");
            assert!(table_name.is_none());
            assert!(qualifier.is_none());
        }
        _ => panic!("Expected Column, got {:?}", symbol),
    }
}

#[test]
fn test_resolve_qualified_column() {
    let sql = "SELECT u.id FROM users AS u";
    let program = select(
        vec![plain(qualified("u", "id", 7, 11))],
        Some(from(table("users", Some("u"), true, 17, 27))),
        None,
        27,
    );
    let result = find_symbol(&program, sql, 9);
    assert!(result.is_some());
    let (symbol, _) = result.unwrap();
    match symbol {
        ResolvedSymbol::Column { name, table_name, qualifier } => {
            assert_eq!(name, "id");
            assert_eq!(table_name, Some("users".to_string()));
            assert_eq!(qualifier, Some("u".to_string()));
        }
        _ => panic!("Expected Column, got {:?}", symbol),
    }
}

#[test]
fn test_resolve_table_alias_in_from() {
    let sql = "SELECT * FROM users AS u";
    let program = select(
        vec![ResultColumn::Star(Span::new(7, 8))],
        Some(from(table("users", Some("u"), true, 14, 24))),
        None,
        24,
    );
    let result = find_symbol(&program, sql, 14);
    assert!(result.is_some());
    let (symbol, _) = result.unwrap();
    match symbol {
        ResolvedSymbol::Table { name, .. } => {
            assert_eq!(name, "users");
        }
        _ => panic!("Expected Table, got {:?}", symbol),
    }
}

#[test]
fn test_resolve_column_in_where() {
    let sql = "SELECT * FROM users WHERE name = 'test'";
    let condition = Expr::Binary {
        left: Box::new(ident("name", 26, 30)),
        op: BinaryOp::Eq,
        right: Box::new(Expr::String("test".to_string(), Span::new(33, 39))),
        span: Span::new(26, 39),
    };
    let program = select(
        vec![ResultColumn::Star(Span::new(7, 8))],
        Some(from(table("users", None, false, 14, 19))),
        Some(condition),
        39,
    );
    let result = find_symbol(&program, sql, 26);
    assert!(result.is_some());
    let (symbol, _) = result.unwrap();
    match symbol {
        ResolvedSymbol::Column { name, .. } => {
            assert_eq!(name, "name");
        }
        _ => panic!("Expected Column, got {:?}", symbol),
    }
}

#[test]
fn test_resolve_qualified_column_in_join() {
    let sql = "SELECT * FROM users u JOIN orders o ON u.id = o.user_id";
    let join = TableOrSubquery::Join {
        left: Box::new(table("users", Some("u"), false, 14, 21)),
        join_type: JoinType::Inner,
        right: Box::new(table("orders", Some("o"), false, 27, 35)),
        constraint: Some(JoinConstraint::On(Expr::Binary {
            left: Box::new(qualified("u", "id", 39, 43)),
            op: BinaryOp::Eq,
            right: Box::new(qualified("o", "user_id", 46, 55)),
            span: Span::new(39, 55),
        })),
        span: Span::new(14, 55),
    };
    let program = select(vec![ResultColumn::Star(Span::new(7, 8))], Some(from(join)), None, 55);
    let result = find_symbol(&program, sql, 48);
    assert!(result.is_some());
    let (symbol, _) = result.unwrap();
    match symbol {
        ResolvedSymbol::Column { name, table_name, qualifier } => {
            assert_eq!(name, "user_id");
            assert_eq!(table_name, Some("orders".to_string()));
            assert_eq!(qualifier, Some("o".to_string()));
        }
        _ => panic!("Expected Column, got {:?}", symbol),
    }
}

#[test]
fn severity_override_off_silences_rule() {
    let source = "SELECT * FROM users u";
    let program = table_alias_without_as();
    let mut config = LintConfig::default();
    config.rules.insert("missing-as".to_string(), RuleSeverity::Off);
    let results = lint_with_config(&program, source, &config, None);
    assert_eq!(missing_as(&results).len(), 0);
}

#[test]
fn severity_override_error_is_reported_as_error() {
    let source = "SELECT * FROM users u";
    let program = table_alias_without_as();
    let mut config = LintConfig::default();
    config.rules.insert("missing-as".to_string(), RuleSeverity::Error);
    let results = lint_with_config(&program, source, &config, None);
    let found = missing_as(&results);
    assert_eq!(found.len(), 1);
    assert_eq!(found[0].diagnostic.severity, RuleSeverity::Error);
}

#[test]
fn suppression_comment_drops_diagnostic_on_next_line() {
    let source = "-- solite-ignore: missing-as\nSELECT * FROM users u";
    let program = select(
        vec![ResultColumn::Star(Span::new(36, 37))],
        Some(from(table("users", Some("u"), false, 43, 50))),
        None,
        50,
    );
    let config = LintConfig::default();
    let results = lint_with_config(&program, source, &config, None);
    assert_eq!(missing_as(&results).len(), 0);
}

#[test]
fn severity_from_config_str() {
    assert_eq!(RuleSeverity::from_config_str("off"), Ok(RuleSeverity::Off));
    assert_eq!(RuleSeverity::from_config_str("warn"), Ok(RuleSeverity::Warning));
    assert_eq!(RuleSeverity::from_config_str("warning"), Ok(RuleSeverity::Warning));
    assert_eq!(RuleSeverity::from_config_str("error"), Ok(RuleSeverity::Error));
    assert!(RuleSeverity::from_config_str("invalid").is_err());
}

#[test]
fn line_and_column_are_one_based() {
    assert_eq!(offset_to_line_col("abc", 0), (1, 1));
    assert_eq!(offset_to_line_col("abc", 2), (1, 3));
    assert_eq!(offset_to_line_col("ab\ncd", 3), (2, 1));
    assert_eq!(offset_to_line_col("ab\ncd", 4), (2, 2));
    assert_eq!(offset_to_line_col("ab\ncd", 100), (2, 3));
}

#[test]
fn line_and_column_count_characters_not_bytes() {
    // 'é' takes two bytes; the byte offset 3 is the 'x' after it.
    assert_eq!(offset_to_line_col("aéx", 3), (1, 3));
}

#[test]
fn report_lines_and_fixes() {
    let source = "SELECT * FROM users u";
    let program = table_alias_without_as();
    let config = LintConfig::default();
    let results = lint_with_config(&program, source, &config, None);
    let (has_errors, lines, fixes) = lint_report("q.sql", source, &results);
    assert!(!has_errors);
    assert_eq!(lines, vec!["q.sql:1:15: warning[missing-as]: Table alias 'u' should use AS keyword".to_string()]);
    assert_eq!(fixes.len(), 1);
    assert_eq!(fixes[0].replacement, "users AS u");
}

#[test]
fn report_marks_errors() {
    let source = "SELECT * FROM users u";
    let program = table_alias_without_as();
    let mut config = LintConfig::default();
    config.rules.insert("missing-as".to_string(), RuleSeverity::Error);
    let results = lint_with_config(&program, source, &config, None);
    let (has_errors, lines, _) = lint_report("q.sql", source, &results);
    assert!(has_errors);
    assert!(lines[0].starts_with("q.sql:1:15: error[missing-as]"));
}

#[test]
fn fixes_are_applied_from_the_end() {
    let source = "SELECT foo bar FROM users u";
    let fixes = vec![
        Fix { span: Span::new(7, 14), replacement: "foo AS bar".to_string() },
        Fix { span: Span::new(20, 27), replacement: "users AS u".to_string() },
    ];
    let sorted = sort_fixes(fixes);
    assert_eq!(sorted[0].span.start, 20);
    assert_eq!(sorted[1].span.start, 7);
    assert!(fixes_applicable(source, &sorted));
    let fixed = apply_fixes(source, sorted).unwrap();
    assert_eq!(fixed, "SELECT foo AS bar FROM users AS u");
}

#[test]
fn no_fixes_gives_nothing() {
    assert_eq!(apply_fixes("SELECT 1", Vec::new()), None);
}

#[test]
fn fix_off_a_character_boundary_is_not_applicable() {
    let source = "é";
    let fixes = vec![Fix { span: Span::new(1, 2), replacement: "x".to_string() }];
    assert!(!fixes_applicable(source, &fixes));
}

#[test]
fn fixes_can_be_computed_on_matching_spans() {
    let config = LintConfig::default();
    assert!(lint_fixes_ok(&table_alias_without_as(), "SELECT * FROM users u", &config));
}

#[test]
fn fix_span_inside_a_character_cannot_be_computed() {
    // The alias span ends inside the two-byte 'é'.
    let source = "SELECT * FROM usé u";
    let program = select(
        vec![ResultColumn::Star(Span::new(7, 8))],
        Some(from(table("usé", Some("u"), false, 14, 17))),
        None,
        20,
    );
    let config = LintConfig::default();
    assert!(!lint_fixes_ok(&program, source, &config));
    let mut off = LintConfig::default();
    off.rules.insert("missing-as".to_string(), RuleSeverity::Off);
    assert!(lint_fixes_ok(&program, source, &off));
}
