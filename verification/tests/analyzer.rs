use solite::analyzer::rules::{LintConfig, RuleSeverity};
use solite::analyzer::lint::lint_with_config;
use solite::analyzer::schema::{build_schema, Schema, TriggerEventType};
use solite::analyzer::select::{analyze, analyze_with_schema};
use solite::ast::{
    BinaryOp, ColumnDef, CommonTableExpr, CompoundOp, CreateIndexStmt, CreateTableStmt, CreateTriggerStmt,
    CreateViewStmt, DistinctAll, DropIndexStmt, DropTableStmt, DropTriggerStmt, DropViewStmt, Expr, FromClause,
    IndexedColumn, JoinConstraint, JoinType, OrderingTerm, Program, ResultColumn, SelectCore, SelectStmt, Span,
    Statement, TableOption, TableOrSubquery, TriggerEvent, TriggerTiming, WithClause,
};

fn make_program(statements: Vec<Statement>) -> Program {
    Program { statements }
}

/// Helper to create a simple SelectStmt for tests
fn make_select(columns: Vec<ResultColumn>, from: Option<FromClause>) -> SelectStmt {
    let span_end = from.as_ref().map(|f| f.span.end).or_else(|| columns.last().map(|c| c.span().end)).unwrap_or(0);
    SelectStmt {
        with_clause: None,
        distinct: DistinctAll::All,
        columns,
        from,
        where_clause: None,
        group_by: None,
        having: None,
        compounds: Vec::new(),
        order_by: None,
        limit: None,
        span: Span::new(0, span_end),
    }
}

/// Helper to create a FromClause from a table name
fn make_from(table_name: &str, span: Span) -> FromClause {
    FromClause {
        tables: vec![TableOrSubquery::Table {
            schema: None,
            name: table_name.to_string(),
            alias: None,
            alias_has_as: false,
            indexed: None,
            span: span.clone(),
        }],
        span,
    }
}

/// Helper to wrap an Expr as a ResultColumn
fn expr_col(expr: Expr) -> ResultColumn {
    let span = expr.span().clone();
    ResultColumn::Expr { expr, alias: None, alias_has_as: false, span }
}

#[test]
fn test_valid_select() {
    let program = make_program(vec![Statement::Select(
        make_select(vec![expr_col(Expr::Integer(1, Span::new(7, 8)))], None)
    )]);

    let diagnostics = analyze(&program);
    assert!(diagnostics.is_empty());
}

#[test]
fn test_single_quoted_no_warning() {
    // Regular identifiers (unquoted or single-quoted) should NOT produce a warning
    let program = make_program(vec![Statement::Select(
        make_select(
            vec![expr_col(Expr::Ident("hello".to_string(), false, Span::new(7, 12)))],
            None
        )
    )]);

    let diagnostics = analyze(&program);
    assert!(diagnostics.is_empty());
}

#[test]
fn test_valid_create_table() {
    let program = make_program(vec![Statement::CreateTable(CreateTableStmt {
        temporary: false,
        if_not_exists: false,
        schema: None,
        table_name: "foo".to_string(),
        columns: vec![ColumnDef {
            name: "id".to_string(),
            type_spec: Some("INTEGER".to_string()),
            constraints: vec![],
            doc: None,
            span: Span::new(18, 28),
        }],
        table_constraints: vec![],
        table_options: vec![],
        as_select: None,
        doc: None,
        span: Span::new(0, 30),
    })]);

    let diagnostics = analyze(&program);
    assert!(diagnostics.is_empty());
}

#[test]
fn test_duplicate_column_name() {
    let program = make_program(vec![Statement::CreateTable(CreateTableStmt {
        temporary: false,
        if_not_exists: false,
        schema: None,
        table_name: "foo".to_string(),
        columns: vec![
            ColumnDef {
                name: "id".to_string(),
                type_spec: Some("INTEGER".to_string()),
                constraints: vec![],
                doc: None,
                span: Span::new(18, 28),
            },
            ColumnDef {
                name: "ID".to_string(), // duplicate (case-insensitive)
                type_spec: Some("TEXT".to_string()),
                constraints: vec![],
                doc: None,
                span: Span::new(30, 37),
            },
        ],
        table_constraints: vec![],
        table_options: vec![],
        as_select: None,
        doc: None,
        span: Span::new(0, 39),
    })]);

    let diagnostics = analyze(&program);
    assert_eq!(diagnostics.len(), 1);
    assert!(diagnostics[0].message.contains("Duplicate column name"));
}

#[test]
fn test_select_from_known_table_valid_column() {
    // CREATE TABLE users (id, name); SELECT id FROM users;
    let program = make_program(vec![
        Statement::CreateTable(CreateTableStmt {
            temporary: false,
            if_not_exists: false,
            schema: None,
            table_name: "users".to_string(),
            columns: vec![
                ColumnDef {
                    name: "id".to_string(),
                    type_spec: None,
                    constraints: vec![],
                    doc: None,
                    span: Span::new(20, 22),
                },
                ColumnDef {
                    name: "name".to_string(),
                    type_spec: None,
                    constraints: vec![],
                    doc: None,
                    span: Span::new(24, 28),
                },
            ],
            table_constraints: vec![],
            table_options: vec![],
            as_select: None,
            doc: None,
            span: Span::new(0, 30),
        }),
        Statement::Select(make_select(
            vec![expr_col(Expr::Ident("id".to_string(), false, Span::new(38, 40)))],
            Some(make_from("users", Span::new(46, 51))),
        )),
    ]);

    let diagnostics = analyze(&program);
    assert!(diagnostics.is_empty());
}

#[test]
fn test_select_from_known_table_invalid_column() {
    // CREATE TABLE users (id); SELECT email FROM users;
    let program = make_program(vec![
        Statement::CreateTable(CreateTableStmt {
            temporary: false,
            if_not_exists: false,
            schema: None,
            table_name: "users".to_string(),
            columns: vec![ColumnDef {
                name: "id".to_string(),
                type_spec: None,
                constraints: vec![],
                doc: None,
                span: Span::new(20, 22),
            }],
            table_constraints: vec![],
            table_options: vec![],
            as_select: None,
            doc: None,
            span: Span::new(0, 24),
        }),
        Statement::Select(make_select(
            vec![expr_col(Expr::Ident("email".to_string(), false, Span::new(32, 37)))],
            Some(make_from("users", Span::new(43, 48))),
        )),
    ]);

    let diagnostics = analyze(&program);
    assert_eq!(diagnostics.len(), 1);
    assert!(diagnostics[0].message.contains("Column 'email' does not exist"));
}

#[test]
fn test_select_from_unknown_table() {
    // SELECT id FROM nonexistent;
    let program = make_program(vec![Statement::Select(make_select(
        vec![expr_col(Expr::Ident("id".to_string(), false, Span::new(7, 9)))],
        Some(make_from("nonexistent", Span::new(15, 26))),
    ))]);

    let diagnostics = analyze(&program);
    assert_eq!(diagnostics.len(), 1);
    assert!(diagnostics[0].message.contains("Unknown table 'nonexistent'"));
}

#[test]
fn test_rowid_valid_for_regular_table() {
    // CREATE TABLE t (a); SELECT rowid FROM t;
    // rowid is valid for regular tables (without WITHOUT ROWID)
    let program = make_program(vec![
        Statement::CreateTable(CreateTableStmt {
            temporary: false,
            if_not_exists: false,
            schema: None,
            table_name: "t".to_string(),
            columns: vec![ColumnDef {
                name: "a".to_string(),
                type_spec: None,
                constraints: vec![],
                doc: None,
                span: Span::new(16, 17),
            }],
            table_constraints: vec![],
            table_options: vec![], // No WITHOUT ROWID
            as_select: None,
            doc: None,
            span: Span::new(0, 19),
        }),
        Statement::Select(make_select(
            vec![expr_col(Expr::Ident("rowid".to_string(), false, Span::new(27, 32)))],
            Some(make_from("t", Span::new(38, 39))),
        )),
    ]);

    let diagnostics = analyze(&program);
    assert_eq!(diagnostics.len(), 0, "rowid should be valid for regular tables");
}

#[test]
fn test_rowid_invalid_for_without_rowid_table() {
    // CREATE TABLE t (a PRIMARY KEY) WITHOUT ROWID; SELECT rowid FROM t;
    // rowid is NOT valid for WITHOUT ROWID tables
    let program = make_program(vec![
        Statement::CreateTable(CreateTableStmt {
            temporary: false,
            if_not_exists: false,
            schema: None,
            table_name: "t".to_string(),
            columns: vec![ColumnDef {
                name: "a".to_string(),
                type_spec: None,
                constraints: vec![],
                doc: None,
                span: Span::new(16, 17),
            }],
            table_constraints: vec![],
            table_options: vec![TableOption::WithoutRowid],
            as_select: None,
            doc: None,
            span: Span::new(0, 45),
        }),
        Statement::Select(make_select(
            vec![expr_col(Expr::Ident("rowid".to_string(), false, Span::new(54, 59)))],
            Some(make_from("t", Span::new(65, 66))),
        )),
    ]);

    let diagnostics = analyze(&program);
    assert_eq!(diagnostics.len(), 1, "rowid should be invalid for WITHOUT ROWID tables");
    assert!(diagnostics[0].message.contains("Column 'rowid' does not exist"));
}

#[test]
fn test_select_star_from_table() {
    // CREATE TABLE users (id); SELECT * FROM users;
    let program = make_program(vec![
        Statement::CreateTable(CreateTableStmt {
            temporary: false,
            if_not_exists: false,
            schema: None,
            table_name: "users".to_string(),
            columns: vec![ColumnDef {
                name: "id".to_string(),
                type_spec: None,
                constraints: vec![],
                doc: None,
                span: Span::new(20, 22),
            }],
            table_constraints: vec![],
            table_options: vec![],
            as_select: None,
            doc: None,
            span: Span::new(0, 24),
        }),
        Statement::Select(make_select(
            vec![ResultColumn::Star(Span::new(32, 33))],
            Some(make_from("users", Span::new(39, 44))),
        )),
    ]);

    let diagnostics = analyze(&program);
    assert!(diagnostics.is_empty());
}

#[test]
fn test_column_case_insensitive() {
    // CREATE TABLE users (ID); SELECT id FROM users;
    let program = make_program(vec![
        Statement::CreateTable(CreateTableStmt {
            temporary: false,
            if_not_exists: false,
            schema: None,
            table_name: "users".to_string(),
            columns: vec![ColumnDef {
                name: "ID".to_string(),
                type_spec: None,
                constraints: vec![],
                doc: None,
                span: Span::new(20, 22),
            }],
            table_constraints: vec![],
            table_options: vec![],
            as_select: None,
            doc: None,
            span: Span::new(0, 24),
        }),
        Statement::Select(make_select(
            vec![expr_col(Expr::Ident("id".to_string(), false, Span::new(32, 34)))],
            Some(make_from("users", Span::new(40, 45))),
        )),
    ]);

    let diagnostics = analyze(&program);
    assert!(diagnostics.is_empty());
}

// Tests for external schema support (cross-cell notebook scenarios)

/// An external schema holding the given tables, each with its columns.
fn make_external_schema(tables: Vec<(&str, Vec<&str>)>) -> Schema {
    let mut schema = Schema::new();
    for (table_name, columns) in tables {
        schema.add_table(table_name, columns.into_iter().map(String::from).collect(), false);
    }
    schema
}

#[test]
fn test_external_schema_table_lookup() {
    // External schema has "users" table, SELECT from it should succeed
    let external = make_external_schema(vec![("users", vec!["id", "name"])]);

    // SELECT id FROM users; (no CREATE TABLE in this program)
    let program = make_program(vec![Statement::Select(make_select(
        vec![expr_col(Expr::Ident("id".to_string(), false, Span::new(7, 9)))],
        Some(make_from("users", Span::new(15, 20))),
    ))]);

    let diagnostics = analyze_with_schema(&program, Some(&external));
    assert!(diagnostics.is_empty(), "Expected no errors but got: {:?}", diagnostics);
}

#[test]
fn test_external_schema_invalid_column() {
    // External schema has "users" table with "id" column
    // SELECT email FROM users; should fail (no email column)
    let external = make_external_schema(vec![("users", vec!["id", "name"])]);

    let program = make_program(vec![Statement::Select(make_select(
        vec![expr_col(Expr::Ident("email".to_string(), false, Span::new(7, 12)))],
        Some(make_from("users", Span::new(18, 23))),
    ))]);

    let diagnostics = analyze_with_schema(&program, Some(&external));
    assert_eq!(diagnostics.len(), 1);
    assert!(diagnostics[0].message.contains("Column 'email' does not exist"));
}

#[test]
fn test_external_schema_unknown_table() {
    // External schema has "users" table, but we SELECT from "orders"
    let external = make_external_schema(vec![("users", vec!["id"])]);

    let program = make_program(vec![Statement::Select(make_select(
        vec![expr_col(Expr::Ident("id".to_string(), false, Span::new(7, 9)))],
        Some(make_from("orders", Span::new(15, 21))),
    ))]);

    let diagnostics = analyze_with_schema(&program, Some(&external));
    assert_eq!(diagnostics.len(), 1);
    assert!(diagnostics[0].message.contains("Unknown table 'orders'"));
}

#[test]
fn test_local_table_shadows_external() {
    // External schema has "users" with columns (id)
    // Local CREATE TABLE has "users" with columns (email)
    // SELECT email FROM users; should succeed (local takes precedence)
    let external = make_external_schema(vec![("users", vec!["id"])]);

    let program = make_program(vec![
        Statement::CreateTable(CreateTableStmt {
            temporary: false,
            if_not_exists: false,
            schema: None,
            table_name: "users".to_string(),
            columns: vec![ColumnDef {
                name: "email".to_string(),
                type_spec: None,
                constraints: vec![],
                doc: None,
                span: Span::new(20, 25),
            }],
            table_constraints: vec![],
            table_options: vec![],
            as_select: None,
            doc: None,
            span: Span::new(0, 27),
        }),
        Statement::Select(make_select(
            vec![expr_col(Expr::Ident("email".to_string(), false, Span::new(35, 40)))],
            Some(make_from("users", Span::new(46, 51))),
        )),
    ]);

    let diagnostics = analyze_with_schema(&program, Some(&external));
    assert!(diagnostics.is_empty(), "Expected no errors but got: {:?}", diagnostics);
}

#[test]
fn test_build_schema_extracts_tables() {
    let program = make_program(vec![
        Statement::CreateTable(CreateTableStmt {
            temporary: false,
            if_not_exists: false,
            schema: None,
            table_name: "Users".to_string(),
            columns: vec![
                ColumnDef {
                    name: "ID".to_string(),
                    type_spec: None,
                    constraints: vec![],
                    doc: None,
                    span: Span::new(20, 22),
                },
                ColumnDef {
                    name: "Name".to_string(),
                    type_spec: None,
                    constraints: vec![],
                    doc: None,
                    span: Span::new(24, 28),
                },
            ],
            table_constraints: vec![],
            table_options: vec![],
            as_select: None,
            doc: None,
            span: Span::new(0, 30),
        }),
        Statement::Select(make_select(
            vec![expr_col(Expr::Integer(1, Span::new(38, 39)))],
            None,
        )),
    ]);

    let schema = build_schema(&program);

    // Check table exists (case-insensitive)
    assert!(schema.has_table("users"));
    assert!(schema.has_table("USERS"));
    assert!(schema.has_table("Users"));
    assert!(!schema.has_table("orders"));

    // Check original table name is preserved
    let names: Vec<_> = schema.table_names();
    assert_eq!(names, vec!["Users"]);

    // Check columns (case-insensitive lookup, original case preserved)
    let cols = schema.columns_for_table("users").unwrap();
    assert_eq!(cols, &["ID".to_string(), "Name".to_string()]);
}

#[test]
fn test_schema_get_table() {
    let schema = make_external_schema(vec![("Products", vec!["sku", "Price"])]);

    let table = schema.get_table("products").unwrap();
    assert!(table.columns.contains_key("sku"));
    assert!(table.columns.contains_key("price"));
    assert!(!table.columns.contains_key("name"));
}

// ========================================
// Tests for Index tracking
// ========================================


fn make_indexed_column(name: &str) -> IndexedColumn {
    IndexedColumn {
        column: Expr::Ident(name.to_string(), false, Span::new(0, name.len())),
        collation: None,
        direction: None,
        span: Span::new(0, name.len()),
    }
}

#[test]
fn test_schema_tracks_indexes() {
    let program = make_program(vec![
        Statement::CreateTable(CreateTableStmt {
            temporary: false,
            if_not_exists: false,
            schema: None,
            table_name: "users".to_string(),
            columns: vec![ColumnDef {
                name: "id".to_string(),
                type_spec: Some("INTEGER".to_string()),
                constraints: vec![],
                doc: None,
                span: Span::new(20, 22),
            }],
            table_constraints: vec![],
            table_options: vec![],
            as_select: None,
            doc: None,
            span: Span::new(0, 30),
        }),
        Statement::CreateIndex(CreateIndexStmt {
            unique: false,
            if_not_exists: false,
            schema: None,
            index_name: "idx_users_id".to_string(),
            table_name: "users".to_string(),
            columns: vec![make_indexed_column("id")],
            where_clause: None,
            span: Span::new(35, 70),
        }),
    ]);

    let schema = build_schema(&program);

    assert!(schema.has_index("idx_users_id"));
    assert!(schema.has_index("IDX_USERS_ID")); // case insensitive
    assert!(!schema.has_index("nonexistent_idx"));

    let idx = schema.get_index("idx_users_id").unwrap();
    assert_eq!(idx.name, "idx_users_id");
    assert_eq!(idx.table_name, "users");
    assert_eq!(idx.columns, vec!["id".to_string()]);
    assert!(!idx.is_unique);
}

#[test]
fn test_schema_tracks_unique_indexes() {
    let program = make_program(vec![
        Statement::CreateIndex(CreateIndexStmt {
            unique: true,
            if_not_exists: false,
            schema: None,
            index_name: "idx_unique_email".to_string(),
            table_name: "users".to_string(),
            columns: vec![make_indexed_column("email")],
            where_clause: None,
            span: Span::new(0, 50),
        }),
    ]);

    let schema = build_schema(&program);
    let idx = schema.get_index("idx_unique_email").unwrap();
    assert!(idx.is_unique);
}

#[test]
fn test_schema_tracks_multi_column_indexes() {
    let program = make_program(vec![
        Statement::CreateIndex(CreateIndexStmt {
            unique: false,
            if_not_exists: false,
            schema: None,
            index_name: "idx_multi".to_string(),
            table_name: "users".to_string(),
            columns: vec![
                make_indexed_column("first_name"),
                make_indexed_column("last_name"),
            ],
            where_clause: None,
            span: Span::new(0, 60),
        }),
    ]);

    let schema = build_schema(&program);
    let idx = schema.get_index("idx_multi").unwrap();
    assert_eq!(idx.columns, vec!["first_name".to_string(), "last_name".to_string()]);
}

#[test]
fn test_index_names_iterator() {
    let program = make_program(vec![
        Statement::CreateIndex(CreateIndexStmt {
            unique: false,
            if_not_exists: false,
            schema: None,
            index_name: "idx_a".to_string(),
            table_name: "t".to_string(),
            columns: vec![make_indexed_column("a")],
            where_clause: None,
            span: Span::new(0, 30),
        }),
        Statement::CreateIndex(CreateIndexStmt {
            unique: true,
            if_not_exists: false,
            schema: None,
            index_name: "idx_b".to_string(),
            table_name: "t".to_string(),
            columns: vec![make_indexed_column("b")],
            where_clause: None,
            span: Span::new(35, 65),
        }),
    ]);

    let schema = build_schema(&program);
    let mut names: Vec<_> = schema.index_names();
    names.sort();
    assert_eq!(names, vec!["idx_a", "idx_b"]);
}

// ========================================
// Tests for View tracking
// ========================================


#[test]
fn test_schema_tracks_views_with_explicit_columns() {
    let program = make_program(vec![
        Statement::CreateView(CreateViewStmt {
            temporary: false,
            if_not_exists: false,
            schema: None,
            view_name: "v_users".to_string(),
            columns: Some(vec!["user_id".to_string(), "user_name".to_string()]),
            select: Box::new(make_select(
                vec![
                    expr_col(Expr::Ident("id".to_string(), false, Span::new(0, 2))),
                    expr_col(Expr::Ident("name".to_string(), false, Span::new(4, 8))),
                ],
                Some(make_from("users", Span::new(14, 19))),
            )),
            span: Span::new(0, 50),
        }),
    ]);

    let schema = build_schema(&program);

    assert!(schema.has_view("v_users"));
    assert!(schema.has_view("V_USERS")); // case insensitive
    assert!(!schema.has_view("nonexistent_view"));

    let view = schema.get_view("v_users").unwrap();
    assert_eq!(view.name, "v_users");
    assert_eq!(view.columns, vec!["user_id".to_string(), "user_name".to_string()]);

    // Also test columns_for_view
    let cols = schema.columns_for_view("v_users").unwrap();
    assert_eq!(cols, &["user_id".to_string(), "user_name".to_string()]);
}

#[test]
fn test_schema_tracks_views_inferred_columns() {
    // When no explicit columns are provided, infer from SELECT
    let program = make_program(vec![
        Statement::CreateView(CreateViewStmt {
            temporary: false,
            if_not_exists: false,
            schema: None,
            view_name: "v_test".to_string(),
            columns: None, // No explicit columns
            select: Box::new(make_select(
                vec![
                    expr_col(Expr::Ident("a".to_string(), false, Span::new(0, 1))),
                    expr_col(Expr::Ident("b".to_string(), false, Span::new(3, 4))),
                ],
                None,
            )),
            span: Span::new(0, 40),
        }),
    ]);

    let schema = build_schema(&program);
    let cols = schema.columns_for_view("v_test").unwrap();
    assert_eq!(cols, &["a".to_string(), "b".to_string()]);
}

#[test]
fn test_schema_tracks_views_with_aliases() {
    // SELECT columns with aliases should use the alias as column name
    let program = make_program(vec![
        Statement::CreateView(CreateViewStmt {
            temporary: false,
            if_not_exists: false,
            schema: None,
            view_name: "v_aliased".to_string(),
            columns: None,
            select: Box::new(SelectStmt {
                with_clause: None,
                distinct: DistinctAll::All,
                columns: vec![
                    ResultColumn::Expr {
                        expr: Expr::Ident("id".to_string(), false, Span::new(0, 2)),
                        alias: Some("user_id".to_string()),
                        alias_has_as: true,
                        span: Span::new(0, 12),
                    },
                    ResultColumn::Expr {
                        expr: Expr::Ident("name".to_string(), false, Span::new(14, 18)),
                        alias: None,
                        alias_has_as: false,
                        span: Span::new(14, 18),
                    },
                ],
                from: None,
                where_clause: None,
                group_by: None,
                having: None,
                compounds: vec![],
                order_by: None,
                limit: None,
                span: Span::new(0, 20),
            }),
            span: Span::new(0, 50),
        }),
    ]);

    let schema = build_schema(&program);
    let cols = schema.columns_for_view("v_aliased").unwrap();
    assert_eq!(cols, &["user_id".to_string(), "name".to_string()]);
}

#[test]
fn test_view_names_iterator() {
    let program = make_program(vec![
        Statement::CreateView(CreateViewStmt {
            temporary: false,
            if_not_exists: false,
            schema: None,
            view_name: "view_alpha".to_string(),
            columns: Some(vec!["x".to_string()]),
            select: Box::new(make_select(vec![expr_col(Expr::Integer(1, Span::new(0, 1)))], None)),
            span: Span::new(0, 30),
        }),
        Statement::CreateView(CreateViewStmt {
            temporary: false,
            if_not_exists: false,
            schema: None,
            view_name: "view_beta".to_string(),
            columns: Some(vec!["y".to_string()]),
            select: Box::new(make_select(vec![expr_col(Expr::Integer(2, Span::new(0, 1)))], None)),
            span: Span::new(35, 65),
        }),
    ]);

    let schema = build_schema(&program);
    let mut names: Vec<_> = schema.view_names();
    names.sort();
    assert_eq!(names, vec!["view_alpha", "view_beta"]);
}

// ========================================
// Tests for Trigger tracking
// ========================================


#[test]
fn test_schema_tracks_triggers_insert() {
    let program = make_program(vec![
        Statement::CreateTrigger(CreateTriggerStmt {
            temporary: false,
            if_not_exists: false,
            schema: None,
            trigger_name: "trg_users_insert".to_string(),
            timing: TriggerTiming::After,
            event: TriggerEvent::Insert,
            table_name: "users".to_string(),
            for_each_row: true,
            when_clause: None,
            body: vec![],
            span: Span::new(0, 60),
        }),
    ]);

    let schema = build_schema(&program);

    assert!(schema.has_trigger("trg_users_insert"));
    assert!(schema.has_trigger("TRG_USERS_INSERT")); // case insensitive
    assert!(!schema.has_trigger("nonexistent"));

    let trg = schema.get_trigger("trg_users_insert").unwrap();
    assert_eq!(trg.name, "trg_users_insert");
    assert_eq!(trg.table_name, "users");
    assert_eq!(trg.event, TriggerEventType::Insert);
}

#[test]
fn test_schema_tracks_triggers_update() {
    let program = make_program(vec![
        Statement::CreateTrigger(CreateTriggerStmt {
            temporary: false,
            if_not_exists: false,
            schema: None,
            trigger_name: "trg_update".to_string(),
            timing: TriggerTiming::Before,
            event: TriggerEvent::Update { columns: Some(vec!["name".to_string()]) },
            table_name: "users".to_string(),
            for_each_row: true,
            when_clause: None,
            body: vec![],
            span: Span::new(0, 60),
        }),
    ]);

    let schema = build_schema(&program);
    let trg = schema.get_trigger("trg_update").unwrap();
    assert_eq!(trg.event, TriggerEventType::Update);
}

#[test]
fn test_schema_tracks_triggers_delete() {
    let program = make_program(vec![
        Statement::CreateTrigger(CreateTriggerStmt {
            temporary: false,
            if_not_exists: false,
            schema: None,
            trigger_name: "trg_delete".to_string(),
            timing: TriggerTiming::After,
            event: TriggerEvent::Delete,
            table_name: "orders".to_string(),
            for_each_row: false,
            when_clause: None,
            body: vec![],
            span: Span::new(0, 50),
        }),
    ]);

    let schema = build_schema(&program);
    let trg = schema.get_trigger("trg_delete").unwrap();
    assert_eq!(trg.event, TriggerEventType::Delete);
    assert_eq!(trg.table_name, "orders");
}

#[test]
fn test_trigger_names_iterator() {
    let program = make_program(vec![
        Statement::CreateTrigger(CreateTriggerStmt {
            temporary: false,
            if_not_exists: false,
            schema: None,
            trigger_name: "trg_a".to_string(),
            timing: TriggerTiming::After,
            event: TriggerEvent::Insert,
            table_name: "t".to_string(),
            for_each_row: false,
            when_clause: None,
            body: vec![],
            span: Span::new(0, 30),
        }),
        Statement::CreateTrigger(CreateTriggerStmt {
            temporary: false,
            if_not_exists: false,
            schema: None,
            trigger_name: "trg_b".to_string(),
            timing: TriggerTiming::Before,
            event: TriggerEvent::Delete,
            table_name: "t".to_string(),
            for_each_row: false,
            when_clause: None,
            body: vec![],
            span: Span::new(35, 65),
        }),
    ]);

    let schema = build_schema(&program);
    let mut names: Vec<_> = schema.trigger_names();
    names.sort();
    assert_eq!(names, vec!["trg_a", "trg_b"]);
}

// ========================================
// Tests for DROP statements
// ========================================


#[test]
fn test_drop_table_removes_from_schema() {
    let program = make_program(vec![
        Statement::CreateTable(CreateTableStmt {
            temporary: false,
            if_not_exists: false,
            schema: None,
            table_name: "users".to_string(),
            columns: vec![ColumnDef {
                name: "id".to_string(),
                type_spec: None,
                constraints: vec![],
                doc: None,
                span: Span::new(20, 22),
            }],
            table_constraints: vec![],
            table_options: vec![],
            as_select: None,
            doc: None,
            span: Span::new(0, 30),
        }),
        Statement::DropTable(DropTableStmt {
            if_exists: false,
            schema: None,
            table_name: "users".to_string(),
            span: Span::new(35, 50),
        }),
    ]);

    let schema = build_schema(&program);
    assert!(!schema.has_table("users"));
}

#[test]
fn test_drop_index_removes_from_schema() {
    let program = make_program(vec![
        Statement::CreateIndex(CreateIndexStmt {
            unique: false,
            if_not_exists: false,
            schema: None,
            index_name: "idx_test".to_string(),
            table_name: "users".to_string(),
            columns: vec![make_indexed_column("id")],
            where_clause: None,
            span: Span::new(0, 40),
        }),
        Statement::DropIndex(DropIndexStmt {
            if_exists: false,
            schema: None,
            index_name: "idx_test".to_string(),
            span: Span::new(45, 60),
        }),
    ]);

    let schema = build_schema(&program);
    assert!(!schema.has_index("idx_test"));
}

#[test]
fn test_drop_view_removes_from_schema() {
    let program = make_program(vec![
        Statement::CreateView(CreateViewStmt {
            temporary: false,
            if_not_exists: false,
            schema: None,
            view_name: "v_test".to_string(),
            columns: Some(vec!["a".to_string()]),
            select: Box::new(make_select(vec![expr_col(Expr::Integer(1, Span::new(0, 1)))], None)),
            span: Span::new(0, 40),
        }),
        Statement::DropView(DropViewStmt {
            if_exists: false,
            schema: None,
            view_name: "v_test".to_string(),
            span: Span::new(45, 60),
        }),
    ]);

    let schema = build_schema(&program);
    assert!(!schema.has_view("v_test"));
}

#[test]
fn test_drop_trigger_removes_from_schema() {
    let program = make_program(vec![
        Statement::CreateTrigger(CreateTriggerStmt {
            temporary: false,
            if_not_exists: false,
            schema: None,
            trigger_name: "trg_test".to_string(),
            timing: TriggerTiming::After,
            event: TriggerEvent::Insert,
            table_name: "users".to_string(),
            for_each_row: false,
            when_clause: None,
            body: vec![],
            span: Span::new(0, 50),
        }),
        Statement::DropTrigger(DropTriggerStmt {
            if_exists: false,
            schema: None,
            trigger_name: "trg_test".to_string(),
            span: Span::new(55, 75),
        }),
    ]);

    let schema = build_schema(&program);
    assert!(!schema.has_trigger("trg_test"));
}

#[test]
fn test_drop_nonexistent_is_safe() {
    // Dropping something that doesn't exist shouldn't panic
    let program = make_program(vec![
        Statement::DropTable(DropTableStmt {
            if_exists: true,
            schema: None,
            table_name: "nonexistent".to_string(),
            span: Span::new(0, 30),
        }),
        Statement::DropIndex(DropIndexStmt {
            if_exists: true,
            schema: None,
            index_name: "nonexistent_idx".to_string(),
            span: Span::new(35, 65),
        }),
        Statement::DropView(DropViewStmt {
            if_exists: true,
            schema: None,
            view_name: "nonexistent_view".to_string(),
            span: Span::new(70, 100),
        }),
        Statement::DropTrigger(DropTriggerStmt {
            if_exists: true,
            schema: None,
            trigger_name: "nonexistent_trigger".to_string(),
            span: Span::new(105, 135),
        }),
    ]);

    let schema = build_schema(&program);
    // Should not panic, schema should just be empty
    assert!(!schema.has_table("nonexistent"));
    assert!(!schema.has_index("nonexistent_idx"));
    assert!(!schema.has_view("nonexistent_view"));
    assert!(!schema.has_trigger("nonexistent_trigger"));
}

#[test]
fn test_drop_case_insensitive() {
    let program = make_program(vec![
        Statement::CreateTable(CreateTableStmt {
            temporary: false,
            if_not_exists: false,
            schema: None,
            table_name: "Users".to_string(),
            columns: vec![ColumnDef {
                name: "id".to_string(),
                type_spec: None,
                constraints: vec![],
                doc: None,
                span: Span::new(20, 22),
            }],
            table_constraints: vec![],
            table_options: vec![],
            as_select: None,
            doc: None,
            span: Span::new(0, 30),
        }),
        Statement::DropTable(DropTableStmt {
            if_exists: false,
            schema: None,
            table_name: "USERS".to_string(), // Different case
            span: Span::new(35, 50),
        }),
    ]);

    let schema = build_schema(&program);
    assert!(!schema.has_table("users"));
    assert!(!schema.has_table("Users"));
    assert!(!schema.has_table("USERS"));
}

#[test]
fn test_recreate_after_drop() {
    // Create, drop, then recreate with different columns
    let program = make_program(vec![
        Statement::CreateTable(CreateTableStmt {
            temporary: false,
            if_not_exists: false,
            schema: None,
            table_name: "users".to_string(),
            columns: vec![ColumnDef {
                name: "old_col".to_string(),
                type_spec: None,
                constraints: vec![],
                doc: None,
                span: Span::new(20, 27),
            }],
            table_constraints: vec![],
            table_options: vec![],
            as_select: None,
            doc: None,
            span: Span::new(0, 30),
        }),
        Statement::DropTable(DropTableStmt {
            if_exists: false,
            schema: None,
            table_name: "users".to_string(),
            span: Span::new(35, 50),
        }),
        Statement::CreateTable(CreateTableStmt {
            temporary: false,
            if_not_exists: false,
            schema: None,
            table_name: "users".to_string(),
            columns: vec![ColumnDef {
                name: "new_col".to_string(),
                type_spec: None,
                constraints: vec![],
                doc: None,
                span: Span::new(70, 77),
            }],
            table_constraints: vec![],
            table_options: vec![],
            as_select: None,
            doc: None,
            span: Span::new(55, 85),
        }),
    ]);

    let schema = build_schema(&program);
    assert!(schema.has_table("users"));
    let cols = schema.columns_for_table("users").unwrap();
    assert_eq!(cols, &["new_col".to_string()]);
}

// ========================================
// Tests for complex scenarios
// ========================================

#[test]
fn test_schema_with_all_object_types() {
    let program = make_program(vec![
        Statement::CreateTable(CreateTableStmt {
            temporary: false,
            if_not_exists: false,
            schema: None,
            table_name: "users".to_string(),
            columns: vec![
                ColumnDef {
                    name: "id".to_string(),
                    type_spec: Some("INTEGER".to_string()),
                    constraints: vec![],
                    doc: None,
                    span: Span::new(20, 22),
                },
                ColumnDef {
                    name: "email".to_string(),
                    type_spec: Some("TEXT".to_string()),
                    constraints: vec![],
                    doc: None,
                    span: Span::new(24, 29),
                },
            ],
            table_constraints: vec![],
            table_options: vec![],
            as_select: None,
            doc: None,
            span: Span::new(0, 35),
        }),
        Statement::CreateIndex(CreateIndexStmt {
            unique: true,
            if_not_exists: false,
            schema: None,
            index_name: "idx_users_email".to_string(),
            table_name: "users".to_string(),
            columns: vec![make_indexed_column("email")],
            where_clause: None,
            span: Span::new(40, 80),
        }),
        Statement::CreateView(CreateViewStmt {
            temporary: false,
            if_not_exists: false,
            schema: None,
            view_name: "v_users".to_string(),
            columns: None,
            select: Box::new(make_select(
                vec![
                    expr_col(Expr::Ident("id".to_string(), false, Span::new(0, 2))),
                    expr_col(Expr::Ident("email".to_string(), false, Span::new(4, 9))),
                ],
                Some(make_from("users", Span::new(15, 20))),
            )),
            span: Span::new(85, 130),
        }),
        Statement::CreateTrigger(CreateTriggerStmt {
            temporary: false,
            if_not_exists: false,
            schema: None,
            trigger_name: "trg_users_audit".to_string(),
            timing: TriggerTiming::After,
            event: TriggerEvent::Insert,
            table_name: "users".to_string(),
            for_each_row: true,
            when_clause: None,
            body: vec![],
            span: Span::new(135, 200),
        }),
    ]);

    let schema = build_schema(&program);

    // Verify all objects exist
    assert!(schema.has_table("users"));
    assert!(schema.has_index("idx_users_email"));
    assert!(schema.has_view("v_users"));
    assert!(schema.has_trigger("trg_users_audit"));

    // Verify table columns
    let table_cols = schema.columns_for_table("users").unwrap();
    assert_eq!(table_cols, &["id".to_string(), "email".to_string()]);

    // Verify index details
    let idx = schema.get_index("idx_users_email").unwrap();
    assert!(idx.is_unique);
    assert_eq!(idx.table_name, "users");

    // Verify view columns (inferred from SELECT)
    let view_cols = schema.columns_for_view("v_users").unwrap();
    assert_eq!(view_cols, &["id".to_string(), "email".to_string()]);

    // Verify trigger details
    let trg = schema.get_trigger("trg_users_audit").unwrap();
    assert_eq!(trg.event, TriggerEventType::Insert);
}

// ========================================
// Tests for column validation in expressions
// ========================================


/// Helper to create a SelectStmt with WHERE clause
fn make_select_with_where(columns: Vec<ResultColumn>, from: Option<FromClause>, where_clause: Option<Expr>) -> SelectStmt {
    SelectStmt {
        with_clause: None,
        distinct: DistinctAll::All,
        columns,
        from,
        where_clause,
        group_by: None,
        having: None,
        compounds: Vec::new(),
        order_by: None,
        limit: None,
        span: Span::new(0, 100),
    }
}

#[test]
fn test_invalid_column_in_where_clause() {
    // CREATE TABLE users (id); SELECT id FROM users WHERE email = 'test';
    let program = make_program(vec![
        Statement::CreateTable(CreateTableStmt {
            temporary: false,
            if_not_exists: false,
            schema: None,
            table_name: "users".to_string(),
            columns: vec![ColumnDef {
                name: "id".to_string(),
                type_spec: None,
                constraints: vec![],
                doc: None,
                span: Span::new(20, 22),
            }],
            table_constraints: vec![],
            table_options: vec![],
            as_select: None,
            doc: None,
            span: Span::new(0, 24),
        }),
        Statement::Select(make_select_with_where(
            vec![expr_col(Expr::Ident("id".to_string(), false, Span::new(32, 34)))],
            Some(make_from("users", Span::new(40, 45))),
            Some(Expr::Binary {
                left: Box::new(Expr::Ident("email".to_string(), false, Span::new(52, 57))),
                op: BinaryOp::Eq,
                right: Box::new(Expr::String("test".to_string(), Span::new(60, 66))),
                span: Span::new(52, 66),
            }),
        )),
    ]);

    let diagnostics = analyze(&program);
    assert_eq!(diagnostics.len(), 1);
    assert!(diagnostics[0].message.contains("Column 'email' does not exist in table 'users'"));
}

#[test]
fn test_valid_column_in_where_clause() {
    // CREATE TABLE users (id, email); SELECT id FROM users WHERE email = 'test';
    let program = make_program(vec![
        Statement::CreateTable(CreateTableStmt {
            temporary: false,
            if_not_exists: false,
            schema: None,
            table_name: "users".to_string(),
            columns: vec![
                ColumnDef {
                    name: "id".to_string(),
                    type_spec: None,
                    constraints: vec![],
                    doc: None,
                    span: Span::new(20, 22),
                },
                ColumnDef {
                    name: "email".to_string(),
                    type_spec: None,
                    constraints: vec![],
                    doc: None,
                    span: Span::new(24, 29),
                },
            ],
            table_constraints: vec![],
            table_options: vec![],
            as_select: None,
            doc: None,
            span: Span::new(0, 31),
        }),
        Statement::Select(make_select_with_where(
            vec![expr_col(Expr::Ident("id".to_string(), false, Span::new(39, 41)))],
            Some(make_from("users", Span::new(47, 52))),
            Some(Expr::Binary {
                left: Box::new(Expr::Ident("email".to_string(), false, Span::new(59, 64))),
                op: BinaryOp::Eq,
                right: Box::new(Expr::String("test".to_string(), Span::new(67, 73))),
                span: Span::new(59, 73),
            }),
        )),
    ]);

    let diagnostics = analyze(&program);
    assert!(diagnostics.is_empty(), "Expected no errors but got: {:?}", diagnostics);
}

#[test]
fn test_invalid_column_in_group_by() {
    // CREATE TABLE users (id); SELECT id FROM users GROUP BY category;
    let program = make_program(vec![
        Statement::CreateTable(CreateTableStmt {
            temporary: false,
            if_not_exists: false,
            schema: None,
            table_name: "users".to_string(),
            columns: vec![ColumnDef {
                name: "id".to_string(),
                type_spec: None,
                constraints: vec![],
                doc: None,
                span: Span::new(20, 22),
            }],
            table_constraints: vec![],
            table_options: vec![],
            as_select: None,
            doc: None,
            span: Span::new(0, 24),
        }),
        Statement::Select(SelectStmt {
            with_clause: None,
            distinct: DistinctAll::All,
            columns: vec![expr_col(Expr::Ident("id".to_string(), false, Span::new(32, 34)))],
            from: Some(make_from("users", Span::new(40, 45))),
            where_clause: None,
            group_by: Some(vec![Expr::Ident("category".to_string(), false, Span::new(55, 63))]),
            having: None,
            compounds: Vec::new(),
            order_by: None,
            limit: None,
            span: Span::new(0, 65),
        }),
    ]);

    let diagnostics = analyze(&program);
    assert_eq!(diagnostics.len(), 1);
    assert!(diagnostics[0].message.contains("Column 'category' does not exist in table 'users'"));
}

#[test]
fn test_invalid_qualified_column() {
    // CREATE TABLE users (id); SELECT t.email FROM users AS t;
    let program = make_program(vec![
        Statement::CreateTable(CreateTableStmt {
            temporary: false,
            if_not_exists: false,
            schema: None,
            table_name: "users".to_string(),
            columns: vec![ColumnDef {
                name: "id".to_string(),
                type_spec: None,
                constraints: vec![],
                doc: None,
                span: Span::new(20, 22),
            }],
            table_constraints: vec![],
            table_options: vec![],
            as_select: None,
            doc: None,
            span: Span::new(0, 24),
        }),
        Statement::Select(make_select(
            vec![expr_col(Expr::Column {
                schema: None,
                table: Some("t".to_string()),
                column: "email".to_string(),
                span: Span::new(32, 39),
            })],
            Some(FromClause {
                tables: vec![TableOrSubquery::Table {
                    schema: None,
                    name: "users".to_string(),
                    alias: Some("t".to_string()),
                    alias_has_as: true,
                    indexed: None,
                    span: Span::new(45, 55),
                }],
                span: Span::new(45, 55),
            }),
        )),
    ]);

    let diagnostics = analyze(&program);
    assert_eq!(diagnostics.len(), 1);
    assert!(diagnostics[0].message.contains("Column 'email' does not exist in table 'users'"));
}

#[test]
fn test_valid_qualified_column_with_alias() {
    // CREATE TABLE users (id, email); SELECT t.email FROM users AS t;
    let program = make_program(vec![
        Statement::CreateTable(CreateTableStmt {
            temporary: false,
            if_not_exists: false,
            schema: None,
            table_name: "users".to_string(),
            columns: vec![
                ColumnDef {
                    name: "id".to_string(),
                    type_spec: None,
                    constraints: vec![],
                    doc: None,
                    span: Span::new(20, 22),
                },
                ColumnDef {
                    name: "email".to_string(),
                    type_spec: None,
                    constraints: vec![],
                    doc: None,
                    span: Span::new(24, 29),
                },
            ],
            table_constraints: vec![],
            table_options: vec![],
            as_select: None,
            doc: None,
            span: Span::new(0, 31),
        }),
        Statement::Select(make_select(
            vec![expr_col(Expr::Column {
                schema: None,
                table: Some("t".to_string()),
                column: "email".to_string(),
                span: Span::new(39, 46),
            })],
            Some(FromClause {
                tables: vec![TableOrSubquery::Table {
                    schema: None,
                    name: "users".to_string(),
                    alias: Some("t".to_string()),
                    alias_has_as: true,
                    indexed: None,
                    span: Span::new(52, 62),
                }],
                span: Span::new(52, 62),
            }),
        )),
    ]);

    let diagnostics = analyze(&program);
    assert!(diagnostics.is_empty(), "Expected no errors but got: {:?}", diagnostics);
}

#[test]
fn test_multiple_tables_column_from_any() {
    // CREATE TABLE users (id); CREATE TABLE orders (user_id);
    // SELECT id, user_id FROM users, orders;
    let program = make_program(vec![
        Statement::CreateTable(CreateTableStmt {
            temporary: false,
            if_not_exists: false,
            schema: None,
            table_name: "users".to_string(),
            columns: vec![ColumnDef {
                name: "id".to_string(),
                type_spec: None,
                constraints: vec![],
                doc: None,
                span: Span::new(20, 22),
            }],
            table_constraints: vec![],
            table_options: vec![],
            as_select: None,
            doc: None,
            span: Span::new(0, 24),
        }),
        Statement::CreateTable(CreateTableStmt {
            temporary: false,
            if_not_exists: false,
            schema: None,
            table_name: "orders".to_string(),
            columns: vec![ColumnDef {
                name: "user_id".to_string(),
                type_spec: None,
                constraints: vec![],
                doc: None,
                span: Span::new(45, 52),
            }],
            table_constraints: vec![],
            table_options: vec![],
            as_select: None,
            doc: None,
            span: Span::new(26, 54),
        }),
        Statement::Select(make_select(
            vec![
                expr_col(Expr::Ident("id".to_string(), false, Span::new(62, 64))),
                expr_col(Expr::Ident("user_id".to_string(), false, Span::new(66, 73))),
            ],
            Some(FromClause {
                tables: vec![
                    TableOrSubquery::Table {
                        schema: None,
                        name: "users".to_string(),
                        alias: None,
                        alias_has_as: false,
                        indexed: None,
                        span: Span::new(79, 84),
                    },
                    TableOrSubquery::Table {
                        schema: None,
                        name: "orders".to_string(),
                        alias: None,
                        alias_has_as: false,
                        indexed: None,
                        span: Span::new(86, 92),
                    },
                ],
                span: Span::new(79, 92),
            }),
        )),
    ]);

    let diagnostics = analyze(&program);
    assert!(diagnostics.is_empty(), "Expected no errors but got: {:?}", diagnostics);
}

#[test]
fn test_multiple_tables_invalid_column() {
    // CREATE TABLE users (id); CREATE TABLE orders (user_id);
    // SELECT unknown_col FROM users, orders;
    let program = make_program(vec![
        Statement::CreateTable(CreateTableStmt {
            temporary: false,
            if_not_exists: false,
            schema: None,
            table_name: "users".to_string(),
            columns: vec![ColumnDef {
                name: "id".to_string(),
                type_spec: None,
                constraints: vec![],
                doc: None,
                span: Span::new(20, 22),
            }],
            table_constraints: vec![],
            table_options: vec![],
            as_select: None,
            doc: None,
            span: Span::new(0, 24),
        }),
        Statement::CreateTable(CreateTableStmt {
            temporary: false,
            if_not_exists: false,
            schema: None,
            table_name: "orders".to_string(),
            columns: vec![ColumnDef {
                name: "user_id".to_string(),
                type_spec: None,
                constraints: vec![],
                doc: None,
                span: Span::new(45, 52),
            }],
            table_constraints: vec![],
            table_options: vec![],
            as_select: None,
            doc: None,
            span: Span::new(26, 54),
        }),
        Statement::Select(make_select(
            vec![expr_col(Expr::Ident("unknown_col".to_string(), false, Span::new(62, 73)))],
            Some(FromClause {
                tables: vec![
                    TableOrSubquery::Table {
                        schema: None,
                        name: "users".to_string(),
                        alias: None,
                        alias_has_as: false,
                        indexed: None,
                        span: Span::new(79, 84),
                    },
                    TableOrSubquery::Table {
                        schema: None,
                        name: "orders".to_string(),
                        alias: None,
                        alias_has_as: false,
                        indexed: None,
                        span: Span::new(86, 92),
                    },
                ],
                span: Span::new(79, 92),
            }),
        )),
    ]);

    let diagnostics = analyze(&program);
    assert_eq!(diagnostics.len(), 1);
    assert!(diagnostics[0].message.contains("Column 'unknown_col' does not exist in any available table"));
}

#[test]
fn test_join_with_on_condition_validation() {
    // CREATE TABLE users (id); CREATE TABLE orders (user_id);
    // SELECT * FROM users JOIN orders ON users.id = orders.invalid_col;
    let program = make_program(vec![
        Statement::CreateTable(CreateTableStmt {
            temporary: false,
            if_not_exists: false,
            schema: None,
            table_name: "users".to_string(),
            columns: vec![ColumnDef {
                name: "id".to_string(),
                type_spec: None,
                constraints: vec![],
                doc: None,
                span: Span::new(20, 22),
            }],
            table_constraints: vec![],
            table_options: vec![],
            as_select: None,
            doc: None,
            span: Span::new(0, 24),
        }),
        Statement::CreateTable(CreateTableStmt {
            temporary: false,
            if_not_exists: false,
            schema: None,
            table_name: "orders".to_string(),
            columns: vec![ColumnDef {
                name: "user_id".to_string(),
                type_spec: None,
                constraints: vec![],
                doc: None,
                span: Span::new(45, 52),
            }],
            table_constraints: vec![],
            table_options: vec![],
            as_select: None,
            doc: None,
            span: Span::new(26, 54),
        }),
        Statement::Select(make_select(
            vec![ResultColumn::Star(Span::new(62, 63))],
            Some(FromClause {
                tables: vec![TableOrSubquery::Join {
                    left: Box::new(TableOrSubquery::Table {
                        schema: None,
                        name: "users".to_string(),
                        alias: None,
                        alias_has_as: false,
                        indexed: None,
                        span: Span::new(69, 74),
                    }),
                    join_type: JoinType::Inner,
                    right: Box::new(TableOrSubquery::Table {
                        schema: None,
                        name: "orders".to_string(),
                        alias: None,
                        alias_has_as: false,
                        indexed: None,
                        span: Span::new(80, 86),
                    }),
                    constraint: Some(JoinConstraint::On(Expr::Binary {
                        left: Box::new(Expr::Column {
                            schema: None,
                            table: Some("users".to_string()),
                            column: "id".to_string(),
                            span: Span::new(90, 98),
                        }),
                        op: BinaryOp::Eq,
                        right: Box::new(Expr::Column {
                            schema: None,
                            table: Some("orders".to_string()),
                            column: "invalid_col".to_string(),
                            span: Span::new(101, 119),
                        }),
                        span: Span::new(90, 119),
                    })),
                    span: Span::new(69, 119),
                }],
                span: Span::new(69, 119),
            }),
        )),
    ]);

    let diagnostics = analyze(&program);
    assert_eq!(diagnostics.len(), 1);
    assert!(diagnostics[0].message.contains("Column 'invalid_col' does not exist in table 'orders'"));
}

#[test]
fn test_invalid_column_in_case_expression() {
    // CREATE TABLE users (id); SELECT CASE WHEN unknown = 1 THEN 'a' END FROM users;
    let program = make_program(vec![
        Statement::CreateTable(CreateTableStmt {
            temporary: false,
            if_not_exists: false,
            schema: None,
            table_name: "users".to_string(),
            columns: vec![ColumnDef {
                name: "id".to_string(),
                type_spec: None,
                constraints: vec![],
                doc: None,
                span: Span::new(20, 22),
            }],
            table_constraints: vec![],
            table_options: vec![],
            as_select: None,
            doc: None,
            span: Span::new(0, 24),
        }),
        Statement::Select(make_select(
            vec![expr_col(Expr::Case {
                operand: None,
                when_clauses: vec![(
                    Expr::Binary {
                        left: Box::new(Expr::Ident("unknown".to_string(), false, Span::new(42, 49))),
                        op: BinaryOp::Eq,
                        right: Box::new(Expr::Integer(1, Span::new(52, 53))),
                        span: Span::new(42, 53),
                    },
                    Expr::String("a".to_string(), Span::new(59, 62)),
                )],
                else_clause: None,
                span: Span::new(32, 66),
            })],
            Some(make_from("users", Span::new(72, 77))),
        )),
    ]);

    let diagnostics = analyze(&program);
    assert_eq!(diagnostics.len(), 1);
    assert!(diagnostics[0].message.contains("Column 'unknown' does not exist in table 'users'"));
}

#[test]
fn test_invalid_column_in_function_arg() {
    // CREATE TABLE users (id); SELECT COUNT(unknown) FROM users;
    let program = make_program(vec![
        Statement::CreateTable(CreateTableStmt {
            temporary: false,
            if_not_exists: false,
            schema: None,
            table_name: "users".to_string(),
            columns: vec![ColumnDef {
                name: "id".to_string(),
                type_spec: None,
                constraints: vec![],
                doc: None,
                span: Span::new(20, 22),
            }],
            table_constraints: vec![],
            table_options: vec![],
            as_select: None,
            doc: None,
            span: Span::new(0, 24),
        }),
        Statement::Select(make_select(
            vec![expr_col(Expr::FunctionCall {
                name: "COUNT".to_string(),
                args: vec![Expr::Ident("unknown".to_string(), false, Span::new(38, 45))],
                distinct: false,
                filter: None,
                over: None,
                span: Span::new(32, 46),
            })],
            Some(make_from("users", Span::new(52, 57))),
        )),
    ]);

    let diagnostics = analyze(&program);
    assert_eq!(diagnostics.len(), 1);
    assert!(diagnostics[0].message.contains("Column 'unknown' does not exist in table 'users'"));
}

#[test]
fn test_unknown_table_in_qualified_column() {
    // CREATE TABLE users (id); SELECT unknown_table.col FROM users;
    let program = make_program(vec![
        Statement::CreateTable(CreateTableStmt {
            temporary: false,
            if_not_exists: false,
            schema: None,
            table_name: "users".to_string(),
            columns: vec![ColumnDef {
                name: "id".to_string(),
                type_spec: None,
                constraints: vec![],
                doc: None,
                span: Span::new(20, 22),
            }],
            table_constraints: vec![],
            table_options: vec![],
            as_select: None,
            doc: None,
            span: Span::new(0, 24),
        }),
        Statement::Select(make_select(
            vec![expr_col(Expr::Column {
                schema: None,
                table: Some("unknown_table".to_string()),
                column: "col".to_string(),
                span: Span::new(32, 48),
            })],
            Some(make_from("users", Span::new(54, 59))),
        )),
    ]);

    let diagnostics = analyze(&program);
    assert_eq!(diagnostics.len(), 1);
    assert!(diagnostics[0].message.contains("Table 'unknown_table' not found in FROM clause"));
}

#[test]
fn test_invalid_column_in_having() {
    // CREATE TABLE users (id); SELECT id FROM users GROUP BY id HAVING unknown > 5;
    let program = make_program(vec![
        Statement::CreateTable(CreateTableStmt {
            temporary: false,
            if_not_exists: false,
            schema: None,
            table_name: "users".to_string(),
            columns: vec![ColumnDef {
                name: "id".to_string(),
                type_spec: None,
                constraints: vec![],
                doc: None,
                span: Span::new(20, 22),
            }],
            table_constraints: vec![],
            table_options: vec![],
            as_select: None,
            doc: None,
            span: Span::new(0, 24),
        }),
        Statement::Select(SelectStmt {
            with_clause: None,
            distinct: DistinctAll::All,
            columns: vec![expr_col(Expr::Ident("id".to_string(), false, Span::new(32, 34)))],
            from: Some(make_from("users", Span::new(40, 45))),
            where_clause: None,
            group_by: Some(vec![Expr::Ident("id".to_string(), false, Span::new(55, 57))]),
            having: Some(Expr::Binary {
                left: Box::new(Expr::Ident("unknown".to_string(), false, Span::new(65, 72))),
                op: BinaryOp::Gt,
                right: Box::new(Expr::Integer(5, Span::new(75, 76))),
                span: Span::new(65, 76),
            }),
            compounds: Vec::new(),
            order_by: None,
            limit: None,
            span: Span::new(0, 78),
        }),
    ]);

    let diagnostics = analyze(&program);
    assert_eq!(diagnostics.len(), 1);
    assert!(diagnostics[0].message.contains("Column 'unknown' does not exist in table 'users'"));
}

#[test]
fn test_invalid_column_in_order_by() {
    // CREATE TABLE users (id); SELECT id FROM users ORDER BY unknown;
    let program = make_program(vec![
        Statement::CreateTable(CreateTableStmt {
            temporary: false,
            if_not_exists: false,
            schema: None,
            table_name: "users".to_string(),
            columns: vec![ColumnDef {
                name: "id".to_string(),
                type_spec: None,
                constraints: vec![],
                doc: None,
                span: Span::new(20, 22),
            }],
            table_constraints: vec![],
            table_options: vec![],
            as_select: None,
            doc: None,
            span: Span::new(0, 24),
        }),
        Statement::Select(SelectStmt {
            with_clause: None,
            distinct: DistinctAll::All,
            columns: vec![expr_col(Expr::Ident("id".to_string(), false, Span::new(32, 34)))],
            from: Some(make_from("users", Span::new(40, 45))),
            where_clause: None,
            group_by: None,
            having: None,
            compounds: Vec::new(),
            order_by: Some(vec![OrderingTerm {
                expr: Expr::Ident("unknown".to_string(), false, Span::new(55, 62)),
                direction: None,
                nulls: None,
                span: Span::new(55, 62),
            }]),
            limit: None,
            span: Span::new(0, 64),
        }),
    ]);

    let diagnostics = analyze(&program);
    assert_eq!(diagnostics.len(), 1);
    assert!(diagnostics[0].message.contains("Column 'unknown' does not exist in table 'users'"));
}
// ========================================
// Programs of the lint and CTE tests, written out as the parser gives them
// ========================================

fn select_of(columns: Vec<ResultColumn>, from: Option<FromClause>, with_clause: Option<WithClause>, span: Span) -> SelectStmt {
    SelectStmt {
        with_clause,
        distinct: DistinctAll::All,
        columns,
        from,
        where_clause: None,
        group_by: None,
        having: None,
        compounds: Vec::new(),
        order_by: None,
        limit: None,
        span,
    }
}

fn aliased(expr: Expr, alias: &str, span: Span) -> ResultColumn {
    ResultColumn::Expr { expr, alias: Some(alias.to_string()), alias_has_as: true, span }
}

fn cte(name: &str, columns: Option<Vec<&str>>, select: SelectStmt, span: Span) -> CommonTableExpr {
    CommonTableExpr {
        name: name.to_string(),
        columns: columns.map(|c| c.into_iter().map(String::from).collect()),
        materialized: None,
        select: Box::new(select),
        span,
    }
}

fn with_of(ctes: Vec<CommonTableExpr>, span: Span) -> Option<WithClause> {
    Some(WithClause { recursive: false, ctes, span })
}

/// `CREATE TABLE users (id)` at the start of the source.
fn create_users_id() -> Statement {
    Statement::CreateTable(CreateTableStmt {
        temporary: false,
        if_not_exists: false,
        schema: None,
        table_name: "users".to_string(),
        columns: vec![ColumnDef { name: "id".to_string(), type_spec: None, constraints: vec![], doc: None, span: Span::new(20, 22) }],
        table_constraints: vec![],
        table_options: vec![],
        as_select: None,
        doc: None,
        span: Span::new(0, 23),
    })
}

/// `SELECT X''` (and `, "hello"` when `dq_at` is given) starting at `at`.
fn select_blob(at: usize, dq_at: Option<usize>) -> Program {
    let mut columns = vec![expr_col(Expr::Blob(vec![], Span::new(at + 7, at + 10)))];
    let mut end = at + 10;
    if let Some(d) = dq_at {
        columns.push(expr_col(Expr::Ident("hello".to_string(), true, Span::new(d, d + 7))));
        end = d + 7;
    }
    make_program(vec![Statement::Select(select_of(columns, None, None, Span::new(at, end)))])
}

#[test]
fn test_empty_blob_warning() {
    let source = "SELECT X''";
    let program = select_blob(0, None);
    let config = LintConfig::default();
    let results = lint_with_config(&program, source, &config, None);
    assert_eq!(results.len(), 1);
    assert!(results[0].diagnostic.message.contains("Empty blob"));
    assert_eq!(results[0].diagnostic.rule_id, "empty-blob-literal");
}

#[test]
fn test_double_quoted_identifier_warning() {
    let source = r#"SELECT "hello""#;
    let program = make_program(vec![Statement::Select(select_of(
        vec![expr_col(Expr::Ident("hello".to_string(), true, Span::new(7, 14)))],
        None,
        None,
        Span::new(0, 14),
    ))]);
    let config = LintConfig::default();
    let results = lint_with_config(&program, source, &config, None);
    assert_eq!(results.len(), 1);
    assert!(results[0].diagnostic.message.contains("Double-quoted"));
    assert!(results[0].diagnostic.message.contains("single quotes"));
    assert_eq!(results[0].diagnostic.rule_id, "double-quoted-string");
    assert_eq!(results[0].diagnostic.severity, RuleSeverity::Warning);
}

#[test]
fn test_suppression_next_line() {
    let source = "-- solite-ignore: empty-blob-literal\nSELECT X''";
    let program = select_blob(37, None);
    let config = LintConfig::default();
    let results = lint_with_config(&program, source, &config, None);
    assert_eq!(results.len(), 0, "Next-line suppression should suppress the warning");
}

#[test]
fn test_suppression_multiple_rules() {
    let source = "-- solite-ignore: empty-blob-literal, double-quoted-string\nSELECT X'', \"hello\"";
    let program = select_blob(59, Some(71));
    let config = LintConfig::default();
    let results = lint_with_config(&program, source, &config, None);
    assert_eq!(results.len(), 0, "Both rules should be suppressed");
}

#[test]
fn test_suppression_does_not_affect_other_rules() {
    let source = "-- solite-ignore: empty-blob-literal\nSELECT X'', \"hello\"";
    let program = select_blob(37, Some(49));
    let config = LintConfig::default();
    let results = lint_with_config(&program, source, &config, None);
    assert_eq!(results.len(), 1, "Only one warning should remain");
    assert_eq!(results[0].diagnostic.rule_id, "double-quoted-string");
}

#[test]
fn test_cte_not_flagged_as_unknown_table() {
    // WITH foo AS (SELECT 1 AS x) SELECT * FROM foo
    let inner = select_of(vec![aliased(Expr::Integer(1, Span::new(20, 21)), "x", Span::new(20, 26))], None, None, Span::new(13, 26));
    let program = make_program(vec![Statement::Select(select_of(
        vec![ResultColumn::Star(Span::new(35, 36))],
        Some(make_from("foo", Span::new(42, 45))),
        with_of(vec![cte("foo", None, inner, Span::new(5, 27))], Span::new(0, 27)),
        Span::new(0, 45),
    ))]);
    let diagnostics = analyze(&program);
    assert!(diagnostics.is_empty(), "CTE 'foo' should be recognized as a valid table, got: {:?}", diagnostics);
}

#[test]
fn test_cte_column_validation() {
    // WITH foo AS (SELECT 1 AS x, 2 AS y) SELECT x FROM foo
    let inner = select_of(
        vec![
            aliased(Expr::Integer(1, Span::new(20, 21)), "x", Span::new(20, 26)),
            aliased(Expr::Integer(2, Span::new(28, 29)), "y", Span::new(28, 34)),
        ],
        None,
        None,
        Span::new(13, 34),
    );
    let program = make_program(vec![Statement::Select(select_of(
        vec![expr_col(Expr::Ident("x".to_string(), false, Span::new(43, 44)))],
        Some(make_from("foo", Span::new(50, 53))),
        with_of(vec![cte("foo", None, inner, Span::new(5, 35))], Span::new(0, 35)),
        Span::new(0, 53),
    ))]);
    let diagnostics = analyze(&program);
    assert!(diagnostics.is_empty(), "Column 'x' should be valid in CTE 'foo', got: {:?}", diagnostics);
}

#[test]
fn test_cte_invalid_column() {
    // WITH foo AS (SELECT 1 AS x) SELECT z FROM foo
    let inner = select_of(vec![aliased(Expr::Integer(1, Span::new(20, 21)), "x", Span::new(20, 26))], None, None, Span::new(13, 26));
    let program = make_program(vec![Statement::Select(select_of(
        vec![expr_col(Expr::Ident("z".to_string(), false, Span::new(35, 36)))],
        Some(make_from("foo", Span::new(42, 45))),
        with_of(vec![cte("foo", None, inner, Span::new(5, 27))], Span::new(0, 27)),
        Span::new(0, 45),
    ))]);
    let diagnostics = analyze(&program);
    assert_eq!(diagnostics.len(), 1, "Column 'z' should be flagged as unknown");
    assert!(diagnostics[0].message.contains("Column 'z' does not exist"));
}

#[test]
fn test_earlier_cte_visible_to_later_cte() {
    // WITH foo AS (SELECT 1 AS x), bar AS (SELECT * FROM foo) SELECT * FROM bar
    let foo = select_of(vec![aliased(Expr::Integer(1, Span::new(20, 21)), "x", Span::new(20, 26))], None, None, Span::new(13, 26));
    let bar = select_of(
        vec![ResultColumn::Star(Span::new(44, 45))],
        Some(make_from("foo", Span::new(51, 54))),
        None,
        Span::new(37, 54),
    );
    let program = make_program(vec![Statement::Select(select_of(
        vec![ResultColumn::Star(Span::new(63, 64))],
        Some(make_from("bar", Span::new(70, 73))),
        with_of(vec![cte("foo", None, foo, Span::new(5, 27)), cte("bar", None, bar, Span::new(29, 55))], Span::new(0, 55)),
        Span::new(0, 73),
    ))]);
    let diagnostics = analyze(&program);
    assert!(diagnostics.is_empty(), "Earlier CTE 'foo' should be visible to later CTE 'bar', got: {:?}", diagnostics);
}

#[test]
fn test_cte_with_explicit_columns() {
    // WITH foo(a, b) AS (SELECT 1, 2) SELECT a, b FROM foo
    let inner = select_of(
        vec![expr_col(Expr::Integer(1, Span::new(26, 27))), expr_col(Expr::Integer(2, Span::new(29, 30)))],
        None,
        None,
        Span::new(19, 30),
    );
    let program = make_program(vec![Statement::Select(select_of(
        vec![
            expr_col(Expr::Ident("a".to_string(), false, Span::new(39, 40))),
            expr_col(Expr::Ident("b".to_string(), false, Span::new(42, 43))),
        ],
        Some(make_from("foo", Span::new(49, 52))),
        with_of(vec![cte("foo", Some(vec!["a", "b"]), inner, Span::new(5, 31))], Span::new(0, 31)),
        Span::new(0, 52),
    ))]);
    let diagnostics = analyze(&program);
    assert!(diagnostics.is_empty(), "Explicit CTE columns 'a' and 'b' should be valid, got: {:?}", diagnostics);
}

#[test]
fn test_cte_shadows_real_table() {
    // CREATE TABLE users (id); WITH users AS (SELECT 1 AS x) SELECT x FROM users
    let inner = select_of(vec![aliased(Expr::Integer(1, Span::new(47, 48)), "x", Span::new(47, 53))], None, None, Span::new(40, 53));
    let program = make_program(vec![
        create_users_id(),
        Statement::Select(select_of(
            vec![expr_col(Expr::Ident("x".to_string(), false, Span::new(62, 63)))],
            Some(make_from("users", Span::new(69, 74))),
            with_of(vec![cte("users", None, inner, Span::new(30, 54))], Span::new(25, 54)),
            Span::new(25, 74),
        )),
    ]);
    let diagnostics = analyze(&program);
    assert!(diagnostics.is_empty(), "CTE should shadow real table, got: {:?}", diagnostics);
}

#[test]
fn test_cte_in_compound_select() {
    // WITH foo AS (SELECT 1 AS x) SELECT x FROM foo UNION SELECT x FROM foo
    let inner = select_of(vec![aliased(Expr::Integer(1, Span::new(20, 21)), "x", Span::new(20, 26))], None, None, Span::new(13, 26));
    let mut outer = select_of(
        vec![expr_col(Expr::Ident("x".to_string(), false, Span::new(35, 36)))],
        Some(make_from("foo", Span::new(42, 45))),
        with_of(vec![cte("foo", None, inner, Span::new(5, 27))], Span::new(0, 27)),
        Span::new(0, 69),
    );
    outer.compounds.push((
        CompoundOp::Union,
        SelectCore {
            distinct: DistinctAll::All,
            columns: vec![expr_col(Expr::Ident("x".to_string(), false, Span::new(59, 60)))],
            from: Some(make_from("foo", Span::new(66, 69))),
            where_clause: None,
            group_by: None,
            having: None,
            span: Span::new(52, 69),
        },
    ));
    let program = make_program(vec![Statement::Select(outer)]);
    let diagnostics = analyze(&program);
    assert!(diagnostics.is_empty(), "CTE should be visible in both parts of compound SELECT, got: {:?}", diagnostics);
}

#[test]
fn test_cte_column_inferred_from_expression() {
    // CREATE TABLE users (id); WITH foo AS (SELECT id FROM users) SELECT id FROM foo
    let inner = select_of(
        vec![expr_col(Expr::Ident("id".to_string(), false, Span::new(45, 47)))],
        Some(make_from("users", Span::new(53, 58))),
        None,
        Span::new(38, 58),
    );
    let program = make_program(vec![
        create_users_id(),
        Statement::Select(select_of(
            vec![expr_col(Expr::Ident("id".to_string(), false, Span::new(67, 69)))],
            Some(make_from("foo", Span::new(75, 78))),
            with_of(vec![cte("foo", None, inner, Span::new(30, 59))], Span::new(25, 59)),
            Span::new(25, 78),
        )),
    ]);
    let diagnostics = analyze(&program);
    assert!(diagnostics.is_empty(), "Column 'id' should be inferred from CTE expression, got: {:?}", diagnostics);
}
