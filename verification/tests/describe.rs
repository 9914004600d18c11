use solite::cli::describe::{
    describe_footer_text, describe_header_text, describe_sections_text, render_describe_text, render_text,
    ColumnDesc, ForeignKeyDesc, IndexDesc, TableDescription,
};

fn column(name: &str, declared: &str, affinity: &str, pk: i64, not_null: bool, default: Option<&str>, hidden: i64) -> ColumnDesc {
    ColumnDesc {
        name: name.to_string(),
        declared_type: declared.to_string(),
        affinity: affinity.to_string(),
        pk,
        not_null,
        default: default.map(|d| d.to_string()),
        hidden,
    }
}

fn accounts() -> TableDescription {
    TableDescription {
        schema: "main".to_string(),
        name: "accounts".to_string(),
        kind_label: "table".to_string(),
        row_count_label: Some("2".to_string()),
        exact_row_count: Some(2),
        without_rowid: false,
        strict: false,
        columns: vec![
            column("id", "INTEGER", "INTEGER", 1, false, None, 0),
            column("owner_id", "INTEGER", "INTEGER", 0, false, None, 0),
            column("label", "VARCHAR(20)", "TEXT", 0, false, Some("'default'"), 0),
        ],
        foreign_keys_out: vec![ForeignKeyDesc {
            from_table: "accounts".to_string(),
            from_column: "owner_id".to_string(),
            to_table: "users".to_string(),
            to_column: Some("id".to_string()),
            on_delete: "CASCADE".to_string(),
            on_update: "NO ACTION".to_string(),
        }],
        foreign_keys_in: vec![ForeignKeyDesc {
            from_table: "orders".to_string(),
            from_column: "account_id".to_string(),
            to_table: "accounts".to_string(),
            to_column: None,
            on_delete: "NO ACTION".to_string(),
            on_update: "NO ACTION".to_string(),
        }],
        indexes: vec![IndexDesc {
            name: "idx_accounts_owner".to_string(),
            columns: vec!["owner_id".to_string()],
            unique: true,
            partial: true,
            origin: "c".to_string(),
        }],
        ddl: Some("CREATE TABLE accounts (\n  id INTEGER PRIMARY KEY\n)".to_string()),
    }
}

fn view() -> TableDescription {
    TableDescription {
        schema: "main".to_string(),
        name: "v_base".to_string(),
        kind_label: "view".to_string(),
        row_count_label: None,
        exact_row_count: None,
        without_rowid: false,
        strict: false,
        columns: vec![column("id", "INTEGER", "INTEGER", 0, false, None, 0), column("val", "TEXT", "TEXT", 0, false, None, 0)],
        foreign_keys_out: vec![],
        foreign_keys_in: vec![],
        indexes: vec![],
        ddl: Some("CREATE VIEW v_base AS SELECT * FROM base".to_string()),
    }
}

const ACCOUNTS_SECTIONS: &str =
    "\nColumns\n  id        INTEGER  PK\n  owner_id  INTEGER\n  label     VARCHAR(20) (TEXT)  default 'default'\n\nForeign keys\n  →  owner_id → main.users(id)  ON DELETE CASCADE\n  ←  orders(account_id) → <pk>\n\nIndexes\n  idx_accounts_owner  (owner_id)  unique, partial\n\nDDL\n  CREATE TABLE accounts (\n    id INTEGER PRIMARY KEY\n  )\n";

#[test]
fn header_of_a_table() {
    assert_eq!(describe_header_text(&accounts()), "main.accounts — table · 2 rows");
}

#[test]
fn header_of_a_view_and_of_flags() {
    assert_eq!(describe_header_text(&view()), "main.v_base — view");
    let mut d = accounts();
    d.without_rowid = true;
    d.strict = true;
    d.row_count_label = Some("100,000+".to_string());
    assert_eq!(describe_header_text(&d), "main.accounts — table · 100,000+ rows · WITHOUT ROWID · STRICT");
}

#[test]
fn footer_when_every_row_is_shown() {
    assert_eq!(describe_footer_text(&accounts(), 2), "2 rows shown");
    assert_eq!(describe_footer_text(&view(), 2), "2 rows shown");
}

#[test]
fn footer_when_the_sample_is_partial() {
    let mut d = accounts();
    d.row_count_label = Some("1,234".to_string());
    d.exact_row_count = Some(1234);
    assert_eq!(describe_footer_text(&d, 10), "10 of 1,234 rows");
    d.row_count_label = Some("100,000+".to_string());
    d.exact_row_count = None;
    assert_eq!(describe_footer_text(&d, 10), "10 of 100,000+ rows");
}

#[test]
fn sections_of_a_table() {
    let d = accounts();
    assert_eq!(describe_sections_text(&d, &d.ddl), ACCOUNTS_SECTIONS);
}

#[test]
fn sections_of_a_view_omit_empty_ones() {
    let d = view();
    let text = describe_sections_text(&d, &d.ddl);
    assert_eq!(text, "\nColumns\n  id   INTEGER\n  val  TEXT\n\nDDL\n  CREATE VIEW v_base AS SELECT * FROM base\n");
    assert!(!text.contains("Foreign keys"));
    assert!(!text.contains("Indexes"));
}

#[test]
fn sections_without_ddl() {
    let d = view();
    assert_eq!(describe_sections_text(&d, &None), "\nColumns\n  id   INTEGER\n  val  TEXT\n");
}

#[test]
fn composite_key_and_hidden_columns() {
    let mut d = view();
    d.columns = vec![
        column("a", "INT", "INTEGER", 1, true, None, 0),
        column("b", "text", "TEXT", 2, false, None, 1),
        column("c", "", "BLOB", 0, false, None, 3),
    ];
    assert_eq!(
        describe_sections_text(&d, &None),
        "\nColumns\n  a  INT (INTEGER)  PK1  NOT NULL\n  b  text  PK2  hidden\n  c   (BLOB)  generated stored\n"
    );
}

#[test]
fn index_origins() {
    let mut d = view();
    d.columns = vec![];
    d.indexes = vec![
        IndexDesc { name: "sqlite_autoindex_t_1".to_string(), columns: vec!["a".to_string(), "b".to_string()], unique: true, partial: false, origin: "u".to_string() },
        IndexDesc { name: "pk".to_string(), columns: vec!["a".to_string()], unique: true, partial: false, origin: "pk".to_string() },
        IndexDesc { name: "i".to_string(), columns: vec!["b".to_string()], unique: false, partial: false, origin: "c".to_string() },
    ];
    assert_eq!(
        describe_sections_text(&d, &None),
        "\nIndexes\n  sqlite_autoindex_t_1  (a, b)  unique, autoindex\n  pk                    (a)  unique, pk\n  i                     (b)\n"
    );
}

#[test]
fn whole_text_with_sample() {
    let d = accounts();
    let text = render_describe_text(&d, Ok(("rows".to_string(), 2)), &d.ddl);
    assert_eq!(text, format!("main.accounts — table · 2 rows\nrows\n2 rows shown\n{ACCOUNTS_SECTIONS}"));
}

#[test]
fn whole_text_when_the_sample_fails() {
    let d = view();
    let text = render_describe_text(&d, Err("boom".to_string()), &None);
    assert_eq!(
        text,
        "main.v_base — view\n(failed to render sample: boom)\n0 rows shown\n\nColumns\n  id   INTEGER\n  val  TEXT\n"
    );
}

#[test]
fn plain_mirror() {
    let d = view();
    assert_eq!(
        render_text(&d, "", "0 rows shown"),
        "main.v_base — view\n0 rows shown\n\nColumns\n  id   INTEGER\n  val  TEXT\n\nDDL\n  CREATE VIEW v_base AS SELECT * FROM base\n"
    );
    assert!(render_text(&d, "x", "f").starts_with("main.v_base — view\nx\nf\n"));
    assert!(render_text(&d, "x\n", "f").starts_with("main.v_base — view\nx\nf\n"));
}
