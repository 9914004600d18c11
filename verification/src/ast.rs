//! The SQL syntax tree produced by the parser and read by the analyzer.

use vstd::prelude::*;
use crate::strmap::{StrMap, lookup, has_key, key_pos, unique_keys};

verus! {

/// A half-open range of byte offsets `[start, end)` into the source text.
#[derive(Debug, Clone, PartialEq, Eq)]
pub struct Span {
    pub start: usize,
    pub end: usize,
}

impl Span {
    /// A span from `start` to `end`.
    pub fn new(start: usize, end: usize) -> (r: Self)
        ensures
            r.start == start,
            r.end == end,
    {
        Span { start, end }
    }

    /// A copy of this span.
    pub fn copy(&self) -> (r: Self)
        ensures
            r == *self,
    {
        Span { start: self.start, end: self.end }
    }
}

/// Documentation comment with optional tags.
///
/// Used for sqlite-docs style documentation: `--!` lines document a table,
/// `---` lines document a column, and `@tag value` lines add tags, e.g.
/// `--- @example 'S10483'`.
#[derive(Debug, Clone, PartialEq)]
pub struct DocComment {
    /// The main description text.
    pub description: String,
    /// Tags and their values (e.g., `example` -> `["'S10483'"]`).
    pub tags: StrMap<Vec<String>>,
}

impl View for DocComment {
    type V = (Seq<char>, Seq<(Seq<char>, Seq<String>)>);

    /// The description and the tags, in order.
    open spec fn view(&self) -> (Seq<char>, Seq<(Seq<char>, Seq<String>)>) {
        (self.description@, self.tags@)
    }
}

/// The characters of each string of a sequence.
pub open spec fn texts(s: Seq<String>) -> Seq<Seq<char>> {
    s.map_values(|x: String| x@)
}

/// A new vector holding the same strings.
pub fn copy_strings(v: &Vec<String>) -> (r: Vec<String>)
    ensures
        r@ == v@,
{
    let mut r: Vec<String> = Vec::new();
    let mut i: usize = 0;
    while i < v.len()
        invariant
            i <= v.len(),
            r@ == v@.subrange(0, i as int),
        decreases v.len() - i,
    {
        let c = v[i].clone();
        r.push(c);
        i = i + 1;
        assert(r@ =~= v@.subrange(0, i as int));
    }
    assert(v@.subrange(0, v.len() as int) =~= v@);
    r
}

impl Default for DocComment {
    /// An empty doc comment.
    fn default() -> (r: Self)
        ensures
            r.description@ == Seq::<char>::empty(),
            r.tags@.len() == 0,
    {
        DocComment { description: String::new(), tags: StrMap::new() }
    }
}

impl DocComment {
    /// A new empty doc comment.
    pub fn new() -> (r: Self)
        ensures
            r.description@ == Seq::<char>::empty(),
            r.tags@.len() == 0,
    {
        DocComment { description: String::new(), tags: StrMap::new() }
    }

    /// A doc comment with just a description.
    pub fn with_description(description: &str) -> (r: Self)
        ensures
            r.description@ == description@,
            r.tags@.len() == 0,
    {
        DocComment { description: description.to_owned(), tags: StrMap::new() }
    }

    /// Whether the doc comment has neither a description nor tags.
    pub fn is_empty(&self) -> (r: bool)
        ensures
            r == (self.description@.len() == 0 && self.tags@.len() == 0),
    {
        self.description.as_str().is_empty() && self.tags.is_empty()
    }

    /// Adds `value` at the end of the values of `tag`.
    pub fn add_tag(&mut self, tag: &str, value: &str)
        ensures
            final(self).description == old(self).description,
            lookup(final(self).tags@, tag@) matches Some(vals)
                && texts(vals) == match lookup(old(self).tags@, tag@) {
                    Some(old_vals) => texts(old_vals),
                    None => Seq::<Seq<char>>::empty(),
                }.push(value@),
            forall|k: Seq<char>| k != tag@ ==> #[trigger] lookup(final(self).tags@, k)
                == lookup(old(self).tags@, k),
    {
        let mut vals: Vec<String> = match self.tags.get(tag) {
            Some(old_vals) => copy_strings(old_vals),
            None => Vec::new(),
        };
        let ghost before = vals@;
        vals.push(value.to_owned());
        assert(texts(vals@) =~= texts(before).push(value@));
        self.tags.insert(tag.to_owned(), vals);
    }

    /// The first value of `tag`, if present.
    pub fn get_tag(&self, tag: &str) -> (r: Option<&String>)
        ensures
            match lookup(self.tags@, tag@) {
                Some(vals) => if vals.len() > 0 { r matches Some(v) && *v == vals[0] } else { r is None },
                None => r is None,
            },
    {
        match self.tags.get(tag) {
            Some(v) => {
                if v.len() > 0 {
                    Some(&v[0])
                } else {
                    None
                }
            }
            None => None,
        }
    }

    /// All values of `tag`, if present.
    pub fn get_tag_values(&self, tag: &str) -> (r: Option<&Vec<String>>)
        ensures
            match r {
                Some(v) => lookup(self.tags@, tag@) == Some(v@),
                None => lookup(self.tags@, tag@) is None,
            },
    {
        self.tags.get(tag)
    }

    /// A copy of this doc comment.
    pub fn duplicate(&self) -> (r: Self)
        ensures
            r@ == self@,
    {
        let mut tags: StrMap<Vec<String>> = StrMap::new();
        let mut i: usize = 0;
        self.tags.keys_are_unique();
        while i < self.tags.len()
            invariant
                i <= self.tags@.len(),
                unique_keys(self.tags@),
                tags@ == self.tags@.subrange(0, i as int),
            decreases self.tags@.len() - i,
        {
            let k = self.tags.key_at(i).clone();
            let v = copy_strings(self.tags.value_at(i));
            proof {
                assert(!has_key(tags@, k@)) by {
                    if has_key(tags@, k@) {
                        let j = key_pos(tags@, k@);
                        assert(self.tags@[j].0 == self.tags@[i as int].0);
                    }
                }
            }
            tags.insert(k, v);
            i = i + 1;
            assert(tags@ =~= self.tags@.subrange(0, i as int));
        }
        assert(self.tags@.subrange(0, self.tags@.len() as int) =~= self.tags@);
        DocComment { description: self.description.clone(), tags }
    }
}

/// A SQL program is a sequence of statements.
#[derive(Debug, PartialEq)]
pub struct Program {
    pub statements: Vec<Statement>,
}

/// SQL statements.
#[derive(Debug, PartialEq)]
pub enum Statement {
    Select(SelectStmt),
    Insert(InsertStmt),
    Update(UpdateStmt),
    Delete(DeleteStmt),
    CreateTable(CreateTableStmt),
    CreateIndex(CreateIndexStmt),
    CreateView(CreateViewStmt),
    CreateTrigger(CreateTriggerStmt),
    AlterTable(AlterTableStmt),
    DropTable(DropTableStmt),
    DropIndex(DropIndexStmt),
    DropView(DropViewStmt),
    DropTrigger(DropTriggerStmt),
    /// EXPLAIN [QUERY PLAN] statement
    Explain { query_plan: bool, stmt: Box<Statement>, span: Span },
    CreateVirtualTable(CreateVirtualTableStmt),
    Begin(BeginStmt),
    Commit(CommitStmt),
    Rollback(RollbackStmt),
    Savepoint(SavepointStmt),
    Release(ReleaseStmt),
    Vacuum(VacuumStmt),
    Analyze(AnalyzeStmt),
    Reindex(ReindexStmt),
    Attach(AttachStmt),
    Detach(DetachStmt),
    Pragma(PragmaStmt),
}

/// INSERT [OR conflict_action] INTO [schema.]table [(columns)] source [RETURNING ...]
#[derive(Debug, PartialEq)]
pub struct InsertStmt {
    pub with_clause: Option<WithClause>,
    pub or_action: Option<ConflictAction>,
    pub schema: Option<String>,
    pub table_name: String,
    pub alias: Option<String>,
    pub columns: Option<Vec<String>>,
    pub source: InsertSource,
    pub upsert: Option<UpsertClause>,
    pub returning: Option<Vec<ResultColumn>>,
    pub span: Span,
}

/// Source for INSERT: VALUES, SELECT, or DEFAULT VALUES.
#[derive(Debug, PartialEq)]
pub enum InsertSource {
    Values(Vec<Vec<Expr>>),
    Select(Box<SelectStmt>),
    DefaultValues,
}

/// ON CONFLICT clause (UPSERT).
#[derive(Debug, PartialEq)]
pub struct UpsertClause {
    pub target: Option<ConflictTarget>,
    pub action: ConflictAction,
    pub update_set: Option<Vec<(Vec<String>, Expr)>>,
    pub update_where: Option<Expr>,
    pub span: Span,
}

/// Conflict target for ON CONFLICT: (columns) [WHERE expr].
#[derive(Debug, PartialEq)]
pub struct ConflictTarget {
    pub columns: Vec<IndexedColumn>,
    pub where_clause: Option<Expr>,
    pub span: Span,
}

/// Indexed column: column [COLLATE collation] [ASC|DESC].
#[derive(Debug, PartialEq)]
pub struct IndexedColumn {
    pub column: Expr,
    pub collation: Option<String>,
    pub direction: Option<OrderDirection>,
    pub span: Span,
}

/// Conflict action for INSERT OR / ON CONFLICT DO.
#[derive(Debug, Clone, Copy, PartialEq, Eq)]
pub enum ConflictAction {
    Rollback,
    Abort,
    Fail,
    Ignore,
    Replace,
    /// DO NOTHING (only in ON CONFLICT)
    Nothing,
    /// DO UPDATE (only in ON CONFLICT)
    Update,
}

/// UPDATE [OR conflict] [schema.]table SET assignments [FROM ...] [WHERE ...] [RETURNING ...]
#[derive(Debug, PartialEq)]
pub struct UpdateStmt {
    pub with_clause: Option<WithClause>,
    pub or_action: Option<ConflictAction>,
    pub schema: Option<String>,
    pub table_name: String,
    pub alias: Option<String>,
    pub indexed: Option<IndexedBy>,
    pub assignments: Vec<UpdateAssignment>,
    pub from: Option<FromClause>,
    pub where_clause: Option<Expr>,
    pub returning: Option<Vec<ResultColumn>>,
    pub order_by: Option<Vec<OrderingTerm>>,
    pub limit: Option<Expr>,
    pub offset: Option<Expr>,
    pub span: Span,
}

/// Assignment in UPDATE SET: column = expr or (col1, col2) = (expr1, expr2).
#[derive(Debug, PartialEq)]
pub struct UpdateAssignment {
    pub columns: Vec<String>,
    pub expr: Expr,
    pub span: Span,
}

/// DELETE FROM [schema.]table [INDEXED BY ... | NOT INDEXED] [WHERE ...] [RETURNING ...]
#[derive(Debug, PartialEq)]
pub struct DeleteStmt {
    pub with_clause: Option<WithClause>,
    pub schema: Option<String>,
    pub table_name: String,
    pub alias: Option<String>,
    pub indexed: Option<IndexedBy>,
    pub where_clause: Option<Expr>,
    pub returning: Option<Vec<ResultColumn>>,
    pub order_by: Option<Vec<OrderingTerm>>,
    pub limit: Option<Expr>,
    pub offset: Option<Expr>,
    pub span: Span,
}

/// DISTINCT or ALL modifier for SELECT.
#[derive(Debug, Clone, Copy, PartialEq, Eq)]
pub enum DistinctAll {
    All,
    Distinct,
}

/// Result column in SELECT: expr [AS alias] | * | table.*
#[derive(Debug, PartialEq)]
pub enum ResultColumn {
    /// expr [AS alias]; `alias_has_as` is true when the alias uses AS
    Expr { expr: Expr, alias: Option<String>, alias_has_as: bool, span: Span },
    /// * - all columns
    Star(Span),
    /// table.* - all columns from a table
    TableStar { table: String, span: Span },
}

impl ResultColumn {
    /// The span of the column.
    pub open spec fn spec_span(&self) -> Span {
        match self {
            ResultColumn::Expr { span, .. } => *span,
            ResultColumn::Star(span) => *span,
            ResultColumn::TableStar { span, .. } => *span,
        }
    }

    /// The span of the column.
    pub fn span(&self) -> (r: &Span)
        ensures
            *r == self.spec_span(),
    {
        match self {
            ResultColumn::Expr { span, .. } => span,
            ResultColumn::Star(span) => span,
            ResultColumn::TableStar { span, .. } => span,
        }
    }
}

/// Compound operator: UNION, UNION ALL, INTERSECT, EXCEPT.
#[derive(Debug, Clone, Copy, PartialEq, Eq)]
pub enum CompoundOp {
    Union,
    UnionAll,
    Intersect,
    Except,
}

/// WITH clause for Common Table Expressions (CTEs).
#[derive(Debug, PartialEq)]
pub struct WithClause {
    pub recursive: bool,
    pub ctes: Vec<CommonTableExpr>,
    pub span: Span,
}

/// Common Table Expression: name [(columns)] AS [MATERIALIZED|NOT MATERIALIZED] (select)
#[derive(Debug, PartialEq)]
pub struct CommonTableExpr {
    pub name: String,
    pub columns: Option<Vec<String>>,
    pub materialized: Option<Materialized>,
    pub select: Box<SelectStmt>,
    pub span: Span,
}

/// MATERIALIZED hint for CTEs.
#[derive(Debug, Clone, Copy, PartialEq, Eq)]
pub enum Materialized {
    Materialized,
    NotMaterialized,
}

/// [WITH clause] SELECT [DISTINCT|ALL] columns [FROM tables] [WHERE expr]
/// [GROUP BY exprs] [HAVING expr] [compound_op SELECT ...]* [ORDER BY ordering]
/// [LIMIT expr [OFFSET expr]]
#[derive(Debug, PartialEq)]
pub struct SelectStmt {
    pub with_clause: Option<WithClause>,
    pub distinct: DistinctAll,
    pub columns: Vec<ResultColumn>,
    pub from: Option<FromClause>,
    pub where_clause: Option<Expr>,
    pub group_by: Option<Vec<Expr>>,
    pub having: Option<Expr>,
    /// Compound operations (UNION, INTERSECT, EXCEPT)
    pub compounds: Vec<(CompoundOp, SelectCore)>,
    pub order_by: Option<Vec<OrderingTerm>>,
    pub limit: Option<LimitClause>,
    pub span: Span,
}

/// Core SELECT without ORDER BY / LIMIT (used in compound operations).
#[derive(Debug, PartialEq)]
pub struct SelectCore {
    pub distinct: DistinctAll,
    pub columns: Vec<ResultColumn>,
    pub from: Option<FromClause>,
    pub where_clause: Option<Expr>,
    pub group_by: Option<Vec<Expr>>,
    pub having: Option<Expr>,
    pub span: Span,
}

/// FROM clause: table references with optional JOINs.
#[derive(Debug, PartialEq)]
pub struct FromClause {
    pub tables: Vec<TableOrSubquery>,
    pub span: Span,
}

/// Table or subquery in a FROM clause.
#[derive(Debug, PartialEq)]
pub enum TableOrSubquery {
    /// [schema.]table [AS alias] [INDEXED BY index | NOT INDEXED]
    Table {
        schema: Option<String>,
        name: String,
        alias: Option<String>,
        alias_has_as: bool,
        indexed: Option<IndexedBy>,
        span: Span,
    },
    /// [schema.]function(args) [AS alias] — a table-valued function
    TableFunction {
        schema: Option<String>,
        name: String,
        args: Vec<Expr>,
        alias: Option<String>,
        alias_has_as: bool,
        span: Span,
    },
    /// (subquery) [AS alias]
    Subquery { query: Box<SelectStmt>, alias: Option<String>, alias_has_as: bool, span: Span },
    /// (table_or_subquery, ...)
    TableList { tables: Vec<TableOrSubquery>, span: Span },
    /// table_or_subquery JOIN table_or_subquery ON expr
    Join {
        left: Box<TableOrSubquery>,
        join_type: JoinType,
        right: Box<TableOrSubquery>,
        constraint: Option<JoinConstraint>,
        span: Span,
    },
}

/// INDEXED BY index_name | NOT INDEXED
#[derive(Debug, Clone, PartialEq)]
pub enum IndexedBy {
    Index(String),
    NotIndexed,
}

/// JOIN type.
#[derive(Debug, Clone, Copy, PartialEq, Eq)]
pub enum JoinType {
    Inner,
    Left,
    Right,
    Full,
    Cross,
    Natural,
    NaturalLeft,
    NaturalRight,
    NaturalFull,
}

/// JOIN constraint: ON expr | USING (col, ...)
#[derive(Debug, PartialEq)]
pub enum JoinConstraint {
    On(Expr),
    Using(Vec<String>),
}

/// ORDER BY term: expr [ASC|DESC] [NULLS FIRST|NULLS LAST]
#[derive(Debug, PartialEq)]
pub struct OrderingTerm {
    pub expr: Expr,
    pub direction: Option<OrderDirection>,
    pub nulls: Option<NullsOrder>,
    pub span: Span,
}

/// ASC or DESC.
#[derive(Debug, Clone, Copy, PartialEq, Eq)]
pub enum OrderDirection {
    Asc,
    Desc,
}

/// NULLS FIRST or NULLS LAST.
#[derive(Debug, Clone, Copy, PartialEq, Eq)]
pub enum NullsOrder {
    First,
    Last,
}

/// LIMIT expr [OFFSET expr] or LIMIT expr, expr
#[derive(Debug, PartialEq)]
pub struct LimitClause {
    pub limit: Expr,
    pub offset: Option<Expr>,
    pub span: Span,
}

/// Simple table reference.
#[derive(Debug, Clone, PartialEq)]
pub struct TableRef {
    pub schema: Option<String>,
    pub name: String,
    pub span: Span,
}

/// CREATE [TEMP] TABLE [IF NOT EXISTS] [schema.]table_name (column_def, ... [, table_constraint, ...])
/// [table_options], or CREATE ... TABLE ... AS select_stmt
#[derive(Debug, PartialEq)]
pub struct CreateTableStmt {
    pub temporary: bool,
    pub if_not_exists: bool,
    pub schema: Option<String>,
    pub table_name: String,
    /// Column definitions (empty if AS SELECT)
    pub columns: Vec<ColumnDef>,
    pub table_constraints: Vec<TableConstraint>,
    /// Table options (WITHOUT ROWID, STRICT)
    pub table_options: Vec<TableOption>,
    pub as_select: Option<Box<SelectStmt>>,
    /// Table-level documentation from `--!` comments
    pub doc: Option<DocComment>,
    pub span: Span,
}

/// Table-level constraints.
#[allow(inconsistent_fields)]
#[derive(Debug, PartialEq)]
pub enum TableConstraint {
    PrimaryKey { name: Option<String>, columns: Vec<IndexedColumn>, conflict: Option<ConflictAction>, span: Span },
    Unique { name: Option<String>, columns: Vec<IndexedColumn>, conflict: Option<ConflictAction>, span: Span },
    Check { name: Option<String>, expr: Expr, span: Span },
    ForeignKey {
        name: Option<String>,
        columns: Vec<String>,
        foreign_table: String,
        foreign_columns: Option<Vec<String>>,
        on_delete: Option<ForeignKeyAction>,
        on_update: Option<ForeignKeyAction>,
        deferrable: Option<Deferrable>,
        span: Span,
    },
}

impl TableConstraint {
    /// The span of the constraint.
    pub open spec fn spec_span(&self) -> Span {
        match self {
            TableConstraint::PrimaryKey { span, .. } => *span,
            TableConstraint::Unique { span, .. } => *span,
            TableConstraint::Check { span, .. } => *span,
            TableConstraint::ForeignKey { span, .. } => *span,
        }
    }

    /// The span of the constraint.
    pub fn span(&self) -> (r: &Span)
        ensures
            *r == self.spec_span(),
    {
        match self {
            TableConstraint::PrimaryKey { span, .. } => span,
            TableConstraint::Unique { span, .. } => span,
            TableConstraint::Check { span, .. } => span,
            TableConstraint::ForeignKey { span, .. } => span,
        }
    }
}

/// Deferrable constraint setting.
#[derive(Debug, Clone, Copy, PartialEq, Eq)]
pub enum Deferrable {
    InitiallyDeferred,
    InitiallyImmediate,
    NotDeferrable,
}

/// Table options (WITHOUT ROWID, STRICT).
#[derive(Debug, Clone, Copy, PartialEq, Eq)]
pub enum TableOption {
    WithoutRowid,
    Strict,
}

/// CREATE [TEMP] TRIGGER [IF NOT EXISTS] [schema.]name [BEFORE|AFTER|INSTEAD OF]
/// {DELETE|INSERT|UPDATE [OF columns]} ON table [FOR EACH ROW] [WHEN expr] BEGIN statements END
#[derive(Debug, PartialEq)]
pub struct CreateTriggerStmt {
    pub temporary: bool,
    pub if_not_exists: bool,
    pub schema: Option<String>,
    pub trigger_name: String,
    pub timing: TriggerTiming,
    pub event: TriggerEvent,
    pub table_name: String,
    pub for_each_row: bool,
    pub when_clause: Option<Expr>,
    pub body: Vec<Statement>,
    pub span: Span,
}

/// Trigger timing: BEFORE, AFTER, or INSTEAD OF.
#[derive(Debug, Clone, Copy, PartialEq, Eq)]
pub enum TriggerTiming {
    Before,
    After,
    InsteadOf,
}

/// Trigger event: DELETE, INSERT, or UPDATE [OF columns].
#[derive(Debug, Clone, PartialEq)]
pub enum TriggerEvent {
    Delete,
    Insert,
    Update { columns: Option<Vec<String>> },
}

/// CREATE VIRTUAL TABLE [IF NOT EXISTS] [schema.]table_name USING module_name [(args)]
#[derive(Debug, Clone, PartialEq)]
pub struct CreateVirtualTableStmt {
    pub if_not_exists: bool,
    pub schema: Option<String>,
    pub table_name: String,
    pub module_name: String,
    pub module_args: Option<Vec<String>>,
    pub span: Span,
}

/// DROP TABLE [IF EXISTS] [schema.]table_name
#[derive(Debug, Clone, PartialEq)]
pub struct DropTableStmt {
    pub if_exists: bool,
    pub schema: Option<String>,
    pub table_name: String,
    pub span: Span,
}

/// DROP INDEX [IF EXISTS] [schema.]index_name
#[derive(Debug, Clone, PartialEq)]
pub struct DropIndexStmt {
    pub if_exists: bool,
    pub schema: Option<String>,
    pub index_name: String,
    pub span: Span,
}

/// DROP VIEW [IF EXISTS] [schema.]view_name
#[derive(Debug, Clone, PartialEq)]
pub struct DropViewStmt {
    pub if_exists: bool,
    pub schema: Option<String>,
    pub view_name: String,
    pub span: Span,
}

/// DROP TRIGGER [IF EXISTS] [schema.]trigger_name
#[derive(Debug, Clone, PartialEq)]
pub struct DropTriggerStmt {
    pub if_exists: bool,
    pub schema: Option<String>,
    pub trigger_name: String,
    pub span: Span,
}

/// CREATE [UNIQUE] INDEX [IF NOT EXISTS] [schema.]index ON table (columns) [WHERE expr]
#[derive(Debug, PartialEq)]
pub struct CreateIndexStmt {
    pub unique: bool,
    pub if_not_exists: bool,
    pub schema: Option<String>,
    pub index_name: String,
    pub table_name: String,
    pub columns: Vec<IndexedColumn>,
    pub where_clause: Option<Expr>,
    pub span: Span,
}

/// CREATE [TEMP] VIEW [IF NOT EXISTS] [schema.]view [(columns)] AS select
#[derive(Debug, PartialEq)]
pub struct CreateViewStmt {
    pub temporary: bool,
    pub if_not_exists: bool,
    pub schema: Option<String>,
    pub view_name: String,
    pub columns: Option<Vec<String>>,
    pub select: Box<SelectStmt>,
    pub span: Span,
}

/// ALTER TABLE [schema.]table action
#[derive(Debug, PartialEq)]
pub struct AlterTableStmt {
    pub schema: Option<String>,
    pub table_name: String,
    pub action: AlterTableAction,
    pub span: Span,
}

/// ALTER TABLE action.
#[derive(Debug, PartialEq)]
pub enum AlterTableAction {
    RenameTo(String),
    RenameColumn { old_name: String, new_name: String },
    AddColumn(ColumnDef),
    DropColumn(String),
}

/// Transaction type for BEGIN.
#[derive(Debug, Clone, Copy, PartialEq, Eq)]
pub enum TransactionType {
    Deferred,
    Immediate,
    Exclusive,
}

/// BEGIN [DEFERRED|IMMEDIATE|EXCLUSIVE] [TRANSACTION]
#[derive(Debug, Clone, PartialEq)]
pub struct BeginStmt {
    pub transaction_type: Option<TransactionType>,
    pub span: Span,
}

/// COMMIT [TRANSACTION] | END [TRANSACTION]
#[derive(Debug, Clone, PartialEq)]
pub struct CommitStmt {
    pub span: Span,
}

/// ROLLBACK [TRANSACTION] [TO [SAVEPOINT] savepoint_name]
#[derive(Debug, Clone, PartialEq)]
pub struct RollbackStmt {
    pub savepoint: Option<String>,
    pub span: Span,
}

/// SAVEPOINT savepoint_name
#[derive(Debug, Clone, PartialEq)]
pub struct SavepointStmt {
    pub name: String,
    pub span: Span,
}

/// RELEASE [SAVEPOINT] savepoint_name
#[derive(Debug, Clone, PartialEq)]
pub struct ReleaseStmt {
    pub name: String,
    pub span: Span,
}

/// VACUUM [schema_name] [INTO filename]
#[derive(Debug, Clone, PartialEq)]
pub struct VacuumStmt {
    pub schema: Option<String>,
    pub into_file: Option<String>,
    pub span: Span,
}

/// ANALYZE [schema_name | table_or_index_name | schema_name.table_or_index_name]
#[derive(Debug, Clone, PartialEq)]
pub struct AnalyzeStmt {
    pub target: Option<QualifiedName>,
    pub span: Span,
}

/// REINDEX [collation_name | [schema.]table_or_index_name]
#[derive(Debug, Clone, PartialEq)]
pub struct ReindexStmt {
    pub target: Option<QualifiedName>,
    pub span: Span,
}

/// ATTACH [DATABASE] expr AS schema_name
#[derive(Debug, PartialEq)]
pub struct AttachStmt {
    pub expr: Expr,
    pub schema_name: String,
    pub span: Span,
}

/// DETACH [DATABASE] schema_name
#[derive(Debug, Clone, PartialEq)]
pub struct DetachStmt {
    pub schema_name: String,
    pub span: Span,
}

/// PRAGMA [schema.]pragma_name [= value | (value)]
#[derive(Debug, PartialEq)]
pub struct PragmaStmt {
    pub schema: Option<String>,
    pub name: String,
    pub value: Option<PragmaValue>,
    pub span: Span,
}

/// Pragma value: either assigned (=) or called with parens.
#[derive(Debug, PartialEq)]
pub enum PragmaValue {
    Assign(Expr),
    Call(Expr),
}

/// Qualified name: [schema.]name
#[derive(Debug, Clone, PartialEq)]
pub struct QualifiedName {
    pub schema: Option<String>,
    pub name: String,
    pub span: Span,
}

/// Column definition: name [type] [constraints...]
#[derive(Debug, PartialEq)]
pub struct ColumnDef {
    pub name: String,
    pub type_spec: Option<String>,
    pub constraints: Vec<ColumnConstraint>,
    /// Column-level documentation from `---` comments
    pub doc: Option<DocComment>,
    pub span: Span,
}

/// Column constraint.
#[derive(Debug, PartialEq)]
pub enum ColumnConstraint {
    PrimaryKey { order: Option<OrderDirection>, conflict: Option<ConflictAction>, autoincrement: bool, span: Span },
    NotNull { conflict: Option<ConflictAction>, span: Span },
    Unique { conflict: Option<ConflictAction>, span: Span },
    Check { expr: Expr, span: Span },
    Default { value: DefaultValue, span: Span },
    Collate { collation: String, span: Span },
    ForeignKey {
        foreign_table: String,
        columns: Option<Vec<String>>,
        on_delete: Option<ForeignKeyAction>,
        on_update: Option<ForeignKeyAction>,
        span: Span,
    },
    Generated { expr: Expr, stored: bool, span: Span },
}

/// Default value for a column.
#[derive(Debug, PartialEq)]
pub enum DefaultValue {
    Literal(Expr),
    Expr(Expr),
}

/// Foreign key action (ON DELETE / ON UPDATE).
#[derive(Debug, Clone, Copy, PartialEq, Eq)]
pub enum ForeignKeyAction {
    SetNull,
    SetDefault,
    Cascade,
    Restrict,
    NoAction,
}

/// Type name with optional size parameters: VARCHAR(255), DECIMAL(10,2).
#[derive(Debug, Clone, PartialEq)]
pub struct TypeName {
    pub name: String,
    pub args: Option<(i64, Option<i64>)>,
    pub span: Span,
}

/// Window specification for window functions.
#[derive(Debug, PartialEq)]
pub struct WindowSpec {
    pub base_window: Option<String>,
    pub partition_by: Option<Vec<Expr>>,
    pub order_by: Option<Vec<OrderingTerm>>,
    pub frame: Option<FrameSpec>,
    pub span: Span,
}

/// Frame specification: ROWS/RANGE/GROUPS BETWEEN start AND end.
#[derive(Debug, PartialEq)]
pub struct FrameSpec {
    pub unit: FrameUnit,
    pub start: FrameBound,
    pub end: Option<FrameBound>,
    pub exclude: Option<FrameExclude>,
    pub span: Span,
}

/// Frame unit: ROWS, RANGE, or GROUPS.
#[derive(Debug, Clone, Copy, PartialEq, Eq)]
pub enum FrameUnit {
    Rows,
    Range,
    Groups,
}

/// Frame bound.
#[derive(Debug, PartialEq)]
pub enum FrameBound {
    UnboundedPreceding,
    Preceding(Box<Expr>),
    CurrentRow,
    Following(Box<Expr>),
    UnboundedFollowing,
}

/// Frame exclude clause.
#[derive(Debug, Clone, Copy, PartialEq, Eq)]
pub enum FrameExclude {
    NoOthers,
    CurrentRow,
    Group,
    Ties,
}

/// Binary operators.
#[derive(Debug, Clone, Copy, PartialEq, Eq)]
pub enum BinaryOp {
    Add,
    Sub,
    Mul,
    Div,
    Mod,
    Concat,
    Eq,
    Ne,
    Lt,
    Le,
    Gt,
    Ge,
    Is,
    IsNot,
    BitAnd,
    BitOr,
    LShift,
    RShift,
    And,
    Or,
    Like,
    Glob,
    Regexp,
    Match,
    /// -> JSON extract (returns JSON)
    JsonExtract,
    /// ->> JSON extract text (returns SQL text)
    JsonExtractText,
}

/// Unary operators.
#[derive(Debug, Clone, Copy, PartialEq, Eq)]
pub enum UnaryOp {
    Neg,
    Pos,
    Not,
    BitNot,
}

/// SQL expressions.
#[allow(inconsistent_fields)]
#[derive(Debug, PartialEq)]
pub enum Expr {
    /// Integer literal: 123
    Integer(i64, Span),
    /// Hex integer literal: 0x1F
    HexInteger(i64, Span),
    /// Float literal: 1.5, held as the IEEE-754 bit pattern of its value
    Float(u64, Span),
    /// String literal: 'hello'
    String(String, Span),
    /// Blob literal: X'AABBCCDD'
    Blob(Vec<u8>, Span),
    /// NULL
    Null(Span),
    /// Column/identifier reference; the bool is true when it was double-quoted
    Ident(String, bool, Span),
    /// Star: *
    Star(Span),
    /// Bind parameter: ?, ?1, :name, @name, $name
    BindParam(String, Span),
    Binary { left: Box<Expr>, op: BinaryOp, right: Box<Expr>, span: Span },
    Unary { op: UnaryOp, expr: Box<Expr>, span: Span },
    Paren(Box<Expr>, Span),
    Between { expr: Box<Expr>, low: Box<Expr>, high: Box<Expr>, negated: bool, span: Span },
    InList { expr: Box<Expr>, list: Vec<Expr>, negated: bool, span: Span },
    InSelect { expr: Box<Expr>, query: Box<SelectStmt>, negated: bool, span: Span },
    Subquery { query: Box<SelectStmt>, span: Span },
    Exists { query: Box<SelectStmt>, negated: bool, span: Span },
    IsNull { expr: Box<Expr>, negated: bool, span: Span },
    /// LIKE/GLOB/REGEXP/MATCH with optional ESCAPE
    Like { expr: Box<Expr>, pattern: Box<Expr>, escape: Option<Box<Expr>>, op: BinaryOp, negated: bool, span: Span },
    Case { operand: Option<Box<Expr>>, when_clauses: Vec<(Expr, Expr)>, else_clause: Option<Box<Expr>>, span: Span },
    Cast { expr: Box<Expr>, type_spec: TypeName, span: Span },
    /// Function call: name(args) [FILTER (WHERE expr)] [OVER window_spec]
    FunctionCall { name: String, args: Vec<Expr>, distinct: bool, filter: Option<Box<Expr>>, over: Option<WindowSpec>, span: Span },
    /// Qualified column reference: [schema.][table.]column
    Column { schema: Option<String>, table: Option<String>, column: String, span: Span },
    Collate { expr: Box<Expr>, collation: String, span: Span },
    /// RAISE(action [, message]) in trigger bodies
    Raise { action: RaiseAction, message: Option<Box<Expr>>, span: Span },
}

/// RAISE function action types.
#[derive(Debug, Clone, Copy, PartialEq, Eq)]
pub enum RaiseAction {
    Ignore,
    Rollback,
    Abort,
    Fail,
}

impl Expr {
    /// The span of the expression.
    pub open spec fn spec_span(&self) -> Span {
        match self {
            Expr::Integer(_, span) => *span,
            Expr::HexInteger(_, span) => *span,
            Expr::Float(_, span) => *span,
            Expr::String(_, span) => *span,
            Expr::Blob(_, span) => *span,
            Expr::Null(span) => *span,
            Expr::Ident(_, _, span) => *span,
            Expr::Star(span) => *span,
            Expr::BindParam(_, span) => *span,
            Expr::Binary { span, .. } => *span,
            Expr::Unary { span, .. } => *span,
            Expr::Paren(_, span) => *span,
            Expr::Between { span, .. } => *span,
            Expr::InList { span, .. } => *span,
            Expr::InSelect { span, .. } => *span,
            Expr::Subquery { span, .. } => *span,
            Expr::Exists { span, .. } => *span,
            Expr::IsNull { span, .. } => *span,
            Expr::Like { span, .. } => *span,
            Expr::Case { span, .. } => *span,
            Expr::Cast { span, .. } => *span,
            Expr::FunctionCall { span, .. } => *span,
            Expr::Column { span, .. } => *span,
            Expr::Collate { span, .. } => *span,
            Expr::Raise { span, .. } => *span,
        }
    }

    /// The span of the expression.
    pub fn span(&self) -> (r: &Span)
        ensures
            *r == self.spec_span(),
    {
        match self {
            Expr::Integer(_, span) => span,
            Expr::HexInteger(_, span) => span,
            Expr::Float(_, span) => span,
            Expr::String(_, span) => span,
            Expr::Blob(_, span) => span,
            Expr::Null(span) => span,
            Expr::Ident(_, _, span) => span,
            Expr::Star(span) => span,
            Expr::BindParam(_, span) => span,
            Expr::Binary { span, .. } => span,
            Expr::Unary { span, .. } => span,
            Expr::Paren(_, span) => span,
            Expr::Between { span, .. } => span,
            Expr::InList { span, .. } => span,
            Expr::InSelect { span, .. } => span,
            Expr::Subquery { span, .. } => span,
            Expr::Exists { span, .. } => span,
            Expr::IsNull { span, .. } => span,
            Expr::Like { span, .. } => span,
            Expr::Case { span, .. } => span,
            Expr::Cast { span, .. } => span,
            Expr::FunctionCall { span, .. } => span,
            Expr::Column { span, .. } => span,
            Expr::Collate { span, .. } => span,
            Expr::Raise { span, .. } => span,
        }
    }
}

} // verus!
