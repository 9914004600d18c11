//! Symbol resolution for SQL statements: which table, alias, column or CTE
//! sits at a byte offset of a statement, for hover and goto-definition.

use vstd::prelude::*;
use crate::ast::{
    texts, copy_strings, Expr, FromClause, InsertSource, JoinConstraint, Program, ResultColumn, SelectStmt,
    Span, Statement, TableOrSubquery, WithClause, CommonTableExpr, DocComment,
};
use crate::strmap::{StrMap, seq_insert, lookup};
use crate::text::{spec_lowercase, to_lower, string_of, push_str, concat3};
use crate::analyzer::schema::{Schema, SchemaModel, TableModel, DocModel};
use crate::analyzer::select::{cte_columns, infer_cte_columns};

verus! {

/// Information about a table alias (or a table name usable as qualifier).
#[derive(Debug)]
pub struct TableAliasInfo {
    /// The table the alias refers to.
    pub table_name: String,
    /// Where the alias is defined.
    pub alias_span: Span,
    /// The span of the whole table reference.
    pub full_span: Span,
}

impl View for TableAliasInfo {
    type V = (Seq<char>, Span, Span);

    open spec fn view(&self) -> (Seq<char>, Span, Span) {
        (self.table_name@, self.alias_span, self.full_span)
    }
}

/// Information about a column alias of a SELECT.
#[derive(Debug)]
pub struct ColumnAliasInfo {
    /// The alias as written.
    pub alias: String,
    /// Where the alias is defined.
    pub definition_span: Span,
    /// The span of the whole aliased expression.
    pub full_span: Span,
}

impl View for ColumnAliasInfo {
    type V = (Seq<char>, Span, Span);

    open spec fn view(&self) -> (Seq<char>, Span, Span) {
        (self.alias@, self.definition_span, self.full_span)
    }
}

/// Information about a CTE.
#[derive(Debug)]
pub struct CteInfo {
    /// The CTE name as written.
    pub name: String,
    /// Explicit column names, if given.
    pub columns: Option<Vec<String>>,
    /// Column names inferred from the CTE's SELECT.
    pub inferred_columns: Vec<String>,
    /// The span of the CTE definition.
    pub definition_span: Span,
}

/// The texts of optional explicit columns.
pub open spec fn opt_texts(c: Option<Vec<String>>) -> Option<Seq<Seq<char>>> {
    match c {
        Some(v) => Some(texts(v@)),
        None => None,
    }
}

impl View for CteInfo {
    type V = (Seq<char>, Option<Seq<Seq<char>>>, Seq<Seq<char>>, Span);

    open spec fn view(&self) -> (Seq<char>, Option<Seq<Seq<char>>>, Seq<Seq<char>>, Span) {
        (self.name@, opt_texts(self.columns), texts(self.inferred_columns@), self.definition_span)
    }
}

/// The aliases and CTEs of one statement, keyed by lowercased name.
#[derive(Debug)]
pub struct StatementScope {
    pub table_aliases: StrMap<TableAliasInfo>,
    pub column_aliases: StrMap<ColumnAliasInfo>,
    pub ctes: StrMap<CteInfo>,
}

/// What a statement scope holds.
pub struct ScopeModel {
    pub table_aliases: Seq<(Seq<char>, (Seq<char>, Span, Span))>,
    pub column_aliases: Seq<(Seq<char>, (Seq<char>, Span, Span))>,
    pub ctes: Seq<(Seq<char>, (Seq<char>, Option<Seq<Seq<char>>>, Seq<Seq<char>>, Span))>,
}

impl View for StatementScope {
    type V = ScopeModel;

    open spec fn view(&self) -> ScopeModel {
        ScopeModel {
            table_aliases: self.table_aliases@,
            column_aliases: self.column_aliases@,
            ctes: self.ctes@,
        }
    }
}

/// The scope with nothing in it.
pub open spec fn empty_scope() -> ScopeModel {
    ScopeModel { table_aliases: seq![], column_aliases: seq![], ctes: seq![] }
}

/// A symbol resolved at a position.
#[derive(Debug)]
pub enum ResolvedSymbol {
    /// A table alias (e.g. `u` in `FROM users AS u`).
    TableAlias { alias: String, table_name: String, definition_span: Span },
    /// A column reference, with the table its qualifier resolves to.
    Column { name: String, table_name: Option<String>, qualifier: Option<String> },
    /// A table reference.
    Table { name: String, span: Span },
    /// A column alias of a SELECT.
    ColumnAlias { alias: String, definition_span: Span },
    /// A CTE reference, with its columns (explicit, or inferred).
    Cte { name: String, definition_span: Span, columns: Vec<String> },
}

/// What a resolved symbol holds.
pub enum SymbolModel {
    TableAlias { alias: Seq<char>, table_name: Seq<char>, definition_span: Span },
    Column { name: Seq<char>, table_name: Option<Seq<char>>, qualifier: Option<Seq<char>> },
    Table { name: Seq<char>, span: Span },
    ColumnAlias { alias: Seq<char>, definition_span: Span },
    Cte { name: Seq<char>, definition_span: Span, columns: Seq<Seq<char>> },
}

/// The characters of an optional string.
pub open spec fn opt_text(s: Option<String>) -> Option<Seq<char>> {
    match s {
        Some(s) => Some(s@),
        None => None,
    }
}

impl View for ResolvedSymbol {
    type V = SymbolModel;

    open spec fn view(&self) -> SymbolModel {
        match self {
            ResolvedSymbol::TableAlias { alias, table_name, definition_span } => SymbolModel::TableAlias {
                alias: alias@,
                table_name: table_name@,
                definition_span: *definition_span,
            },
            ResolvedSymbol::Column { name, table_name, qualifier } => SymbolModel::Column {
                name: name@,
                table_name: opt_text(*table_name),
                qualifier: opt_text(*qualifier),
            },
            ResolvedSymbol::Table { name, span } => SymbolModel::Table { name: name@, span: *span },
            ResolvedSymbol::ColumnAlias { alias, definition_span } => SymbolModel::ColumnAlias {
                alias: alias@,
                definition_span: *definition_span,
            },
            ResolvedSymbol::Cte { name, definition_span, columns } => SymbolModel::Cte {
                name: name@,
                definition_span: *definition_span,
                columns: texts(columns@),
            },
        }
    }
}

/// The model of an optional resolution result.
pub open spec fn opt_found(r: Option<(ResolvedSymbol, Span)>) -> Option<(SymbolModel, Span)> {
    match r {
        Some(p) => Some((p.0@, p.1)),
        None => None,
    }
}

// ---------------------------------------------------------------------
// The scope of a SELECT
// ---------------------------------------------------------------------

/// The qualifiers a FROM item defines: an alias, or else the table (or
/// table-function) name itself, each pointing at the table; a subquery
/// alias points at `(subquery)`.
pub open spec fn aliases_with_table(a: Seq<(Seq<char>, (Seq<char>, Span, Span))>, t: TableOrSubquery)
    -> Seq<(Seq<char>, (Seq<char>, Span, Span))>
    decreases t,
{
    match t {
        TableOrSubquery::Table { name, alias, span, .. } => match alias {
            Some(al) => seq_insert(a, spec_lowercase(al@), (name@, span, span)),
            None => seq_insert(a, spec_lowercase(name@), (name@, span, span)),
        },
        TableOrSubquery::TableFunction { name, alias, span, .. } => match alias {
            Some(al) => seq_insert(a, spec_lowercase(al@), (name@, span, span)),
            None => seq_insert(a, spec_lowercase(name@), (name@, span, span)),
        },
        TableOrSubquery::Subquery { alias, span, .. } => match alias {
            Some(al) => seq_insert(a, spec_lowercase(al@), ("(subquery)"@, span, span)),
            None => a,
        },
        TableOrSubquery::Join { left, right, .. } => aliases_with_table(aliases_with_table(a, *left), *right),
        TableOrSubquery::TableList { tables, .. } => aliases_with_tables(a, tables@),
    }
}

/// The qualifiers of a list of FROM items, in order.
pub open spec fn aliases_with_tables(a: Seq<(Seq<char>, (Seq<char>, Span, Span))>, ts: Seq<TableOrSubquery>)
    -> Seq<(Seq<char>, (Seq<char>, Span, Span))>
    decreases ts,
{
    if ts.len() == 0 {
        a
    } else {
        aliases_with_table(aliases_with_tables(a, ts.drop_last()), ts.last())
    }
}

/// The column aliases of a result list: each aliased expression, by
/// lowercased alias.
pub open spec fn column_aliases_of(cols: Seq<ResultColumn>) -> Seq<(Seq<char>, (Seq<char>, Span, Span))>
    decreases cols.len(),
{
    if cols.len() == 0 {
        seq![]
    } else {
        let rest = column_aliases_of(cols.drop_last());
        match cols.last() {
            ResultColumn::Expr { alias, span, .. } => match alias {
                Some(a) => seq_insert(rest, spec_lowercase(a@), (a@, span, span)),
                None => rest,
            },
            _ => rest,
        }
    }
}

/// The CTEs of a WITH clause, by lowercased name.
pub open spec fn ctes_of(ctes: Seq<CommonTableExpr>)
    -> Seq<(Seq<char>, (Seq<char>, Option<Seq<Seq<char>>>, Seq<Seq<char>>, Span))>
    decreases ctes.len(),
{
    if ctes.len() == 0 {
        seq![]
    } else {
        let c = ctes.last();
        seq_insert(ctes_of(ctes.drop_last()), spec_lowercase(c.name@),
            (c.name@, opt_texts(c.columns), cte_columns(c.select.columns@), c.span))
    }
}

/// The scope of a SELECT: its CTEs, the qualifiers of its FROM clause and
/// its column aliases.
pub open spec fn scope_of(s: SelectStmt) -> ScopeModel {
    ScopeModel {
        table_aliases: match s.from {
            Some(f) => aliases_with_tables(seq![], f.tables@),
            None => seq![],
        },
        column_aliases: column_aliases_of(s.columns@),
        ctes: match s.with_clause {
            Some(w) => ctes_of(w.ctes@),
            None => seq![],
        },
    }
}

// ---------------------------------------------------------------------
// Resolution
// ---------------------------------------------------------------------

/// The first of two results that is present.
pub open spec fn first_some<A>(a: Option<A>, b: Option<A>) -> Option<A> {
    match a {
        Some(x) => Some(x),
        None => b,
    }
}

/// Whether an offset lies within a span (both ends included).
pub open spec fn in_span(off: int, s: Span) -> bool {
    s.start <= off && off <= s.end
}

/// The CTE symbol of a scope entry: explicit columns when given, else the
/// inferred ones.
pub open spec fn cte_symbol(c: (Seq<char>, Option<Seq<Seq<char>>>, Seq<Seq<char>>, Span)) -> SymbolModel {
    SymbolModel::Cte {
        name: c.0,
        definition_span: c.3,
        columns: match c.1 {
            Some(cols) => cols,
            None => c.2,
        },
    }
}

/// What a bare identifier names: a column alias, else a table qualifier,
/// else a CTE, else an unqualified column.
pub open spec fn ident_symbol(sc: ScopeModel, name: Seq<char>) -> SymbolModel {
    let key = spec_lowercase(name);
    match lookup(sc.column_aliases, key) {
        Some(ci) => SymbolModel::ColumnAlias { alias: ci.0, definition_span: ci.1 },
        None => match lookup(sc.table_aliases, key) {
            Some(ai) => SymbolModel::TableAlias { alias: name, table_name: ai.0, definition_span: ai.1 },
            None => match lookup(sc.ctes, key) {
                Some(c) => cte_symbol(c),
                None => SymbolModel::Column { name, table_name: None, qualifier: None },
            },
        },
    }
}

/// The table a column qualifier resolves to: the aliased table, else the
/// qualifier itself.
pub open spec fn qualifier_table(sc: ScopeModel, table: Option<String>) -> Option<Seq<char>> {
    match table {
        Some(t) => match lookup(sc.table_aliases, spec_lowercase(t@)) {
            Some(ai) => Some(ai.0),
            None => Some(t@),
        },
        None => None,
    }
}

/// The symbol at `off` in an expression: nothing outside its span;
/// identifiers and column references resolve through the scope; other
/// expressions search their parts in order; subqueries resolve in their
/// own scope.
pub open spec fn sym_in_expr(e: Expr, off: int, sc: ScopeModel) -> Option<(SymbolModel, Span)>
    decreases e,
{
    if !in_span(off, e.spec_span()) {
        None
    } else {
        match e {
            Expr::Ident(name, _, span) => Some((ident_symbol(sc, name@), span)),
            Expr::Column { table, column, span, .. } => Some((SymbolModel::Column {
                name: column@,
                table_name: qualifier_table(sc, table),
                qualifier: opt_text(table),
            }, span)),
            Expr::Binary { left, right, .. } => first_some(sym_in_expr(*left, off, sc), sym_in_expr(*right, off, sc)),
            Expr::Unary { expr, .. } => sym_in_expr(*expr, off, sc),
            Expr::Paren(inner, _) => sym_in_expr(*inner, off, sc),
            Expr::Between { expr, low, high, .. } => first_some(sym_in_expr(*expr, off, sc),
                first_some(sym_in_expr(*low, off, sc), sym_in_expr(*high, off, sc))),
            Expr::InList { expr, list, .. } => first_some(sym_in_expr(*expr, off, sc), sym_in_exprs(list@, off, sc)),
            Expr::InSelect { expr, query, .. } => first_some(sym_in_expr(*expr, off, sc), sym_in_select(*query, off)),
            Expr::Like { expr, pattern, escape, .. } => first_some(sym_in_expr(*expr, off, sc),
                first_some(sym_in_expr(*pattern, off, sc), match escape {
                    Some(x) => sym_in_expr(*x, off, sc),
                    None => None,
                })),
            Expr::IsNull { expr, .. } => sym_in_expr(*expr, off, sc),
            Expr::Case { operand, when_clauses, else_clause, .. } => first_some(match operand {
                Some(o) => sym_in_expr(*o, off, sc),
                None => None,
            }, first_some(sym_in_pairs(when_clauses@, off, sc), match else_clause {
                Some(x) => sym_in_expr(*x, off, sc),
                None => None,
            })),
            Expr::Cast { expr, .. } => sym_in_expr(*expr, off, sc),
            Expr::FunctionCall { args, filter, .. } => first_some(sym_in_exprs(args@, off, sc), match filter {
                Some(f) => sym_in_expr(*f, off, sc),
                None => None,
            }),
            Expr::Collate { expr, .. } => sym_in_expr(*expr, off, sc),
            Expr::Subquery { query, .. } => sym_in_select(*query, off),
            Expr::Exists { query, .. } => sym_in_select(*query, off),
            _ => None,
        }
    }
}

/// The first symbol at `off` in a list of expressions.
pub open spec fn sym_in_exprs(es: Seq<Expr>, off: int, sc: ScopeModel) -> Option<(SymbolModel, Span)>
    decreases es,
{
    if es.len() == 0 {
        None
    } else {
        first_some(sym_in_exprs(es.drop_last(), off, sc), sym_in_expr(es.last(), off, sc))
    }
}

/// The first symbol at `off` in the WHEN/THEN pairs of a CASE.
pub open spec fn sym_in_pairs(ps: Seq<(Expr, Expr)>, off: int, sc: ScopeModel) -> Option<(SymbolModel, Span)>
    decreases ps,
{
    if ps.len() == 0 {
        None
    } else {
        first_some(sym_in_pairs(ps.drop_last(), off, sc),
            first_some(sym_in_expr(ps.last().0, off, sc), sym_in_expr(ps.last().1, off, sc)))
    }
}

/// The first symbol at `off` in a result list: an aliased expression is
/// searched only when `off` is within its span; `t.*` resolves `t` as a
/// table alias.
pub open spec fn sym_in_result_cols(cols: Seq<ResultColumn>, off: int, sc: ScopeModel) -> Option<(SymbolModel, Span)>
    decreases cols,
{
    if cols.len() == 0 {
        None
    } else {
        first_some(sym_in_result_cols(cols.drop_last(), off, sc), match cols.last() {
            ResultColumn::Expr { expr, alias, span, .. } => if alias is Some {
                if in_span(off, span) {
                    sym_in_expr(expr, off, sc)
                } else {
                    None
                }
            } else {
                sym_in_expr(expr, off, sc)
            },
            ResultColumn::TableStar { table, span } => if in_span(off, span) {
                match lookup(sc.table_aliases, spec_lowercase(table@)) {
                    Some(ai) => Some((SymbolModel::TableAlias { alias: table@, table_name: ai.0, definition_span: ai.1 }, span)),
                    None => None,
                }
            } else {
                None
            },
            ResultColumn::Star(_) => None,
        })
    }
}

/// The symbol at `off` in a FROM item: a table (or the CTE it names), a
/// table-valued function (or a symbol in its arguments), a subquery's own
/// symbols, or the parts of a join and its ON condition.
pub open spec fn sym_in_table(t: TableOrSubquery, off: int, sc: ScopeModel) -> Option<(SymbolModel, Span)>
    decreases t,
{
    match t {
        TableOrSubquery::Table { name, span, .. } => if in_span(off, span) {
            match lookup(sc.ctes, spec_lowercase(name@)) {
                Some(c) => Some((cte_symbol(c), span)),
                None => Some((SymbolModel::Table { name: name@, span }, span)),
            }
        } else {
            None
        },
        TableOrSubquery::TableFunction { name, args, span, .. } => if in_span(off, span) {
            first_some(sym_in_exprs(args@, off, sc), Some((SymbolModel::Table { name: name@, span }, span)))
        } else {
            None
        },
        TableOrSubquery::Subquery { query, span, .. } => if in_span(off, span) {
            sym_in_select(*query, off)
        } else {
            None
        },
        TableOrSubquery::Join { left, right, constraint, .. } => first_some(sym_in_table(*left, off, sc),
            first_some(sym_in_table(*right, off, sc), match constraint {
                Some(JoinConstraint::On(e)) => sym_in_expr(e, off, sc),
                _ => None,
            })),
        TableOrSubquery::TableList { tables, .. } => sym_in_tables(tables@, off, sc),
    }
}

/// The first symbol at `off` in a list of FROM items.
pub open spec fn sym_in_tables(ts: Seq<TableOrSubquery>, off: int, sc: ScopeModel) -> Option<(SymbolModel, Span)>
    decreases ts,
{
    if ts.len() == 0 {
        None
    } else {
        first_some(sym_in_tables(ts.drop_last(), off, sc), sym_in_table(ts.last(), off, sc))
    }
}

/// The first symbol at `off` in ORDER BY terms.
pub open spec fn sym_in_terms(ts: Seq<crate::ast::OrderingTerm>, off: int, sc: ScopeModel) -> Option<(SymbolModel, Span)>
    decreases ts,
{
    if ts.len() == 0 {
        None
    } else {
        first_some(sym_in_terms(ts.drop_last(), off, sc), sym_in_expr(ts.last().expr, off, sc))
    }
}

/// The symbol at `off` in a SELECT, searched in the result columns, the
/// FROM clause, WHERE, GROUP BY, HAVING and ORDER BY, in that order, in
/// the SELECT's own scope.
pub open spec fn sym_in_select(s: SelectStmt, off: int) -> Option<(SymbolModel, Span)>
    decreases s,
{
    let sc = scope_of(s);
    first_some(sym_in_result_cols(s.columns@, off, sc),
    first_some(match s.from {
        Some(f) => sym_in_tables(f.tables@, off, sc),
        None => None,
    },
    first_some(match s.where_clause {
        Some(w) => sym_in_expr(w, off, sc),
        None => None,
    },
    first_some(match s.group_by {
        Some(g) => sym_in_exprs(g@, off, sc),
        None => None,
    },
    first_some(match s.having {
        Some(h) => sym_in_expr(h, off, sc),
        None => None,
    },
    match s.order_by {
        Some(o) => sym_in_terms(o@, off, sc),
        None => None,
    })))))
}


// ---------------------------------------------------------------------
// Building scopes
// ---------------------------------------------------------------------

impl StatementScope {
    /// An empty scope.
    pub fn new() -> (r: Self)
        ensures
            r@ == empty_scope(),
    {
        StatementScope { table_aliases: StrMap::new(), column_aliases: StrMap::new(), ctes: StrMap::new() }
    }
}

/// A copy of optional column names.
fn copy_opt_strings(c: &Option<Vec<String>>) -> (r: Option<Vec<String>>)
    ensures
        opt_texts(r) == opt_texts(*c),
{
    match c {
        Some(v) => Some(copy_strings(v)),
        None => None,
    }
}

/// Infers the column names of a CTE from its SELECT.
pub fn infer_cte_columns_from_select(select: &SelectStmt) -> (r: Vec<String>)
    ensures
        texts(r@) == cte_columns(select.columns@),
{
    infer_cte_columns(&select.columns)
}

/// Records the CTEs of a WITH clause.
pub fn collect_ctes(scope: &mut StatementScope, with_clause: &WithClause)
    ensures
        final(scope)@ == (ScopeModel { ctes: ctes_of_from(old(scope)@.ctes, with_clause.ctes@), ..old(scope)@ }),
{
    let ctes = &with_clause.ctes;
    let ghost start = scope@;
    let mut i: usize = 0;
    while i < ctes.len()
        invariant
            i <= ctes@.len(),
            scope@ == (ScopeModel { ctes: ctes_of_from(start.ctes, ctes@.subrange(0, i as int)), ..start }),
        decreases ctes@.len() - i,
    {
        let cte = &ctes[i];
        let inferred_columns = infer_cte_columns_from_select(&cte.select);
        let info = CteInfo {
            name: cte.name.clone(),
            columns: copy_opt_strings(&cte.columns),
            inferred_columns,
            definition_span: cte.span.copy(),
        };
        scope.ctes.insert(to_lower(cte.name.as_str()), info);
        proof {
            let sub = ctes@.subrange(0, i + 1);
            assert(sub.drop_last() =~= ctes@.subrange(0, i as int));
            assert(sub.last() == ctes@[i as int]);
        }
        i = i + 1;
    }
    assert(ctes@.subrange(0, ctes@.len() as int) =~= ctes@);
}

/// Records the qualifiers a FROM item defines.
#[verifier::loop_isolation(false)]
pub fn collect_table_or_subquery(scope: &mut StatementScope, table: &TableOrSubquery)
    ensures
        final(scope)@ == (ScopeModel { table_aliases: aliases_with_table(old(scope)@.table_aliases, *table), ..old(scope)@ }),
    decreases table,
{
    match table {
        TableOrSubquery::Table { name, alias, span, .. } => {
            match alias {
                Some(a) => {
                    let info = TableAliasInfo { table_name: name.clone(), alias_span: span.copy(), full_span: span.copy() };
                    scope.table_aliases.insert(to_lower(a.as_str()), info);
                }
                None => {
                    let info = TableAliasInfo { table_name: name.clone(), alias_span: span.copy(), full_span: span.copy() };
                    scope.table_aliases.insert(to_lower(name.as_str()), info);
                }
            }
        }
        TableOrSubquery::TableFunction { name, alias, span, .. } => {
            match alias {
                Some(a) => {
                    let info = TableAliasInfo { table_name: name.clone(), alias_span: span.copy(), full_span: span.copy() };
                    scope.table_aliases.insert(to_lower(a.as_str()), info);
                }
                None => {
                    let info = TableAliasInfo { table_name: name.clone(), alias_span: span.copy(), full_span: span.copy() };
                    scope.table_aliases.insert(to_lower(name.as_str()), info);
                }
            }
        }
        TableOrSubquery::Subquery { alias, span, .. } => {
            match alias {
                Some(a) => {
                    let info = TableAliasInfo {
                        table_name: string_of("(subquery)"),
                        alias_span: span.copy(),
                        full_span: span.copy(),
                    };
                    scope.table_aliases.insert(to_lower(a.as_str()), info);
                }
                None => {}
            }
        }
        TableOrSubquery::Join { left, right, .. } => {
            collect_table_or_subquery(scope, left);
            collect_table_or_subquery(scope, right);
        }
        TableOrSubquery::TableList { tables, .. } => {
            let ghost start = scope@;
            let mut i: usize = 0;
            while i < tables.len()
                invariant
                    i <= tables@.len(),
                    scope@ == (ScopeModel { table_aliases: aliases_with_tables(start.table_aliases, tables@.subrange(0, i as int)), ..start }),
                decreases tables@.len() - i,
            {
                assert(decreases_to!(*table => tables@[i as int]));
                collect_table_or_subquery(scope, &tables[i]);
                assert(tables@.subrange(0, i + 1).drop_last() =~= tables@.subrange(0, i as int));
                i = i + 1;
            }
            assert(tables@.subrange(0, tables@.len() as int) =~= tables@);
        }
    }
}

/// Records the qualifiers of a FROM clause.
pub fn collect_from_clause(scope: &mut StatementScope, from: &FromClause, _source: &str)
    ensures
        final(scope)@ == (ScopeModel { table_aliases: aliases_with_tables(old(scope)@.table_aliases, from.tables@), ..old(scope)@ }),
{
    let ghost start = scope@;
    let mut i: usize = 0;
    while i < from.tables.len()
        invariant
            i <= from.tables@.len(),
            scope@ == (ScopeModel { table_aliases: aliases_with_tables(start.table_aliases, from.tables@.subrange(0, i as int)), ..start }),
        decreases from.tables@.len() - i,
    {
        collect_table_or_subquery(scope, &from.tables[i]);
        assert(from.tables@.subrange(0, i + 1).drop_last() =~= from.tables@.subrange(0, i as int));
        i = i + 1;
    }
    assert(from.tables@.subrange(0, from.tables@.len() as int) =~= from.tables@);
}

/// Builds the scope of a SELECT: its CTEs, FROM qualifiers and column aliases.
pub fn build_scope_from_select(select: &SelectStmt, source: &str) -> (r: StatementScope)
    ensures
        r@ == scope_of(*select),
{
    let mut scope = StatementScope::new();
    match &select.with_clause {
        Some(w) => {
            collect_ctes(&mut scope, w);
            assert(ctes_of_from(seq![], w.ctes@) == ctes_of(w.ctes@)) by {
                lemma_ctes_of_from(w.ctes@);
            }
        }
        None => {}
    }
    match &select.from {
        Some(from) => collect_from_clause(&mut scope, from, source),
        None => {}
    }
    let cols = &select.columns;
    let ghost before = scope@;
    let mut i: usize = 0;
    while i < cols.len()
        invariant
            i <= cols@.len(),
            scope@ == (ScopeModel { column_aliases: column_aliases_of(cols@.subrange(0, i as int)), ..before }),
            before.column_aliases == Seq::<(Seq<char>, (Seq<char>, Span, Span))>::empty(),
        decreases cols@.len() - i,
    {
        match &cols[i] {
            ResultColumn::Expr { alias, span, .. } => {
                match alias {
                    Some(a) => {
                        let info = ColumnAliasInfo { alias: a.clone(), definition_span: span.copy(), full_span: span.copy() };
                        scope.column_aliases.insert(to_lower(a.as_str()), info);
                    }
                    None => {}
                }
            }
            _ => {}
        }
        proof {
            let sub = cols@.subrange(0, i + 1);
            assert(sub.drop_last() =~= cols@.subrange(0, i as int));
            assert(sub.last() == cols@[i as int]);
        }
        i = i + 1;
    }
    assert(cols@.subrange(0, cols@.len() as int) =~= cols@);
    scope
}

/// The CTE entries of `ctes` added, in order, to `start`.
pub open spec fn ctes_of_from(
    start: Seq<(Seq<char>, (Seq<char>, Option<Seq<Seq<char>>>, Seq<Seq<char>>, Span))>,
    ctes: Seq<CommonTableExpr>,
) -> Seq<(Seq<char>, (Seq<char>, Option<Seq<Seq<char>>>, Seq<Seq<char>>, Span))>
    decreases ctes.len(),
{
    if ctes.len() == 0 {
        start
    } else {
        let c = ctes.last();
        seq_insert(ctes_of_from(start, ctes.drop_last()), spec_lowercase(c.name@),
            (c.name@, opt_texts(c.columns), cte_columns(c.select.columns@), c.span))
    }
}

/// Adding CTEs to an empty registry gives the CTEs of the clause.
pub proof fn lemma_ctes_of_from(ctes: Seq<CommonTableExpr>)
    ensures
        ctes_of_from(seq![], ctes) == ctes_of(ctes),
    decreases ctes.len(),
{
    if ctes.len() > 0 {
        lemma_ctes_of_from(ctes.drop_last());
    }
}


// ---------------------------------------------------------------------
// Statements
// ---------------------------------------------------------------------

/// The span of a statement.
pub open spec fn stmt_span(s: Statement) -> Span {
    match s {
        Statement::Select(x) => x.span,
        Statement::Insert(x) => x.span,
        Statement::Update(x) => x.span,
        Statement::Delete(x) => x.span,
        Statement::CreateTable(x) => x.span,
        Statement::CreateIndex(x) => x.span,
        Statement::CreateView(x) => x.span,
        Statement::CreateTrigger(x) => x.span,
        Statement::CreateVirtualTable(x) => x.span,
        Statement::AlterTable(x) => x.span,
        Statement::DropTable(x) => x.span,
        Statement::DropIndex(x) => x.span,
        Statement::DropView(x) => x.span,
        Statement::DropTrigger(x) => x.span,
        Statement::Begin(x) => x.span,
        Statement::Commit(x) => x.span,
        Statement::Rollback(x) => x.span,
        Statement::Savepoint(x) => x.span,
        Statement::Release(x) => x.span,
        Statement::Vacuum(x) => x.span,
        Statement::Analyze(x) => x.span,
        Statement::Reindex(x) => x.span,
        Statement::Attach(x) => x.span,
        Statement::Detach(x) => x.span,
        Statement::Pragma(x) => x.span,
        Statement::Explain { span, .. } => span,
    }
}

/// The span of a statement.
pub fn statement_span(stmt: &Statement) -> (r: &Span)
    ensures
        *r == stmt_span(*stmt),
{
    match stmt {
        Statement::Select(x) => &x.span,
        Statement::Insert(x) => &x.span,
        Statement::Update(x) => &x.span,
        Statement::Delete(x) => &x.span,
        Statement::CreateTable(x) => &x.span,
        Statement::CreateIndex(x) => &x.span,
        Statement::CreateView(x) => &x.span,
        Statement::CreateTrigger(x) => &x.span,
        Statement::CreateVirtualTable(x) => &x.span,
        Statement::AlterTable(x) => &x.span,
        Statement::DropTable(x) => &x.span,
        Statement::DropIndex(x) => &x.span,
        Statement::DropView(x) => &x.span,
        Statement::DropTrigger(x) => &x.span,
        Statement::Begin(x) => &x.span,
        Statement::Commit(x) => &x.span,
        Statement::Rollback(x) => &x.span,
        Statement::Savepoint(x) => &x.span,
        Statement::Release(x) => &x.span,
        Statement::Vacuum(x) => &x.span,
        Statement::Analyze(x) => &x.span,
        Statement::Reindex(x) => &x.span,
        Statement::Attach(x) => &x.span,
        Statement::Detach(x) => &x.span,
        Statement::Pragma(x) => &x.span,
        Statement::Explain { span, .. } => span,
    }
}

/// The index of the first statement whose span contains `off`.
pub open spec fn stmt_index_at(stmts: Seq<Statement>, off: int) -> Option<int>
    decreases stmts.len(),
{
    if stmts.len() == 0 {
        None
    } else {
        match stmt_index_at(stmts.drop_last(), off) {
            Some(i) => Some(i),
            None => if in_span(off, stmt_span(stmts.last())) {
                Some(stmts.len() - 1)
            } else {
                None
            },
        }
    }
}

/// The first statement whose span contains the offset.
#[verifier::loop_isolation(false)]
pub fn find_statement_at_offset(program: &Program, offset: usize) -> (r: Option<&Statement>)
    ensures
        match stmt_index_at(program.statements@, offset as int) {
            Some(i) => r matches Some(s) && 0 <= i < program.statements@.len() && *s == program.statements@[i],
            None => r is None,
        },
{
    let stmts = &program.statements;
    let mut i: usize = 0;
    while i < stmts.len()
        invariant
            i <= stmts@.len(),
            stmt_index_at(stmts@.subrange(0, i as int), offset as int) is None,
        decreases stmts@.len() - i,
    {
        let span = statement_span(&stmts[i]);
        proof {
            let sub = stmts@.subrange(0, i + 1);
            assert(sub.drop_last() =~= stmts@.subrange(0, i as int));
            assert(sub.last() == stmts@[i as int]);
        }
        if offset >= span.start && offset <= span.end {
            proof {
                assert(in_span(offset as int, stmt_span(stmts@.subrange(0, i + 1).last())));
                assert(stmt_index_at(stmts@.subrange(0, i + 1), offset as int) == Some(i as int));
                lemma_stmt_index_prefix(stmts@, i as int + 1, offset as int);
                assert(stmt_index_at(program.statements@, offset as int) == Some(i as int));
            }
            let found = &stmts[i];
            assert(*found == program.statements@[i as int]);
            return Some(found);
        }
        i = i + 1;
    }
    assert(stmts@.subrange(0, stmts@.len() as int) =~= stmts@);
    None
}

/// The first statement found in a prefix is the first in the whole list.
pub proof fn lemma_stmt_index_prefix(stmts: Seq<Statement>, n: int, off: int)
    requires
        0 <= n <= stmts.len(),
        stmt_index_at(stmts.subrange(0, n), off) is Some,
    ensures
        stmt_index_at(stmts, off) == stmt_index_at(stmts.subrange(0, n), off),
    decreases stmts.len() - n,
{
    if n < stmts.len() {
        let sub = stmts.subrange(0, n + 1);
        assert(sub.drop_last() =~= stmts.subrange(0, n));
        lemma_stmt_index_prefix(stmts, n + 1, off);
    } else {
        assert(stmts.subrange(0, n) =~= stmts);
    }
}

// ---------------------------------------------------------------------
// Finding symbols
// ---------------------------------------------------------------------

/// A copy of a string list.
fn cte_resolved(c: &CteInfo) -> (r: ResolvedSymbol)
    ensures
        r@ == cte_symbol(c@),
{
    let columns = match &c.columns {
        Some(cols) => copy_strings(cols),
        None => copy_strings(&c.inferred_columns),
    };
    ResolvedSymbol::Cte { name: c.name.clone(), definition_span: c.definition_span.copy(), columns }
}

/// What a bare identifier names in a scope.
fn ident_resolution(scope: &StatementScope, name: &String) -> (r: ResolvedSymbol)
    ensures
        r@ == ident_symbol(scope@, name@),
{
    let key = to_lower(name.as_str());
    match scope.column_aliases.get(key.as_str()) {
        Some(ci) => ResolvedSymbol::ColumnAlias { alias: ci.alias.clone(), definition_span: ci.definition_span.copy() },
        None => match scope.table_aliases.get(key.as_str()) {
            Some(ai) => ResolvedSymbol::TableAlias {
                alias: name.clone(),
                table_name: ai.table_name.clone(),
                definition_span: ai.alias_span.copy(),
            },
            None => match scope.ctes.get(key.as_str()) {
                Some(c) => cte_resolved(c),
                None => ResolvedSymbol::Column { name: name.clone(), table_name: None, qualifier: None },
            },
        },
    }
}

/// A copy of an optional string.
fn copy_opt_string(s: &Option<String>) -> (r: Option<String>)
    ensures
        opt_text(r) == opt_text(*s),
{
    match s {
        Some(t) => Some(t.clone()),
        None => None,
    }
}

/// The first symbol at the offset in a list of expressions.
#[verifier::loop_isolation(false)]
fn find_in_exprs(es: &Vec<Expr>, source: &str, offset: usize, scope: &StatementScope, schema: Option<&Schema>)
    -> (r: Option<(ResolvedSymbol, Span)>)
    ensures
        opt_found(r) == sym_in_exprs(es@, offset as int, scope@),
    decreases es@,
{
    let mut i: usize = 0;
    while i < es.len()
        invariant
            i <= es@.len(),
            sym_in_exprs(es@.subrange(0, i as int), offset as int, scope@) is None,
        decreases es@.len() - i,
    {
        assert(decreases_to!(es@ => es@[i as int]));
        let r = find_symbol_in_expr(&es[i], source, offset, scope, schema);
        proof {
            let sub = es@.subrange(0, i + 1);
            assert(sub.drop_last() =~= es@.subrange(0, i as int));
            assert(sub.last() == es@[i as int]);
        }
        if r.is_some() {
            proof {
                lemma_exprs_prefix(es@, i as int + 1, offset as int, scope@);
            }
            return r;
        }
        i = i + 1;
    }
    assert(es@.subrange(0, es@.len() as int) =~= es@);
    None
}

/// A symbol found in a prefix of a list is the first of the whole list.
pub proof fn lemma_exprs_prefix(es: Seq<Expr>, n: int, off: int, sc: ScopeModel)
    requires
        0 <= n <= es.len(),
        sym_in_exprs(es.subrange(0, n), off, sc) is Some,
    ensures
        sym_in_exprs(es, off, sc) == sym_in_exprs(es.subrange(0, n), off, sc),
    decreases es.len() - n,
{
    if n < es.len() {
        let sub = es.subrange(0, n + 1);
        assert(sub.drop_last() =~= es.subrange(0, n));
        lemma_exprs_prefix(es, n + 1, off, sc);
    } else {
        assert(es.subrange(0, n) =~= es);
    }
}

/// A symbol found in a prefix of the pairs is the first of all pairs.
pub proof fn lemma_pairs_prefix(ps: Seq<(Expr, Expr)>, n: int, off: int, sc: ScopeModel)
    requires
        0 <= n <= ps.len(),
        sym_in_pairs(ps.subrange(0, n), off, sc) is Some,
    ensures
        sym_in_pairs(ps, off, sc) == sym_in_pairs(ps.subrange(0, n), off, sc),
    decreases ps.len() - n,
{
    if n < ps.len() {
        let sub = ps.subrange(0, n + 1);
        assert(sub.drop_last() =~= ps.subrange(0, n));
        lemma_pairs_prefix(ps, n + 1, off, sc);
    } else {
        assert(ps.subrange(0, n) =~= ps);
    }
}

/// A symbol found in a prefix of the FROM items is the first of all items.
pub proof fn lemma_tables_prefix(ts: Seq<TableOrSubquery>, n: int, off: int, sc: ScopeModel)
    requires
        0 <= n <= ts.len(),
        sym_in_tables(ts.subrange(0, n), off, sc) is Some,
    ensures
        sym_in_tables(ts, off, sc) == sym_in_tables(ts.subrange(0, n), off, sc),
    decreases ts.len() - n,
{
    if n < ts.len() {
        let sub = ts.subrange(0, n + 1);
        assert(sub.drop_last() =~= ts.subrange(0, n));
        lemma_tables_prefix(ts, n + 1, off, sc);
    } else {
        assert(ts.subrange(0, n) =~= ts);
    }
}

/// A symbol found in a prefix of the result columns is the first of all.
pub proof fn lemma_cols_prefix(cs: Seq<ResultColumn>, n: int, off: int, sc: ScopeModel)
    requires
        0 <= n <= cs.len(),
        sym_in_result_cols(cs.subrange(0, n), off, sc) is Some,
    ensures
        sym_in_result_cols(cs, off, sc) == sym_in_result_cols(cs.subrange(0, n), off, sc),
    decreases cs.len() - n,
{
    if n < cs.len() {
        let sub = cs.subrange(0, n + 1);
        assert(sub.drop_last() =~= cs.subrange(0, n));
        lemma_cols_prefix(cs, n + 1, off, sc);
    } else {
        assert(cs.subrange(0, n) =~= cs);
    }
}

/// A symbol found in a prefix of the ORDER BY terms is the first of all.
pub proof fn lemma_terms_prefix(ts: Seq<crate::ast::OrderingTerm>, n: int, off: int, sc: ScopeModel)
    requires
        0 <= n <= ts.len(),
        sym_in_terms(ts.subrange(0, n), off, sc) is Some,
    ensures
        sym_in_terms(ts, off, sc) == sym_in_terms(ts.subrange(0, n), off, sc),
    decreases ts.len() - n,
{
    if n < ts.len() {
        let sub = ts.subrange(0, n + 1);
        assert(sub.drop_last() =~= ts.subrange(0, n));
        lemma_terms_prefix(ts, n + 1, off, sc);
    } else {
        assert(ts.subrange(0, n) =~= ts);
    }
}


/// The symbol at the offset in an expression: nothing outside its span;
/// identifiers and column references resolve through the scope; other
/// expressions search their parts in order; subqueries resolve in their
/// own scope.
#[verifier::loop_isolation(false)]
pub fn find_symbol_in_expr(
    expr: &Expr,
    source: &str,
    offset: usize,
    scope: &StatementScope,
    schema: Option<&Schema>,
) -> (r: Option<(ResolvedSymbol, Span)>)
    ensures
        opt_found(r) == sym_in_expr(*expr, offset as int, scope@),
    decreases expr,
{
    let whole = expr.span();
    if offset < whole.start || offset > whole.end {
        return None;
    }
    match expr {
        Expr::Ident(name, _, span) => Some((ident_resolution(scope, name), span.copy())),
        Expr::Column { table, column, span, .. } => {
            let resolved = match table {
                Some(t) => match scope.table_aliases.get(to_lower(t.as_str()).as_str()) {
                    Some(info) => Some(info.table_name.clone()),
                    None => Some(t.clone()),
                },
                None => None,
            };
            Some((ResolvedSymbol::Column { name: column.clone(), table_name: resolved, qualifier: copy_opt_string(table) }, span.copy()))
        }
        Expr::Binary { left, right, .. } => {
            let r = find_symbol_in_expr(left, source, offset, scope, schema);
            if r.is_some() {
                return r;
            }
            find_symbol_in_expr(right, source, offset, scope, schema)
        }
        Expr::Unary { expr: inner, .. } => find_symbol_in_expr(inner, source, offset, scope, schema),
        Expr::Paren(inner, _) => find_symbol_in_expr(inner, source, offset, scope, schema),
        Expr::Between { expr: e, low, high, .. } => {
            let r = find_symbol_in_expr(e, source, offset, scope, schema);
            if r.is_some() {
                return r;
            }
            let r = find_symbol_in_expr(low, source, offset, scope, schema);
            if r.is_some() {
                return r;
            }
            find_symbol_in_expr(high, source, offset, scope, schema)
        }
        Expr::InList { expr: e, list, .. } => {
            let r = find_symbol_in_expr(e, source, offset, scope, schema);
            if r.is_some() {
                return r;
            }
            find_in_exprs(list, source, offset, scope, schema)
        }
        Expr::InSelect { expr: e, query, .. } => {
            let r = find_symbol_in_expr(e, source, offset, scope, schema);
            if r.is_some() {
                return r;
            }
            find_symbol_in_select(query, source, offset, schema)
        }
        Expr::Like { expr: e, pattern, escape, .. } => {
            let r = find_symbol_in_expr(e, source, offset, scope, schema);
            if r.is_some() {
                return r;
            }
            let r = find_symbol_in_expr(pattern, source, offset, scope, schema);
            if r.is_some() {
                return r;
            }
            match escape {
                Some(esc) => find_symbol_in_expr(esc, source, offset, scope, schema),
                None => None,
            }
        }
        Expr::IsNull { expr: e, .. } => find_symbol_in_expr(e, source, offset, scope, schema),
        Expr::Case { operand, when_clauses, else_clause, .. } => {
            match operand {
                Some(op) => {
                    let r = find_symbol_in_expr(op, source, offset, scope, schema);
                    if r.is_some() {
                        return r;
                    }
                }
                None => {}
            }
            let mut i: usize = 0;
            while i < when_clauses.len()
                invariant
                    i <= when_clauses@.len(),
                    sym_in_pairs(when_clauses@.subrange(0, i as int), offset as int, scope@) is None,
                decreases when_clauses@.len() - i,
            {
                assert(decreases_to!(*expr => when_clauses@[i as int].0));
                assert(decreases_to!(*expr => when_clauses@[i as int].1));
                proof {
                    let sub = when_clauses@.subrange(0, i + 1);
                    assert(sub.drop_last() =~= when_clauses@.subrange(0, i as int));
                    assert(sub.last() == when_clauses@[i as int]);
                }
                let r = find_symbol_in_expr(&when_clauses[i].0, source, offset, scope, schema);
                if r.is_some() {
                    proof {
                        lemma_pairs_prefix(when_clauses@, i as int + 1, offset as int, scope@);
                    }
                    return r;
                }
                let r = find_symbol_in_expr(&when_clauses[i].1, source, offset, scope, schema);
                if r.is_some() {
                    proof {
                        lemma_pairs_prefix(when_clauses@, i as int + 1, offset as int, scope@);
                    }
                    return r;
                }
                i = i + 1;
            }
            assert(when_clauses@.subrange(0, when_clauses@.len() as int) =~= when_clauses@);
            match else_clause {
                Some(e) => find_symbol_in_expr(e, source, offset, scope, schema),
                None => None,
            }
        }
        Expr::Cast { expr: e, .. } => find_symbol_in_expr(e, source, offset, scope, schema),
        Expr::FunctionCall { args, filter, .. } => {
            let r = find_in_exprs(args, source, offset, scope, schema);
            if r.is_some() {
                return r;
            }
            match filter {
                Some(f) => find_symbol_in_expr(f, source, offset, scope, schema),
                None => None,
            }
        }
        Expr::Collate { expr: e, .. } => find_symbol_in_expr(e, source, offset, scope, schema),
        Expr::Subquery { query, .. } => find_symbol_in_select(query, source, offset, schema),
        Expr::Exists { query, .. } => find_symbol_in_select(query, source, offset, schema),
        _ => None,
    }
}

/// The symbol at the offset in a FROM item.
#[verifier::loop_isolation(false)]
pub fn find_symbol_in_table_or_subquery(
    table: &TableOrSubquery,
    source: &str,
    offset: usize,
    scope: &StatementScope,
    schema: Option<&Schema>,
) -> (r: Option<(ResolvedSymbol, Span)>)
    ensures
        opt_found(r) == sym_in_table(*table, offset as int, scope@),
    decreases table,
{
    match table {
        TableOrSubquery::Table { name, span, .. } => {
            if offset >= span.start && offset <= span.end {
                match scope.ctes.get(to_lower(name.as_str()).as_str()) {
                    Some(c) => Some((cte_resolved(c), span.copy())),
                    None => Some((ResolvedSymbol::Table { name: name.clone(), span: span.copy() }, span.copy())),
                }
            } else {
                None
            }
        }
        TableOrSubquery::TableFunction { name, args, span, .. } => {
            if offset >= span.start && offset <= span.end {
                let r = find_in_exprs(args, source, offset, scope, schema);
                if r.is_some() {
                    return r;
                }
                Some((ResolvedSymbol::Table { name: name.clone(), span: span.copy() }, span.copy()))
            } else {
                None
            }
        }
        TableOrSubquery::Subquery { query, span, .. } => {
            if offset >= span.start && offset <= span.end {
                find_symbol_in_select(query, source, offset, schema)
            } else {
                None
            }
        }
        TableOrSubquery::Join { left, right, constraint, .. } => {
            let r = find_symbol_in_table_or_subquery(left, source, offset, scope, schema);
            if r.is_some() {
                return r;
            }
            let r = find_symbol_in_table_or_subquery(right, source, offset, scope, schema);
            if r.is_some() {
                return r;
            }
            match constraint {
                Some(JoinConstraint::On(e)) => find_symbol_in_expr(e, source, offset, scope, schema),
                _ => None,
            }
        }
        TableOrSubquery::TableList { tables, .. } => {
            let mut i: usize = 0;
            while i < tables.len()
                invariant
                    i <= tables@.len(),
                    sym_in_tables(tables@.subrange(0, i as int), offset as int, scope@) is None,
                decreases tables@.len() - i,
            {
                assert(decreases_to!(*table => tables@[i as int]));
                let r = find_symbol_in_table_or_subquery(&tables[i], source, offset, scope, schema);
                proof {
                    let sub = tables@.subrange(0, i + 1);
                    assert(sub.drop_last() =~= tables@.subrange(0, i as int));
                    assert(sub.last() == tables@[i as int]);
                }
                if r.is_some() {
                    proof {
                        lemma_tables_prefix(tables@, i as int + 1, offset as int, scope@);
                    }
                    return r;
                }
                i = i + 1;
            }
            assert(tables@.subrange(0, tables@.len() as int) =~= tables@);
            None
        }
    }
}

/// The symbol at the offset in a FROM clause.
#[verifier::loop_isolation(false)]
pub fn find_symbol_in_from(
    from: &FromClause,
    source: &str,
    offset: usize,
    scope: &StatementScope,
    schema: Option<&Schema>,
) -> (r: Option<(ResolvedSymbol, Span)>)
    ensures
        opt_found(r) == sym_in_tables(from.tables@, offset as int, scope@),
    decreases from,
{
    let tables = &from.tables;
    let mut i: usize = 0;
    while i < tables.len()
        invariant
            i <= tables@.len(),
            sym_in_tables(tables@.subrange(0, i as int), offset as int, scope@) is None,
        decreases tables@.len() - i,
    {
        assert(decreases_to!(*from => tables@[i as int]));
        let r = find_symbol_in_table_or_subquery(&tables[i], source, offset, scope, schema);
        proof {
            let sub = tables@.subrange(0, i + 1);
            assert(sub.drop_last() =~= tables@.subrange(0, i as int));
            assert(sub.last() == tables@[i as int]);
        }
        if r.is_some() {
            proof {
                lemma_tables_prefix(tables@, i as int + 1, offset as int, scope@);
            }
            return r;
        }
        i = i + 1;
    }
    assert(tables@.subrange(0, tables@.len() as int) =~= tables@);
    None
}

/// The first symbol at the offset in a result list.
#[verifier::loop_isolation(false)]
fn find_in_result_columns(
    cols: &Vec<ResultColumn>,
    source: &str,
    offset: usize,
    scope: &StatementScope,
    schema: Option<&Schema>,
) -> (r: Option<(ResolvedSymbol, Span)>)
    ensures
        opt_found(r) == sym_in_result_cols(cols@, offset as int, scope@),
    decreases cols@,
{
    let mut i: usize = 0;
    while i < cols.len()
        invariant
            i <= cols@.len(),
            sym_in_result_cols(cols@.subrange(0, i as int), offset as int, scope@) is None,
        decreases cols@.len() - i,
    {
        proof {
            let sub = cols@.subrange(0, i + 1);
            assert(sub.drop_last() =~= cols@.subrange(0, i as int));
            assert(sub.last() == cols@[i as int]);
        }
        let r = match &cols[i] {
            ResultColumn::Expr { expr, alias, span, .. } => {
                assert(decreases_to!(cols@ => cols@[i as int]));
                if alias.is_some() {
                    if offset >= span.start && offset <= span.end {
                        find_symbol_in_expr(expr, source, offset, scope, schema)
                    } else {
                        None
                    }
                } else {
                    find_symbol_in_expr(expr, source, offset, scope, schema)
                }
            }
            ResultColumn::TableStar { table, span } => {
                if offset >= span.start && offset <= span.end {
                    match scope.table_aliases.get(to_lower(table.as_str()).as_str()) {
                        Some(ai) => Some((ResolvedSymbol::TableAlias {
                            alias: table.clone(),
                            table_name: ai.table_name.clone(),
                            definition_span: ai.alias_span.copy(),
                        }, span.copy())),
                        None => None,
                    }
                } else {
                    None
                }
            }
            ResultColumn::Star(_) => None,
        };
        if r.is_some() {
            proof {
                lemma_cols_prefix(cols@, i as int + 1, offset as int, scope@);
            }
            return r;
        }
        i = i + 1;
    }
    assert(cols@.subrange(0, cols@.len() as int) =~= cols@);
    None
}

/// The first symbol at the offset in ORDER BY terms.
#[verifier::loop_isolation(false)]
fn find_in_terms(
    terms: &Vec<crate::ast::OrderingTerm>,
    source: &str,
    offset: usize,
    scope: &StatementScope,
    schema: Option<&Schema>,
) -> (r: Option<(ResolvedSymbol, Span)>)
    ensures
        opt_found(r) == sym_in_terms(terms@, offset as int, scope@),
    decreases terms@,
{
    let mut i: usize = 0;
    while i < terms.len()
        invariant
            i <= terms@.len(),
            sym_in_terms(terms@.subrange(0, i as int), offset as int, scope@) is None,
        decreases terms@.len() - i,
    {
        assert(decreases_to!(terms@ => terms@[i as int].expr));
        let r = find_symbol_in_expr(&terms[i].expr, source, offset, scope, schema);
        proof {
            let sub = terms@.subrange(0, i + 1);
            assert(sub.drop_last() =~= terms@.subrange(0, i as int));
            assert(sub.last() == terms@[i as int]);
        }
        if r.is_some() {
            proof {
                lemma_terms_prefix(terms@, i as int + 1, offset as int, scope@);
            }
            return r;
        }
        i = i + 1;
    }
    assert(terms@.subrange(0, terms@.len() as int) =~= terms@);
    None
}

/// The symbol at the offset in a SELECT, searched in the result columns,
/// the FROM clause, WHERE, GROUP BY, HAVING and ORDER BY, in that order.
pub fn find_symbol_in_select(
    select: &SelectStmt,
    source: &str,
    offset: usize,
    schema: Option<&Schema>,
) -> (r: Option<(ResolvedSymbol, Span)>)
    ensures
        opt_found(r) == sym_in_select(*select, offset as int),
    decreases select,
{
    let scope = build_scope_from_select(select, source);
    let r = find_in_result_columns(&select.columns, source, offset, &scope, schema);
    if r.is_some() {
        return r;
    }
    match &select.from {
        Some(from) => {
            let r = find_symbol_in_from(from, source, offset, &scope, schema);
            if r.is_some() {
                return r;
            }
        }
        None => {}
    }
    match &select.where_clause {
        Some(w) => {
            let r = find_symbol_in_expr(w, source, offset, &scope, schema);
            if r.is_some() {
                return r;
            }
        }
        None => {}
    }
    match &select.group_by {
        Some(g) => {
            let r = find_in_exprs(g, source, offset, &scope, schema);
            if r.is_some() {
                return r;
            }
        }
        None => {}
    }
    match &select.having {
        Some(h) => {
            let r = find_symbol_in_expr(h, source, offset, &scope, schema);
            if r.is_some() {
                return r;
            }
        }
        None => {}
    }
    match &select.order_by {
        Some(o) => find_in_terms(o, source, offset, &scope, schema),
        None => None,
    }
}

/// The symbol at the offset in a statement: in a SELECT, the SELECT of an
/// INSERT, or the WHERE of an UPDATE or DELETE (with an empty scope).
pub fn find_symbol_at_offset(
    stmt: &Statement,
    source: &str,
    offset: usize,
    schema: Option<&Schema>,
) -> (r: Option<(ResolvedSymbol, Span)>)
    ensures
        opt_found(r) == match *stmt {
            Statement::Select(s) => sym_in_select(s, offset as int),
            Statement::Insert(ins) => match ins.source {
                InsertSource::Select(s) => sym_in_select(*s, offset as int),
                _ => None,
            },
            Statement::Update(u) => match u.where_clause {
                Some(w) => sym_in_expr(w, offset as int, empty_scope()),
                None => None,
            },
            Statement::Delete(d) => match d.where_clause {
                Some(w) => sym_in_expr(w, offset as int, empty_scope()),
                None => None,
            },
            _ => None,
        },
{
    match stmt {
        Statement::Select(select) => find_symbol_in_select(select, source, offset, schema),
        Statement::Insert(insert) => match &insert.source {
            InsertSource::Select(select) => find_symbol_in_select(select, source, offset, schema),
            _ => None,
        },
        Statement::Update(update) => match &update.where_clause {
            Some(w) => {
                let scope = StatementScope::new();
                find_symbol_in_expr(w, source, offset, &scope, schema)
            }
            None => None,
        },
        Statement::Delete(delete) => match &delete.where_clause {
            Some(w) => {
                let scope = StatementScope::new();
                find_symbol_in_expr(w, source, offset, &scope, schema)
            }
            None => None,
        },
        _ => None,
    }
}


// ---------------------------------------------------------------------
// Hover and goto-definition
// ---------------------------------------------------------------------

/// The hover lines of the values of one tag: a `**Label:** value`
/// paragraph for each non-empty value.
pub open spec fn tag_values_text(label: Seq<char>, vals: Seq<Seq<char>>) -> Seq<char>
    decreases vals.len(),
{
    if vals.len() == 0 {
        seq![]
    } else {
        tag_values_text(label, vals.drop_last()) + if vals.last().len() == 0 {
            Seq::<char>::empty()
        } else {
            "\n\n**"@ + label + ":** "@ + vals.last()
        }
    }
}

/// The hover text of one tag of a doc comment.
pub open spec fn tag_text(doc: DocModel, tag: Seq<char>, label: Seq<char>) -> Seq<char> {
    match lookup(doc.1, tag) {
        Some(vals) => tag_values_text(label, texts(vals)),
        None => seq![],
    }
}

/// The hover text of the tags of a doc comment, in the order details,
/// source, schema, example, value.
pub open spec fn doc_tags_text(doc: DocModel) -> Seq<char> {
    tag_text(doc, "details"@, "Details"@) + tag_text(doc, "source"@, "Source"@) + tag_text(doc, "schema"@, "Schema"@)
        + tag_text(doc, "example"@, "Example"@) + tag_text(doc, "value"@, "Value"@)
}

/// A doc comment's description as a hover paragraph (nothing when empty),
/// followed by its tags.
pub open spec fn doc_text(doc: DocModel) -> Seq<char> {
    (if doc.0.len() != 0 { "\n\n"@ + doc.0 } else { Seq::<char>::empty() }) + doc_tags_text(doc)
}

/// The hover list of a table's columns, each with its doc description
/// when it has one.
pub open spec fn columns_text(cols: Seq<Seq<char>>, docs: Seq<(Seq<char>, DocModel)>) -> Seq<char>
    decreases cols.len(),
{
    if cols.len() == 0 {
        seq![]
    } else {
        columns_text(cols.drop_last(), docs) + match lookup(docs, spec_lowercase(cols.last())) {
            Some(d) => "- "@ + cols.last() + " \u{2014} "@ + d.0 + "\n"@,
            None => "- "@ + cols.last() + "\n"@,
        }
    }
}

/// The hover list of plain column names.
pub open spec fn plain_columns_text(cols: Seq<Seq<char>>) -> Seq<char>
    decreases cols.len(),
{
    if cols.len() == 0 {
        seq![]
    } else {
        plain_columns_text(cols.drop_last()) + "- "@ + cols.last() + "\n"@
    }
}

/// The hover text a documented table adds: its doc, then its columns.
pub open spec fn table_doc_text(t: TableModel) -> Seq<char> {
    (match t.doc {
        Some(d) => doc_text(d),
        None => Seq::<char>::empty(),
    }) + "\n\n**Columns:**\n"@ + columns_text(t.original_columns, t.column_docs)
}

/// The table of a schema with the given name (case-insensitive).
pub open spec fn schema_table(s: Option<SchemaModel>, name: Seq<char>) -> Option<TableModel> {
    match s {
        Some(m) => lookup(m.tables, spec_lowercase(name)),
        None => None,
    }
}

/// The hover text of a symbol: its name and kind in Markdown, with table
/// and column documentation from the schema when there is some.
pub open spec fn hover_text(sym: SymbolModel, s: Option<SchemaModel>) -> Seq<char> {
    match sym {
        SymbolModel::TableAlias { alias, table_name, .. } => "**"@ + alias + "** (alias for `"@ + table_name + "`)"@
            + match schema_table(s, table_name) {
            Some(t) => table_doc_text(t),
            None => Seq::<char>::empty(),
        },
        SymbolModel::Column { name, table_name, qualifier } => (match table_name {
            Some(t) => "**"@ + name + "** (column from `"@ + t + "`)"@,
            None => match qualifier {
                Some(q) => "**"@ + name + "** (column, qualified as `"@ + q + "."@ + name + "`)"@,
                None => "**"@ + name + "** (column)"@,
            },
        }) + match table_name {
            Some(t) => match schema_table(s, t) {
                Some(ti) => match lookup(ti.column_docs, spec_lowercase(name)) {
                    Some(d) => doc_text(d),
                    None => Seq::<char>::empty(),
                },
                None => Seq::<char>::empty(),
            },
            None => Seq::<char>::empty(),
        },
        SymbolModel::Table { name, .. } => "**"@ + name + "** (table)"@ + match schema_table(s, name) {
            Some(t) => table_doc_text(t),
            None => Seq::<char>::empty(),
        },
        SymbolModel::ColumnAlias { alias, .. } => "**"@ + alias + "** (column alias)"@,
        SymbolModel::Cte { name, columns, .. } => "**"@ + name + "** (Common Table Expression)"@
            + if columns.len() != 0 {
            "\n\n**Columns:**\n"@ + plain_columns_text(columns)
        } else {
            Seq::<char>::empty()
        },
    }
}

/// Whether `p` occurs in `t` as a run of consecutive characters.
pub open spec fn holds_text(t: Seq<char>, p: Seq<char>) -> bool {
    exists|k: int| 0 <= k && k + p.len() <= t.len() && #[trigger] t.subrange(k, k + p.len()) == p
}

/// A run found in a text is found in any text around it.
proof fn lemma_holds_text_around(a: Seq<char>, t: Seq<char>, b: Seq<char>, p: Seq<char>)
    requires
        holds_text(t, p),
    ensures
        holds_text(a + t + b, p),
{
    let k = choose|k: int| 0 <= k && k + p.len() <= t.len() && #[trigger] t.subrange(k, k + p.len()) == p;
    let w = a + t + b;
    let k2 = a.len() + k;
    assert(w.subrange(k2, k2 + p.len()) =~= t.subrange(k, k + p.len()));
}

/// The column list holds one line `- column` for each column.
proof fn lemma_plain_columns_hold(cols: Seq<Seq<char>>, i: int)
    requires
        0 <= i < cols.len(),
    ensures
        holds_text(plain_columns_text(cols), "- "@ + cols[i] + "\n"@),
    decreases cols.len(),
{
    let front = plain_columns_text(cols.drop_last());
    let line = "- "@ + cols[i] + "\n"@;
    let whole = plain_columns_text(cols);
    if i == cols.len() - 1 {
        let k = front.len() as int;
        assert(whole == front + "- "@ + cols.last() + "\n"@);
        assert(whole.subrange(k, k + line.len()) =~= line);
    } else {
        assert(cols.drop_last()[i] == cols[i]);
        lemma_plain_columns_hold(cols.drop_last(), i);
        lemma_holds_text_around(Seq::empty(), front, "- "@ + cols.last() + "\n"@, line);
        assert(Seq::<char>::empty() + front + ("- "@ + cols.last() + "\n"@) =~= whole);
    }
}

/// The hover of a common table expression lists each of its columns, on a
/// line of its own as `- column`; without columns it is only the heading.
pub proof fn law_cte_hover_lists_columns(
    name: Seq<char>,
    span: Span,
    columns: Seq<Seq<char>>,
    s: Option<SchemaModel>,
    i: int,
)
    requires
        0 <= i < columns.len(),
    ensures
        holds_text(
            hover_text(SymbolModel::Cte { name, definition_span: span, columns }, s),
            "- "@ + columns[i] + "\n"@,
        ),
        hover_text(SymbolModel::Cte { name, definition_span: span, columns: seq![] }, s)
            == "**"@ + name + "** (Common Table Expression)"@,
{
    lemma_plain_columns_hold(columns, i);
    let head = "**"@ + name + "** (Common Table Expression)"@ + "\n\n**Columns:**\n"@;
    lemma_holds_text_around(head, plain_columns_text(columns), Seq::empty(), "- "@ + columns[i] + "\n"@);
    assert(head + plain_columns_text(columns) + Seq::<char>::empty() =~= hover_text(
        SymbolModel::Cte { name, definition_span: span, columns },
        s,
    ));
    assert(hover_text(SymbolModel::Cte { name, definition_span: span, columns: seq![] }, s)
        =~= "**"@ + name + "** (Common Table Expression)"@);
}

/// The line of a table's column in a hover: `- column`, then ` — ` and the
/// column's description when it is documented.
pub open spec fn column_line(col: Seq<char>, docs: Seq<(Seq<char>, DocModel)>) -> Seq<char> {
    "- "@ + col + match lookup(docs, spec_lowercase(col)) {
        Some(d) => " \u{2014} "@ + d.0 + "\n"@,
        None => "\n"@,
    }
}

/// The column list of a documented table holds a line for each column.
proof fn lemma_columns_hold(cols: Seq<Seq<char>>, docs: Seq<(Seq<char>, DocModel)>, i: int)
    requires
        0 <= i < cols.len(),
    ensures
        holds_text(columns_text(cols, docs), column_line(cols[i], docs)),
    decreases cols.len(),
{
    let front = columns_text(cols.drop_last(), docs);
    let last_line = match lookup(docs, spec_lowercase(cols.last())) {
        Some(d) => "- "@ + cols.last() + " \u{2014} "@ + d.0 + "\n"@,
        None => "- "@ + cols.last() + "\n"@,
    };
    let whole = columns_text(cols, docs);
    assert(whole == front + last_line);
    assert(last_line =~= column_line(cols.last(), docs));
    if i == cols.len() - 1 {
        let k = front.len() as int;
        let line = column_line(cols[i], docs);
        assert(whole.subrange(k, k + line.len()) =~= line);
    } else {
        assert(cols.drop_last()[i] == cols[i]);
        lemma_columns_hold(cols.drop_last(), docs, i);
        lemma_holds_text_around(Seq::empty(), front, last_line, column_line(cols[i], docs));
        assert(Seq::<char>::empty() + front + last_line =~= whole);
    }
}

/// The hover of a table the schema knows lists each of its columns (with
/// the column's description when documented) and shows the table's
/// description when it has one; a table the schema does not know shows
/// only its heading.
pub proof fn law_table_hover_lists_columns(name: Seq<char>, span: Span, s: Option<SchemaModel>, i: int)
    ensures
        match schema_table(s, name) {
            Some(t) => {
                &&& (0 <= i < t.original_columns.len() ==> holds_text(
                    hover_text(SymbolModel::Table { name, span }, s),
                    column_line(t.original_columns[i], t.column_docs),
                ))
                &&& match t.doc {
                    Some(d) => d.0.len() > 0 ==> holds_text(
                        hover_text(SymbolModel::Table { name, span }, s),
                        "\n\n"@ + d.0,
                    ),
                    None => true,
                }
            },
            None => hover_text(SymbolModel::Table { name, span }, s) == "**"@ + name + "** (table)"@,
        },
{
    let h = hover_text(SymbolModel::Table { name, span }, s);
    let head = "**"@ + name + "** (table)"@;
    match schema_table(s, name) {
        Some(t) => {
            let dt = match t.doc {
                Some(d) => doc_text(d),
                None => Seq::<char>::empty(),
            };
            let cols = columns_text(t.original_columns, t.column_docs);
            assert(h =~= head + dt + "\n\n**Columns:**\n"@ + cols);
            if 0 <= i < t.original_columns.len() {
                lemma_columns_hold(t.original_columns, t.column_docs, i);
                lemma_holds_text_around(head + dt + "\n\n**Columns:**\n"@, cols, Seq::empty(),
                    column_line(t.original_columns[i], t.column_docs));
                assert(head + dt + "\n\n**Columns:**\n"@ + cols + Seq::<char>::empty() =~= h);
            }
            match t.doc {
                Some(d) => {
                    if d.0.len() > 0 {
                        let p = "\n\n"@ + d.0;
                        assert(dt =~= p + doc_tags_text(d));
                        let z: int = 0;
                        assert(dt.subrange(z, z + p.len()) =~= p);
                        assert(holds_text(dt, p));
                        lemma_holds_text_around(head, dt, "\n\n**Columns:**\n"@ + cols, p);
                        assert(head + dt + ("\n\n**Columns:**\n"@ + cols) =~= h);
                    }
                },
                None => {},
            }
        },
        None => {
            assert(h =~= head);
        },
    }
}

/// The name shown in bold at the start of a symbol's hover: the alias for
/// an alias, the name otherwise.
pub open spec fn hover_title(sym: SymbolModel) -> Seq<char> {
    match sym {
        SymbolModel::TableAlias { alias, .. } => alias,
        SymbolModel::Column { name, .. } => name,
        SymbolModel::Table { name, .. } => name,
        SymbolModel::ColumnAlias { alias, .. } => alias,
        SymbolModel::Cte { name, .. } => name,
    }
}

/// Every hover starts with the symbol's name in bold followed by what kind
/// of symbol it is in parentheses.
pub proof fn law_hover_starts_with_name(sym: SymbolModel, s: Option<SchemaModel>)
    ensures
        ({
            let p = "**"@ + hover_title(sym) + "** ("@;
            &&& p.len() <= hover_text(sym, s).len()
            &&& hover_text(sym, s).subrange(0, p.len() as int) == p
        }),
{
    reveal_strlit("**");
    reveal_strlit("** (");
    let p = "**"@ + hover_title(sym) + "** ("@;
    let h = hover_text(sym, s);
    match sym {
        SymbolModel::TableAlias { alias, table_name, .. } => {
            let rest = "alias for `"@ + table_name + "`)"@ + match schema_table(s, table_name) {
                Some(t) => table_doc_text(t),
                None => Seq::<char>::empty(),
            };
            reveal_strlit("** (alias for `");
            reveal_strlit("alias for `");
            assert("** (alias for `"@ =~= "** ("@ + "alias for `"@);
            assert(h =~= p + rest);
        },
        SymbolModel::Column { name, table_name, qualifier } => {
            let tail = match table_name {
                Some(t) => match schema_table(s, t) {
                    Some(ti) => match lookup(ti.column_docs, spec_lowercase(name)) {
                        Some(d) => doc_text(d),
                        None => Seq::<char>::empty(),
                    },
                    None => Seq::<char>::empty(),
                },
                None => Seq::<char>::empty(),
            };
            reveal_strlit("** (column from `");
            reveal_strlit("column from `");
            reveal_strlit("** (column, qualified as `");
            reveal_strlit("column, qualified as `");
            reveal_strlit("** (column)");
            reveal_strlit("column)");
            assert("** (column from `"@ =~= "** ("@ + "column from `"@);
            assert("** (column, qualified as `"@ =~= "** ("@ + "column, qualified as `"@);
            assert("** (column)"@ =~= "** ("@ + "column)"@);
            match table_name {
                Some(t) => {
                    assert(h =~= p + ("column from `"@ + t + "`)"@ + tail));
                },
                None => match qualifier {
                    Some(q) => {
                        assert(h =~= p + ("column, qualified as `"@ + q + "."@ + name + "`)"@ + tail));
                    },
                    None => {
                        assert(h =~= p + ("column)"@ + tail));
                    },
                },
            }
        },
        SymbolModel::Table { name, .. } => {
            reveal_strlit("** (table)");
            reveal_strlit("table)");
            assert("** (table)"@ =~= "** ("@ + "table)"@);
            let tail = match schema_table(s, name) {
                Some(t) => table_doc_text(t),
                None => Seq::<char>::empty(),
            };
            assert(h =~= p + ("table)"@ + tail));
        },
        SymbolModel::ColumnAlias { alias, .. } => {
            reveal_strlit("** (column alias)");
            reveal_strlit("column alias)");
            assert("** (column alias)"@ =~= "** ("@ + "column alias)"@);
            assert(h =~= p + "column alias)"@);
        },
        SymbolModel::Cte { name, columns, .. } => {
            reveal_strlit("** (Common Table Expression)");
            reveal_strlit("Common Table Expression)");
            assert("** (Common Table Expression)"@ =~= "** ("@ + "Common Table Expression)"@);
            let tail = if columns.len() != 0 {
                "\n\n**Columns:**\n"@ + plain_columns_text(columns)
            } else {
                Seq::<char>::empty()
            };
            assert(h =~= p + ("Common Table Expression)"@ + tail));
        },
    }
    assert(h.subrange(0, p.len() as int) =~= p);
}

/// Appends the hover paragraphs of one tag's values.
fn push_tag_values(content: &mut String, label: &str, doc: &DocComment, tag: &str)
    ensures
        final(content)@ == old(content)@ + tag_text(doc@, tag@, label@),
{
    match doc.tags.get(tag) {
        Some(values) => {
            let ghost start = content@;
            let mut i: usize = 0;
            while i < values.len()
                invariant
                    i <= values@.len(),
                    content@ == start + tag_values_text(label@, texts(values@.subrange(0, i as int))),
                decreases values@.len() - i,
            {
                let value = &values[i];
                if !value.as_str().is_empty() {
                    push_str(content, "\n\n**");
                    push_str(content, label);
                    push_str(content, ":** ");
                    push_str(content, value.as_str());
                }
                proof {
                    let sub = texts(values@.subrange(0, i + 1));
                    assert(sub.drop_last() =~= texts(values@.subrange(0, i as int)));
                    assert(sub.last() == value@);
                }
                assert(content@ =~= start + tag_values_text(label@, texts(values@.subrange(0, i + 1))));
                i = i + 1;
            }
            assert(values@.subrange(0, values@.len() as int) =~= values@);
        }
        None => {
            assert(content@ =~= content@ + tag_text(doc@, tag@, label@));
        }
    }
}

/// Appends the hover paragraphs of a doc comment's tags, in the order
/// details, source, schema, example, value.
pub fn format_doc_tags(content: &mut String, doc: &DocComment)
    ensures
        final(content)@ == old(content)@ + doc_tags_text(doc@),
{
    let ghost start = content@;
    push_tag_values(content, "Details", doc, "details");
    push_tag_values(content, "Source", doc, "source");
    push_tag_values(content, "Schema", doc, "schema");
    push_tag_values(content, "Example", doc, "example");
    push_tag_values(content, "Value", doc, "value");
    assert(content@ =~= start + doc_tags_text(doc@));
}

/// Appends a doc comment's description paragraph and tags.
fn push_doc(content: &mut String, doc: &DocComment)
    ensures
        final(content)@ == old(content)@ + doc_text(doc@),
{
    let ghost start = content@;
    if !doc.description.as_str().is_empty() {
        push_str(content, "\n\n");
        push_str(content, doc.description.as_str());
    }
    format_doc_tags(content, doc);
    assert(content@ =~= start + doc_text(doc@));
}

/// Appends what a documented table adds to a hover: its doc and columns.
fn push_table_doc(content: &mut String, info: &crate::analyzer::schema::TableInfo)
    ensures
        final(content)@ == old(content)@ + table_doc_text(info@),
{
    let ghost start = content@;
    match &info.doc {
        Some(doc) => push_doc(content, doc),
        None => {}
    }
    push_str(content, "\n\n**Columns:**\n");
    let ghost mid = content@;
    let cols = &info.original_columns;
    let mut i: usize = 0;
    while i < cols.len()
        invariant
            i <= cols@.len(),
            content@ == mid + columns_text(texts(cols@.subrange(0, i as int)), info.column_docs@),
        decreases cols@.len() - i,
    {
        let col = &cols[i];
        push_str(content, "- ");
        push_str(content, col.as_str());
        match info.column_docs.get(to_lower(col.as_str()).as_str()) {
            Some(d) => {
                push_str(content, " \u{2014} ");
                push_str(content, d.description.as_str());
                push_str(content, "\n");
            }
            None => {
                push_str(content, "\n");
            }
        }
        proof {
            let sub = texts(cols@.subrange(0, i + 1));
            assert(sub.drop_last() =~= texts(cols@.subrange(0, i as int)));
            assert(sub.last() == col@);
        }
        assert(content@ =~= mid + columns_text(texts(cols@.subrange(0, i + 1)), info.column_docs@));
        i = i + 1;
    }
    assert(cols@.subrange(0, cols@.len() as int) =~= cols@);
    assert(content@ =~= start + table_doc_text(info@));
}

/// The hover text (Markdown) of a resolved symbol, with table and column
/// documentation from the schema when there is some.
pub fn format_hover_content(symbol: &ResolvedSymbol, schema: Option<&Schema>) -> (r: String)
    ensures
        r@ == hover_text(symbol@, crate::analyzer::select::opt_schema(schema)),
{
    match symbol {
        ResolvedSymbol::TableAlias { alias, table_name, .. } => {
            let mut content = concat3("**", alias.as_str(), "** (alias for `");
            push_str(&mut content, table_name.as_str());
            push_str(&mut content, "`)");
            let ghost head = content@;
            match schema {
                Some(sch) => match sch.get_table(table_name.as_str()) {
                    Some(info) => push_table_doc(&mut content, info),
                    None => {}
                },
                None => {}
            }
            assert(content@ =~= hover_text(symbol@, crate::analyzer::select::opt_schema(schema)));
            content
        }
        ResolvedSymbol::Column { name, table_name, qualifier } => {
            let mut content = match table_name {
                Some(t) => {
                    let mut c = concat3("**", name.as_str(), "** (column from `");
                    push_str(&mut c, t.as_str());
                    push_str(&mut c, "`)");
                    c
                }
                None => match qualifier {
                    Some(q) => {
                        let mut c = concat3("**", name.as_str(), "** (column, qualified as `");
                        push_str(&mut c, q.as_str());
                        push_str(&mut c, ".");
                        push_str(&mut c, name.as_str());
                        push_str(&mut c, "`)");
                        c
                    }
                    None => concat3("**", name.as_str(), "** (column)"),
                },
            };
            match (table_name, schema) {
                (Some(t), Some(sch)) => match sch.get_table(t.as_str()) {
                    Some(info) => match info.column_docs.get(to_lower(name.as_str()).as_str()) {
                        Some(doc) => push_doc(&mut content, doc),
                        None => {}
                    },
                    None => {}
                },
                _ => {}
            }
            assert(content@ =~= hover_text(symbol@, crate::analyzer::select::opt_schema(schema)));
            content
        }
        ResolvedSymbol::Table { name, .. } => {
            let mut content = concat3("**", name.as_str(), "** (table)");
            match schema {
                Some(sch) => match sch.get_table(name.as_str()) {
                    Some(info) => push_table_doc(&mut content, info),
                    None => {}
                },
                None => {}
            }
            assert(content@ =~= hover_text(symbol@, crate::analyzer::select::opt_schema(schema)));
            content
        }
        ResolvedSymbol::ColumnAlias { alias, .. } => concat3("**", alias.as_str(), "** (column alias)"),
        ResolvedSymbol::Cte { name, columns, .. } => {
            let mut content = concat3("**", name.as_str(), "** (Common Table Expression)");
            let ghost head = content@;
            if columns.len() > 0 {
                push_str(&mut content, "\n\n**Columns:**\n");
                let ghost mid = content@;
                let mut i: usize = 0;
                while i < columns.len()
                    invariant
                        i <= columns@.len(),
                        content@ == mid + plain_columns_text(texts(columns@.subrange(0, i as int))),
                    decreases columns@.len() - i,
                {
                    push_str(&mut content, "- ");
                    push_str(&mut content, columns[i].as_str());
                    push_str(&mut content, "\n");
                    proof {
                        let sub = texts(columns@.subrange(0, i + 1));
                        assert(sub.drop_last() =~= texts(columns@.subrange(0, i as int)));
                        assert(sub.last() == columns@[i as int]@);
                    }
                    assert(content@ =~= mid + plain_columns_text(texts(columns@.subrange(0, i + 1))));
                    i = i + 1;
                }
                assert(columns@.subrange(0, columns@.len() as int) =~= columns@);
            }
            assert(content@ =~= hover_text(symbol@, crate::analyzer::select::opt_schema(schema)));
            content
        }
    }
}

/// Where a symbol is defined in the document, for goto-definition: table
/// aliases, column aliases and CTEs have a definition; tables and columns
/// (defined in the schema) do not.
pub fn get_definition_span(symbol: &ResolvedSymbol) -> (r: Option<Span>)
    ensures
        r == match symbol@ {
            SymbolModel::TableAlias { definition_span, .. } => Some(definition_span),
            SymbolModel::ColumnAlias { definition_span, .. } => Some(definition_span),
            SymbolModel::Cte { definition_span, .. } => Some(definition_span),
            _ => None::<Span>,
        },
{
    match symbol {
        ResolvedSymbol::TableAlias { definition_span, .. } => Some(definition_span.copy()),
        ResolvedSymbol::ColumnAlias { definition_span, .. } => Some(definition_span.copy()),
        ResolvedSymbol::Cte { definition_span, .. } => Some(definition_span.copy()),
        ResolvedSymbol::Table { .. } => None,
        ResolvedSymbol::Column { .. } => None,
    }
}

} // verus!
