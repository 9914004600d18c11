//! Analysis of SELECT statements and whole programs: table resolution
//! through CTEs, earlier CREATE TABLEs and an external schema; unknown
//! tables; column checks in every clause; and CREATE TABLE checks.

use vstd::prelude::*;
use crate::ast::{
    texts, ColumnDef, CommonTableExpr, CreateTableStmt, Expr, FromClause, JoinConstraint, OrderingTerm,
    Program, ResultColumn, SelectCore, SelectStmt, Statement, TableOption, TableOrSubquery, WithClause,
    CompoundOp,
};
use crate::strmap::{StrMap, seq_insert, lookup, has_key};
use crate::text::{spec_lowercase, to_lower, string_of, push_str, concat3};
use crate::analyzer::schema::{
    TableInfo, TableModel, Schema, SchemaModel, Diagnostic, DiagModel, DocModel, Severity, opt_doc,
    lower_set, opaque_table, column_name_of, extract_column_name, lower_set_of, has_without_rowid,
    copy_opt_doc, opaque_table_info,
};
use crate::analyzer::analyze::{
    CtxModel, ExprContext, diag_models, empty_ctx, ctx_add_table, ctx_add_opaque, expr_diags, exprs_diags,
    check_expr_with_context, push_error,
};

verus! {

/// Where a SELECT looks its tables up, in this order: its CTEs, the tables
/// created earlier in the program, and the external schema.
pub struct Env {
    pub ctes: Seq<(Seq<char>, TableModel)>,
    pub local: Seq<(Seq<char>, TableModel)>,
    pub ext: Option<SchemaModel>,
}

/// The model of an optional external schema.
pub open spec fn opt_schema(s: Option<&Schema>) -> Option<SchemaModel> {
    match s {
        Some(s) => Some(s@),
        None => None,
    }
}

/// The table a name resolves to (case-insensitively): a CTE first, then a
/// table created earlier, then a table of the external schema.
pub open spec fn resolve_table(env: Env, name: Seq<char>) -> Option<TableModel> {
    let key = spec_lowercase(name);
    match lookup(env.ctes, key) {
        Some(t) => Some(t),
        None => match lookup(env.local, key) {
            Some(t) => Some(t),
            None => match env.ext {
                Some(s) => lookup(s.tables, spec_lowercase(key)),
                None => None,
            },
        },
    }
}

/// The argument counts an external schema provides.
pub open spec fn ext_nargs(ext: Option<SchemaModel>) -> Option<Seq<(Seq<char>, Seq<i32>)>> {
    match ext {
        Some(s) => Some(s.function_nargs),
        None => None,
    }
}

/// The context after bringing the tables of a FROM item into scope; a
/// table-valued function that is no known table registers its alias as
/// opaque; subqueries bring nothing.
pub open spec fn ctx_with_table(c: CtxModel, t: TableOrSubquery, env: Env) -> CtxModel
    decreases t,
{
    match t {
        TableOrSubquery::Table { name, alias, .. } => match resolve_table(env, name@) {
            Some(info) => ctx_add_table(c, match alias { Some(a) => a@, None => name@ }, name@, info),
            None => c,
        },
        TableOrSubquery::TableFunction { name, alias, .. } => match resolve_table(env, name@) {
            Some(info) => ctx_add_table(c, match alias { Some(a) => a@, None => name@ }, name@, info),
            None => match alias {
                Some(a) => ctx_add_opaque(c, a@),
                None => c,
            },
        },
        TableOrSubquery::Subquery { .. } => c,
        TableOrSubquery::TableList { tables, .. } => ctx_with_tables(c, tables@, env),
        TableOrSubquery::Join { left, right, .. } => ctx_with_table(ctx_with_table(c, *left, env), *right, env),
    }
}

/// The context after bringing each FROM item into scope, in order.
pub open spec fn ctx_with_tables(c: CtxModel, ts: Seq<TableOrSubquery>, env: Env) -> CtxModel
    decreases ts,
{
    if ts.len() == 0 {
        c
    } else {
        ctx_with_table(ctx_with_tables(c, ts.drop_last(), env), ts.last(), env)
    }
}

/// The context of a FROM clause, with the external schema's argument counts.
pub open spec fn from_ctx(tables: Seq<TableOrSubquery>, env: Env) -> CtxModel {
    CtxModel { nargs: ext_nargs(env.ext), ..ctx_with_tables(empty_ctx(None), tables, env) }
}

/// The diagnostics of the ON conditions of the joins of a FROM item.
pub open spec fn join_diags(t: TableOrSubquery, c: CtxModel) -> Seq<DiagModel>
    decreases t,
{
    match t {
        TableOrSubquery::Join { left, right, constraint, .. } => join_diags(*left, c) + join_diags(*right, c)
            + match constraint {
            Some(JoinConstraint::On(e)) => expr_diags(e, c),
            _ => seq![],
        },
        TableOrSubquery::TableList { tables, .. } => joins_diags(tables@, c),
        _ => seq![],
    }
}

/// The diagnostics of the ON conditions of a list of FROM items.
pub open spec fn joins_diags(ts: Seq<TableOrSubquery>, c: CtxModel) -> Seq<DiagModel>
    decreases ts,
{
    if ts.len() == 0 {
        seq![]
    } else {
        joins_diags(ts.drop_last(), c) + join_diags(ts.last(), c)
    }
}

/// The diagnostics of the expression columns of a result list.
pub open spec fn result_cols_diags(cols: Seq<ResultColumn>, c: CtxModel) -> Seq<DiagModel>
    decreases cols.len(),
{
    if cols.len() == 0 {
        seq![]
    } else {
        result_cols_diags(cols.drop_last(), c) + match cols.last() {
            ResultColumn::Expr { expr, .. } => expr_diags(expr, c),
            _ => seq![],
        }
    }
}

/// The diagnostics of an optional expression.
pub open spec fn opt_expr_diags(e: Option<Expr>, c: CtxModel) -> Seq<DiagModel> {
    match e {
        Some(e) => expr_diags(e, c),
        None => seq![],
    }
}

/// The diagnostics of an optional list of expressions.
pub open spec fn opt_exprs_diags(es: Option<Vec<Expr>>, c: CtxModel) -> Seq<DiagModel> {
    match es {
        Some(es) => exprs_diags(es@, c),
        None => seq![],
    }
}

/// The diagnostics of the expressions of ORDER BY terms.
pub open spec fn terms_diags(ts: Seq<OrderingTerm>, c: CtxModel) -> Seq<DiagModel>
    decreases ts.len(),
{
    if ts.len() == 0 {
        seq![]
    } else {
        terms_diags(ts.drop_last(), c) + expr_diags(ts.last().expr, c)
    }
}

/// The diagnostics of an optional ORDER BY.
pub open spec fn order_diags(o: Option<Vec<OrderingTerm>>, c: CtxModel) -> Seq<DiagModel> {
    match o {
        Some(ts) => terms_diags(ts@, c),
        None => seq![],
    }
}

/// The column names a CTE's SELECT gives: each alias, or else the column a
/// bare column expression names; `*` gives `*` and `t.*` gives `t.*`.
pub open spec fn cte_columns(cols: Seq<ResultColumn>) -> Seq<Seq<char>>
    decreases cols.len(),
{
    if cols.len() == 0 {
        seq![]
    } else {
        let rest = cte_columns(cols.drop_last());
        match cols.last() {
            ResultColumn::Expr { expr, alias, .. } => match alias {
                Some(a) => rest.push(a@),
                None => match column_name_of(expr) {
                    Some(n) => rest.push(n),
                    None => rest,
                },
            },
            ResultColumn::Star(_) => rest.push("*"@),
            ResultColumn::TableStar { table, .. } => rest.push(table@ + ".*"@),
        }
    }
}

/// The table a CTE defines: its explicit columns, or those its SELECT
/// gives; no rowid and no docs.
pub open spec fn cte_table(cte: CommonTableExpr) -> TableModel {
    let orig = match cte.columns {
        Some(cols) => texts(cols@),
        None => cte_columns(cte.select.columns@),
    };
    TableModel {
        columns: lower_set(orig),
        original_columns: orig,
        without_rowid: true,
        doc: None,
        column_docs: seq![],
    }
}

/// The tables of a WITH clause, by lowercased name; a later CTE of the
/// same name replaces an earlier one.
pub open spec fn cte_tables(ctes: Seq<CommonTableExpr>) -> Seq<(Seq<char>, TableModel)>
    decreases ctes.len(),
{
    if ctes.len() == 0 {
        seq![]
    } else {
        seq_insert(cte_tables(ctes.drop_last()), spec_lowercase(ctes.last().name@), cte_table(ctes.last()))
    }
}

/// The CTE tables of an optional WITH clause.
pub open spec fn with_tables(w: Option<WithClause>) -> Seq<(Seq<char>, TableModel)> {
    match w {
        Some(w) => cte_tables(w.ctes@),
        None => seq![],
    }
}

/// The error for an empty SELECT list.
pub open spec fn empty_select_diags(s: SelectStmt) -> Seq<DiagModel> {
    if s.columns.len() == 0 {
        seq![("SELECT statement must have at least one column"@, s.span, Severity::Error)]
    } else {
        seq![]
    }
}

/// The diagnostics of unknown tables in a FROM item; a subquery is
/// analyzed as a SELECT of its own (without the outer CTEs).
pub open spec fn table_unknown_diags(t: TableOrSubquery, env: Env) -> Seq<DiagModel>
    decreases t,
{
    match t {
        TableOrSubquery::Table { name, span, .. } => if resolve_table(env, name@) is None {
            seq![("Unknown table '"@ + name@ + "'"@, span, Severity::Error)]
        } else {
            seq![]
        },
        TableOrSubquery::TableFunction { .. } => seq![],
        TableOrSubquery::Subquery { query, .. } => select_diags(*query, env.local, env.ext),
        TableOrSubquery::TableList { tables, .. } => tables_unknown_diags(tables@, env),
        TableOrSubquery::Join { left, right, .. } => table_unknown_diags(*left, env) + table_unknown_diags(*right, env),
    }
}

/// The diagnostics of unknown tables in a list of FROM items.
pub open spec fn tables_unknown_diags(ts: Seq<TableOrSubquery>, env: Env) -> Seq<DiagModel>
    decreases ts,
{
    if ts.len() == 0 {
        seq![]
    } else {
        tables_unknown_diags(ts.drop_last(), env) + table_unknown_diags(ts.last(), env)
    }
}

/// The diagnostics of a compound part: unknown tables, then its result
/// columns, WHERE, GROUP BY, HAVING and ON conditions in its own FROM scope.
pub open spec fn core_diags(core: SelectCore, env: Env) -> Seq<DiagModel>
    decreases core,
{
    match core.from {
        Some(f) => {
            let c = from_ctx(f.tables@, env);
            tables_unknown_diags(f.tables@, env) + result_cols_diags(core.columns@, c)
                + opt_expr_diags(core.where_clause, c) + opt_exprs_diags(core.group_by, c)
                + opt_expr_diags(core.having, c) + joins_diags(f.tables@, c)
        },
        None => {
            let c = CtxModel { nargs: ext_nargs(env.ext), ..empty_ctx(None) };
            result_cols_diags(core.columns@, c) + opt_expr_diags(core.where_clause, c)
                + opt_exprs_diags(core.group_by, c) + opt_expr_diags(core.having, c)
        },
    }
}

/// The diagnostics of the compound parts, in order.
pub open spec fn compounds_diags(cs: Seq<(CompoundOp, SelectCore)>, env: Env) -> Seq<DiagModel>
    decreases cs,
{
    if cs.len() == 0 {
        seq![]
    } else {
        compounds_diags(cs.drop_last(), env) + core_diags(cs.last().1, env)
    }
}

/// The diagnostics of a SELECT, in the order the analyzer reports them: an
/// empty result list, unknown tables, then the result columns, WHERE, GROUP
/// BY, HAVING, ORDER BY and ON conditions in the FROM scope, then each
/// compound part.
pub open spec fn select_diags(s: SelectStmt, local: Seq<(Seq<char>, TableModel)>, ext: Option<SchemaModel>) -> Seq<DiagModel>
    decreases s,
{
    let env = Env { ctes: with_tables(s.with_clause), local, ext };
    empty_select_diags(s) + match s.from {
        Some(f) => tables_unknown_diags(f.tables@, env) + clauses_diags(s, from_ctx(f.tables@, env))
            + joins_diags(f.tables@, from_ctx(f.tables@, env)),
        None => clauses_diags(s, CtxModel { nargs: ext_nargs(ext), ..empty_ctx(None) }),
    } + compounds_diags(s.compounds@, env)
}

/// The diagnostics of the result columns, WHERE, GROUP BY, HAVING and
/// ORDER BY of a SELECT in a context.
pub open spec fn clauses_diags(s: SelectStmt, c: CtxModel) -> Seq<DiagModel> {
    result_cols_diags(s.columns@, c) + opt_expr_diags(s.where_clause, c) + opt_exprs_diags(s.group_by, c)
        + opt_expr_diags(s.having, c) + order_diags(s.order_by, c)
}


/// The environment that CTE tables, earlier tables and an external schema
/// stand for.
pub open spec fn env_of(ctes: &StrMap<TableInfo>, local: &StrMap<TableInfo>, ext: Option<&Schema>) -> Env {
    Env { ctes: ctes@, local: local@, ext: opt_schema(ext) }
}

/// Looks a table up by name: CTEs first, then earlier tables, then the
/// external schema.
pub fn lookup_table<'a>(
    name: &str,
    ctes: &'a StrMap<TableInfo>,
    local: &'a StrMap<TableInfo>,
    ext: Option<&'a Schema>,
) -> (r: Option<&'a TableInfo>)
    ensures
        match r {
            Some(t) => resolve_table(env_of(ctes, local, ext), name@) == Some(t@),
            None => resolve_table(env_of(ctes, local, ext), name@) is None,
        },
{
    let key = to_lower(name);
    match ctes.get(key.as_str()) {
        Some(t) => Some(t),
        None => match local.get(key.as_str()) {
            Some(t) => Some(t),
            None => match ext {
                Some(schema) => schema.get_table(key.as_str()),
                None => None,
            },
        },
    }
}

/// Brings the tables of a FROM item into scope.
#[verifier::loop_isolation(false)]
pub fn add_table_to_context<'a>(
    table: &TableOrSubquery,
    ctx: &mut ExprContext<'a>,
    ctes: &'a StrMap<TableInfo>,
    local: &'a StrMap<TableInfo>,
    ext: Option<&'a Schema>,
)
    ensures
        final(ctx)@ == ctx_with_table(old(ctx)@, *table, env_of(ctes, local, ext)),
    decreases table,
{
    match table {
        TableOrSubquery::Table { name, alias, .. } => {
            match lookup_table(name.as_str(), ctes, local, ext) {
                Some(info) => {
                    let effective = match alias {
                        Some(a) => a.as_str(),
                        None => name.as_str(),
                    };
                    ctx.add_table(effective, name.as_str(), info);
                }
                None => {}
            }
        }
        TableOrSubquery::TableFunction { name, alias, .. } => {
            match lookup_table(name.as_str(), ctes, local, ext) {
                Some(info) => {
                    let effective = match alias {
                        Some(a) => a.as_str(),
                        None => name.as_str(),
                    };
                    ctx.add_table(effective, name.as_str(), info);
                }
                None => {
                    match alias {
                        Some(a) => ctx.add_table_function_alias(a.as_str(), name.as_str()),
                        None => {}
                    }
                }
            }
        }
        TableOrSubquery::Subquery { .. } => {}
        TableOrSubquery::TableList { tables, .. } => {
            let ghost start = ctx@;
            let mut i: usize = 0;
            while i < tables.len()
                invariant
                    i <= tables@.len(),
                    ctx@ == ctx_with_tables(start, tables@.subrange(0, i as int), env_of(ctes, local, ext)),
                decreases tables@.len() - i,
            {
                assert(decreases_to!(*table => tables@[i as int]));
                add_table_to_context(&tables[i], ctx, ctes, local, ext);
                assert(tables@.subrange(0, i + 1).drop_last() =~= tables@.subrange(0, i as int));
                i = i + 1;
            }
            assert(tables@.subrange(0, tables@.len() as int) =~= tables@);
        }
        TableOrSubquery::Join { left, right, .. } => {
            add_table_to_context(left, ctx, ctes, local, ext);
            add_table_to_context(right, ctx, ctes, local, ext);
        }
    }
}

/// The context of a FROM clause (without argument counts).
pub fn build_expr_context_from_from<'a>(
    from: &FromClause,
    ctes: &'a StrMap<TableInfo>,
    local: &'a StrMap<TableInfo>,
    ext: Option<&'a Schema>,
) -> (r: ExprContext<'a>)
    ensures
        r@ == ctx_with_tables(empty_ctx(None), from.tables@, env_of(ctes, local, ext)),
{
    let mut ctx = ExprContext::new();
    let mut i: usize = 0;
    while i < from.tables.len()
        invariant
            i <= from.tables@.len(),
            ctx@ == ctx_with_tables(empty_ctx(None), from.tables@.subrange(0, i as int), env_of(ctes, local, ext)),
        decreases from.tables@.len() - i,
    {
        add_table_to_context(&from.tables[i], &mut ctx, ctes, local, ext);
        assert(from.tables@.subrange(0, i + 1).drop_last() =~= from.tables@.subrange(0, i as int));
        i = i + 1;
    }
    assert(from.tables@.subrange(0, from.tables@.len() as int) =~= from.tables@);
    ctx
}

/// The context of a FROM clause with the external schema's argument counts.
fn from_context<'a>(
    from: &FromClause,
    ctes: &'a StrMap<TableInfo>,
    local: &'a StrMap<TableInfo>,
    ext: Option<&'a Schema>,
) -> (r: ExprContext<'a>)
    ensures
        r@ == from_ctx(from.tables@, env_of(ctes, local, ext)),
{
    let mut ctx = build_expr_context_from_from(from, ctes, local, ext);
    ctx.function_nargs = match ext {
        Some(schema) => Some(schema.nargs_registry()),
        None => None,
    };
    ctx
}

/// The context of a SELECT without FROM: no tables, the external schema's
/// argument counts.
fn bare_context<'a>(ext: Option<&'a Schema>) -> (r: ExprContext<'a>)
    ensures
        r@ == (CtxModel { nargs: ext_nargs(opt_schema(ext)), ..empty_ctx(None) }),
{
    let mut ctx = ExprContext::new();
    match ext {
        Some(schema) => {
            ctx.function_nargs = Some(schema.nargs_registry());
        }
        None => {}
    }
    ctx
}

/// Checks the ON conditions of the joins of a FROM item.
#[verifier::loop_isolation(false)]
pub fn check_join_conditions_recursive(table: &TableOrSubquery, ctx: &ExprContext, diagnostics: &mut Vec<Diagnostic>)
    ensures
        diag_models(final(diagnostics)@) == diag_models(old(diagnostics)@) + join_diags(*table, ctx@),
    decreases table,
{
    let ghost before = diag_models(diagnostics@);
    match table {
        TableOrSubquery::Join { left, right, constraint, .. } => {
            check_join_conditions_recursive(left, ctx, diagnostics);
            check_join_conditions_recursive(right, ctx, diagnostics);
            match constraint {
                Some(JoinConstraint::On(e)) => check_expr_with_context(e, ctx, diagnostics),
                _ => {}
            }
            assert(diag_models(diagnostics@) =~= before + join_diags(*table, ctx@));
        }
        TableOrSubquery::TableList { tables, .. } => {
            let mut i: usize = 0;
            while i < tables.len()
                invariant
                    i <= tables@.len(),
                    diag_models(diagnostics@) == before + joins_diags(tables@.subrange(0, i as int), ctx@),
                decreases tables@.len() - i,
            {
                assert(decreases_to!(*table => tables@[i as int]));
                check_join_conditions_recursive(&tables[i], ctx, diagnostics);
                assert(tables@.subrange(0, i + 1).drop_last() =~= tables@.subrange(0, i as int));
                i = i + 1;
            }
            assert(tables@.subrange(0, tables@.len() as int) =~= tables@);
        }
        _ => {
            assert(diag_models(diagnostics@) =~= before + join_diags(*table, ctx@));
        }
    }
}

/// Checks the ON conditions of the joins of a FROM clause.
pub fn check_join_conditions(from: &FromClause, ctx: &ExprContext, diagnostics: &mut Vec<Diagnostic>)
    ensures
        diag_models(final(diagnostics)@) == diag_models(old(diagnostics)@) + joins_diags(from.tables@, ctx@),
{
    let ghost before = diag_models(diagnostics@);
    let mut i: usize = 0;
    while i < from.tables.len()
        invariant
            i <= from.tables@.len(),
            diag_models(diagnostics@) == before + joins_diags(from.tables@.subrange(0, i as int), ctx@),
        decreases from.tables@.len() - i,
    {
        check_join_conditions_recursive(&from.tables[i], ctx, diagnostics);
        assert(from.tables@.subrange(0, i + 1).drop_last() =~= from.tables@.subrange(0, i as int));
        i = i + 1;
    }
    assert(from.tables@.subrange(0, from.tables@.len() as int) =~= from.tables@);
}

/// Checks the expression columns of a result list.
fn check_result_columns(cols: &Vec<ResultColumn>, ctx: &ExprContext, diagnostics: &mut Vec<Diagnostic>)
    ensures
        diag_models(final(diagnostics)@) == diag_models(old(diagnostics)@) + result_cols_diags(cols@, ctx@),
{
    let ghost before = diag_models(diagnostics@);
    let mut i: usize = 0;
    while i < cols.len()
        invariant
            i <= cols@.len(),
            diag_models(diagnostics@) == before + result_cols_diags(cols@.subrange(0, i as int), ctx@),
        decreases cols@.len() - i,
    {
        let ghost mid = diag_models(diagnostics@);
        match &cols[i] {
            ResultColumn::Expr { expr, .. } => check_expr_with_context(expr, ctx, diagnostics),
            _ => {}
        }
        proof {
            let sub = cols@.subrange(0, i + 1);
            assert(sub.drop_last() =~= cols@.subrange(0, i as int));
            assert(sub.last() == cols@[i as int]);
            assert(diag_models(diagnostics@) =~= before + result_cols_diags(sub, ctx@));
        }
        i = i + 1;
    }
    assert(cols@.subrange(0, cols@.len() as int) =~= cols@);
}

/// Checks a list of expressions, in order.
fn check_exprs(es: &Vec<Expr>, ctx: &ExprContext, diagnostics: &mut Vec<Diagnostic>)
    ensures
        diag_models(final(diagnostics)@) == diag_models(old(diagnostics)@) + exprs_diags(es@, ctx@),
{
    let ghost before = diag_models(diagnostics@);
    let mut i: usize = 0;
    while i < es.len()
        invariant
            i <= es@.len(),
            diag_models(diagnostics@) == before + exprs_diags(es@.subrange(0, i as int), ctx@),
        decreases es@.len() - i,
    {
        check_expr_with_context(&es[i], ctx, diagnostics);
        assert(es@.subrange(0, i + 1).drop_last() =~= es@.subrange(0, i as int));
        i = i + 1;
    }
    assert(es@.subrange(0, es@.len() as int) =~= es@);
}

/// Checks an optional expression.
fn check_opt_expr(e: &Option<Expr>, ctx: &ExprContext, diagnostics: &mut Vec<Diagnostic>)
    ensures
        diag_models(final(diagnostics)@) == diag_models(old(diagnostics)@) + opt_expr_diags(*e, ctx@),
{
    match e {
        Some(e) => check_expr_with_context(e, ctx, diagnostics),
        None => {
            assert(diag_models(diagnostics@) =~= diag_models(diagnostics@) + opt_expr_diags(None, ctx@));
        }
    }
}

/// Checks an optional list of expressions.
fn check_opt_exprs(es: &Option<Vec<Expr>>, ctx: &ExprContext, diagnostics: &mut Vec<Diagnostic>)
    ensures
        diag_models(final(diagnostics)@) == diag_models(old(diagnostics)@) + opt_exprs_diags(*es, ctx@),
{
    match es {
        Some(es) => check_exprs(es, ctx, diagnostics),
        None => {
            assert(diag_models(diagnostics@) =~= diag_models(diagnostics@) + opt_exprs_diags(None, ctx@));
        }
    }
}

/// Checks the expressions of an optional ORDER BY.
fn check_order_by(o: &Option<Vec<OrderingTerm>>, ctx: &ExprContext, diagnostics: &mut Vec<Diagnostic>)
    ensures
        diag_models(final(diagnostics)@) == diag_models(old(diagnostics)@) + order_diags(*o, ctx@),
{
    let ghost before = diag_models(diagnostics@);
    match o {
        Some(terms) => {
            let mut i: usize = 0;
            while i < terms.len()
                invariant
                    i <= terms@.len(),
                    diag_models(diagnostics@) == before + terms_diags(terms@.subrange(0, i as int), ctx@),
                decreases terms@.len() - i,
            {
                check_expr_with_context(&terms[i].expr, ctx, diagnostics);
                assert(terms@.subrange(0, i + 1).drop_last() =~= terms@.subrange(0, i as int));
                i = i + 1;
            }
            assert(terms@.subrange(0, terms@.len() as int) =~= terms@);
        }
        None => {
            assert(diag_models(diagnostics@) =~= before + order_diags(None, ctx@));
        }
    }
}


/// Infers the column names of a CTE from its SELECT columns.
pub fn infer_cte_columns(cols: &Vec<ResultColumn>) -> (r: Vec<String>)
    ensures
        texts(r@) == cte_columns(cols@),
{
    let mut r: Vec<String> = Vec::new();
    let mut i: usize = 0;
    while i < cols.len()
        invariant
            i <= cols.len(),
            texts(r@) == cte_columns(cols@.subrange(0, i as int)),
        decreases cols.len() - i,
    {
        let ghost before = r@;
        match &cols[i] {
            ResultColumn::Expr { expr, alias, .. } => {
                match alias {
                    Some(a) => r.push(a.clone()),
                    None => match extract_column_name(expr) {
                        Some(n) => r.push(n),
                        None => {}
                    },
                }
            }
            ResultColumn::Star(_) => r.push(string_of("*")),
            ResultColumn::TableStar { table, .. } => {
                let mut t = table.clone();
                push_str(&mut t, ".*");
                r.push(t);
            }
        }
        proof {
            let sub = cols@.subrange(0, i + 1);
            assert(sub.drop_last() =~= cols@.subrange(0, i as int));
            assert(sub.last() == cols@[i as int]);
            if r@.len() > before.len() {
                assert(texts(r@) =~= texts(before).push(r@.last()@));
            } else {
                assert(r@ == before);
            }
        }
        i = i + 1;
    }
    assert(cols@.subrange(0, cols.len() as int) =~= cols@);
    r
}

/// The table a CTE defines.
pub fn build_table_info_from_cte(cte: &CommonTableExpr) -> (r: TableInfo)
    ensures
        r@ == cte_table(*cte),
{
    let original_columns = match &cte.columns {
        Some(cols) => crate::ast::copy_strings(cols),
        None => infer_cte_columns(&cte.select.columns),
    };
    let columns = lower_set_of(&original_columns);
    TableInfo {
        columns,
        original_columns,
        without_rowid: true,
        doc: None,
        column_docs: StrMap::new(),
    }
}

/// The tables of a WITH clause, by lowercased name, in order; a later CTE
/// of the same name replaces an earlier one.
pub fn build_cte_tables(with_clause: &WithClause) -> (r: StrMap<TableInfo>)
    ensures
        r@ == cte_tables(with_clause.ctes@),
{
    let ctes = &with_clause.ctes;
    let mut r: StrMap<TableInfo> = StrMap::new();
    let mut i: usize = 0;
    while i < ctes.len()
        invariant
            i <= ctes@.len(),
            r@ == cte_tables(ctes@.subrange(0, i as int)),
        decreases ctes@.len() - i,
    {
        let info = build_table_info_from_cte(&ctes[i]);
        let key = to_lower(ctes[i].name.as_str());
        r.insert(key, info);
        proof {
            let sub = ctes@.subrange(0, i + 1);
            assert(sub.drop_last() =~= ctes@.subrange(0, i as int));
            assert(sub.last() == ctes@[i as int]);
        }
        i = i + 1;
    }
    assert(ctes@.subrange(0, ctes@.len() as int) =~= ctes@);
    r
}

/// Reports unknown tables in a FROM item; a subquery is analyzed as a
/// SELECT of its own.
#[verifier::loop_isolation(false)]
pub fn check_unknown_tables_recursive(
    table: &TableOrSubquery,
    ctes: &StrMap<TableInfo>,
    local: &StrMap<TableInfo>,
    ext: Option<&Schema>,
    diagnostics: &mut Vec<Diagnostic>,
)
    ensures
        diag_models(final(diagnostics)@) == diag_models(old(diagnostics)@)
            + table_unknown_diags(*table, env_of(ctes, local, ext)),
    decreases table,
{
    let ghost before = diag_models(diagnostics@);
    match table {
        TableOrSubquery::Table { name, span, .. } => {
            if lookup_table(name.as_str(), ctes, local, ext).is_none() {
                let msg = concat3("Unknown table '", name.as_str(), "'");
                push_error(diagnostics, msg, span);
            }
            assert(diag_models(diagnostics@) =~= before + table_unknown_diags(*table, env_of(ctes, local, ext)));
        }
        TableOrSubquery::TableFunction { .. } => {
            assert(diag_models(diagnostics@) =~= before + table_unknown_diags(*table, env_of(ctes, local, ext)));
        }
        TableOrSubquery::Subquery { query, .. } => {
            analyze_select(query, local, ext, diagnostics);
        }
        TableOrSubquery::TableList { tables, .. } => {
            let mut i: usize = 0;
            while i < tables.len()
                invariant
                    i <= tables@.len(),
                    diag_models(diagnostics@) == before + tables_unknown_diags(tables@.subrange(0, i as int), env_of(ctes, local, ext)),
                decreases tables@.len() - i,
            {
                assert(decreases_to!(*table => tables@[i as int]));
                check_unknown_tables_recursive(&tables[i], ctes, local, ext, diagnostics);
                assert(tables@.subrange(0, i + 1).drop_last() =~= tables@.subrange(0, i as int));
                i = i + 1;
            }
            assert(tables@.subrange(0, tables@.len() as int) =~= tables@);
        }
        TableOrSubquery::Join { left, right, .. } => {
            check_unknown_tables_recursive(left, ctes, local, ext, diagnostics);
            check_unknown_tables_recursive(right, ctes, local, ext, diagnostics);
            assert(diag_models(diagnostics@) =~= before + table_unknown_diags(*table, env_of(ctes, local, ext)));
        }
    }
}

/// Reports unknown tables in a FROM clause.
#[verifier::loop_isolation(false)]
pub fn check_unknown_tables_in_from(
    from: &FromClause,
    ctes: &StrMap<TableInfo>,
    local: &StrMap<TableInfo>,
    ext: Option<&Schema>,
    diagnostics: &mut Vec<Diagnostic>,
)
    ensures
        diag_models(final(diagnostics)@) == diag_models(old(diagnostics)@)
            + tables_unknown_diags(from.tables@, env_of(ctes, local, ext)),
    decreases from,
{
    let ghost before = diag_models(diagnostics@);
    let mut i: usize = 0;
    while i < from.tables.len()
        invariant
            i <= from.tables@.len(),
            diag_models(diagnostics@) == before + tables_unknown_diags(from.tables@.subrange(0, i as int), env_of(ctes, local, ext)),
        decreases from.tables@.len() - i,
    {
        assert(decreases_to!(*from => from.tables@[i as int]));
        check_unknown_tables_recursive(&from.tables[i], ctes, local, ext, diagnostics);
        assert(from.tables@.subrange(0, i + 1).drop_last() =~= from.tables@.subrange(0, i as int));
        i = i + 1;
    }
    assert(from.tables@.subrange(0, from.tables@.len() as int) =~= from.tables@);
}

/// Checks a compound part of a SELECT in its own FROM scope.
#[verifier::loop_isolation(false)]
pub fn check_compound_core(
    core: &SelectCore,
    ctes: &StrMap<TableInfo>,
    local: &StrMap<TableInfo>,
    ext: Option<&Schema>,
    diagnostics: &mut Vec<Diagnostic>,
)
    ensures
        diag_models(final(diagnostics)@) == diag_models(old(diagnostics)@)
            + core_diags(*core, env_of(ctes, local, ext)),
    decreases core,
{
    let ghost before = diag_models(diagnostics@);
    match &core.from {
        Some(from) => {
            check_unknown_tables_in_from(from, ctes, local, ext, diagnostics);
            let ctx = from_context(from, ctes, local, ext);
            check_result_columns(&core.columns, &ctx, diagnostics);
            check_opt_expr(&core.where_clause, &ctx, diagnostics);
            check_opt_exprs(&core.group_by, &ctx, diagnostics);
            check_opt_expr(&core.having, &ctx, diagnostics);
            check_join_conditions(from, &ctx, diagnostics);
        }
        None => {
            let ctx = bare_context(ext);
            check_result_columns(&core.columns, &ctx, diagnostics);
            check_opt_expr(&core.where_clause, &ctx, diagnostics);
            check_opt_exprs(&core.group_by, &ctx, diagnostics);
            check_opt_expr(&core.having, &ctx, diagnostics);
        }
    }
    assert(diag_models(diagnostics@) =~= before + core_diags(*core, env_of(ctes, local, ext)));
}

/// Checks the result columns, WHERE, GROUP BY, HAVING and ORDER BY of a
/// SELECT in a context.
fn check_select_clauses(select: &SelectStmt, ctx: &ExprContext, diagnostics: &mut Vec<Diagnostic>)
    ensures
        diag_models(final(diagnostics)@) == diag_models(old(diagnostics)@) + clauses_diags(*select, ctx@),
{
    let ghost before = diag_models(diagnostics@);
    check_result_columns(&select.columns, ctx, diagnostics);
    check_opt_expr(&select.where_clause, ctx, diagnostics);
    check_opt_exprs(&select.group_by, ctx, diagnostics);
    check_opt_expr(&select.having, ctx, diagnostics);
    check_order_by(&select.order_by, ctx, diagnostics);
    assert(diag_models(diagnostics@) =~= before + clauses_diags(*select, ctx@));
}

/// Checks the compound parts of a SELECT, in order.
#[verifier::loop_isolation(false)]
fn check_compounds(
    compounds: &Vec<(CompoundOp, SelectCore)>,
    ctes: &StrMap<TableInfo>,
    local: &StrMap<TableInfo>,
    ext: Option<&Schema>,
    diagnostics: &mut Vec<Diagnostic>,
)
    ensures
        diag_models(final(diagnostics)@) == diag_models(old(diagnostics)@)
            + compounds_diags(compounds@, env_of(ctes, local, ext)),
    decreases compounds@,
{
    let ghost before = diag_models(diagnostics@);
    let mut i: usize = 0;
    while i < compounds.len()
        invariant
            i <= compounds@.len(),
            diag_models(diagnostics@) == before + compounds_diags(compounds@.subrange(0, i as int), env_of(ctes, local, ext)),
        decreases compounds@.len() - i,
    {
        assert(decreases_to!(compounds@ => compounds@[i as int].1));
        check_compound_core(&compounds[i].1, ctes, local, ext, diagnostics);
        assert(compounds@.subrange(0, i + 1).drop_last() =~= compounds@.subrange(0, i as int));
        i = i + 1;
    }
    assert(compounds@.subrange(0, compounds@.len() as int) =~= compounds@);
}

/// Analyzes a SELECT: an empty result list, unknown tables (through CTEs,
/// earlier tables and the external schema), and the columns of every
/// clause, then each compound part; subqueries in FROM are analyzed in
/// their own scope.
pub fn analyze_select(
    select: &SelectStmt,
    local_tables: &StrMap<TableInfo>,
    external_schema: Option<&Schema>,
    diagnostics: &mut Vec<Diagnostic>,
)
    ensures
        diag_models(final(diagnostics)@) == diag_models(old(diagnostics)@)
            + select_diags(*select, local_tables@, opt_schema(external_schema)),
    decreases select,
{
    let ghost before = diag_models(diagnostics@);
    if select.columns.len() == 0 {
        push_error(diagnostics, string_of("SELECT statement must have at least one column"), &select.span);
    }
    let ghost after_empty = diag_models(diagnostics@);
    assert(after_empty =~= before + empty_select_diags(*select));
    let cte_tables = match &select.with_clause {
        Some(w) => build_cte_tables(w),
        None => {
            let m: StrMap<TableInfo> = StrMap::new();
            assert(m@ =~= with_tables(select.with_clause));
            m
        }
    };
    let ghost env = env_of(&cte_tables, local_tables, external_schema);
    assert(env == Env { ctes: with_tables(select.with_clause), local: local_tables@, ext: opt_schema(external_schema) });
    match &select.from {
        Some(from) => {
            check_unknown_tables_in_from(from, &cte_tables, local_tables, external_schema, diagnostics);
            let ctx = from_context(from, &cte_tables, local_tables, external_schema);
            check_select_clauses(select, &ctx, diagnostics);
            check_join_conditions(from, &ctx, diagnostics);
        }
        None => {
            let ctx = bare_context(external_schema);
            check_select_clauses(select, &ctx, diagnostics);
        }
    }
    let ghost mid = diag_models(diagnostics@);
    assert(mid =~= after_empty + match select.from {
        Some(f) => tables_unknown_diags(f.tables@, env) + clauses_diags(*select, from_ctx(f.tables@, env))
            + joins_diags(f.tables@, from_ctx(f.tables@, env)),
        None => clauses_diags(*select, CtxModel { nargs: ext_nargs(env.ext), ..empty_ctx(None) }),
    });
    check_compounds(&select.compounds, &cte_tables, local_tables, external_schema, diagnostics);
    assert(diag_models(diagnostics@) =~= before + select_diags(*select, local_tables@, opt_schema(external_schema)));
}


/// The lowercased column set, the duplicate-column errors and the column
/// docs of a CREATE TABLE, as the analyzer computes them: a column whose
/// lowercased name was seen before is reported; the doc of a later column
/// of the same name replaces an earlier one.
pub open spec fn analyzed_columns(cols: Seq<ColumnDef>)
    -> (Seq<(Seq<char>, ())>, Seq<DiagModel>, Seq<(Seq<char>, DocModel)>)
    decreases cols.len(),
{
    if cols.len() == 0 {
        (seq![], seq![], seq![])
    } else {
        let (seen, diags, docs) = analyzed_columns(cols.drop_last());
        let c = cols.last();
        let l = spec_lowercase(c.name@);
        let docs2 = match c.doc {
            Some(d) => seq_insert(docs, l, d@),
            None => docs,
        };
        if has_key(seen, l) {
            (seen, diags.push(("Duplicate column name '"@ + c.name@ + "'"@, c.span, Severity::Error)), docs2)
        } else {
            (seq_insert(seen, l, ()), diags, docs2)
        }
    }
}

/// The names of column definitions, in order.
pub open spec fn column_names(cols: Seq<ColumnDef>) -> Seq<Seq<char>> {
    cols.map_values(|c: ColumnDef| c.name@)
}

/// The table the analyzer registers for a CREATE TABLE: every column name
/// (duplicates included) as written, the lowercased set, the options and docs.
pub open spec fn analyzed_table(c: CreateTableStmt) -> TableModel {
    let (seen, _diags, docs) = analyzed_columns(c.columns@);
    TableModel {
        columns: seen,
        original_columns: column_names(c.columns@),
        without_rowid: c.table_options@.contains(TableOption::WithoutRowid),
        doc: opt_doc(c.doc),
        column_docs: docs,
    }
}

/// The diagnostics of a CREATE TABLE: no columns (unless AS SELECT), then
/// each duplicate column.
pub open spec fn create_table_diags(c: CreateTableStmt) -> Seq<DiagModel> {
    (if c.columns.len() == 0 && c.as_select is None {
        seq![("CREATE TABLE must have at least one column"@, c.span, Severity::Error)]
    } else {
        seq![]
    }) + analyzed_columns(c.columns@).1
}

/// The tables registered and the diagnostics found after a sequence of
/// statements: SELECTs are analyzed against the tables created before them,
/// CREATE TABLE and CREATE VIRTUAL TABLE register (replacing a table of the
/// same lowercased name), other statements change nothing.
pub open spec fn program_state(stmts: Seq<Statement>, ext: Option<SchemaModel>)
    -> (Seq<(Seq<char>, TableModel)>, Seq<DiagModel>)
    decreases stmts.len(),
{
    if stmts.len() == 0 {
        (seq![], seq![])
    } else {
        let (tables, diags) = program_state(stmts.drop_last(), ext);
        match stmts.last() {
            Statement::Select(s) => (tables, diags + select_diags(s, tables, ext)),
            Statement::CreateTable(c) => (
                seq_insert(tables, spec_lowercase(c.table_name@), analyzed_table(c)),
                diags + create_table_diags(c),
            ),
            Statement::CreateVirtualTable(c) => (seq_insert(tables, spec_lowercase(c.table_name@), opaque_table()), diags),
            _ => (tables, diags),
        }
    }
}

/// A table created earlier in the program shadows a table of the same
/// name (in any case) in the external schema; a CTE shadows both.
pub proof fn law_local_table_shadows_external(env: Env, name: Seq<char>, t: TableModel)
    requires
        lookup(env.ctes, spec_lowercase(name)) is None,
        lookup(env.local, spec_lowercase(name)) == Some(t),
    ensures
        resolve_table(env, name) == Some(t),
{
}

/// The diagnostics of a program's first statements are the first of its
/// diagnostics: what a statement is reported for does not depend on the
/// statements after it.
pub proof fn law_program_diags_prefix(stmts: Seq<Statement>, k: int, ext: Option<SchemaModel>)
    requires
        0 <= k <= stmts.len(),
    ensures
        program_diags(stmts.take(k), ext).is_prefix_of(program_diags(stmts, ext)),
    decreases stmts.len() - k,
{
    if k == stmts.len() {
        assert(stmts.take(k) =~= stmts);
    } else {
        law_program_diags_prefix(stmts.drop_last(), k, ext);
        assert(stmts.drop_last().take(k) =~= stmts.take(k));
        let before = program_diags(stmts.drop_last(), ext);
        let after = program_diags(stmts, ext);
        assert(before.is_prefix_of(after));
        assert(program_diags(stmts.take(k), ext).is_prefix_of(after));
    }
}

/// The diagnostics of a program.
pub open spec fn program_diags(stmts: Seq<Statement>, ext: Option<SchemaModel>) -> Seq<DiagModel> {
    program_state(stmts, ext).1
}

/// Checks a CREATE TABLE and returns the table it registers.
fn analyze_create_table(create: &CreateTableStmt, diagnostics: &mut Vec<Diagnostic>) -> (r: TableInfo)
    ensures
        diag_models(final(diagnostics)@) == diag_models(old(diagnostics)@) + create_table_diags(*create),
        r@ == analyzed_table(*create),
{
    let ghost before = diag_models(diagnostics@);
    if create.columns.len() == 0 && create.as_select.is_none() {
        push_error(diagnostics, string_of("CREATE TABLE must have at least one column"), &create.span);
    }
    let ghost mid = diag_models(diagnostics@);
    let cols = &create.columns;
    let mut seen: StrMap<()> = StrMap::new();
    let mut docs: StrMap<crate::ast::DocComment> = StrMap::new();
    let mut original: Vec<String> = Vec::new();
    let mut i: usize = 0;
    while i < cols.len()
        invariant
            i <= cols@.len(),
            seen@ == analyzed_columns(cols@.subrange(0, i as int)).0,
            diag_models(diagnostics@) == mid + analyzed_columns(cols@.subrange(0, i as int)).1,
            docs@ == analyzed_columns(cols@.subrange(0, i as int)).2,
            texts(original@) == column_names(cols@.subrange(0, i as int)),
        decreases cols@.len() - i,
    {
        let col = &cols[i];
        let l = to_lower(col.name.as_str());
        let ghost before_orig = original@;
        proof {
            let sub = cols@.subrange(0, i + 1);
            assert(sub.drop_last() =~= cols@.subrange(0, i as int));
            assert(sub.last() == cols@[i as int]);
        }
        if seen.contains_key(l.as_str()) {
            let msg = concat3("Duplicate column name '", col.name.as_str(), "'");
            push_error(diagnostics, msg, &col.span);
        } else {
            seen.insert(l.clone(), ());
        }
        match &col.doc {
            Some(d) => {
                docs.insert(l, d.duplicate());
            }
            None => {}
        }
        original.push(col.name.clone());
        assert(texts(original@) =~= texts(before_orig).push(col.name@));
        assert(texts(original@) =~= column_names(cols@.subrange(0, i + 1)));
        i = i + 1;
    }
    assert(cols@.subrange(0, cols@.len() as int) =~= cols@);
    assert(diag_models(diagnostics@) =~= before + create_table_diags(*create));
    TableInfo {
        columns: seen,
        original_columns: original,
        without_rowid: has_without_rowid(&create.table_options),
        doc: copy_opt_doc(&create.doc),
        column_docs: docs,
    }
}

/// Analyzes a program with an optional external schema (tables defined
/// outside the program, e.g. by other notebook cells): CREATE TABLE checks,
/// and SELECT checks against the tables created before each SELECT.
pub fn analyze_with_schema(program: &Program, external_schema: Option<&Schema>) -> (r: Vec<Diagnostic>)
    ensures
        diag_models(r@) == program_diags(program.statements@, opt_schema(external_schema)),
{
    let mut diagnostics: Vec<Diagnostic> = Vec::new();
    let mut tables: StrMap<TableInfo> = StrMap::new();
    let stmts = &program.statements;
    let ghost ext = opt_schema(external_schema);
    assert(diag_models(diagnostics@) =~= Seq::<DiagModel>::empty());
    let mut i: usize = 0;
    while i < stmts.len()
        invariant
            i <= stmts@.len(),
            ext == opt_schema(external_schema),
            (tables@, diag_models(diagnostics@)) == program_state(stmts@.subrange(0, i as int), ext),
        decreases stmts@.len() - i,
    {
        proof {
            let sub = stmts@.subrange(0, i + 1);
            assert(sub.drop_last() =~= stmts@.subrange(0, i as int));
            assert(sub.last() == stmts@[i as int]);
        }
        match &stmts[i] {
            Statement::Select(select) => {
                analyze_select(select, &tables, external_schema, &mut diagnostics);
            }
            Statement::CreateTable(create) => {
                let info = analyze_create_table(create, &mut diagnostics);
                let key = to_lower(create.table_name.as_str());
                tables.insert(key, info);
            }
            Statement::CreateVirtualTable(create) => {
                let key = to_lower(create.table_name.as_str());
                tables.insert(key, opaque_table_info());
            }
            _ => {}
        }
        i = i + 1;
    }
    assert(stmts@.subrange(0, stmts@.len() as int) =~= stmts@);
    diagnostics
}

/// Analyzes a program on its own.
pub fn analyze(program: &Program) -> (r: Vec<Diagnostic>)
    ensures
        diag_models(r@) == program_diags(program.statements@, None),
{
    analyze_with_schema(program, None)
}

} // verus!
