//! Semantic analysis: unknown tables, unknown columns, duplicate columns,
//! empty SELECT lists and wrong argument counts.

use vstd::prelude::*;
use crate::ast::{Expr, Span};
use crate::strmap::{StrMap, seq_insert, seq_override, lookup, has_key};
use crate::text::{spec_lowercase, to_lower, string_of, push_str, str_eq, int_text, i64_text, concat3, concat5};
use crate::analyzer::schema::{TableInfo, TableModel, Diagnostic, DiagModel, Severity};

verus! {

/// The models of a sequence of diagnostics.
pub open spec fn diag_models(v: Seq<Diagnostic>) -> Seq<DiagModel> {
    v.map_values(|d: Diagnostic| d@)
}

/// What an expression context holds: the tables in scope (by lowercased
/// name or alias, with their original name), every column of every table
/// brought into scope, the known argument counts, and the aliases of
/// table-valued functions whose columns are unknown.
pub struct CtxModel {
    pub tables: Seq<(Seq<char>, (Seq<char>, TableModel))>,
    pub all_columns: Seq<(Seq<char>, ())>,
    pub nargs: Option<Seq<(Seq<char>, Seq<i32>)>>,
    pub opaque: Seq<(Seq<char>, ())>,
}

/// The context with no tables.
pub open spec fn empty_ctx(nargs: Option<Seq<(Seq<char>, Seq<i32>)>>) -> CtxModel {
    CtxModel { tables: seq![], all_columns: seq![], nargs, opaque: seq![] }
}

/// The context after bringing a table into scope under `name_or_alias`:
/// its columns, and `rowid` unless it is WITHOUT ROWID, become available.
pub open spec fn ctx_add_table(c: CtxModel, name_or_alias: Seq<char>, original: Seq<char>, info: TableModel) -> CtxModel {
    let cols = seq_override(c.all_columns, info.columns);
    CtxModel {
        tables: seq_insert(c.tables, spec_lowercase(name_or_alias), (original, info)),
        all_columns: if info.without_rowid { cols } else { seq_insert(cols, "rowid"@, ()) },
        ..c
    }
}

/// The context after registering a table-valued function alias.
pub open spec fn ctx_add_opaque(c: CtxModel, alias: Seq<char>) -> CtxModel {
    CtxModel { opaque: seq_insert(c.opaque, spec_lowercase(alias), ()), ..c }
}

/// Whether a table (or opaque alias) is in scope.
pub open spec fn ctx_has_table(c: CtxModel, t: Seq<char>) -> bool {
    has_key(c.tables, spec_lowercase(t)) || has_key(c.opaque, spec_lowercase(t))
}

/// Whether a column can be read through a table qualifier: always for
/// opaque aliases and tables with unknown columns, otherwise when the table
/// has it (or it is `rowid` of a table with rowids).
pub open spec fn ctx_column_in_table(c: CtxModel, t: Seq<char>, col: Seq<char>) -> bool {
    if has_key(c.opaque, spec_lowercase(t)) {
        true
    } else {
        match lookup(c.tables, spec_lowercase(t)) {
            Some(p) => p.1.columns.len() == 0 || has_key(p.1.columns, spec_lowercase(col))
                || (spec_lowercase(col) == "rowid"@ && !p.1.without_rowid),
            None => false,
        }
    }
}

/// The name a qualifier is reported under: the table's original name when
/// it is in scope, the qualifier itself otherwise.
pub open spec fn ctx_original_name(c: CtxModel, t: Seq<char>) -> Seq<char> {
    match lookup(c.tables, spec_lowercase(t)) {
        Some(p) => p.0,
        None => t,
    }
}

/// The message for a column no table in scope has.
pub open spec fn missing_column_msg(c: CtxModel, col: Seq<char>) -> Seq<char> {
    if c.tables.len() == 1 {
        "Column '"@ + col + "' does not exist in table '"@ + c.tables[0].1.0 + "'"@
    } else {
        "Column '"@ + col + "' does not exist in any available table"@
    }
}

/// The diagnostics of an unqualified column reference.
pub open spec fn unqualified_diags(c: CtxModel, col: Seq<char>, span: Span) -> Seq<DiagModel> {
    if c.tables.len() != 0 && !has_key(c.all_columns, spec_lowercase(col)) {
        seq![(missing_column_msg(c, col), span, Severity::Error)]
    } else {
        seq![]
    }
}

/// Column checks ignore case: names that lowercase alike, for the table
/// qualifier and for the column, are judged alike.
pub proof fn law_column_check_ignores_case(c: CtxModel, t1: Seq<char>, t2: Seq<char>, col1: Seq<char>, col2: Seq<char>)
    requires
        spec_lowercase(t1) == spec_lowercase(t2),
        spec_lowercase(col1) == spec_lowercase(col2),
    ensures
        ctx_has_table(c, t1) == ctx_has_table(c, t2),
        ctx_column_in_table(c, t1, col1) == ctx_column_in_table(c, t2, col2),
        has_key(c.all_columns, spec_lowercase(col1)) == has_key(c.all_columns, spec_lowercase(col2)),
{
}

/// An unqualified column is reported exactly when no table in scope has
/// it, whatever its case.
pub proof fn law_unqualified_column_reported_iff_missing(c: CtxModel, col: Seq<char>, span: Span)
    ensures
        (unqualified_diags(c, col, span).len() > 0) == (c.tables.len() > 0 && !has_key(
            c.all_columns,
            spec_lowercase(col),
        )),
{
}

/// A table brought into scope answers for each of its columns, under the
/// name or alias it was brought in by (whatever its case), and for
/// `rowid` unless it is WITHOUT ROWID.
pub proof fn law_added_table_has_its_columns(
    c: CtxModel,
    alias: Seq<char>,
    original: Seq<char>,
    info: TableModel,
    col: Seq<char>,
)
    requires
        crate::strmap::unique_keys(c.tables),
        has_key(info.columns, spec_lowercase(col)) || (spec_lowercase(col) == "rowid"@ && !info.without_rowid),
    ensures
        ctx_has_table(ctx_add_table(c, alias, original, info), alias),
        ctx_column_in_table(ctx_add_table(c, alias, original, info), alias, col),
{
    crate::strmap::lemma_insert(c.tables, spec_lowercase(alias), (original, info));
}

/// The text of a list of argument counts: `0` when empty, the count when
/// single, otherwise `a, b or c`.
pub open spec fn nargs_text(v: Seq<i32>) -> Seq<char> {
    if v.len() == 0 {
        "0"@
    } else if v.len() == 1 {
        int_text(v[0] as int)
    } else {
        comma_list(v.drop_last()) + " or "@ + int_text(v.last() as int)
    }
}

/// The counts joined by `, `.
pub open spec fn comma_list(v: Seq<i32>) -> Seq<char>
    decreases v.len(),
{
    if v.len() == 0 {
        seq![]
    } else if v.len() == 1 {
        int_text(v[0] as int)
    } else {
        comma_list(v.drop_last()) + ", "@ + int_text(v.last() as int)
    }
}

/// Whether some count is negative (the function takes any number).
pub open spec fn is_variadic(v: Seq<i32>) -> bool {
    exists|i: int| 0 <= i < v.len() && v[i] < 0
}

/// The argument count of a call: `count(*)` counts as no argument.
pub open spec fn effective_nargs(args: Seq<Expr>) -> i32 {
    if args.len() == 1 && args[0] is Star {
        0
    } else {
        args.len() as i32
    }
}

/// The diagnostics for a call with a wrong number of arguments.
pub open spec fn nargs_diags(c: CtxModel, name: Seq<char>, args: Seq<Expr>, span: Span) -> Seq<DiagModel> {
    match c.nargs {
        Some(m) => match lookup(m, spec_lowercase(name)) {
            Some(valid) => {
                let n = effective_nargs(args);
                if !is_variadic(valid) && !valid.contains(n) {
                    seq![(name + "() expects "@ + nargs_text(valid) + " arguments, but "@ + int_text(n as int)
                        + " were provided"@, span, Severity::Error)]
                } else {
                    seq![]
                }
            },
            None => seq![],
        },
        None => seq![],
    }
}

/// The diagnostics of an expression: unknown columns and qualifiers, and
/// wrong argument counts, found by walking the expression (subqueries are
/// checked in their own scope, not here).
pub open spec fn expr_diags(e: Expr, c: CtxModel) -> Seq<DiagModel>
    decreases e,
{
    match e {
        Expr::Ident(col, dq, span) => if dq { seq![] } else { unqualified_diags(c, col@, span) },
        Expr::Column { table, column, span, .. } => match table {
            Some(t) => if c.tables.len() == 0 {
                seq![]
            } else if !ctx_has_table(c, t@) {
                seq![("Table '"@ + t@ + "' not found in FROM clause"@, span, Severity::Error)]
            } else if !ctx_column_in_table(c, t@, column@) {
                seq![("Column '"@ + column@ + "' does not exist in table '"@ + ctx_original_name(c, t@) + "'"@,
                    span, Severity::Error)]
            } else {
                seq![]
            },
            None => unqualified_diags(c, column@, span),
        },
        Expr::Binary { left, right, .. } => expr_diags(*left, c) + expr_diags(*right, c),
        Expr::Unary { expr, .. } => expr_diags(*expr, c),
        Expr::Paren(inner, _) => expr_diags(*inner, c),
        Expr::Between { expr, low, high, .. } => expr_diags(*expr, c) + expr_diags(*low, c) + expr_diags(*high, c),
        Expr::InList { expr, list, .. } => expr_diags(*expr, c) + exprs_diags(list@, c),
        Expr::InSelect { expr, .. } => expr_diags(*expr, c),
        Expr::Like { expr, pattern, escape, .. } => expr_diags(*expr, c) + expr_diags(*pattern, c) + (match escape {
            Some(x) => expr_diags(*x, c),
            None => seq![],
        }),
        Expr::IsNull { expr, .. } => expr_diags(*expr, c),
        Expr::Case { operand, when_clauses, else_clause, .. } => (match operand {
            Some(o) => expr_diags(*o, c),
            None => seq![],
        }) + pairs_diags(when_clauses@, c) + (match else_clause {
            Some(x) => expr_diags(*x, c),
            None => seq![],
        }),
        Expr::Cast { expr, .. } => expr_diags(*expr, c),
        Expr::FunctionCall { name, args, filter, span, .. } => nargs_diags(c, name@, args@, span)
            + exprs_diags(args@, c) + (match filter {
            Some(f) => expr_diags(*f, c),
            None => seq![],
        }),
        Expr::Collate { expr, .. } => expr_diags(*expr, c),
        _ => seq![],
    }
}

/// The diagnostics of a list of expressions, in order.
pub open spec fn exprs_diags(es: Seq<Expr>, c: CtxModel) -> Seq<DiagModel>
    decreases es,
{
    if es.len() == 0 {
        seq![]
    } else {
        exprs_diags(es.drop_last(), c) + expr_diags(es.last(), c)
    }
}

/// The diagnostics of the WHEN/THEN pairs of a CASE, in order.
pub open spec fn pairs_diags(ps: Seq<(Expr, Expr)>, c: CtxModel) -> Seq<DiagModel>
    decreases ps,
{
    if ps.len() == 0 {
        seq![]
    } else {
        pairs_diags(ps.drop_last(), c) + expr_diags(ps.last().0, c) + expr_diags(ps.last().1, c)
    }
}


/// A text starts with another.
pub open spec fn starts_with(t: Seq<char>, p: Seq<char>) -> bool {
    p.len() <= t.len() && t.subrange(0, p.len() as int) == p
}

/// A column reference is reported, once, with its own span as an error,
/// exactly when the tables in scope lack it: an unqualified name when no
/// table in scope has it (naming the column), a qualified one when its
/// table is not in scope (naming the table) or lacks it (naming the
/// column); a double-quoted name is never reported.
pub proof fn law_column_reference_reported(e: Expr, c: CtxModel)
    ensures
        expr_diags(e, c).len() <= 1 || !(e is Ident || e is Column),
        match e {
            Expr::Ident(col, dq, span) => {
                &&& (expr_diags(e, c).len() == 1) == (!dq && c.tables.len() > 0 && !has_key(
                    c.all_columns,
                    spec_lowercase(col@),
                ))
                &&& expr_diags(e, c).len() == 1 ==> expr_diags(e, c)[0].1 == span && expr_diags(e, c)[0].2
                    == Severity::Error && starts_with(expr_diags(e, c)[0].0, "Column '"@ + col@ + "'"@)
            },
            Expr::Column { table, column, span, .. } => match table {
                Some(t) => {
                    &&& (expr_diags(e, c).len() == 1) == (c.tables.len() > 0 && (!ctx_has_table(c, t@)
                        || !ctx_column_in_table(c, t@, column@)))
                    &&& expr_diags(e, c).len() == 1 ==> expr_diags(e, c)[0].1 == span && expr_diags(e, c)[0].2
                        == Severity::Error && starts_with(
                        expr_diags(e, c)[0].0,
                        if ctx_has_table(c, t@) {
                            "Column '"@ + column@ + "'"@
                        } else {
                            "Table '"@ + t@ + "'"@
                        },
                    )
                },
                None => {
                    &&& (expr_diags(e, c).len() == 1) == (c.tables.len() > 0 && !has_key(
                        c.all_columns,
                        spec_lowercase(column@),
                    ))
                    &&& expr_diags(e, c).len() == 1 ==> expr_diags(e, c)[0].1 == span && expr_diags(e, c)[0].2
                        == Severity::Error && starts_with(expr_diags(e, c)[0].0, "Column '"@ + column@ + "'"@)
                },
            },
            _ => true,
        },
{
    reveal_strlit("'");
    match e {
        Expr::Ident(col, dq, span) => {
            if !dq && c.tables.len() > 0 && !has_key(c.all_columns, spec_lowercase(col@)) {
                let m = missing_column_msg(c, col@);
                let p = "Column '"@ + col@ + "'"@;
                reveal_strlit("' does not exist in table '");
                reveal_strlit("' does not exist in any available table");
                assert(m.subrange(0, p.len() as int) =~= p);
            }
        },
        Expr::Column { table, column, span, .. } => match table {
            Some(t) => {
                if c.tables.len() > 0 {
                    reveal_strlit("' not found in FROM clause");
                    reveal_strlit("' does not exist in table '");
                    if !ctx_has_table(c, t@) {
                        let m = "Table '"@ + t@ + "' not found in FROM clause"@;
                        assert(m.subrange(0, ("Table '"@ + t@ + "'"@).len() as int) =~= "Table '"@ + t@ + "'"@);
                    } else if !ctx_column_in_table(c, t@, column@) {
                        let m = "Column '"@ + column@ + "' does not exist in table '"@ + ctx_original_name(c, t@)
                            + "'"@;
                        assert(m.subrange(0, ("Column '"@ + column@ + "'"@).len() as int)
                            =~= "Column '"@ + column@ + "'"@);
                    }
                }
            },
            None => {
                if c.tables.len() > 0 && !has_key(c.all_columns, spec_lowercase(column@)) {
                    let m = missing_column_msg(c, column@);
                    let p = "Column '"@ + column@ + "'"@;
                    reveal_strlit("' does not exist in table '");
                    reveal_strlit("' does not exist in any available table");
                    assert(m.subrange(0, p.len() as int) =~= p);
                }
            },
        },
        _ => {},
    }
}

/// The conditions and results of CASE's WHEN/THEN pairs, in order.
pub open spec fn pair_exprs(ps: Seq<(Expr, Expr)>) -> Seq<Expr>
    decreases ps.len(),
{
    if ps.len() == 0 {
        seq![]
    } else {
        pair_exprs(ps.drop_last()) + seq![ps.last().0, ps.last().1]
    }
}

/// An optional sub-expression as a list of none or one.
pub open spec fn opt_expr(o: Option<Box<Expr>>) -> Seq<Expr> {
    match o {
        Some(x) => seq![*x],
        None => seq![],
    }
}

/// The direct sub-expressions of an expression that are checked against the
/// schema: every operand, bound, list item, pattern, branch and argument;
/// not the queries of subqueries (checked on their own), nor a RAISE
/// message or a window specification.
pub open spec fn checked_children(e: Expr) -> Seq<Expr> {
    match e {
        Expr::Binary { left, right, .. } => seq![*left, *right],
        Expr::Unary { expr, .. } => seq![*expr],
        Expr::Paren(inner, _) => seq![*inner],
        Expr::Between { expr, low, high, .. } => seq![*expr, *low, *high],
        Expr::InList { expr, list, .. } => seq![*expr] + list@,
        Expr::InSelect { expr, .. } => seq![*expr],
        Expr::Like { expr, pattern, escape, .. } => seq![*expr, *pattern] + opt_expr(escape),
        Expr::IsNull { expr, .. } => seq![*expr],
        Expr::Case { operand, when_clauses, else_clause, .. } => opt_expr(operand) + pair_exprs(when_clauses@)
            + opt_expr(else_clause),
        Expr::Cast { expr, .. } => seq![*expr],
        Expr::FunctionCall { args, filter, .. } => args@ + opt_expr(filter),
        Expr::Collate { expr, .. } => seq![*expr],
        _ => seq![],
    }
}

/// What one part of a text holds, the whole holds.
proof fn lemma_contains_concat<A>(a: Seq<A>, b: Seq<A>, d: A)
    ensures
        a.contains(d) ==> (a + b).contains(d),
        b.contains(d) ==> (a + b).contains(d),
{
    if a.contains(d) {
        let k = choose|k: int| 0 <= k < a.len() && a[k] == d;
        assert((a + b)[k] == d);
    }
    if b.contains(d) {
        let k = choose|k: int| 0 <= k < b.len() && b[k] == d;
        assert((a + b)[a.len() + k] == d);
    }
}

/// A list's diagnostics hold those of each of its expressions.
proof fn lemma_exprs_diags_include(es: Seq<Expr>, c: CtxModel, j: int, d: DiagModel)
    requires
        0 <= j < es.len(),
        expr_diags(es[j], c).contains(d),
    ensures
        exprs_diags(es, c).contains(d),
    decreases es.len(),
{
    lemma_contains_concat(exprs_diags(es.drop_last(), c), expr_diags(es.last(), c), d);
    if j < es.len() - 1 {
        assert(es.drop_last()[j] == es[j]);
        lemma_exprs_diags_include(es.drop_last(), c, j, d);
    }
}

/// CASE pairs' diagnostics hold those of each condition and result.
proof fn lemma_pairs_diags_include(ps: Seq<(Expr, Expr)>, c: CtxModel, j: int, d: DiagModel)
    requires
        0 <= j < pair_exprs(ps).len(),
        expr_diags(pair_exprs(ps)[j], c).contains(d),
    ensures
        pairs_diags(ps, c).contains(d),
    decreases ps.len(),
{
    if ps.len() > 0 {
        let front = pair_exprs(ps.drop_last());
        let a = pairs_diags(ps.drop_last(), c);
        let x = expr_diags(ps.last().0, c);
        let y = expr_diags(ps.last().1, c);
        lemma_contains_concat(a, x, d);
        lemma_contains_concat(a + x, y, d);
        if j < front.len() {
            assert(pair_exprs(ps)[j] == front[j]);
            lemma_pairs_diags_include(ps.drop_last(), c, j, d);
        } else if j == front.len() {
            assert(pair_exprs(ps)[j] == ps.last().0);
        } else {
            assert(pair_exprs(ps)[j] == ps.last().1);
        }
    }
}

/// Every column reference inside an expression is checked, at any depth
/// and under any operator: the diagnostics of an expression hold every
/// diagnostic of each of its checked sub-expressions.
pub proof fn law_sub_expression_diags_included(e: Expr, c: CtxModel, i: int, d: DiagModel)
    requires
        0 <= i < checked_children(e).len(),
        expr_diags(checked_children(e)[i], c).contains(d),
    ensures
        expr_diags(e, c).contains(d),
{
    let ch = checked_children(e);
    match e {
        Expr::Binary { left, right, .. } => {
            lemma_contains_concat(expr_diags(*left, c), expr_diags(*right, c), d);
        },
        Expr::Between { expr, low, high, .. } => {
            lemma_contains_concat(expr_diags(*expr, c), expr_diags(*low, c), d);
            lemma_contains_concat(expr_diags(*expr, c) + expr_diags(*low, c), expr_diags(*high, c), d);
        },
        Expr::InList { expr, list, .. } => {
            lemma_contains_concat(expr_diags(*expr, c), exprs_diags(list@, c), d);
            if i > 0 {
                assert(ch[i] == list@[i - 1]);
                lemma_exprs_diags_include(list@, c, i - 1, d);
            }
        },
        Expr::Like { expr, pattern, escape, .. } => {
            let esc = match escape {
                Some(x) => expr_diags(*x, c),
                None => seq![],
            };
            lemma_contains_concat(expr_diags(*expr, c), expr_diags(*pattern, c), d);
            lemma_contains_concat(expr_diags(*expr, c) + expr_diags(*pattern, c), esc, d);
        },
        Expr::Case { operand, when_clauses, else_clause, .. } => {
            let o = opt_expr(operand);
            let w = pair_exprs(when_clauses@);
            let od = match operand {
                Some(x) => expr_diags(*x, c),
                None => seq![],
            };
            let ed = match else_clause {
                Some(x) => expr_diags(*x, c),
                None => seq![],
            };
            let pd = pairs_diags(when_clauses@, c);
            lemma_contains_concat(od, pd, d);
            lemma_contains_concat(od + pd, ed, d);
            if i < o.len() {
                assert(ch[i] == o[i]);
            } else if i < o.len() + w.len() {
                assert(ch[i] == w[i - o.len()]);
                lemma_pairs_diags_include(when_clauses@, c, i - o.len(), d);
            } else {
                assert(ch[i] == opt_expr(else_clause)[i - o.len() - w.len()]);
            }
        },
        Expr::FunctionCall { name, args, filter, span, .. } => {
            let nd = nargs_diags(c, name@, args@, span);
            let ad = exprs_diags(args@, c);
            let fd = match filter {
                Some(f) => expr_diags(*f, c),
                None => seq![],
            };
            lemma_contains_concat(nd, ad, d);
            lemma_contains_concat(nd + ad, fd, d);
            if i < args@.len() {
                assert(ch[i] == args@[i]);
                lemma_exprs_diags_include(args@, c, i, d);
            } else {
                assert(ch[i] == opt_expr(filter)[i - args@.len()]);
            }
        },
        _ => {},
    }
}

/// What a whole text holds, one of its parts holds.
proof fn lemma_contains_split<A>(a: Seq<A>, b: Seq<A>, d: A)
    requires
        (a + b).contains(d),
    ensures
        a.contains(d) || b.contains(d),
{
    let k = choose|k: int| 0 <= k < (a + b).len() && (a + b)[k] == d;
    if k < a.len() {
        assert(a[k] == d);
    } else {
        assert(b[k - a.len()] == d);
    }
}

/// A list's diagnostics come from its expressions.
proof fn lemma_exprs_diags_from(es: Seq<Expr>, c: CtxModel, d: DiagModel) -> (j: int)
    requires
        exprs_diags(es, c).contains(d),
    ensures
        0 <= j < es.len(),
        expr_diags(es[j], c).contains(d),
    decreases es.len(),
{
    lemma_contains_split(exprs_diags(es.drop_last(), c), expr_diags(es.last(), c), d);
    if exprs_diags(es.drop_last(), c).contains(d) {
        let j = lemma_exprs_diags_from(es.drop_last(), c, d);
        assert(es.drop_last()[j] == es[j]);
        j
    } else {
        (es.len() - 1) as int
    }
}

/// CASE pairs' diagnostics come from their conditions and results.
proof fn lemma_pairs_diags_from(ps: Seq<(Expr, Expr)>, c: CtxModel, d: DiagModel) -> (j: int)
    requires
        pairs_diags(ps, c).contains(d),
    ensures
        0 <= j < pair_exprs(ps).len(),
        expr_diags(pair_exprs(ps)[j], c).contains(d),
    decreases ps.len(),
{
    let front = pair_exprs(ps.drop_last());
    let a = pairs_diags(ps.drop_last(), c);
    let x = expr_diags(ps.last().0, c);
    let y = expr_diags(ps.last().1, c);
    lemma_contains_split(a + x, y, d);
    if (a + x).contains(d) {
        lemma_contains_split(a, x, d);
        if a.contains(d) {
            let j = lemma_pairs_diags_from(ps.drop_last(), c, d);
            assert(pair_exprs(ps)[j] == front[j]);
            j
        } else {
            assert(pair_exprs(ps)[front.len() as int] == ps.last().0);
            front.len() as int
        }
    } else {
        assert(pair_exprs(ps)[front.len() + 1int] == ps.last().1);
        (front.len() + 1) as int
    }
}

/// Nothing is reported of an expression that neither it nor one of its
/// checked sub-expressions gives: each diagnostic is the expression's own
/// (at its span) or one of a sub-expression's.
pub proof fn law_diags_come_from_the_expression(e: Expr, c: CtxModel, d: DiagModel)
    requires
        expr_diags(e, c).contains(d),
    ensures
        d.1 == e.spec_span() || exists|i: int|
            0 <= i < checked_children(e).len() && #[trigger] expr_diags(checked_children(e)[i], c).contains(d),
{
    let ch = checked_children(e);
    match e {
        Expr::Ident(..) => {},
        Expr::Column { .. } => {},
        Expr::Binary { left, right, .. } => {
            lemma_contains_split(expr_diags(*left, c), expr_diags(*right, c), d);
            if expr_diags(*left, c).contains(d) {
                assert(expr_diags(ch[0], c).contains(d));
            } else {
                assert(expr_diags(ch[1], c).contains(d));
            }
        },
        Expr::Unary { expr, .. } => {
            assert(expr_diags(ch[0], c).contains(d));
        },
        Expr::Paren(inner, _) => {
            assert(expr_diags(ch[0], c).contains(d));
        },
        Expr::Between { expr, low, high, .. } => {
            lemma_contains_split(expr_diags(*expr, c) + expr_diags(*low, c), expr_diags(*high, c), d);
            if (expr_diags(*expr, c) + expr_diags(*low, c)).contains(d) {
                lemma_contains_split(expr_diags(*expr, c), expr_diags(*low, c), d);
                if expr_diags(*expr, c).contains(d) {
                    assert(expr_diags(ch[0], c).contains(d));
                } else {
                    assert(expr_diags(ch[1], c).contains(d));
                }
            } else {
                assert(expr_diags(ch[2], c).contains(d));
            }
        },
        Expr::InList { expr, list, .. } => {
            lemma_contains_split(expr_diags(*expr, c), exprs_diags(list@, c), d);
            if expr_diags(*expr, c).contains(d) {
                assert(expr_diags(ch[0], c).contains(d));
            } else {
                let j = lemma_exprs_diags_from(list@, c, d);
                assert(ch[j + 1] == list@[j]);
                assert(expr_diags(ch[j + 1], c).contains(d));
            }
        },
        Expr::InSelect { expr, .. } => {
            assert(expr_diags(ch[0], c).contains(d));
        },
        Expr::Like { expr, pattern, escape, .. } => {
            let esc = match escape {
                Some(x) => expr_diags(*x, c),
                None => seq![],
            };
            lemma_contains_split(expr_diags(*expr, c) + expr_diags(*pattern, c), esc, d);
            if (expr_diags(*expr, c) + expr_diags(*pattern, c)).contains(d) {
                lemma_contains_split(expr_diags(*expr, c), expr_diags(*pattern, c), d);
                if expr_diags(*expr, c).contains(d) {
                    assert(expr_diags(ch[0], c).contains(d));
                } else {
                    assert(expr_diags(ch[1], c).contains(d));
                }
            } else {
                assert(expr_diags(ch[2], c).contains(d));
            }
        },
        Expr::IsNull { expr, .. } => {
            assert(expr_diags(ch[0], c).contains(d));
        },
        Expr::Case { operand, when_clauses, else_clause, .. } => {
            let o = opt_expr(operand);
            let w = pair_exprs(when_clauses@);
            let od = match operand {
                Some(x) => expr_diags(*x, c),
                None => seq![],
            };
            let ed = match else_clause {
                Some(x) => expr_diags(*x, c),
                None => seq![],
            };
            let pd = pairs_diags(when_clauses@, c);
            lemma_contains_split(od + pd, ed, d);
            if (od + pd).contains(d) {
                lemma_contains_split(od, pd, d);
                if od.contains(d) {
                    assert(expr_diags(ch[0], c).contains(d));
                } else {
                    let j = lemma_pairs_diags_from(when_clauses@, c, d);
                    assert(ch[o.len() + j] == w[j]);
                    assert(expr_diags(ch[o.len() + j], c).contains(d));
                }
            } else {
                assert(ch[(o.len() + w.len()) as int] == opt_expr(else_clause)[0]);
                assert(expr_diags(ch[(o.len() + w.len()) as int], c).contains(d));
            }
        },
        Expr::Cast { expr, .. } => {
            assert(expr_diags(ch[0], c).contains(d));
        },
        Expr::FunctionCall { name, args, filter, span, .. } => {
            let nd = nargs_diags(c, name@, args@, span);
            let ad = exprs_diags(args@, c);
            let fd = match filter {
                Some(f) => expr_diags(*f, c),
                None => seq![],
            };
            lemma_contains_split(nd + ad, fd, d);
            if (nd + ad).contains(d) {
                lemma_contains_split(nd, ad, d);
                if ad.contains(d) {
                    let j = lemma_exprs_diags_from(args@, c, d);
                    assert(ch[j] == args@[j]);
                    assert(expr_diags(ch[j], c).contains(d));
                }
            } else {
                assert(ch[args@.len() as int] == opt_expr(filter)[0]);
                assert(expr_diags(ch[args@.len() as int], c).contains(d));
            }
        },
        Expr::Collate { expr, .. } => {
            assert(expr_diags(ch[0], c).contains(d));
        },
        _ => {},
    }
}

/// Stores every key of `src` in `dst`, in order.
pub fn insert_keys(dst: &mut StrMap<()>, src: &StrMap<()>)
    ensures
        final(dst)@ == seq_override(old(dst)@, src@),
{
    let ghost start = dst@;
    let mut i: usize = 0;
    while i < src.len()
        invariant
            i <= src@.len(),
            dst@ == seq_override(start, src@.subrange(0, i as int)),
        decreases src@.len() - i,
    {
        let k = src.key_at(i).clone();
        dst.insert(k, ());
        i = i + 1;
        assert(src@.subrange(0, i as int).drop_last() =~= src@.subrange(0, i - 1));
    }
    assert(src@.subrange(0, src@.len() as int) =~= src@);
}

/// The tables and columns visible to an expression.
pub struct ExprContext<'a> {
    /// Tables in scope: lowercased name or alias -> (original name, table).
    pub available_tables: StrMap<(String, &'a TableInfo)>,
    /// Every lowercased column of every table in scope (with `rowid` where
    /// the table has one).
    pub all_columns: StrMap<()>,
    /// Known argument counts of functions; a negative count means any number.
    pub function_nargs: Option<&'a StrMap<Vec<i32>>>,
    /// Aliases of table-valued functions, whose columns are unknown.
    pub opaque_aliases: StrMap<()>,
}

impl<'a> View for ExprContext<'a> {
    type V = CtxModel;

    open spec fn view(&self) -> CtxModel {
        CtxModel {
            tables: self.available_tables@,
            all_columns: self.all_columns@,
            nargs: match self.function_nargs {
                Some(m) => Some(m@),
                None => None,
            },
            opaque: self.opaque_aliases@,
        }
    }
}

impl<'a> ExprContext<'a> {
    /// A context with no tables and no argument counts.
    pub fn new() -> (r: Self)
        ensures
            r@ == empty_ctx(None),
    {
        ExprContext {
            available_tables: StrMap::new(),
            all_columns: StrMap::new(),
            function_nargs: None,
            opaque_aliases: StrMap::new(),
        }
    }

    /// Registers a table-valued function alias whose columns are unknown.
    pub fn add_table_function_alias(&mut self, alias: &str, _function_name: &str)
        ensures
            final(self)@ == ctx_add_opaque(old(self)@, alias@),
    {
        let key = to_lower(alias);
        self.opaque_aliases.insert(key, ());
    }

    /// Brings a table into scope under `name_or_alias`.
    pub fn add_table(&mut self, name_or_alias: &str, original_name: &str, info: &'a TableInfo)
        ensures
            final(self)@ == ctx_add_table(old(self)@, name_or_alias@, original_name@, info@),
    {
        let key = to_lower(name_or_alias);
        self.available_tables.insert(key, (string_of(original_name), info));
        insert_keys(&mut self.all_columns, &info.columns);
        if !info.without_rowid {
            self.all_columns.insert(string_of("rowid"), ());
        }
    }

    /// Whether a column can be read through the qualifier `table_name`.
    pub fn column_exists_in_table(&self, table_name: &str, column_name: &str) -> (r: bool)
        ensures
            r == ctx_column_in_table(self@, table_name@, column_name@),
    {
        let table_key = to_lower(table_name);
        if self.opaque_aliases.contains_key(table_key.as_str()) {
            return true;
        }
        let col_key = to_lower(column_name);
        match self.available_tables.get(table_key.as_str()) {
            Some(entry) => {
                let info = entry.1;
                info.columns.is_empty() || info.columns.contains_key(col_key.as_str())
                    || (str_eq(col_key.as_str(), "rowid") && !info.without_rowid)
            }
            None => false,
        }
    }

    /// Whether a table or table-function alias is in scope.
    pub fn has_table(&self, table_name: &str) -> (r: bool)
        ensures
            r == ctx_has_table(self@, table_name@),
    {
        let key = to_lower(table_name);
        self.available_tables.contains_key(key.as_str()) || self.opaque_aliases.contains_key(key.as_str())
    }

    /// The original name of a table in scope.
    pub fn get_original_table_name(&self, table_name: &str) -> (r: Option<&String>)
        ensures
            match lookup(self@.tables, spec_lowercase(table_name@)) {
                Some(p) => r matches Some(n) && n@ == p.0,
                None => r is None,
            },
    {
        let key = to_lower(table_name);
        match self.available_tables.get(key.as_str()) {
            Some(entry) => Some(&entry.0),
            None => None,
        }
    }

    /// Whether some table in scope has the column.
    pub fn unqualified_column_exists(&self, column_name: &str) -> (r: bool)
        ensures
            r == has_key(self@.all_columns, spec_lowercase(column_name@)),
    {
        let key = to_lower(column_name);
        self.all_columns.contains_key(key.as_str())
    }

    /// Whether no table is in scope.
    pub fn is_empty(&self) -> (r: bool)
        ensures
            r == (self@.tables.len() == 0),
    {
        self.available_tables.is_empty()
    }
}


/// The text of a list of valid argument counts, for error messages:
/// `0` when empty, the count when single, otherwise `a, b or c`.
pub fn format_nargs(nargs: &[i32]) -> (r: String)
    ensures
        r@ == nargs_text(nargs@),
{
    let n = nargs.len();
    if n == 0 {
        return string_of("0");
    }
    if n == 1 {
        return i64_text(nargs[0] as i64);
    }
    let mut r = i64_text(nargs[0] as i64);
    let mut i: usize = 1;
    assert(nargs@.subrange(0, 1) =~= seq![nargs@[0]]);
    while i < n - 1
        invariant
            n == nargs@.len(),
            n >= 2,
            1 <= i <= n - 1,
            r@ == comma_list(nargs@.subrange(0, i as int)),
        decreases n - i,
    {
        let t = i64_text(nargs[i] as i64);
        push_str(&mut r, ", ");
        push_str(&mut r, t.as_str());
        assert(nargs@.subrange(0, i + 1).drop_last() =~= nargs@.subrange(0, i as int));
        i = i + 1;
    }
    assert(nargs@.drop_last() =~= nargs@.subrange(0, n - 1));
    let t = i64_text(nargs[n - 1] as i64);
    push_str(&mut r, " or ");
    push_str(&mut r, t.as_str());
    r
}

/// Appends an error with the given message and span.
pub fn push_error(diagnostics: &mut Vec<Diagnostic>, message: String, span: &Span)
    ensures
        diag_models(final(diagnostics)@) == diag_models(old(diagnostics)@).push((message@, *span, Severity::Error)),
{
    let d = Diagnostic::error(message, span.copy());
    let ghost before = diagnostics@;
    diagnostics.push(d);
    assert(diag_models(diagnostics@) =~= diag_models(before).push(d@));
}

/// The message for a column that no table in scope has.
fn missing_column_message(ctx: &ExprContext, column: &str) -> (r: String)
    ensures
        r@ == missing_column_msg(ctx@, column@),
{
    if ctx.available_tables.len() == 1 {
        let entry = ctx.available_tables.value_at(0);
        concat5("Column '", column, "' does not exist in table '", entry.0.as_str(), "'")
    } else {
        concat3("Column '", column, "' does not exist in any available table")
    }
}


/// Whether some count is negative.
fn any_negative(v: &Vec<i32>) -> (r: bool)
    ensures
        r == is_variadic(v@),
{
    let mut i: usize = 0;
    while i < v.len()
        invariant
            i <= v.len(),
            forall|j: int| 0 <= j < i ==> v@[j] >= 0,
        decreases v.len() - i,
    {
        if v[i] < 0 {
            return true;
        }
        i = i + 1;
    }
    false
}

/// Whether `n` is one of the counts.
fn contains_count(v: &Vec<i32>, n: i32) -> (r: bool)
    ensures
        r == v@.contains(n),
{
    let mut i: usize = 0;
    while i < v.len()
        invariant
            i <= v.len(),
            forall|j: int| 0 <= j < i ==> v@[j] != n,
        decreases v.len() - i,
    {
        if v[i] == n {
            return true;
        }
        i = i + 1;
    }
    false
}

/// Reports a call whose argument count no signature of the function accepts.
fn check_function_nargs(ctx: &ExprContext, name: &String, args: &Vec<Expr>, span: &Span, diagnostics: &mut Vec<Diagnostic>)
    ensures
        diag_models(final(diagnostics)@) == diag_models(old(diagnostics)@) + nargs_diags(ctx@, name@, args@, *span),
{
    let ghost before = diag_models(diagnostics@);
    match ctx.function_nargs {
        Some(registry) => {
            let key = to_lower(name.as_str());
            match registry.get(key.as_str()) {
                Some(valid) => {
                    if !any_negative(valid) {
                        let n: i32 = if args.len() == 1 && matches!(args[0], Expr::Star(_)) {
                            0
                        } else {
                            args.len() as i32
                        };
                        if !contains_count(valid, n) {
                            let expected = format_nargs(valid.as_slice());
                            let count = i64_text(n as i64);
                            let mut msg = concat3(name.as_str(), "() expects ", expected.as_str());
                            push_str(&mut msg, " arguments, but ");
                            push_str(&mut msg, count.as_str());
                            push_str(&mut msg, " were provided");
                            push_error(diagnostics, msg, span);
                        } else {
                            assert(nargs_diags(ctx@, name@, args@, *span) =~= seq![]);
                        }
                    } else {
                        assert(nargs_diags(ctx@, name@, args@, *span) =~= seq![]);
                    }
                }
                None => {
                    assert(nargs_diags(ctx@, name@, args@, *span) =~= seq![]);
                }
            }
        }
        None => {
            assert(nargs_diags(ctx@, name@, args@, *span) =~= seq![]);
        }
    }
    assert(diag_models(diagnostics@) =~= before + nargs_diags(ctx@, name@, args@, *span));
}

/// Reports an unqualified column that no table in scope has.
fn check_unqualified(ctx: &ExprContext, column: &String, span: &Span, diagnostics: &mut Vec<Diagnostic>)
    ensures
        diag_models(final(diagnostics)@) == diag_models(old(diagnostics)@) + unqualified_diags(ctx@, column@, *span),
{
    let ghost before = diag_models(diagnostics@);
    if !ctx.is_empty() && !ctx.unqualified_column_exists(column.as_str()) {
        let msg = missing_column_message(ctx, column.as_str());
        push_error(diagnostics, msg, span);
    }
    assert(diag_models(diagnostics@) =~= before + unqualified_diags(ctx@, column@, *span));
}

/// Checks an expression against the tables in scope: unknown columns,
/// unknown table qualifiers and wrong argument counts, in the order the
/// expression is walked. Subqueries are left to their own scope.
#[verifier::loop_isolation(false)]
pub fn check_expr_with_context(expr: &Expr, ctx: &ExprContext, diagnostics: &mut Vec<Diagnostic>)
    ensures
        diag_models(final(diagnostics)@) == diag_models(old(diagnostics)@) + expr_diags(*expr, ctx@),
    decreases expr,
{
    let ghost before = diag_models(diagnostics@);
    match expr {
        Expr::Ident(col_name, is_double_quoted, span) => {
            if !*is_double_quoted {
                check_unqualified(ctx, col_name, span, diagnostics);
            } else {
                assert(diag_models(diagnostics@) =~= before + expr_diags(*expr, ctx@));
            }
        }
        Expr::Column { table, column, span, .. } => {
            match table {
                Some(table_name) => {
                    if !ctx.is_empty() {
                        if !ctx.has_table(table_name.as_str()) {
                            let msg = concat3("Table '", table_name.as_str(), "' not found in FROM clause");
                            push_error(diagnostics, msg, span);
                        } else if !ctx.column_exists_in_table(table_name.as_str(), column.as_str()) {
                            let original = match ctx.get_original_table_name(table_name.as_str()) {
                                Some(n) => n.as_str(),
                                None => table_name.as_str(),
                            };
                            let msg = concat5("Column '", column.as_str(), "' does not exist in table '", original, "'");
                            push_error(diagnostics, msg, span);
                        }
                    }
                    assert(diag_models(diagnostics@) =~= before + expr_diags(*expr, ctx@));
                }
                None => {
                    check_unqualified(ctx, column, span, diagnostics);
                }
            }
        }
        Expr::Binary { left, right, .. } => {
            check_expr_with_context(left, ctx, diagnostics);
            check_expr_with_context(right, ctx, diagnostics);
            assert(diag_models(diagnostics@) =~= before + expr_diags(*expr, ctx@));
        }
        Expr::Unary { expr: inner, .. } => {
            check_expr_with_context(inner, ctx, diagnostics);
        }
        Expr::Paren(inner, _) => {
            check_expr_with_context(inner, ctx, diagnostics);
        }
        Expr::Between { expr: inner, low, high, .. } => {
            check_expr_with_context(inner, ctx, diagnostics);
            check_expr_with_context(low, ctx, diagnostics);
            check_expr_with_context(high, ctx, diagnostics);
            assert(diag_models(diagnostics@) =~= before + expr_diags(*expr, ctx@));
        }
        Expr::InList { expr: inner, list, .. } => {
            check_expr_with_context(inner, ctx, diagnostics);
            let ghost mid = diag_models(diagnostics@);
            let mut i: usize = 0;
            while i < list.len()
                invariant
                    i <= list@.len(),
                    diag_models(diagnostics@) == mid + exprs_diags(list@.subrange(0, i as int), ctx@),
                decreases list@.len() - i,
            {
                assert(decreases_to!(*expr => list@[i as int]));
                check_expr_with_context(&list[i], ctx, diagnostics);
                assert(list@.subrange(0, i + 1).drop_last() =~= list@.subrange(0, i as int));
                i = i + 1;
            }
            assert(list@.subrange(0, list@.len() as int) =~= list@);
            assert(diag_models(diagnostics@) =~= before + expr_diags(*expr, ctx@));
        }
        Expr::InSelect { expr: inner, .. } => {
            check_expr_with_context(inner, ctx, diagnostics);
        }
        Expr::Like { expr: inner, pattern, escape, .. } => {
            check_expr_with_context(inner, ctx, diagnostics);
            check_expr_with_context(pattern, ctx, diagnostics);
            match escape {
                Some(esc) => check_expr_with_context(esc, ctx, diagnostics),
                None => {}
            }
            assert(diag_models(diagnostics@) =~= before + expr_diags(*expr, ctx@));
        }
        Expr::IsNull { expr: inner, .. } => {
            check_expr_with_context(inner, ctx, diagnostics);
        }
        Expr::Case { operand, when_clauses, else_clause, .. } => {
            match operand {
                Some(op) => check_expr_with_context(op, ctx, diagnostics),
                None => {}
            }
            let ghost mid = diag_models(diagnostics@);
            let mut i: usize = 0;
            while i < when_clauses.len()
                invariant
                    i <= when_clauses@.len(),
                    diag_models(diagnostics@) == mid + pairs_diags(when_clauses@.subrange(0, i as int), ctx@),
                decreases when_clauses@.len() - i,
            {
                assert(decreases_to!(*expr => when_clauses@[i as int].0));
                assert(decreases_to!(*expr => when_clauses@[i as int].1));
                check_expr_with_context(&when_clauses[i].0, ctx, diagnostics);
                check_expr_with_context(&when_clauses[i].1, ctx, diagnostics);
                assert(when_clauses@.subrange(0, i + 1).drop_last() =~= when_clauses@.subrange(0, i as int));
                i = i + 1;
            }
            assert(when_clauses@.subrange(0, when_clauses@.len() as int) =~= when_clauses@);
            match else_clause {
                Some(e) => check_expr_with_context(e, ctx, diagnostics),
                None => {}
            }
            assert(diag_models(diagnostics@) =~= before + expr_diags(*expr, ctx@));
        }
        Expr::Cast { expr: inner, .. } => {
            check_expr_with_context(inner, ctx, diagnostics);
        }
        Expr::FunctionCall { name, args, filter, span, .. } => {
            check_function_nargs(ctx, name, args, span, diagnostics);
            let ghost mid = diag_models(diagnostics@);
            let mut i: usize = 0;
            while i < args.len()
                invariant
                    i <= args@.len(),
                    diag_models(diagnostics@) == mid + exprs_diags(args@.subrange(0, i as int), ctx@),
                decreases args@.len() - i,
            {
                assert(decreases_to!(*expr => args@[i as int]));
                check_expr_with_context(&args[i], ctx, diagnostics);
                assert(args@.subrange(0, i + 1).drop_last() =~= args@.subrange(0, i as int));
                i = i + 1;
            }
            assert(args@.subrange(0, args@.len() as int) =~= args@);
            match filter {
                Some(f) => check_expr_with_context(f, ctx, diagnostics),
                None => {}
            }
            assert(diag_models(diagnostics@) =~= before + expr_diags(*expr, ctx@));
        }
        Expr::Collate { expr: inner, .. } => {
            check_expr_with_context(inner, ctx, diagnostics);
        }
        _ => {
            assert(diag_models(diagnostics@) =~= before + expr_diags(*expr, ctx@));
        }
    }
}

} // verus!
