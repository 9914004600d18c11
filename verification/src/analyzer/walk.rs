//! A walk over every expression of an expression tree, subqueries and
//! window specifications included, in the order lint rules visit them.

use vstd::prelude::*;
use crate::ast::{
    Expr, FrameBound, FromClause, JoinConstraint, OrderingTerm, ResultColumn, SelectCore, SelectStmt,
    TableOrSubquery, WindowSpec, CommonTableExpr, CompoundOp,
};
use crate::analyzer::lint::derefs;

verus! {

/// The expressions of an expression tree in visiting order: the node
/// itself, then its parts; subqueries are walked as whole SELECTs.
pub open spec fn tree_walk(e: Expr) -> Seq<Expr>
    decreases e,
{
    seq![e] + match e {
        Expr::Unary { expr, .. } => tree_walk(*expr),
        Expr::Paren(inner, _) => tree_walk(*inner),
        Expr::IsNull { expr, .. } => tree_walk(*expr),
        Expr::Cast { expr, .. } => tree_walk(*expr),
        Expr::Collate { expr, .. } => tree_walk(*expr),
        Expr::Binary { left, right, .. } => tree_walk(*left) + tree_walk(*right),
        Expr::Between { expr, low, high, .. } => tree_walk(*expr) + tree_walk(*low) + tree_walk(*high),
        Expr::InList { expr, list, .. } => tree_walk(*expr) + tree_walks(list@),
        Expr::InSelect { expr, query, .. } => tree_walk(*expr) + select_walk(*query),
        Expr::Subquery { query, .. } => select_walk(*query),
        Expr::Exists { query, .. } => select_walk(*query),
        Expr::Like { expr, pattern, escape, .. } => tree_walk(*expr) + tree_walk(*pattern) + match escape {
            Some(x) => tree_walk(*x),
            None => seq![],
        },
        Expr::Case { operand, when_clauses, else_clause, .. } => (match operand {
            Some(o) => tree_walk(*o),
            None => seq![],
        }) + pairs_walk(when_clauses@) + match else_clause {
            Some(x) => tree_walk(*x),
            None => seq![],
        },
        Expr::FunctionCall { args, filter, over, .. } => tree_walks(args@) + (match filter {
            Some(f) => tree_walk(*f),
            None => seq![],
        }) + match over {
            Some(w) => window_walk(w),
            None => seq![],
        },
        Expr::Raise { message, .. } => match message {
            Some(m) => tree_walk(*m),
            None => seq![],
        },
        _ => seq![],
    }
}

/// The walk of a list of expressions.
pub open spec fn tree_walks(es: Seq<Expr>) -> Seq<Expr>
    decreases es,
{
    if es.len() == 0 {
        seq![]
    } else {
        tree_walks(es.drop_last()) + tree_walk(es.last())
    }
}

/// The walk of the WHEN/THEN pairs of a CASE.
pub open spec fn pairs_walk(ps: Seq<(Expr, Expr)>) -> Seq<Expr>
    decreases ps,
{
    if ps.len() == 0 {
        seq![]
    } else {
        pairs_walk(ps.drop_last()) + tree_walk(ps.last().0) + tree_walk(ps.last().1)
    }
}

/// The walk of ORDER BY terms.
pub open spec fn terms_walk(ts: Seq<OrderingTerm>) -> Seq<Expr>
    decreases ts,
{
    if ts.len() == 0 {
        seq![]
    } else {
        terms_walk(ts.drop_last()) + tree_walk(ts.last().expr)
    }
}

/// The walk of a frame bound: its offset expression, if any.
pub open spec fn bound_walk(b: FrameBound) -> Seq<Expr>
    decreases b,
{
    match b {
        FrameBound::Preceding(e) => tree_walk(*e),
        FrameBound::Following(e) => tree_walk(*e),
        _ => seq![],
    }
}

/// The walk of a window specification: PARTITION BY, ORDER BY, then the
/// frame bounds.
pub open spec fn window_walk(w: WindowSpec) -> Seq<Expr>
    decreases w,
{
    (match w.partition_by {
        Some(p) => tree_walks(p@),
        None => seq![],
    }) + (match w.order_by {
        Some(o) => terms_walk(o@),
        None => seq![],
    }) + match w.frame {
        Some(f) => bound_walk(f.start) + match f.end {
            Some(b) => bound_walk(b),
            None => seq![],
        },
        None => seq![],
    }
}

/// The walk of the expression columns of a result list.
pub open spec fn cols_walk(cols: Seq<ResultColumn>) -> Seq<Expr>
    decreases cols,
{
    if cols.len() == 0 {
        seq![]
    } else {
        cols_walk(cols.drop_last()) + match cols.last() {
            ResultColumn::Expr { expr, .. } => tree_walk(expr),
            _ => seq![],
        }
    }
}

/// The walk of a FROM item: subqueries and ON conditions.
pub open spec fn table_walk(t: TableOrSubquery) -> Seq<Expr>
    decreases t,
{
    match t {
        TableOrSubquery::Subquery { query, .. } => select_walk(*query),
        TableOrSubquery::TableList { tables, .. } => tables_walk(tables@),
        TableOrSubquery::Join { left, right, constraint, .. } => table_walk(*left) + table_walk(*right)
            + match constraint {
            Some(JoinConstraint::On(e)) => tree_walk(e),
            _ => seq![],
        },
        _ => seq![],
    }
}

/// The walk of a list of FROM items.
pub open spec fn tables_walk(ts: Seq<TableOrSubquery>) -> Seq<Expr>
    decreases ts,
{
    if ts.len() == 0 {
        seq![]
    } else {
        tables_walk(ts.drop_last()) + table_walk(ts.last())
    }
}

/// The walk of the CTEs of a WITH clause.
pub open spec fn ctes_walk(cs: Seq<CommonTableExpr>) -> Seq<Expr>
    decreases cs,
{
    if cs.len() == 0 {
        seq![]
    } else {
        ctes_walk(cs.drop_last()) + select_walk(*cs.last().select)
    }
}

/// The walk of a compound part: result columns, FROM, WHERE, GROUP BY, HAVING.
pub open spec fn core_walk(c: SelectCore) -> Seq<Expr>
    decreases c,
{
    cols_walk(c.columns@) + from_walk(c.from) + opt_walk(c.where_clause) + list_walk(c.group_by) + opt_walk(c.having)
}

/// The walk of the compound parts, in order.
pub open spec fn cores_walk(cs: Seq<(CompoundOp, SelectCore)>) -> Seq<Expr>
    decreases cs,
{
    if cs.len() == 0 {
        seq![]
    } else {
        cores_walk(cs.drop_last()) + core_walk(cs.last().1)
    }
}

/// The walk of an optional WITH clause.
pub open spec fn with_walk(w: Option<crate::ast::WithClause>) -> Seq<Expr>
    decreases w,
{
    match w {
        Some(w) => ctes_walk(w.ctes@),
        None => seq![],
    }
}

/// The walk of an optional FROM clause.
pub open spec fn from_walk(f: Option<FromClause>) -> Seq<Expr>
    decreases f,
{
    match f {
        Some(f) => tables_walk(f.tables@),
        None => seq![],
    }
}

/// The walk of an optional list of expressions.
pub open spec fn list_walk(g: Option<Vec<Expr>>) -> Seq<Expr>
    decreases g,
{
    match g {
        Some(g) => tree_walks(g@),
        None => seq![],
    }
}

/// The walk of an optional ORDER BY.
pub open spec fn order_walk(o: Option<Vec<OrderingTerm>>) -> Seq<Expr>
    decreases o,
{
    match o {
        Some(o) => terms_walk(o@),
        None => seq![],
    }
}

/// The walk of an optional LIMIT clause: the limit, then the offset.
pub open spec fn limit_walk(l: Option<crate::ast::LimitClause>) -> Seq<Expr>
    decreases l,
{
    match l {
        Some(l) => tree_walk(l.limit) + opt_walk(l.offset),
        None => seq![],
    }
}

/// The walk of a SELECT: its CTEs, result columns, FROM, WHERE, GROUP BY,
/// HAVING, compound parts, ORDER BY and LIMIT, in that order.
pub open spec fn select_walk(s: SelectStmt) -> Seq<Expr>
    decreases s,
{
    with_walk(s.with_clause) + cols_walk(s.columns@) + from_walk(s.from) + opt_walk(s.where_clause)
        + list_walk(s.group_by) + opt_walk(s.having) + cores_walk(s.compounds@) + order_walk(s.order_by)
        + limit_walk(s.limit)
}

/// The walk of an optional expression.
pub open spec fn opt_walk(e: Option<Expr>) -> Seq<Expr>
    decreases e,
{
    match e {
        Some(x) => tree_walk(x),
        None => seq![],
    }
}


/// The expressions of an expression tree (subqueries and window
/// specifications included), in the order lint rules visit them.
pub fn walk_expr<'a>(expr: &'a Expr) -> (r: Vec<&'a Expr>)
    ensures
        derefs(r@) == tree_walk(*expr),
{
    let mut out: Vec<&'a Expr> = Vec::new();
    assert(derefs(out@) =~= Seq::<Expr>::empty());
    walk_expr_recursive(expr, &mut out);
    assert(derefs(out@) =~= tree_walk(*expr));
    out
}

/// Appends the walk of an expression tree.
#[verifier::loop_isolation(false)]
pub fn walk_expr_recursive<'a>(expr: &'a Expr, out: &mut Vec<&'a Expr>)
    ensures
        derefs(final(out)@) == derefs(old(out)@) + tree_walk(*expr),
    decreases expr,
{
    let ghost before = derefs(out@);
    out.push(expr);
    assert(derefs(out@) =~= before + seq![*expr]);
    match expr {
        Expr::Unary { expr: child, .. } => walk_expr_recursive(child, out),
        Expr::Paren(child, _) => walk_expr_recursive(child, out),
        Expr::IsNull { expr: child, .. } => walk_expr_recursive(child, out),
        Expr::Cast { expr: child, .. } => walk_expr_recursive(child, out),
        Expr::Collate { expr: child, .. } => walk_expr_recursive(child, out),
        Expr::Binary { left, right, .. } => {
            walk_expr_recursive(left, out);
            walk_expr_recursive(right, out);
        }
        Expr::Between { expr: e, low, high, .. } => {
            walk_expr_recursive(e, out);
            walk_expr_recursive(low, out);
            walk_expr_recursive(high, out);
        }
        Expr::InList { expr: e, list, .. } => {
            walk_expr_recursive(e, out);
            walk_expr_list(list, out);
        }
        Expr::InSelect { expr: e, query, .. } => {
            walk_expr_recursive(e, out);
            walk_select_stmt(query, out);
        }
        Expr::Subquery { query, .. } => walk_select_stmt(query, out),
        Expr::Exists { query, .. } => walk_select_stmt(query, out),
        Expr::Like { expr: e, pattern, escape, .. } => {
            walk_expr_recursive(e, out);
            walk_expr_recursive(pattern, out);
            match escape {
                Some(esc) => walk_expr_recursive(esc, out),
                None => {}
            }
        }
        Expr::Case { operand, when_clauses, else_clause, .. } => {
            match operand {
                Some(op) => walk_expr_recursive(op, out),
                None => {}
            }
            let ghost mid = derefs(out@);
            let mut i: usize = 0;
            while i < when_clauses.len()
                invariant
                    i <= when_clauses@.len(),
                    derefs(out@) == mid + pairs_walk(when_clauses@.subrange(0, i as int)),
                decreases when_clauses@.len() - i,
            {
                assert(decreases_to!(*expr => when_clauses@[i as int].0));
                assert(decreases_to!(*expr => when_clauses@[i as int].1));
                walk_expr_recursive(&when_clauses[i].0, out);
                walk_expr_recursive(&when_clauses[i].1, out);
                assert(when_clauses@.subrange(0, i + 1).drop_last() =~= when_clauses@.subrange(0, i as int));
                i = i + 1;
            }
            assert(when_clauses@.subrange(0, when_clauses@.len() as int) =~= when_clauses@);
            match else_clause {
                Some(e) => walk_expr_recursive(e, out),
                None => {}
            }
        }
        Expr::FunctionCall { args, filter, over, .. } => {
            walk_expr_list(args, out);
            match filter {
                Some(f) => walk_expr_recursive(f, out),
                None => {}
            }
            match over {
                Some(window) => walk_window(window, out),
                None => {}
            }
        }
        Expr::Raise { message, .. } => {
            match message {
                Some(m) => walk_expr_recursive(m, out),
                None => {}
            }
        }
        _ => {}
    }
    assert(derefs(out@) =~= before + tree_walk(*expr));
}

/// Appends the walk of a list of expressions.
#[verifier::loop_isolation(false)]
fn walk_expr_list<'a>(es: &'a Vec<Expr>, out: &mut Vec<&'a Expr>)
    ensures
        derefs(final(out)@) == derefs(old(out)@) + tree_walks(es@),
    decreases es@,
{
    let ghost start = derefs(out@);
    let mut i: usize = 0;
    while i < es.len()
        invariant
            i <= es@.len(),
            derefs(out@) == start + tree_walks(es@.subrange(0, i as int)),
        decreases es@.len() - i,
    {
        assert(decreases_to!(es@ => es@[i as int]));
        walk_expr_recursive(&es[i], out);
        assert(es@.subrange(0, i + 1).drop_last() =~= es@.subrange(0, i as int));
        i = i + 1;
    }
    assert(es@.subrange(0, es@.len() as int) =~= es@);
}

/// Appends the walk of ORDER BY terms.
#[verifier::loop_isolation(false)]
fn walk_terms<'a>(ts: &'a Vec<OrderingTerm>, out: &mut Vec<&'a Expr>)
    ensures
        derefs(final(out)@) == derefs(old(out)@) + terms_walk(ts@),
    decreases ts@,
{
    let ghost start = derefs(out@);
    let mut i: usize = 0;
    while i < ts.len()
        invariant
            i <= ts@.len(),
            derefs(out@) == start + terms_walk(ts@.subrange(0, i as int)),
        decreases ts@.len() - i,
    {
        assert(decreases_to!(ts@ => ts@[i as int].expr));
        walk_expr_recursive(&ts[i].expr, out);
        assert(ts@.subrange(0, i + 1).drop_last() =~= ts@.subrange(0, i as int));
        i = i + 1;
    }
    assert(ts@.subrange(0, ts@.len() as int) =~= ts@);
}

/// Appends the walk of a frame bound.
fn walk_bound<'a>(b: &'a FrameBound, out: &mut Vec<&'a Expr>)
    ensures
        derefs(final(out)@) == derefs(old(out)@) + bound_walk(*b),
    decreases b,
{
    match b {
        FrameBound::Preceding(e) => walk_expr_recursive(e, out),
        FrameBound::Following(e) => walk_expr_recursive(e, out),
        _ => {
            assert(derefs(out@) =~= derefs(out@) + bound_walk(*b));
        }
    }
}

/// Appends the walk of a window specification.
fn walk_window<'a>(w: &'a WindowSpec, out: &mut Vec<&'a Expr>)
    ensures
        derefs(final(out)@) == derefs(old(out)@) + window_walk(*w),
    decreases w,
{
    let ghost start = derefs(out@);
    match &w.partition_by {
        Some(p) => walk_expr_list(p, out),
        None => {}
    }
    match &w.order_by {
        Some(o) => walk_terms(o, out),
        None => {}
    }
    match &w.frame {
        Some(frame) => {
            walk_bound(&frame.start, out);
            match &frame.end {
                Some(end) => walk_bound(end, out),
                None => {}
            }
        }
        None => {}
    }
    assert(derefs(out@) =~= start + window_walk(*w));
}

/// Appends the walk of the expression columns of a result list.
#[verifier::loop_isolation(false)]
fn walk_result_columns<'a>(cols: &'a Vec<ResultColumn>, out: &mut Vec<&'a Expr>)
    ensures
        derefs(final(out)@) == derefs(old(out)@) + cols_walk(cols@),
    decreases cols@,
{
    let ghost start = derefs(out@);
    let mut i: usize = 0;
    while i < cols.len()
        invariant
            i <= cols@.len(),
            derefs(out@) == start + cols_walk(cols@.subrange(0, i as int)),
        decreases cols@.len() - i,
    {
        match &cols[i] {
            ResultColumn::Expr { expr, .. } => {
                assert(decreases_to!(cols@ => cols@[i as int]));
                walk_expr_recursive(expr, out);
            }
            _ => {}
        }
        proof {
            let sub = cols@.subrange(0, i + 1);
            assert(sub.drop_last() =~= cols@.subrange(0, i as int));
            assert(sub.last() == cols@[i as int]);
        }
        assert(derefs(out@) =~= start + cols_walk(cols@.subrange(0, i + 1)));
        i = i + 1;
    }
    assert(cols@.subrange(0, cols@.len() as int) =~= cols@);
}

/// Appends the walk of a FROM item.
#[verifier::loop_isolation(false)]
pub fn walk_table_or_subquery<'a>(table: &'a TableOrSubquery, out: &mut Vec<&'a Expr>)
    ensures
        derefs(final(out)@) == derefs(old(out)@) + table_walk(*table),
    decreases table,
{
    let ghost start = derefs(out@);
    match table {
        TableOrSubquery::Subquery { query, .. } => walk_select_stmt(query, out),
        TableOrSubquery::TableList { tables, .. } => {
            let mut i: usize = 0;
            while i < tables.len()
                invariant
                    i <= tables@.len(),
                    derefs(out@) == start + tables_walk(tables@.subrange(0, i as int)),
                decreases tables@.len() - i,
            {
                assert(decreases_to!(*table => tables@[i as int]));
                walk_table_or_subquery(&tables[i], out);
                assert(tables@.subrange(0, i + 1).drop_last() =~= tables@.subrange(0, i as int));
                i = i + 1;
            }
            assert(tables@.subrange(0, tables@.len() as int) =~= tables@);
        }
        TableOrSubquery::Join { left, right, constraint, .. } => {
            walk_table_or_subquery(left, out);
            walk_table_or_subquery(right, out);
            match constraint {
                Some(JoinConstraint::On(e)) => walk_expr_recursive(e, out),
                _ => {}
            }
        }
        _ => {}
    }
    assert(derefs(out@) =~= start + table_walk(*table));
}

/// Appends the walk of a FROM clause.
#[verifier::loop_isolation(false)]
pub fn walk_from_clause<'a>(from: &'a FromClause, out: &mut Vec<&'a Expr>)
    ensures
        derefs(final(out)@) == derefs(old(out)@) + tables_walk(from.tables@),
    decreases from,
{
    let ghost start = derefs(out@);
    let mut i: usize = 0;
    while i < from.tables.len()
        invariant
            i <= from.tables@.len(),
            derefs(out@) == start + tables_walk(from.tables@.subrange(0, i as int)),
        decreases from.tables@.len() - i,
    {
        assert(decreases_to!(*from => from.tables@[i as int]));
        walk_table_or_subquery(&from.tables[i], out);
        assert(from.tables@.subrange(0, i + 1).drop_last() =~= from.tables@.subrange(0, i as int));
        i = i + 1;
    }
    assert(from.tables@.subrange(0, from.tables@.len() as int) =~= from.tables@);
}

/// Appends the walk of a compound part.
#[verifier::spinoff_prover]
pub fn walk_select_core<'a>(core: &'a SelectCore, out: &mut Vec<&'a Expr>)
    ensures
        derefs(final(out)@) == derefs(old(out)@) + core_walk(*core),
    decreases core,
{
    let ghost start = derefs(out@);
    walk_result_columns(&core.columns, out);
    walk_opt_from(&core.from, out);
    walk_opt_expr(&core.where_clause, out);
    walk_opt_list(&core.group_by, out);
    walk_opt_expr(&core.having, out);
    assert(derefs(out@) =~= start + core_walk(*core));
}

/// Appends the walk of the CTEs of a WITH clause.
#[verifier::loop_isolation(false)]
fn walk_ctes<'a>(ctes: &'a Vec<CommonTableExpr>, out: &mut Vec<&'a Expr>)
    ensures
        derefs(final(out)@) == derefs(old(out)@) + ctes_walk(ctes@),
    decreases ctes@,
{
    let ghost start = derefs(out@);
    let mut i: usize = 0;
    while i < ctes.len()
        invariant
            i <= ctes@.len(),
            derefs(out@) == start + ctes_walk(ctes@.subrange(0, i as int)),
        decreases ctes@.len() - i,
    {
        assert(decreases_to!(ctes@ => *ctes@[i as int].select));
        walk_select_stmt(&ctes[i].select, out);
        assert(ctes@.subrange(0, i + 1).drop_last() =~= ctes@.subrange(0, i as int));
        i = i + 1;
    }
    assert(ctes@.subrange(0, ctes@.len() as int) =~= ctes@);
}

/// Appends the walk of the compound parts.
#[verifier::loop_isolation(false)]
fn walk_cores<'a>(cs: &'a Vec<(CompoundOp, SelectCore)>, out: &mut Vec<&'a Expr>)
    ensures
        derefs(final(out)@) == derefs(old(out)@) + cores_walk(cs@),
    decreases cs@,
{
    let ghost start = derefs(out@);
    let mut i: usize = 0;
    while i < cs.len()
        invariant
            i <= cs@.len(),
            derefs(out@) == start + cores_walk(cs@.subrange(0, i as int)),
        decreases cs@.len() - i,
    {
        assert(decreases_to!(cs@ => cs@[i as int].1));
        walk_select_core(&cs[i].1, out);
        assert(cs@.subrange(0, i + 1).drop_last() =~= cs@.subrange(0, i as int));
        i = i + 1;
    }
    assert(cs@.subrange(0, cs@.len() as int) =~= cs@);
}

/// Appends the walk of an optional WITH clause.
fn walk_opt_with<'a>(w: &'a Option<crate::ast::WithClause>, out: &mut Vec<&'a Expr>)
    ensures
        derefs(final(out)@) == derefs(old(out)@) + with_walk(*w),
    decreases *w,
{
    match w {
        Some(with) => walk_ctes(&with.ctes, out),
        None => {
            assert(derefs(out@) =~= derefs(out@) + Seq::<Expr>::empty());
        }
    }
}

/// Appends the walk of an optional FROM clause.
fn walk_opt_from<'a>(f: &'a Option<FromClause>, out: &mut Vec<&'a Expr>)
    ensures
        derefs(final(out)@) == derefs(old(out)@) + from_walk(*f),
    decreases *f,
{
    match f {
        Some(from) => walk_from_clause(from, out),
        None => {
            assert(derefs(out@) =~= derefs(out@) + Seq::<Expr>::empty());
        }
    }
}

/// Appends the walk of an optional list of expressions.
fn walk_opt_list<'a>(g: &'a Option<Vec<Expr>>, out: &mut Vec<&'a Expr>)
    ensures
        derefs(final(out)@) == derefs(old(out)@) + list_walk(*g),
    decreases *g,
{
    match g {
        Some(es) => walk_expr_list(es, out),
        None => {
            assert(derefs(out@) =~= derefs(out@) + Seq::<Expr>::empty());
        }
    }
}

/// Appends the walk of an optional ORDER BY.
fn walk_opt_terms<'a>(o: &'a Option<Vec<OrderingTerm>>, out: &mut Vec<&'a Expr>)
    ensures
        derefs(final(out)@) == derefs(old(out)@) + order_walk(*o),
    decreases *o,
{
    match o {
        Some(ts) => walk_terms(ts, out),
        None => {
            assert(derefs(out@) =~= derefs(out@) + Seq::<Expr>::empty());
        }
    }
}

/// Appends the walk of an optional LIMIT clause.
fn walk_opt_limit<'a>(l: &'a Option<crate::ast::LimitClause>, out: &mut Vec<&'a Expr>)
    ensures
        derefs(final(out)@) == derefs(old(out)@) + limit_walk(*l),
    decreases *l,
{
    match l {
        Some(limit) => {
            let ghost start = derefs(out@);
            walk_expr_recursive(&limit.limit, out);
            walk_opt_expr(&limit.offset, out);
            assert(derefs(out@) =~= start + tree_walk(limit.limit) + opt_walk(limit.offset));
        }
        None => {
            assert(derefs(out@) =~= derefs(out@) + Seq::<Expr>::empty());
        }
    }
}

/// Appends the walk of a SELECT.
#[verifier::spinoff_prover]
pub fn walk_select_stmt<'a>(stmt: &'a SelectStmt, out: &mut Vec<&'a Expr>)
    ensures
        derefs(final(out)@) == derefs(old(out)@) + select_walk(*stmt),
    decreases stmt,
{
    let ghost s0 = derefs(out@);
    walk_opt_with(&stmt.with_clause, out);
    let ghost a1 = with_walk(stmt.with_clause);
    walk_result_columns(&stmt.columns, out);
    let ghost a2 = a1 + cols_walk(stmt.columns@);
    assert(derefs(out@) =~= s0 + a2);
    walk_opt_from(&stmt.from, out);
    let ghost a3 = a2 + from_walk(stmt.from);
    assert(derefs(out@) =~= s0 + a3);
    walk_opt_expr(&stmt.where_clause, out);
    let ghost a4 = a3 + opt_walk(stmt.where_clause);
    assert(derefs(out@) =~= s0 + a4);
    walk_opt_list(&stmt.group_by, out);
    let ghost a5 = a4 + list_walk(stmt.group_by);
    assert(derefs(out@) =~= s0 + a5);
    walk_opt_expr(&stmt.having, out);
    let ghost a6 = a5 + opt_walk(stmt.having);
    assert(derefs(out@) =~= s0 + a6);
    walk_cores(&stmt.compounds, out);
    let ghost a7 = a6 + cores_walk(stmt.compounds@);
    assert(derefs(out@) =~= s0 + a7);
    walk_opt_terms(&stmt.order_by, out);
    let ghost a8 = a7 + order_walk(stmt.order_by);
    assert(derefs(out@) =~= s0 + a8);
    walk_opt_limit(&stmt.limit, out);
    let ghost a9 = a8 + limit_walk(stmt.limit);
    assert(derefs(out@) =~= s0 + a9);
    assert(a9 == select_walk(*stmt));
}

/// Appends the walk of an optional expression.
fn walk_opt_expr<'a>(e: &'a Option<Expr>, out: &mut Vec<&'a Expr>)
    ensures
        derefs(final(out)@) == derefs(old(out)@) + opt_walk(*e),
    decreases *e,
{
    match e {
        Some(x) => walk_expr_recursive(x, out),
        None => {
            assert(derefs(out@) =~= derefs(out@) + opt_walk(*e));
        }
    }
}

} // verus!
