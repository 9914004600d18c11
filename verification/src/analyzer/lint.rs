//! Running the lint rules over a program: which expressions are visited,
//! how suppressions and configured severities apply, and which fixes are
//! offered.

use vstd::prelude::*;
use vstd::string::StringSliceAdditionalSpecFns;
use crate::ast::{Expr, Program, ResultColumn, Statement};
use crate::strmap::lookup;
use crate::analyzer::schema::Schema;
use crate::analyzer::suppressions::{Suppressions, suppressions_of};
use crate::analyzer::rules::{LintRule, LintConfig, LintContext, LintDiagnostic, LintDiagModel, LintResult, RuleSeverity, EmptyBlobLiteral, DoubleQuotedString, MissingAsAlias, lint_models, missing_as_cols, missing_as_table, missing_as_tables, missing_as_severity};

verus! {

// ---------------------------------------------------------------------
// The expressions the lint visits
// ---------------------------------------------------------------------

/// The expressions visited in an expression, the expression first, then
/// its parts in order (subqueries are not entered).
pub open spec fn lint_walk(e: Expr) -> Seq<Expr>
    decreases e,
{
    seq![e] + match e {
        Expr::Binary { left, right, .. } => lint_walk(*left) + lint_walk(*right),
        Expr::Unary { expr, .. } => lint_walk(*expr),
        Expr::Paren(inner, _) => lint_walk(*inner),
        Expr::Between { expr, low, high, .. } => lint_walk(*expr) + lint_walk(*low) + lint_walk(*high),
        Expr::InList { expr, list, .. } => lint_walk(*expr) + lint_walks(list@),
        Expr::InSelect { expr, .. } => lint_walk(*expr),
        Expr::Like { expr, pattern, escape, .. } => lint_walk(*expr) + lint_walk(*pattern) + match escape {
            Some(x) => lint_walk(*x),
            None => seq![],
        },
        Expr::IsNull { expr, .. } => lint_walk(*expr),
        Expr::Case { operand, when_clauses, else_clause, .. } => (match operand {
            Some(o) => lint_walk(*o),
            None => seq![],
        }) + lint_walk_pairs(when_clauses@) + match else_clause {
            Some(x) => lint_walk(*x),
            None => seq![],
        },
        Expr::Cast { expr, .. } => lint_walk(*expr),
        Expr::FunctionCall { args, filter, .. } => lint_walks(args@) + match filter {
            Some(f) => lint_walk(*f),
            None => seq![],
        },
        Expr::Collate { expr, .. } => lint_walk(*expr),
        _ => seq![],
    }
}

/// The expressions visited in a list of expressions, in order.
pub open spec fn lint_walks(es: Seq<Expr>) -> Seq<Expr>
    decreases es,
{
    if es.len() == 0 {
        seq![]
    } else {
        lint_walks(es.drop_last()) + lint_walk(es.last())
    }
}

/// The expressions visited in the WHEN/THEN pairs of a CASE, in order.
pub open spec fn lint_walk_pairs(ps: Seq<(Expr, Expr)>) -> Seq<Expr>
    decreases ps,
{
    if ps.len() == 0 {
        seq![]
    } else {
        lint_walk_pairs(ps.drop_last()) + lint_walk(ps.last().0) + lint_walk(ps.last().1)
    }
}

/// The expressions visited in the result columns of a SELECT.
pub open spec fn lint_walk_cols(cols: Seq<ResultColumn>) -> Seq<Expr>
    decreases cols.len(),
{
    if cols.len() == 0 {
        seq![]
    } else {
        lint_walk_cols(cols.drop_last()) + match cols.last() {
            ResultColumn::Expr { expr, .. } => lint_walk(expr),
            _ => seq![],
        }
    }
}

/// The expressions visited in a statement: for a SELECT, its result
/// columns, WHERE, GROUP BY and HAVING; nothing for other statements.
pub open spec fn stmt_walk(s: Statement) -> Seq<Expr> {
    match s {
        Statement::Select(sel) => lint_walk_cols(sel.columns@) + (match sel.where_clause {
            Some(w) => lint_walk(w),
            None => seq![],
        }) + (match sel.group_by {
            Some(g) => lint_walks(g@),
            None => seq![],
        }) + match sel.having {
            Some(h) => lint_walk(h),
            None => seq![],
        },
        _ => seq![],
    }
}

/// The expressions a list of references points to.
pub open spec fn derefs(v: Seq<&Expr>) -> Seq<Expr> {
    v.map_values(|r: &Expr| *r)
}

/// Collects the expressions visited in an expression.
#[verifier::loop_isolation(false)]
pub fn walk_expr<'a>(expr: &'a Expr, out: &mut Vec<&'a Expr>)
    ensures
        derefs(final(out)@) == derefs(old(out)@) + lint_walk(*expr),
    decreases expr,
{
    let ghost before = derefs(out@);
    out.push(expr);
    assert(derefs(out@) =~= before + seq![*expr]);
    let ghost head = derefs(out@);
    match expr {
        Expr::Binary { left, right, .. } => {
            walk_expr(left, out);
            walk_expr(right, out);
        }
        Expr::Unary { expr: inner, .. } => walk_expr(inner, out),
        Expr::Paren(inner, _) => walk_expr(inner, out),
        Expr::Between { expr: e, low, high, .. } => {
            walk_expr(e, out);
            walk_expr(low, out);
            walk_expr(high, out);
        }
        Expr::InList { expr: e, list, .. } => {
            walk_expr(e, out);
            let ghost mid = derefs(out@);
            let mut i: usize = 0;
            while i < list.len()
                invariant
                    i <= list@.len(),
                    derefs(out@) == mid + lint_walks(list@.subrange(0, i as int)),
                decreases list@.len() - i,
            {
                assert(decreases_to!(*expr => list@[i as int]));
                walk_expr(&list[i], out);
                assert(list@.subrange(0, i + 1).drop_last() =~= list@.subrange(0, i as int));
                i = i + 1;
            }
            assert(list@.subrange(0, list@.len() as int) =~= list@);
        }
        Expr::InSelect { expr: e, .. } => walk_expr(e, out),
        Expr::Like { expr: e, pattern, escape, .. } => {
            walk_expr(e, out);
            walk_expr(pattern, out);
            match escape {
                Some(x) => walk_expr(x, out),
                None => {}
            }
        }
        Expr::IsNull { expr: e, .. } => walk_expr(e, out),
        Expr::Case { operand, when_clauses, else_clause, .. } => {
            match operand {
                Some(o) => walk_expr(o, out),
                None => {}
            }
            let ghost mid = derefs(out@);
            let mut i: usize = 0;
            while i < when_clauses.len()
                invariant
                    i <= when_clauses@.len(),
                    derefs(out@) == mid + lint_walk_pairs(when_clauses@.subrange(0, i as int)),
                decreases when_clauses@.len() - i,
            {
                assert(decreases_to!(*expr => when_clauses@[i as int].0));
                assert(decreases_to!(*expr => when_clauses@[i as int].1));
                walk_expr(&when_clauses[i].0, out);
                walk_expr(&when_clauses[i].1, out);
                assert(when_clauses@.subrange(0, i + 1).drop_last() =~= when_clauses@.subrange(0, i as int));
                i = i + 1;
            }
            assert(when_clauses@.subrange(0, when_clauses@.len() as int) =~= when_clauses@);
            match else_clause {
                Some(x) => walk_expr(x, out),
                None => {}
            }
        }
        Expr::Cast { expr: e, .. } => walk_expr(e, out),
        Expr::FunctionCall { args, filter, .. } => {
            let ghost mid = derefs(out@);
            let mut i: usize = 0;
            while i < args.len()
                invariant
                    i <= args@.len(),
                    derefs(out@) == mid + lint_walks(args@.subrange(0, i as int)),
                decreases args@.len() - i,
            {
                assert(decreases_to!(*expr => args@[i as int]));
                walk_expr(&args[i], out);
                assert(args@.subrange(0, i + 1).drop_last() =~= args@.subrange(0, i as int));
                i = i + 1;
            }
            assert(args@.subrange(0, args@.len() as int) =~= args@);
            match filter {
                Some(f) => walk_expr(f, out),
                None => {}
            }
        }
        Expr::Collate { expr: e, .. } => walk_expr(e, out),
        _ => {}
    }
    assert(derefs(out@) =~= before + lint_walk(*expr));
}

/// Collects the expressions visited in a list of expressions.
fn walk_exprs<'a>(es: &'a Vec<Expr>, out: &mut Vec<&'a Expr>)
    ensures
        derefs(final(out)@) == derefs(old(out)@) + lint_walks(es@),
{
    let ghost start = derefs(out@);
    let mut i: usize = 0;
    while i < es.len()
        invariant
            i <= es@.len(),
            derefs(out@) == start + lint_walks(es@.subrange(0, i as int)),
        decreases es@.len() - i,
    {
        walk_expr(&es[i], out);
        assert(es@.subrange(0, i + 1).drop_last() =~= es@.subrange(0, i as int));
        i = i + 1;
    }
    assert(es@.subrange(0, es@.len() as int) =~= es@);
}

/// The expressions visited in a statement, in order.
pub fn walk_statement_exprs<'a>(stmt: &'a Statement) -> (r: Vec<&'a Expr>)
    ensures
        derefs(r@) == stmt_walk(*stmt),
{
    let mut out: Vec<&'a Expr> = Vec::new();
    assert(derefs(out@) =~= Seq::<Expr>::empty());
    match stmt {
        Statement::Select(select) => {
            let cols = &select.columns;
            let mut i: usize = 0;
            while i < cols.len()
                invariant
                    i <= cols@.len(),
                    derefs(out@) == lint_walk_cols(cols@.subrange(0, i as int)),
                decreases cols@.len() - i,
            {
                let ghost before = derefs(out@);
                match &cols[i] {
                    ResultColumn::Expr { expr, .. } => walk_expr(expr, &mut out),
                    _ => {}
                }
                proof {
                    let sub = cols@.subrange(0, i + 1);
                    assert(sub.drop_last() =~= cols@.subrange(0, i as int));
                    assert(sub.last() == cols@[i as int]);
                }
                assert(derefs(out@) =~= lint_walk_cols(cols@.subrange(0, i + 1)));
                i = i + 1;
            }
            assert(cols@.subrange(0, cols@.len() as int) =~= cols@);
            let ghost after_cols = derefs(out@);
            match &select.where_clause {
                Some(w) => walk_expr(w, &mut out),
                None => {}
            }
            let ghost after_where = derefs(out@);
            match &select.group_by {
                Some(g) => walk_exprs(g, &mut out),
                None => {}
            }
            let ghost after_group = derefs(out@);
            match &select.having {
                Some(h) => walk_expr(h, &mut out),
                None => {}
            }
            assert(derefs(out@) =~= stmt_walk(*stmt));
        }
        _ => {}
    }
    out
}


// ---------------------------------------------------------------------
// Applying the rules
// ---------------------------------------------------------------------

/// The number of newline bytes among the first `n` bytes.
pub open spec fn byte_newlines(b: Seq<u8>, n: int) -> nat
    decreases n,
{
    if n <= 0 || b.len() == 0 {
        0
    } else if n > b.len() {
        byte_newlines(b, b.len() as int)
    } else {
        byte_newlines(b, n - 1) + if b[n - 1] == 10u8 { 1nat } else { 0nat }
    }
}

/// The 1-based line of a byte offset.
pub open spec fn byte_line(b: Seq<u8>, off: int) -> int {
    1 + byte_newlines(b, off) as int
}

/// What the lint of a source works with: the source, its bytes, its
/// suppressions and the configured severities.
pub struct LintEnv {
    pub source: Seq<char>,
    pub bytes: Seq<u8>,
    pub sup: Seq<(int, Seq<char>)>,
    pub config: Seq<(Seq<char>, RuleSeverity)>,
}

/// The lint environment of a source under a configuration.
pub open spec fn lint_env(source: Seq<char>, config: Seq<(Seq<char>, RuleSeverity)>) -> LintEnv {
    LintEnv { source, bytes: vstd::utf8::encode_utf8(source), sup: suppressions_of(source), config }
}

/// The severity a rule runs with: its configured override, or its default.
pub open spec fn rule_severity<R: LintRule>(rule: R, config: Seq<(Seq<char>, RuleSeverity)>) -> RuleSeverity {
    match lookup(config, rule.spec_id()) {
        Some(s) => s,
        None => rule.spec_default_severity(),
    }
}

/// Whether a diagnostic of a rule is suppressed on its line.
pub open spec fn is_suppressed_at<R: LintRule>(rule: R, d: LintDiagModel, env: LintEnv) -> bool {
    env.sup.contains((byte_line(env.bytes, d.2.start as int), rule.spec_id()))
}

/// The results a rule's diagnostics give: each one not suppressed on its
/// line, at the rule's severity, with the rule's fix.
pub open spec fn kept<R: LintRule>(rule: R, ds: Seq<LintDiagModel>, sev: RuleSeverity, env: LintEnv)
    -> Seq<(LintDiagModel, Option<(crate::ast::Span, Seq<char>)>)>
    decreases ds.len(),
{
    if ds.len() == 0 {
        seq![]
    } else {
        let d = ds.last();
        kept(rule, ds.drop_last(), sev, env) + if is_suppressed_at(rule, d, env) {
            seq![]
        } else {
            let d2 = (d.0, d.1, d.2, sev);
            seq![(d2, rule.spec_fix(d2, env.source))]
        }
    }
}

/// Whether the rule's fix can be computed for each diagnostic it keeps.
pub open spec fn kept_fix_ok<R: LintRule>(rule: R, ds: Seq<LintDiagModel>, sev: RuleSeverity, env: LintEnv) -> bool
    decreases ds.len(),
{
    if ds.len() == 0 {
        true
    } else {
        let d = ds.last();
        &&& kept_fix_ok(rule, ds.drop_last(), sev, env)
        &&& (is_suppressed_at(rule, d, env) || rule.spec_fix_ok((d.0, d.1, d.2, sev), env.source))
    }
}

/// The results of a rule on its diagnostics: none when the rule is off.
pub open spec fn rule_results<R: LintRule>(rule: R, ds: Seq<LintDiagModel>, env: LintEnv)
    -> Seq<(LintDiagModel, Option<(crate::ast::Span, Seq<char>)>)>
{
    let sev = rule_severity(rule, env.config);
    if sev == RuleSeverity::Off {
        seq![]
    } else {
        kept(rule, ds, sev, env)
    }
}

/// Whether a rule's fixes can be computed for its results.
pub open spec fn rule_fix_ok<R: LintRule>(rule: R, ds: Seq<LintDiagModel>, env: LintEnv) -> bool {
    let sev = rule_severity(rule, env.config);
    sev == RuleSeverity::Off || kept_fix_ok(rule, ds, sev, env)
}

/// The results of the rules on one expression node, rule by rule.
pub open spec fn expr_results(e: Expr, env: LintEnv) -> Seq<(LintDiagModel, Option<(crate::ast::Span, Seq<char>)>)> {
    rule_results(EmptyBlobLiteral, EmptyBlobLiteral.spec_check_expr(e), env)
        + rule_results(DoubleQuotedString, DoubleQuotedString.spec_check_expr(e), env)
        + rule_results(MissingAsAlias, MissingAsAlias.spec_check_expr(e), env)
}

/// Whether the fixes of the results on one expression node can be computed.
pub open spec fn expr_fix_ok(e: Expr, env: LintEnv) -> bool {
    &&& rule_fix_ok(EmptyBlobLiteral, EmptyBlobLiteral.spec_check_expr(e), env)
    &&& rule_fix_ok(DoubleQuotedString, DoubleQuotedString.spec_check_expr(e), env)
    &&& rule_fix_ok(MissingAsAlias, MissingAsAlias.spec_check_expr(e), env)
}

/// The results of the rules on a list of expression nodes, in order.
pub open spec fn exprs_results(es: Seq<Expr>, env: LintEnv) -> Seq<(LintDiagModel, Option<(crate::ast::Span, Seq<char>)>)>
    decreases es.len(),
{
    if es.len() == 0 {
        seq![]
    } else {
        exprs_results(es.drop_last(), env) + expr_results(es.last(), env)
    }
}

/// Whether the fixes of the results on a list of nodes can be computed.
pub open spec fn exprs_fix_ok(es: Seq<Expr>, env: LintEnv) -> bool
    decreases es.len(),
{
    es.len() == 0 || (exprs_fix_ok(es.drop_last(), env) && expr_fix_ok(es.last(), env))
}

/// The results of one statement: each rule's statement check, then the
/// rules on each visited expression.
pub open spec fn stmt_results(s: Statement, env: LintEnv) -> Seq<(LintDiagModel, Option<(crate::ast::Span, Seq<char>)>)> {
    rule_results(EmptyBlobLiteral, EmptyBlobLiteral.spec_check_stmt(s, env.config), env)
        + rule_results(DoubleQuotedString, DoubleQuotedString.spec_check_stmt(s, env.config), env)
        + rule_results(MissingAsAlias, MissingAsAlias.spec_check_stmt(s, env.config), env)
        + exprs_results(stmt_walk(s), env)
}

/// Whether the fixes of the results of one statement can be computed.
pub open spec fn stmt_fix_ok(s: Statement, env: LintEnv) -> bool {
    &&& rule_fix_ok(EmptyBlobLiteral, EmptyBlobLiteral.spec_check_stmt(s, env.config), env)
    &&& rule_fix_ok(DoubleQuotedString, DoubleQuotedString.spec_check_stmt(s, env.config), env)
    &&& rule_fix_ok(MissingAsAlias, MissingAsAlias.spec_check_stmt(s, env.config), env)
    &&& exprs_fix_ok(stmt_walk(s), env)
}

/// The lint results of a program, statement by statement.
pub open spec fn program_results(stmts: Seq<Statement>, env: LintEnv) -> Seq<(LintDiagModel, Option<(crate::ast::Span, Seq<char>)>)>
    decreases stmts.len(),
{
    if stmts.len() == 0 {
        seq![]
    } else {
        program_results(stmts.drop_last(), env) + stmt_results(stmts.last(), env)
    }
}

/// Whether every fix the lint of a program offers can be computed: each
/// span a fixable rule reports lies on character boundaries of the source
/// (and, for the AS fix, its last whitespace is one byte).
pub open spec fn program_fix_ok(stmts: Seq<Statement>, env: LintEnv) -> bool
    decreases stmts.len(),
{
    stmts.len() == 0 || (program_fix_ok(stmts.drop_last(), env) && stmt_fix_ok(stmts.last(), env))
}

/// The models of lint results.
pub open spec fn result_models(v: Seq<LintResult>) -> Seq<(LintDiagModel, Option<(crate::ast::Span, Seq<char>)>)> {
    v.map_values(|r: LintResult| r@)
}

/// The 1-based line of a byte offset of the source.
fn offset_to_line(bytes: &[u8], offset: usize) -> (r: usize)
    requires
        bytes@.len() < usize::MAX,
    ensures
        r == byte_line(bytes@, offset as int),
{
    let n = if offset < bytes.len() { offset } else { bytes.len() };
    let mut count: usize = 0;
    let mut i: usize = 0;
    while i < n
        invariant
            i <= n <= bytes@.len(),
            count == byte_newlines(bytes@, i as int),
            count <= i,
        decreases n - i,
    {
        if bytes[i] == 10u8 {
            count = count + 1;
        }
        i = i + 1;
    }
    assert(byte_newlines(bytes@, offset as int) == byte_newlines(bytes@, n as int));
    count + 1
}

/// Appends the results of a rule's diagnostics (the rule not being off).
fn apply_rule<R: LintRule>(
    rule: &R,
    diags: Vec<LintDiagnostic>,
    sev: RuleSeverity,
    ctx: &LintContext,
    bytes: &[u8],
    results: &mut Vec<LintResult>,
)
    requires
        bytes@ == vstd::utf8::encode_utf8(ctx.source@),
        bytes@.len() < usize::MAX,
        ctx.suppressions@ == suppressions_of(ctx.source@),
        kept_fix_ok(*rule, lint_models(diags@), sev, lint_env(ctx.source@, ctx.config.rules@)),
    ensures
        result_models(final(results)@) == result_models(old(results)@)
            + kept(*rule, lint_models(diags@), sev, lint_env(ctx.source@, ctx.config.rules@)),
{
    let ghost env = lint_env(ctx.source@, ctx.config.rules@);
    let ghost ds = lint_models(diags@);
    let ghost start = result_models(results@);
    let mut i: usize = 0;
    while i < diags.len()
        invariant
            i <= diags@.len(),
            ds == lint_models(diags@),
            env == lint_env(ctx.source@, ctx.config.rules@),
            bytes@ == env.bytes,
            bytes@.len() < usize::MAX,
            ctx.suppressions@ == env.sup,
            kept_fix_ok(*rule, ds, sev, env),
            result_models(results@) == start + kept(*rule, ds.subrange(0, i as int), sev, env),
        decreases diags@.len() - i,
    {
        let d = &diags[i];
        proof {
            let sub = ds.subrange(0, i + 1);
            assert(sub.drop_last() =~= ds.subrange(0, i as int));
            assert(sub.last() == d@);
            lemma_kept_fix_ok_prefix(*rule, ds, sev, env, i as int + 1);
        }
        let line = offset_to_line(bytes, d.span.start);
        let id = rule.id();
        if ctx.suppressions.is_suppressed(id, line) {
            assert(result_models(results@) =~= start + kept(*rule, ds.subrange(0, i + 1), sev, env));
        } else {
            let adjusted = LintDiagnostic { rule_id: d.rule_id, message: d.message.clone(), span: d.span.copy(), severity: sev };
            let fix = rule.fix(&adjusted, ctx.source);
            let ghost before = results@;
            results.push(LintResult { diagnostic: adjusted, fix });
            assert(result_models(results@) =~= result_models(before).push(results@.last()@));
            assert(result_models(results@) =~= start + kept(*rule, ds.subrange(0, i + 1), sev, env));
        }
        i = i + 1;
    }
    assert(ds.subrange(0, ds.len() as int) =~= ds);
}

/// Whether the rule's fix can be computed for each diagnostic it keeps.
fn kept_fixes_ok<R: LintRule>(rule: &R, diags: &Vec<LintDiagnostic>, sev: RuleSeverity, ctx: &LintContext, bytes: &[u8]) -> (r: bool)
    requires
        bytes@ == vstd::utf8::encode_utf8(ctx.source@),
        bytes@.len() < usize::MAX,
        ctx.suppressions@ == suppressions_of(ctx.source@),
    ensures
        r == kept_fix_ok(*rule, lint_models(diags@), sev, lint_env(ctx.source@, ctx.config.rules@)),
{
    let ghost env = lint_env(ctx.source@, ctx.config.rules@);
    let ghost ds = lint_models(diags@);
    let mut ok = true;
    let mut i: usize = 0;
    while i < diags.len()
        invariant
            i <= diags@.len(),
            ds == lint_models(diags@),
            env == lint_env(ctx.source@, ctx.config.rules@),
            bytes@ == env.bytes,
            bytes@.len() < usize::MAX,
            ctx.suppressions@ == env.sup,
            ok == kept_fix_ok(*rule, ds.subrange(0, i as int), sev, env),
        decreases diags@.len() - i,
    {
        let d = &diags[i];
        proof {
            let sub = ds.subrange(0, i + 1);
            assert(sub.drop_last() =~= ds.subrange(0, i as int));
            assert(sub.last() == d@);
        }
        let line = offset_to_line(bytes, d.span.start);
        if !ctx.suppressions.is_suppressed(rule.id(), line) {
            let adjusted = LintDiagnostic { rule_id: d.rule_id, message: d.message.clone(), span: d.span.copy(), severity: sev };
            assert(adjusted@ == (d@.0, d@.1, d@.2, sev));
            ok = ok && rule.fix_ok(&adjusted, ctx.source);
        }
        i = i + 1;
    }
    assert(ds.subrange(0, ds.len() as int) =~= ds);
    ok
}

/// Whether a rule's fixes can be computed for the results of its
/// statement check.
fn stmt_rule_fixes_ok<R: LintRule>(rule: &R, stmt: &Statement, ctx: &LintContext, bytes: &[u8]) -> (r: bool)
    requires
        bytes@ == vstd::utf8::encode_utf8(ctx.source@),
        bytes@.len() < usize::MAX,
        ctx.suppressions@ == suppressions_of(ctx.source@),
    ensures
        r == rule_fix_ok(*rule, rule.spec_check_stmt(*stmt, ctx.config.rules@), lint_env(ctx.source@, ctx.config.rules@)),
{
    let sev = ctx.config.get_severity(rule.id(), rule.default_severity());
    if sev == RuleSeverity::Off {
        return true;
    }
    let diags = rule.check_stmt(stmt, ctx);
    kept_fixes_ok(rule, &diags, sev, ctx, bytes)
}

/// Whether a rule's fixes can be computed for the results of its
/// expression check on one node.
fn expr_rule_fixes_ok<R: LintRule>(rule: &R, expr: &Expr, ctx: &LintContext, bytes: &[u8]) -> (r: bool)
    requires
        bytes@ == vstd::utf8::encode_utf8(ctx.source@),
        bytes@.len() < usize::MAX,
        ctx.suppressions@ == suppressions_of(ctx.source@),
    ensures
        r == rule_fix_ok(*rule, rule.spec_check_expr(*expr), lint_env(ctx.source@, ctx.config.rules@)),
{
    let sev = ctx.config.get_severity(rule.id(), rule.default_severity());
    if sev == RuleSeverity::Off {
        return true;
    }
    let diags = rule.check_expr(expr, ctx);
    kept_fixes_ok(rule, &diags, sev, ctx, bytes)
}

/// The fix condition of all diagnostics holds of each prefix.
pub proof fn lemma_kept_fix_ok_prefix<R: LintRule>(rule: R, ds: Seq<LintDiagModel>, sev: RuleSeverity, env: LintEnv, n: int)
    requires
        0 <= n <= ds.len(),
        kept_fix_ok(rule, ds, sev, env),
    ensures
        kept_fix_ok(rule, ds.subrange(0, n), sev, env),
    decreases ds.len() - n,
{
    if n < ds.len() {
        lemma_kept_fix_ok_prefix(rule, ds, sev, env, n + 1);
        assert(ds.subrange(0, n + 1).drop_last() =~= ds.subrange(0, n));
    } else {
        assert(ds.subrange(0, n) =~= ds);
    }
}

/// Runs a rule's statement check, unless the rule is off.
fn run_stmt_rule<R: LintRule>(rule: &R, stmt: &Statement, ctx: &LintContext, bytes: &[u8], results: &mut Vec<LintResult>)
    requires
        bytes@ == vstd::utf8::encode_utf8(ctx.source@),
        bytes@.len() < usize::MAX,
        ctx.suppressions@ == suppressions_of(ctx.source@),
        rule_fix_ok(*rule, rule.spec_check_stmt(*stmt, ctx.config.rules@), lint_env(ctx.source@, ctx.config.rules@)),
    ensures
        result_models(final(results)@) == result_models(old(results)@)
            + rule_results(*rule, rule.spec_check_stmt(*stmt, ctx.config.rules@), lint_env(ctx.source@, ctx.config.rules@)),
{
    let sev = ctx.config.get_severity(rule.id(), rule.default_severity());
    if sev == RuleSeverity::Off {
        assert(result_models(results@) =~= result_models(results@)
            + rule_results(*rule, rule.spec_check_stmt(*stmt, ctx.config.rules@), lint_env(ctx.source@, ctx.config.rules@)));
        return;
    }
    let diags = rule.check_stmt(stmt, ctx);
    apply_rule(rule, diags, sev, ctx, bytes, results);
}

/// Runs a rule's expression check on one node, unless the rule is off.
fn run_expr_rule<R: LintRule>(rule: &R, expr: &Expr, ctx: &LintContext, bytes: &[u8], results: &mut Vec<LintResult>)
    requires
        bytes@ == vstd::utf8::encode_utf8(ctx.source@),
        bytes@.len() < usize::MAX,
        ctx.suppressions@ == suppressions_of(ctx.source@),
        rule_fix_ok(*rule, rule.spec_check_expr(*expr), lint_env(ctx.source@, ctx.config.rules@)),
    ensures
        result_models(final(results)@) == result_models(old(results)@)
            + rule_results(*rule, rule.spec_check_expr(*expr), lint_env(ctx.source@, ctx.config.rules@)),
{
    let sev = ctx.config.get_severity(rule.id(), rule.default_severity());
    if sev == RuleSeverity::Off {
        assert(result_models(results@) =~= result_models(results@)
            + rule_results(*rule, rule.spec_check_expr(*expr), lint_env(ctx.source@, ctx.config.rules@)));
        return;
    }
    let diags = rule.check_expr(expr, ctx);
    apply_rule(rule, diags, sev, ctx, bytes, results);
}

/// The fix condition of a program holds of each prefix of its statements.
pub proof fn lemma_program_fix_ok_prefix(stmts: Seq<Statement>, env: LintEnv, n: int)
    requires
        0 <= n <= stmts.len(),
        program_fix_ok(stmts, env),
    ensures
        program_fix_ok(stmts.subrange(0, n), env),
    decreases stmts.len() - n,
{
    if n < stmts.len() {
        lemma_program_fix_ok_prefix(stmts, env, n + 1);
        assert(stmts.subrange(0, n + 1).drop_last() =~= stmts.subrange(0, n));
    } else {
        assert(stmts.subrange(0, n) =~= stmts);
    }
}

/// The fix condition of a list of nodes holds of each prefix.
pub proof fn lemma_exprs_fix_ok_prefix(es: Seq<Expr>, env: LintEnv, n: int)
    requires
        0 <= n <= es.len(),
        exprs_fix_ok(es, env),
    ensures
        exprs_fix_ok(es.subrange(0, n), env),
    decreases es.len() - n,
{
    if n < es.len() {
        lemma_exprs_fix_ok_prefix(es, env, n + 1);
        assert(es.subrange(0, n + 1).drop_last() =~= es.subrange(0, n));
    } else {
        assert(es.subrange(0, n) =~= es);
    }
}

/// Lints a program under a configuration: for each statement, each rule
/// that is not off checks the statement and then each expression the lint
/// visits; diagnostics suppressed on their line are dropped, the others
/// take the configured severity and carry the rule's fix, if any.
pub fn lint_with_config(
    program: &Program,
    source: &str,
    config: &LintConfig,
    _external_schema: Option<&Schema>,
) -> (r: Vec<LintResult>)
    requires
        source@.len() < usize::MAX,
        source.spec_bytes().len() < usize::MAX,
        program_fix_ok(program.statements@, lint_env(source@, config.rules@)),
    ensures
        result_models(r@) == program_results(program.statements@, lint_env(source@, config.rules@)),
{
    let suppressions = Suppressions::parse(source);
    let ctx = LintContext { source, suppressions: &suppressions, config };
    let bytes = source.as_bytes();
    let ghost env = lint_env(source@, config.rules@);
    let mut results: Vec<LintResult> = Vec::new();
    assert(result_models(results@) =~= Seq::<(LintDiagModel, Option<(crate::ast::Span, Seq<char>)>)>::empty());
    let stmts = &program.statements;
    let mut i: usize = 0;
    while i < stmts.len()
        invariant
            i <= stmts@.len(),
            stmts@ == program.statements@,
            env == lint_env(source@, config.rules@),
            ctx.source == source,
            ctx.config == config,
            ctx.suppressions@ == suppressions_of(source@),
            bytes@ == vstd::utf8::encode_utf8(source@),
            bytes@.len() < usize::MAX,
            program_fix_ok(stmts@, env),
            result_models(results@) == program_results(stmts@.subrange(0, i as int), env),
        decreases stmts@.len() - i,
    {
        let stmt = &stmts[i];
        proof {
            lemma_program_fix_ok_prefix(stmts@, env, i as int + 1);
            let sub = stmts@.subrange(0, i + 1);
            assert(sub.drop_last() =~= stmts@.subrange(0, i as int));
            assert(sub.last() == *stmt);
        }
        let ghost before = result_models(results@);
        run_stmt_rule(&EmptyBlobLiteral, stmt, &ctx, bytes, &mut results);
        run_stmt_rule(&DoubleQuotedString, stmt, &ctx, bytes, &mut results);
        run_stmt_rule(&MissingAsAlias, stmt, &ctx, bytes, &mut results);
        let exprs = walk_statement_exprs(stmt);
        let ghost es = derefs(exprs@);
        let ghost mid = result_models(results@);
        let mut j: usize = 0;
        while j < exprs.len()
            invariant
                j <= exprs@.len(),
                es == derefs(exprs@),
                es == stmt_walk(*stmt),
                exprs_fix_ok(es, env),
                env == lint_env(source@, config.rules@),
                ctx.source == source,
                ctx.config == config,
                ctx.suppressions@ == suppressions_of(source@),
                bytes@ == vstd::utf8::encode_utf8(source@),
                bytes@.len() < usize::MAX,
                result_models(results@) == mid + exprs_results(es.subrange(0, j as int), env),
            decreases exprs@.len() - j,
        {
            let e = exprs[j];
            proof {
                lemma_exprs_fix_ok_prefix(es, env, j as int + 1);
                let sub = es.subrange(0, j + 1);
                assert(sub.drop_last() =~= es.subrange(0, j as int));
                assert(sub.last() == *e);
            }
            let ghost before_e = result_models(results@);
            run_expr_rule(&EmptyBlobLiteral, e, &ctx, bytes, &mut results);
            run_expr_rule(&DoubleQuotedString, e, &ctx, bytes, &mut results);
            run_expr_rule(&MissingAsAlias, e, &ctx, bytes, &mut results);
            assert(result_models(results@) =~= mid + exprs_results(es.subrange(0, j + 1), env));
            j = j + 1;
        }
        assert(es.subrange(0, es.len() as int) =~= es);
        assert(result_models(results@) =~= program_results(stmts@.subrange(0, i + 1), env));
        i = i + 1;
    }
    assert(stmts@.subrange(0, stmts@.len() as int) =~= stmts@);
    results
}

/// Whether every fix the lint of a program under a configuration offers
/// can be computed on the source: what `lint_with_config` asks of its
/// arguments.
pub fn lint_fixes_ok(program: &Program, source: &str, config: &LintConfig) -> (r: bool)
    requires
        source@.len() < usize::MAX,
        source.spec_bytes().len() < usize::MAX,
    ensures
        r == program_fix_ok(program.statements@, lint_env(source@, config.rules@)),
{
    let suppressions = Suppressions::parse(source);
    let ctx = LintContext { source, suppressions: &suppressions, config };
    let bytes = source.as_bytes();
    let ghost env = lint_env(source@, config.rules@);
    let stmts = &program.statements;
    let mut ok = true;
    let mut i: usize = 0;
    while i < stmts.len()
        invariant
            i <= stmts@.len(),
            stmts@ == program.statements@,
            env == lint_env(source@, config.rules@),
            ctx.source == source,
            ctx.config == config,
            ctx.suppressions@ == suppressions_of(source@),
            bytes@ == vstd::utf8::encode_utf8(source@),
            bytes@.len() < usize::MAX,
            ok == program_fix_ok(stmts@.subrange(0, i as int), env),
        decreases stmts@.len() - i,
    {
        let stmt = &stmts[i];
        proof {
            let sub = stmts@.subrange(0, i + 1);
            assert(sub.drop_last() =~= stmts@.subrange(0, i as int));
            assert(sub.last() == *stmt);
        }
        let a = stmt_rule_fixes_ok(&EmptyBlobLiteral, stmt, &ctx, bytes);
        let b = stmt_rule_fixes_ok(&DoubleQuotedString, stmt, &ctx, bytes);
        let c = stmt_rule_fixes_ok(&MissingAsAlias, stmt, &ctx, bytes);
        let exprs = walk_statement_exprs(stmt);
        let ghost es = derefs(exprs@);
        let mut eok = true;
        let mut j: usize = 0;
        while j < exprs.len()
            invariant
                j <= exprs@.len(),
                es == derefs(exprs@),
                es == stmt_walk(*stmt),
                env == lint_env(source@, config.rules@),
                ctx.source == source,
                ctx.config == config,
                ctx.suppressions@ == suppressions_of(source@),
                bytes@ == vstd::utf8::encode_utf8(source@),
                bytes@.len() < usize::MAX,
                eok == exprs_fix_ok(es.subrange(0, j as int), env),
            decreases exprs@.len() - j,
        {
            let e = exprs[j];
            proof {
                let sub = es.subrange(0, j + 1);
                assert(sub.drop_last() =~= es.subrange(0, j as int));
                assert(sub.last() == *e);
            }
            let x = expr_rule_fixes_ok(&EmptyBlobLiteral, e, &ctx, bytes);
            let y = expr_rule_fixes_ok(&DoubleQuotedString, e, &ctx, bytes);
            let z = expr_rule_fixes_ok(&MissingAsAlias, e, &ctx, bytes);
            eok = eok && x && y && z;
            j = j + 1;
        }
        assert(es.subrange(0, es.len() as int) =~= es);
        ok = ok && a && b && c && eok;
        i = i + 1;
    }
    assert(stmts@.subrange(0, stmts@.len() as int) =~= stmts@);
    ok
}

// ---------------------------------------------------------------------
// A rule that is off
// ---------------------------------------------------------------------

/// The diagnostics all carry the rule id `id`.
pub open spec fn all_from(ds: Seq<LintDiagModel>, id: Seq<char>) -> bool {
    forall|i: int| 0 <= i < ds.len() ==> (#[trigger] ds[i]).0 == id
}

/// None of the results carries the rule id `id`.
pub open spec fn none_from(rs: Seq<(LintDiagModel, Option<(crate::ast::Span, Seq<char>)>)>, id: Seq<char>) -> bool {
    forall|i: int| 0 <= i < rs.len() ==> (#[trigger] rs[i]).0.0 != id
}

proof fn lemma_none_from_concat(
    a: Seq<(LintDiagModel, Option<(crate::ast::Span, Seq<char>)>)>,
    b: Seq<(LintDiagModel, Option<(crate::ast::Span, Seq<char>)>)>,
    id: Seq<char>,
)
    requires
        none_from(a, id),
        none_from(b, id),
    ensures
        none_from(a + b, id),
{
    assert forall|i: int| 0 <= i < (a + b).len() implies (#[trigger] (a + b)[i]).0.0 != id by {
        if i < a.len() {
            assert((a + b)[i] == a[i]);
        } else {
            assert((a + b)[i] == b[i - a.len()]);
        }
    }
}

/// The results a rule keeps carry the rule's id.
proof fn lemma_kept_ids<R: LintRule>(rule: R, ds: Seq<LintDiagModel>, sev: RuleSeverity, env: LintEnv, id: Seq<char>)
    requires
        all_from(ds, rule.spec_id()),
        rule.spec_id() != id,
    ensures
        none_from(kept(rule, ds, sev, env), id),
    decreases ds.len(),
{
    if ds.len() > 0 {
        lemma_kept_ids(rule, ds.drop_last(), sev, env, id);
        let d = ds.last();
        assert(d == ds[ds.len() - 1]);
        let tail = if is_suppressed_at(rule, d, env) {
            seq![]
        } else {
            let d2 = (d.0, d.1, d.2, sev);
            seq![(d2, rule.spec_fix(d2, env.source))]
        };
        lemma_none_from_concat(kept(rule, ds.drop_last(), sev, env), tail, id);
    }
}

/// The results of a rule hold none with the id of a rule that is off.
proof fn lemma_rule_results_silent<R: LintRule>(rule: R, ds: Seq<LintDiagModel>, env: LintEnv, id: Seq<char>)
    requires
        all_from(ds, rule.spec_id()),
        lookup(env.config, id) == Some(RuleSeverity::Off),
    ensures
        none_from(rule_results(rule, ds, env), id),
{
    if rule.spec_id() != id {
        lemma_kept_ids(rule, ds, rule_severity(rule, env.config), env, id);
    }
}

proof fn lemma_missing_as_cols_ids(cols: Seq<ResultColumn>, sev: RuleSeverity)
    ensures
        all_from(missing_as_cols(cols, sev), "missing-as"@),
    decreases cols.len(),
{
    if cols.len() > 0 {
        lemma_missing_as_cols_ids(cols.drop_last(), sev);
    }
}

proof fn lemma_missing_as_table_ids(t: crate::ast::TableOrSubquery, sev: RuleSeverity)
    ensures
        all_from(missing_as_table(t, sev), "missing-as"@),
    decreases t,
{
    match t {
        crate::ast::TableOrSubquery::Join { left, right, .. } => {
            lemma_missing_as_table_ids(*left, sev);
            lemma_missing_as_table_ids(*right, sev);
        },
        crate::ast::TableOrSubquery::TableList { tables, .. } => {
            lemma_missing_as_tables_ids(tables@, sev);
        },
        _ => {},
    }
}

proof fn lemma_missing_as_tables_ids(ts: Seq<crate::ast::TableOrSubquery>, sev: RuleSeverity)
    ensures
        all_from(missing_as_tables(ts, sev), "missing-as"@),
    decreases ts,
{
    if ts.len() > 0 {
        lemma_missing_as_tables_ids(ts.drop_last(), sev);
        lemma_missing_as_table_ids(ts.last(), sev);
    }
}

proof fn lemma_expr_silent(e: Expr, env: LintEnv, id: Seq<char>)
    requires
        lookup(env.config, id) == Some(RuleSeverity::Off),
    ensures
        none_from(expr_results(e, env), id),
{
    lemma_rule_results_silent(EmptyBlobLiteral, EmptyBlobLiteral.spec_check_expr(e), env, id);
    lemma_rule_results_silent(DoubleQuotedString, DoubleQuotedString.spec_check_expr(e), env, id);
    lemma_rule_results_silent(MissingAsAlias, MissingAsAlias.spec_check_expr(e), env, id);
    lemma_none_from_concat(
        rule_results(EmptyBlobLiteral, EmptyBlobLiteral.spec_check_expr(e), env),
        rule_results(DoubleQuotedString, DoubleQuotedString.spec_check_expr(e), env),
        id,
    );
    lemma_none_from_concat(
        rule_results(EmptyBlobLiteral, EmptyBlobLiteral.spec_check_expr(e), env)
            + rule_results(DoubleQuotedString, DoubleQuotedString.spec_check_expr(e), env),
        rule_results(MissingAsAlias, MissingAsAlias.spec_check_expr(e), env),
        id,
    );
}

proof fn lemma_exprs_silent(es: Seq<Expr>, env: LintEnv, id: Seq<char>)
    requires
        lookup(env.config, id) == Some(RuleSeverity::Off),
    ensures
        none_from(exprs_results(es, env), id),
    decreases es.len(),
{
    if es.len() > 0 {
        lemma_exprs_silent(es.drop_last(), env, id);
        lemma_expr_silent(es.last(), env, id);
        lemma_none_from_concat(exprs_results(es.drop_last(), env), expr_results(es.last(), env), id);
    }
}

proof fn lemma_stmt_silent(s: Statement, env: LintEnv, id: Seq<char>)
    requires
        lookup(env.config, id) == Some(RuleSeverity::Off),
    ensures
        none_from(stmt_results(s, env), id),
{
    lemma_missing_as_stmt_ids(s, env.config);
    let a = rule_results(EmptyBlobLiteral, EmptyBlobLiteral.spec_check_stmt(s, env.config), env);
    let b = rule_results(DoubleQuotedString, DoubleQuotedString.spec_check_stmt(s, env.config), env);
    let c = rule_results(MissingAsAlias, MissingAsAlias.spec_check_stmt(s, env.config), env);
    lemma_rule_results_silent(EmptyBlobLiteral, EmptyBlobLiteral.spec_check_stmt(s, env.config), env, id);
    lemma_rule_results_silent(DoubleQuotedString, DoubleQuotedString.spec_check_stmt(s, env.config), env, id);
    lemma_rule_results_silent(MissingAsAlias, MissingAsAlias.spec_check_stmt(s, env.config), env, id);
    lemma_exprs_silent(stmt_walk(s), env, id);
    lemma_none_from_concat(a, b, id);
    lemma_none_from_concat(a + b, c, id);
    lemma_none_from_concat(a + b + c, exprs_results(stmt_walk(s), env), id);
}

/// A rule configured `off` reports nothing: no result of the lint of any
/// program carries its id.
pub proof fn law_off_rule_is_silent(
    stmts: Seq<Statement>,
    source: Seq<char>,
    config: Seq<(Seq<char>, RuleSeverity)>,
    id: Seq<char>,
)
    requires
        lookup(config, id) == Some(RuleSeverity::Off),
    ensures
        forall|i: int|
            0 <= i < program_results(stmts, lint_env(source, config)).len()
                ==> (#[trigger] program_results(stmts, lint_env(source, config))[i]).0.0 != id,
    decreases stmts.len(),
{
    let env = lint_env(source, config);
    if stmts.len() > 0 {
        law_off_rule_is_silent(stmts.drop_last(), source, config, id);
        lemma_stmt_silent(stmts.last(), env, id);
        lemma_none_from_concat(program_results(stmts.drop_last(), env), stmt_results(stmts.last(), env), id);
    }
}

// ---------------------------------------------------------------------
// Configured severities
// ---------------------------------------------------------------------

/// The severity a rule id has under a configuration: its override, or
/// warning (every built-in rule's default).
pub open spec fn configured_severity(config: Seq<(Seq<char>, RuleSeverity)>, id: Seq<char>) -> RuleSeverity {
    match lookup(config, id) {
        Some(s) => s,
        None => RuleSeverity::Warning,
    }
}

/// Each result has the configured severity of its rule, which is not off.
pub open spec fn configured(rs: Seq<(LintDiagModel, Option<(crate::ast::Span, Seq<char>)>)>, config: Seq<(Seq<char>, RuleSeverity)>) -> bool {
    forall|i: int|
        0 <= i < rs.len() ==> (#[trigger] rs[i]).0.3 == configured_severity(config, rs[i].0.0) && rs[i].0.3
            != RuleSeverity::Off
}

proof fn lemma_configured_concat(
    a: Seq<(LintDiagModel, Option<(crate::ast::Span, Seq<char>)>)>,
    b: Seq<(LintDiagModel, Option<(crate::ast::Span, Seq<char>)>)>,
    config: Seq<(Seq<char>, RuleSeverity)>,
)
    requires
        configured(a, config),
        configured(b, config),
    ensures
        configured(a + b, config),
{
    assert forall|i: int| 0 <= i < (a + b).len() implies (#[trigger] (a + b)[i]).0.3 == configured_severity(
        config,
        (a + b)[i].0.0,
    ) && (a + b)[i].0.3 != RuleSeverity::Off by {
        if i < a.len() {
            assert((a + b)[i] == a[i]);
        } else {
            assert((a + b)[i] == b[i - a.len()]);
        }
    }
}

proof fn lemma_kept_configured<R: LintRule>(rule: R, ds: Seq<LintDiagModel>, env: LintEnv)
    requires
        all_from(ds, rule.spec_id()),
        rule.spec_default_severity() == RuleSeverity::Warning,
        rule_severity(rule, env.config) != RuleSeverity::Off,
    ensures
        configured(kept(rule, ds, rule_severity(rule, env.config), env), env.config),
    decreases ds.len(),
{
    let sev = rule_severity(rule, env.config);
    if ds.len() > 0 {
        lemma_kept_configured(rule, ds.drop_last(), env);
        let d = ds.last();
        assert(d == ds[ds.len() - 1]);
        let tail = if is_suppressed_at(rule, d, env) {
            seq![]
        } else {
            let d2 = (d.0, d.1, d.2, sev);
            seq![(d2, rule.spec_fix(d2, env.source))]
        };
        lemma_configured_concat(kept(rule, ds.drop_last(), sev, env), tail, env.config);
    }
}

proof fn lemma_rule_results_configured<R: LintRule>(rule: R, ds: Seq<LintDiagModel>, env: LintEnv)
    requires
        all_from(ds, rule.spec_id()),
        rule.spec_default_severity() == RuleSeverity::Warning,
    ensures
        configured(rule_results(rule, ds, env), env.config),
{
    if rule_severity(rule, env.config) != RuleSeverity::Off {
        lemma_kept_configured(rule, ds, env);
    }
}

proof fn lemma_expr_configured(e: Expr, env: LintEnv)
    ensures
        configured(expr_results(e, env), env.config),
{
    let a = rule_results(EmptyBlobLiteral, EmptyBlobLiteral.spec_check_expr(e), env);
    let b = rule_results(DoubleQuotedString, DoubleQuotedString.spec_check_expr(e), env);
    let c = rule_results(MissingAsAlias, MissingAsAlias.spec_check_expr(e), env);
    lemma_rule_results_configured(EmptyBlobLiteral, EmptyBlobLiteral.spec_check_expr(e), env);
    lemma_rule_results_configured(DoubleQuotedString, DoubleQuotedString.spec_check_expr(e), env);
    lemma_rule_results_configured(MissingAsAlias, MissingAsAlias.spec_check_expr(e), env);
    lemma_configured_concat(a, b, env.config);
    lemma_configured_concat(a + b, c, env.config);
}

proof fn lemma_exprs_configured(es: Seq<Expr>, env: LintEnv)
    ensures
        configured(exprs_results(es, env), env.config),
    decreases es.len(),
{
    if es.len() > 0 {
        lemma_exprs_configured(es.drop_last(), env);
        lemma_expr_configured(es.last(), env);
        lemma_configured_concat(exprs_results(es.drop_last(), env), expr_results(es.last(), env), env.config);
    }
}

proof fn lemma_missing_as_stmt_ids(s: Statement, config: Seq<(Seq<char>, RuleSeverity)>)
    ensures
        all_from(MissingAsAlias.spec_check_stmt(s, config), "missing-as"@),
{
    match s {
        Statement::Select(sel) => {
            let sev = missing_as_severity(config);
            lemma_missing_as_cols_ids(sel.columns@, sev);
            match sel.from {
                Some(f) => {
                    lemma_missing_as_tables_ids(f.tables@, sev);
                    let a = missing_as_cols(sel.columns@, sev);
                    let b = missing_as_tables(f.tables@, sev);
                    assert forall|i: int| 0 <= i < (a + b).len() implies (#[trigger] (a + b)[i]).0 == "missing-as"@ by {
                        if i < a.len() {
                            assert((a + b)[i] == a[i]);
                        } else {
                            assert((a + b)[i] == b[i - a.len()]);
                        }
                    }
                    assert(MissingAsAlias.spec_check_stmt(s, config) == a + b);
                },
                None => {
                    assert(MissingAsAlias.spec_check_stmt(s, config) =~= missing_as_cols(sel.columns@, sev));
                },
            }
        },
        _ => {},
    }
}

proof fn lemma_stmt_configured(s: Statement, env: LintEnv)
    ensures
        configured(stmt_results(s, env), env.config),
{
    lemma_missing_as_stmt_ids(s, env.config);
    let a = rule_results(EmptyBlobLiteral, EmptyBlobLiteral.spec_check_stmt(s, env.config), env);
    let b = rule_results(DoubleQuotedString, DoubleQuotedString.spec_check_stmt(s, env.config), env);
    let c = rule_results(MissingAsAlias, MissingAsAlias.spec_check_stmt(s, env.config), env);
    lemma_rule_results_configured(EmptyBlobLiteral, EmptyBlobLiteral.spec_check_stmt(s, env.config), env);
    lemma_rule_results_configured(DoubleQuotedString, DoubleQuotedString.spec_check_stmt(s, env.config), env);
    lemma_rule_results_configured(MissingAsAlias, MissingAsAlias.spec_check_stmt(s, env.config), env);
    lemma_exprs_configured(stmt_walk(s), env);
    lemma_configured_concat(a, b, env.config);
    lemma_configured_concat(a + b, c, env.config);
    lemma_configured_concat(a + b + c, exprs_results(stmt_walk(s), env), env.config);
}

/// Every result of the lint has its rule's configured severity (its
/// override, else warning), never off.
pub proof fn law_results_take_configured_severity(stmts: Seq<Statement>, source: Seq<char>, config: Seq<(Seq<char>, RuleSeverity)>)
    ensures
        forall|i: int|
            0 <= i < program_results(stmts, lint_env(source, config)).len() ==> {
                let r = #[trigger] program_results(stmts, lint_env(source, config))[i];
                r.0.3 == configured_severity(config, r.0.0) && r.0.3 != RuleSeverity::Off
            },
    decreases stmts.len(),
{
    let env = lint_env(source, config);
    if stmts.len() > 0 {
        law_results_take_configured_severity(stmts.drop_last(), source, config);
        lemma_stmt_configured(stmts.last(), env);
        lemma_configured_concat(program_results(stmts.drop_last(), env), stmt_results(stmts.last(), env), config);
    }
}

} // verus!
