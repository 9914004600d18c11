//! Lint rules: the rule interface, the built-in rules (empty blob
//! literals, double-quoted strings, aliases without AS), their fixes, and
//! the lint configuration.

use vstd::prelude::*;
use crate::ast::{Expr, ResultColumn, Span, Statement, TableOrSubquery};
use crate::strmap::{StrMap, lookup};
use crate::text::{
    spec_lowercase, to_lower, string_of, push_str, concat2, concat3, chars_of, string_from_chars, sub_chars,
    range_ok, trim_bounds, trim_ws, is_whitespace, spec_is_whitespace, byte_range_ok, byte_slice, byte_slice_chars,
};
use crate::analyzer::suppressions::Suppressions;

verus! {

/// Severity of a lint rule.
#[derive(Debug, Clone, Copy, PartialEq, Eq, Structural)]
pub enum RuleSeverity {
    /// The rule is disabled.
    Off,
    /// The rule produces a warning.
    Warning,
    /// The rule produces an error.
    Error,
}

impl View for RuleSeverity {
    type V = RuleSeverity;

    open spec fn view(&self) -> RuleSeverity {
        *self
    }
}

impl Default for RuleSeverity {
    /// A rule warns unless configured otherwise.
    fn default() -> (r: Self)
        ensures
            r == RuleSeverity::Warning,
    {
        RuleSeverity::Warning
    }
}

/// The severity a configuration value names (case-insensitively): `off`,
/// `warning` or `warn`, `error`.
pub open spec fn severity_named(lower: Seq<char>) -> Option<RuleSeverity> {
    if lower == "off"@ {
        Some(RuleSeverity::Off)
    } else if lower == "warning"@ || lower == "warn"@ {
        Some(RuleSeverity::Warning)
    } else if lower == "error"@ {
        Some(RuleSeverity::Error)
    } else {
        None
    }
}

impl RuleSeverity {
    /// Reads a severity from its configuration name, case-insensitively;
    /// any other name is an error `unknown severity: <name>`.
    pub fn from_config_str(s: &str) -> (r: Result<RuleSeverity, String>)
        ensures
            match severity_named(spec_lowercase(s@)) {
                Some(sev) => r == Ok::<RuleSeverity, String>(sev),
                None => r matches Err(m) && m@ == "unknown severity: "@ + s@,
            },
    {
        let lower = to_lower(s);
        if crate::text::str_eq(lower.as_str(), "off") {
            Ok(RuleSeverity::Off)
        } else if crate::text::str_eq(lower.as_str(), "warning") || crate::text::str_eq(lower.as_str(), "warn") {
            Ok(RuleSeverity::Warning)
        } else if crate::text::str_eq(lower.as_str(), "error") {
            Ok(RuleSeverity::Error)
        } else {
            let mut m = string_of("unknown severity: ");
            push_str(&mut m, s);
            Err(m)
        }
    }
}

/// What a lint diagnostic holds: rule id, message, span, severity.
pub type LintDiagModel = (Seq<char>, Seq<char>, Span, RuleSeverity);

/// A diagnostic produced by a lint rule.
#[derive(Debug, Clone)]
pub struct LintDiagnostic {
    /// The id of the rule that produced it (e.g. `empty-blob-literal`).
    pub rule_id: &'static str,
    /// The message.
    pub message: String,
    /// Where the issue is.
    pub span: Span,
    /// Its severity.
    pub severity: RuleSeverity,
}

impl View for LintDiagnostic {
    type V = LintDiagModel;

    open spec fn view(&self) -> LintDiagModel {
        (self.rule_id@, self.message@, self.span, self.severity)
    }
}

/// The models of a sequence of lint diagnostics.
pub open spec fn lint_models(v: Seq<LintDiagnostic>) -> Seq<LintDiagModel> {
    v.map_values(|d: LintDiagnostic| d@)
}

/// A fix for a diagnostic: replace the span's text.
#[derive(Debug, Clone)]
pub struct Fix {
    /// The span of text to replace.
    pub span: Span,
    /// The replacement text.
    pub replacement: String,
}

impl View for Fix {
    type V = (Span, Seq<char>);

    open spec fn view(&self) -> (Span, Seq<char>) {
        (self.span, self.replacement@)
    }
}

/// The model of an optional fix.
pub open spec fn opt_fix(f: Option<Fix>) -> Option<(Span, Seq<char>)> {
    match f {
        Some(f) => Some(f@),
        None => None,
    }
}

/// A diagnostic with its fix, if the rule can fix it.
#[derive(Debug, Clone)]
pub struct LintResult {
    pub diagnostic: LintDiagnostic,
    pub fix: Option<Fix>,
}

impl View for LintResult {
    type V = (LintDiagModel, Option<(Span, Seq<char>)>);

    open spec fn view(&self) -> (LintDiagModel, Option<(Span, Seq<char>)>) {
        (self.diagnostic@, opt_fix(self.fix))
    }
}

/// Rule severity overrides: rule id -> severity.
#[derive(Debug, Clone)]
pub struct LintConfig {
    pub rules: StrMap<RuleSeverity>,
}

impl LintConfig {
    /// A configuration without overrides.
    pub fn new() -> (r: Self)
        ensures
            r.rules@.len() == 0,
    {
        LintConfig { rules: StrMap::new() }
    }

    /// The effective severity of a rule: its override, or `default`.
    pub fn get_severity(&self, rule_id: &str, default: RuleSeverity) -> (r: RuleSeverity)
        ensures
            r == match lookup(self.rules@, rule_id@) {
                Some(s) => s,
                None => default,
            },
    {
        match self.rules.get(rule_id) {
            Some(s) => *s,
            None => default,
        }
    }
}

/// A path joined with a relative name, as `Path::join` does on Unix: a
/// `/` goes between them unless the path is empty or already ends in one.
pub open spec fn join_path(dir: Seq<char>, name: Seq<char>) -> Seq<char> {
    if dir.len() == 0 {
        name
    } else if dir.last() == '/' {
        dir + name
    } else {
        dir + seq!['/'] + name
    }
}

/// The files where a lint configuration is looked for, in order: a
/// `solite-lint.toml` in each directory from the start directory up to the
/// root, then the global `.config/solite/lint.toml` under the home
/// directory.
pub open spec fn config_candidates_of(dirs: Seq<Seq<char>>, home: Option<Seq<char>>) -> Seq<Seq<char>> {
    Seq::new(dirs.len(), |i: int| join_path(dirs[i], "solite-lint.toml"@)) + match home {
        Some(h) => seq![join_path(h, ".config/solite/lint.toml"@)],
        None => Seq::empty(),
    }
}

/// The home directory from the environment: `HOME`, else `USERPROFILE`,
/// else `HOMEDRIVE` followed by `HOMEPATH`.
pub open spec fn home_dir_of(
    home: Option<Seq<char>>,
    profile: Option<Seq<char>>,
    drive: Option<Seq<char>>,
    path: Option<Seq<char>>,
) -> Option<Seq<char>> {
    if home is Some {
        home
    } else if profile is Some {
        profile
    } else if drive is Some && path is Some {
        Some(drive.unwrap() + path.unwrap())
    } else {
        None
    }
}

/// The model of an optional text.
pub open spec fn opt_text(o: Option<String>) -> Option<Seq<char>> {
    match o {
        Some(s) => Some(s@),
        None => None,
    }
}

/// Joins a path and a relative name (see `join_path`).
pub fn join_path_of(dir: &str, name: &str) -> (r: String)
    ensures
        r@ == join_path(dir@, name@),
{
    proof {
        reveal_strlit("/");
    }
    let v = chars_of(dir);
    if v.len() == 0 {
        string_of(name)
    } else if v[v.len() - 1] == '/' {
        concat2(dir, name)
    } else {
        concat3(dir, "/", name)
    }
}

impl LintConfig {
    /// The files to look for a configuration in, given the directories from
    /// the start directory up to the root and the home directory.
    pub fn config_candidates(dirs: &Vec<String>, home: Option<String>) -> (r: Vec<String>)
        ensures
            crate::ast::texts(r@) == config_candidates_of(crate::ast::texts(dirs@), opt_text(home)),
    {
        let mut r: Vec<String> = Vec::new();
        let mut i: usize = 0;
        while i < dirs.len()
            invariant
                i <= dirs@.len(),
                r@.len() == i,
                forall|j: int| 0 <= j < i ==> (#[trigger] r@[j])@ == join_path(dirs@[j]@, "solite-lint.toml"@),
            decreases dirs.len() - i,
        {
            r.push(join_path_of(dirs[i].as_str(), "solite-lint.toml"));
            i = i + 1;
        }
        match home {
            Some(h) => r.push(join_path_of(h.as_str(), ".config/solite/lint.toml")),
            None => {},
        }
        assert(crate::ast::texts(r@) =~= config_candidates_of(crate::ast::texts(dirs@), opt_text(home)));
        r
    }

    /// The home directory from the environment's `HOME`, `USERPROFILE`,
    /// `HOMEDRIVE` and `HOMEPATH`.
    pub fn home_dir_from(
        home: Option<String>,
        profile: Option<String>,
        drive: Option<String>,
        path: Option<String>,
    ) -> (r: Option<String>)
        ensures
            opt_text(r) == home_dir_of(opt_text(home), opt_text(profile), opt_text(drive), opt_text(path)),
    {
        if home.is_some() {
            home
        } else if profile.is_some() {
            profile
        } else {
            match (drive, path) {
                (Some(d), Some(p)) => Some(concat2(d.as_str(), p.as_str())),
                _ => None,
            }
        }
    }

    /// The configuration found: the first candidate file that exists and
    /// loads, in the order of `config_candidates` (each entry is what the
    /// file at that place gave, `None` when it is missing or does not
    /// load); without one, no overrides.
    pub fn discover_from(loaded: Vec<Option<LintConfig>>) -> (r: LintConfig)
        ensures
            (exists|i: int| 0 <= i < loaded@.len() && loaded@[i] is Some) ==> exists|i: int|
                0 <= i < loaded@.len() && loaded@[i] == Some(r) && forall|j: int|
                    0 <= j < i ==> (#[trigger] loaded@[j]) is None,
            (forall|i: int| 0 <= i < loaded@.len() ==> (#[trigger] loaded@[i]) is None) ==> r.rules@.len() == 0,
    {
        let ghost l = loaded@;
        let mut rest = loaded;
        while rest.len() > 0
            invariant
                l == loaded@,
                rest@.len() <= l.len(),
                rest@ == l.subrange(l.len() - rest@.len(), l.len() as int),
                forall|j: int| 0 <= j < l.len() - rest@.len() ==> (#[trigger] l[j]) is None,
            decreases rest@.len(),
        {
            let ghost at = l.len() - rest@.len();
            let item = rest.remove(0);
            assert(item == l[at]);
            match item {
                Some(c) => {
                    assert(l[at] == Some(c));
                    assert(0 <= at < l.len() && forall|j: int| 0 <= j < at ==> (#[trigger] l[j]) is None);
                    assert(exists|i: int|
                        0 <= i < l.len() && l[i] == Some(c) && forall|j: int| 0 <= j < i ==> (#[trigger] l[j]) is None);
                    return c;
                },
                None => {},
            }
            assert(rest@ =~= l.subrange(l.len() - rest@.len(), l.len() as int));
        }
        LintConfig::new()
    }
}

impl Default for LintConfig {
    /// A configuration without overrides.
    fn default() -> (r: Self)
        ensures
            r.rules@.len() == 0,
    {
        LintConfig::new()
    }
}

/// What the rules see while checking: the source, its suppressions and
/// the configuration.
pub struct LintContext<'a> {
    pub source: &'a str,
    pub suppressions: &'a Suppressions,
    pub config: &'a LintConfig,
}

/// A lint rule: an id, a default severity, checks of expressions and
/// statements, and possibly a fix.
pub trait LintRule {
    /// The rule's id.
    spec fn spec_id(&self) -> Seq<char>;

    /// The rule's default severity.
    spec fn spec_default_severity(&self) -> RuleSeverity;

    /// The diagnostics of an expression node (its children are not looked at).
    spec fn spec_check_expr(&self, e: Expr) -> Seq<LintDiagModel>;

    /// The diagnostics of a statement under a configuration.
    spec fn spec_check_stmt(&self, s: Statement, config: Seq<(Seq<char>, RuleSeverity)>) -> Seq<LintDiagModel>;

    /// Whether the rule's fix can be computed for a diagnostic in a source.
    spec fn spec_fix_ok(&self, d: LintDiagModel, source: Seq<char>) -> bool;

    /// The rule's fix of a diagnostic in a source.
    spec fn spec_fix(&self, d: LintDiagModel, source: Seq<char>) -> Option<(Span, Seq<char>)>;

    /// The unique identifier of the rule (e.g. `empty-blob-literal`).
    fn id(&self) -> (r: &'static str)
        ensures
            r@ == self.spec_id();

    /// The human-readable name of the rule.
    spec fn spec_name(&self) -> Seq<char>;

    /// What the rule checks for, in words.
    spec fn spec_description(&self) -> Seq<char>;

    /// Whether the rule offers fixes.
    spec fn spec_is_fixable(&self) -> bool;

    /// The human-readable name of the rule.
    fn name(&self) -> (r: &'static str)
        ensures
            r@ == self.spec_name();

    /// What the rule checks for.
    fn description(&self) -> (r: &'static str)
        ensures
            r@ == self.spec_description();

    /// The severity the rule has unless configured otherwise.
    fn default_severity(&self) -> (r: RuleSeverity)
        ensures
            r == self.spec_default_severity();

    /// Checks one expression node.
    fn check_expr(&self, expr: &Expr, ctx: &LintContext) -> (r: Vec<LintDiagnostic>)
        ensures
            lint_models(r@) == self.spec_check_expr(*expr);

    /// Checks one statement.
    fn check_stmt(&self, stmt: &Statement, ctx: &LintContext) -> (r: Vec<LintDiagnostic>)
        ensures
            lint_models(r@) == self.spec_check_stmt(*stmt, ctx.config.rules@);

    /// Whether the rule offers fixes.
    fn is_fixable(&self) -> (r: bool)
        ensures
            r == self.spec_is_fixable();

    /// The fix of a diagnostic, if the rule has one.
    fn fix(&self, diagnostic: &LintDiagnostic, source: &str) -> (r: Option<Fix>)
        requires
            self.spec_fix_ok(diagnostic@, source@),
        ensures
            opt_fix(r) == self.spec_fix(diagnostic@, source@);

    /// Whether the fix of a diagnostic can be computed on the source.
    fn fix_ok(&self, diagnostic: &LintDiagnostic, source: &str) -> (r: bool)
        ensures
            r == self.spec_fix_ok(diagnostic@, source@);
}

// ---------------------------------------------------------------------
// Empty blob literals
// ---------------------------------------------------------------------

/// Warns about empty blob literals (`X''`).
pub struct EmptyBlobLiteral;

impl LintRule for EmptyBlobLiteral {
    open spec fn spec_name(&self) -> Seq<char> {
        "Empty Blob Literal"@
    }

    open spec fn spec_description(&self) -> Seq<char> {
        "Warns about empty blob literals (X'')"@
    }

    open spec fn spec_is_fixable(&self) -> bool {
        false
    }

    open spec fn spec_id(&self) -> Seq<char> {
        "empty-blob-literal"@
    }

    open spec fn spec_default_severity(&self) -> RuleSeverity {
        RuleSeverity::Warning
    }

    open spec fn spec_check_expr(&self, e: Expr) -> Seq<LintDiagModel> {
        match e {
            Expr::Blob(bytes, span) => if bytes@.len() == 0 {
                seq![("empty-blob-literal"@, "Empty blob literal"@, span, RuleSeverity::Warning)]
            } else {
                seq![]
            },
            _ => seq![],
        }
    }

    open spec fn spec_check_stmt(&self, s: Statement, config: Seq<(Seq<char>, RuleSeverity)>) -> Seq<LintDiagModel> {
        seq![]
    }

    open spec fn spec_fix_ok(&self, d: LintDiagModel, source: Seq<char>) -> bool {
        true
    }

    open spec fn spec_fix(&self, d: LintDiagModel, source: Seq<char>) -> Option<(Span, Seq<char>)> {
        None
    }

    fn id(&self) -> (r: &'static str) {
        "empty-blob-literal"
    }

    fn name(&self) -> &'static str {
        "Empty Blob Literal"
    }

    fn description(&self) -> &'static str {
        "Warns about empty blob literals (X'')"
    }

    fn default_severity(&self) -> (r: RuleSeverity) {
        RuleSeverity::Warning
    }

    fn check_expr(&self, expr: &Expr, ctx: &LintContext) -> (r: Vec<LintDiagnostic>) {
        let mut r: Vec<LintDiagnostic> = Vec::new();
        match expr {
            Expr::Blob(bytes, span) => {
                if bytes.len() == 0 {
                    r.push(LintDiagnostic {
                        rule_id: self.id(),
                        message: string_of("Empty blob literal"),
                        span: span.copy(),
                        severity: self.default_severity(),
                    });
                }
            }
            _ => {}
        }
        assert(lint_models(r@) =~= self.spec_check_expr(*expr));
        r
    }

    fn check_stmt(&self, stmt: &Statement, ctx: &LintContext) -> (r: Vec<LintDiagnostic>) {
        let r: Vec<LintDiagnostic> = Vec::new();
        assert(lint_models(r@) =~= Seq::<LintDiagModel>::empty());
        r
    }

    fn is_fixable(&self) -> bool {
        false
    }

    fn fix_ok(&self, diagnostic: &LintDiagnostic, source: &str) -> (r: bool) {
        true
    }

    fn fix(&self, diagnostic: &LintDiagnostic, source: &str) -> (r: Option<Fix>) {
        None
    }
}

// ---------------------------------------------------------------------
// Double-quoted strings
// ---------------------------------------------------------------------

/// The message for a double-quoted identifier used as a string.
pub open spec fn dq_message() -> Seq<char> {
    "Double-quoted string is an identifier, not a string literal. Use single quotes for strings."@
}

/// `s` without its leading double quotes.
pub open spec fn trim_start_quotes(s: Seq<char>) -> Seq<char>
    decreases s.len(),
{
    if s.len() > 0 && s[0] == '"' {
        trim_start_quotes(s.drop_first())
    } else {
        s
    }
}

/// `s` without its trailing double quotes.
pub open spec fn trim_end_quotes(s: Seq<char>) -> Seq<char>
    decreases s.len(),
{
    if s.len() > 0 && s.last() == '"' {
        trim_end_quotes(s.drop_last())
    } else {
        s
    }
}

/// `s` with each doubled double quote (left to right, not overlapping)
/// replaced by a single quote.
pub open spec fn unescape_quotes(s: Seq<char>) -> Seq<char>
    decreases s.len(),
{
    if s.len() >= 2 && s[0] == '"' && s[1] == '"' {
        seq!['\''] + unescape_quotes(s.subrange(2, s.len() as int))
    } else if s.len() == 0 {
        seq![]
    } else {
        seq![s[0]] + unescape_quotes(s.drop_first())
    }
}

/// The single-quoted string literal for a double-quoted identifier's text.
pub open spec fn dq_fix_text(t: Seq<char>) -> Seq<char> {
    seq!['\''] + unescape_quotes(trim_end_quotes(trim_start_quotes(t))) + seq!['\'']
}

/// Text without double quotes is left as it is by unescaping.
proof fn lemma_unescape_plain(x: Seq<char>)
    requires
        !x.contains('"'),
    ensures
        unescape_quotes(x) == x,
    decreases x.len(),
{
    if x.len() > 0 {
        assert(x[0] != '"');
        assert(!x.drop_first().contains('"')) by {
            if x.drop_first().contains('"') {
                let k = choose|k: int| 0 <= k < x.drop_first().len() && x.drop_first()[k] == '"';
                assert(x[k + 1] == '"');
            }
        }
        lemma_unescape_plain(x.drop_first());
        assert(seq![x[0]] + x.drop_first() =~= x);
    }
}

/// Unescaping passes over a leading text without double quotes.
proof fn lemma_unescape_prefix(a: Seq<char>, w: Seq<char>)
    requires
        !a.contains('"'),
    ensures
        unescape_quotes(a + w) == a + unescape_quotes(w),
    decreases a.len(),
{
    if a.len() > 0 {
        assert(a[0] != '"');
        let t = a.drop_first();
        assert(!t.contains('"')) by {
            if t.contains('"') {
                let k = choose|k: int| 0 <= k < t.len() && t[k] == '"';
                assert(a[k + 1] == '"');
            }
        }
        assert((a + w)[0] == a[0]);
        assert((a + w).drop_first() =~= t + w);
        lemma_unescape_prefix(t, w);
        assert(seq![a[0]] + (t + unescape_quotes(w)) =~= a + unescape_quotes(w));
    }
}

/// One opening double quote before a text that does not start with one is
/// all that the trimming of leading quotes removes.
proof fn lemma_trim_start_one_quote(y: Seq<char>)
    requires
        y.len() == 0 || y[0] != '"',
    ensures
        trim_start_quotes(seq!['"'] + y) == y,
{
    let s = seq!['"'] + y;
    assert(s[0] == '"');
    assert(s.drop_first() =~= y);
    assert(trim_start_quotes(y) == y);
    assert(trim_start_quotes(s) == trim_start_quotes(s.drop_first()));
}

/// One closing double quote after a text that does not end with one is all
/// that the trimming of trailing quotes removes.
proof fn lemma_trim_end_one_quote(y: Seq<char>)
    requires
        y.len() == 0 || y.last() != '"',
    ensures
        trim_end_quotes(y + seq!['"']) == y,
{
    let s = y + seq!['"'];
    assert(s.last() == '"');
    assert(s.drop_last() =~= y);
    assert(trim_end_quotes(y) == y);
    assert(trim_end_quotes(s) == trim_end_quotes(s.drop_last()));
}

/// The fix of a double-quoted identifier `"x"` without inner quotes is the
/// string literal `'x'`, over the identifier's span.
pub proof fn law_dq_fix_plain(d: LintDiagModel, source: Seq<char>, x: Seq<char>)
    requires
        byte_slice_chars(source, d.2.start as int, d.2.end as int) == seq!['"'] + x + seq!['"'],
        !x.contains('"'),
    ensures
        DoubleQuotedString.spec_fix(d, source) == Some((d.2, seq!['\''] + x + seq!['\''])),
{
    let t = seq!['"'] + x + seq!['"'];
    if x.len() > 0 {
        assert(x[0] != '"' && x.last() != '"') by {
            assert(x.contains(x[0]));
            assert(x.contains(x[x.len() - 1]));
        }
    }
    assert(t =~= seq!['"'] + (x + seq!['"']));
    if x.len() == 0 {
        assert(trim_start_quotes(t) == trim_start_quotes(seq!['"'] + Seq::<char>::empty())) by {
            assert(t.drop_first() =~= seq!['"']);
        }
        lemma_trim_start_one_quote(Seq::<char>::empty());
        assert(trim_end_quotes(Seq::<char>::empty()) == Seq::<char>::empty());
    } else {
        lemma_trim_start_one_quote(x + seq!['"']);
        lemma_trim_end_one_quote(x);
    }
    lemma_unescape_plain(x);
}

/// The single-quoted text of `"a""b"`.
proof fn lemma_dq_fix_text_doubled(a: Seq<char>, b: Seq<char>)
    requires
        a.len() > 0,
        b.len() > 0,
        !a.contains('"'),
        !b.contains('"'),
    ensures
        dq_fix_text(seq!['"'] + a + seq!['"', '"'] + b + seq!['"']) == seq!['\''] + a + seq!['\''] + b + seq!['\''],
{
    let inner = a + seq!['"', '"'] + b;
    let t = seq!['"'] + a + seq!['"', '"'] + b + seq!['"'];
    assert(a.contains(a[0]));
    assert(b.contains(b[b.len() - 1]));
    assert(t =~= seq!['"'] + (inner + seq!['"']));
    assert((inner + seq!['"'])[0] == a[0]);
    lemma_trim_start_one_quote(inner + seq!['"']);
    assert(trim_start_quotes(t) == inner + seq!['"']);
    assert(inner.last() == b[b.len() - 1]);
    lemma_trim_end_one_quote(inner);
    assert(trim_end_quotes(trim_start_quotes(t)) == inner);
    let w = seq!['"', '"'] + b;
    assert(inner =~= a + w);
    lemma_unescape_prefix(a, w);
    assert(w.len() >= 2 && w[0] == '"' && w[1] == '"');
    assert(w.subrange(2, w.len() as int) =~= b);
    lemma_unescape_plain(b);
    assert(unescape_quotes(w) == seq!['\''] + unescape_quotes(b));
    assert(unescape_quotes(inner) == a + (seq!['\''] + b));
    assert(seq!['\''] + (a + (seq!['\''] + b)) + seq!['\''] =~= seq!['\''] + a + seq!['\''] + b + seq!['\'']);
}

/// Each doubled double quote inside the identifier becomes a single quote:
/// the fix of `"a""b"` (with `a` and `b` not empty and without double
/// quotes) is `'a'b'`.
pub proof fn law_dq_fix_doubled_quote(d: LintDiagModel, source: Seq<char>, a: Seq<char>, b: Seq<char>)
    requires
        byte_slice_chars(source, d.2.start as int, d.2.end as int) == seq!['"'] + a + seq!['"', '"'] + b
            + seq!['"'],
        a.len() > 0,
        b.len() > 0,
        !a.contains('"'),
        !b.contains('"'),
    ensures
        DoubleQuotedString.spec_fix(d, source) == Some((d.2, seq!['\''] + a + seq!['\''] + b + seq!['\''])),
{
    lemma_dq_fix_text_doubled(a, b);
}

/// Warns about double-quoted strings, which are identifiers in SQL.
pub struct DoubleQuotedString;

impl LintRule for DoubleQuotedString {
    open spec fn spec_name(&self) -> Seq<char> {
        "Double-Quoted String"@
    }

    open spec fn spec_description(&self) -> Seq<char> {
        "Warns about double-quoted strings which are identifiers in SQL, not string literals"@
    }

    open spec fn spec_is_fixable(&self) -> bool {
        true
    }

    open spec fn spec_id(&self) -> Seq<char> {
        "double-quoted-string"@
    }

    open spec fn spec_default_severity(&self) -> RuleSeverity {
        RuleSeverity::Warning
    }

    open spec fn spec_check_expr(&self, e: Expr) -> Seq<LintDiagModel> {
        match e {
            Expr::Ident(_, dq, span) => if dq {
                seq![("double-quoted-string"@, dq_message(), span, RuleSeverity::Warning)]
            } else {
                seq![]
            },
            _ => seq![],
        }
    }

    open spec fn spec_check_stmt(&self, s: Statement, config: Seq<(Seq<char>, RuleSeverity)>) -> Seq<LintDiagModel> {
        seq![]
    }

    open spec fn spec_fix_ok(&self, d: LintDiagModel, source: Seq<char>) -> bool {
        byte_range_ok(source, d.2.start as int, d.2.end as int)
    }

    open spec fn spec_fix(&self, d: LintDiagModel, source: Seq<char>) -> Option<(Span, Seq<char>)> {
        Some((d.2, dq_fix_text(byte_slice_chars(source, d.2.start as int, d.2.end as int))))
    }

    fn id(&self) -> (r: &'static str) {
        "double-quoted-string"
    }

    fn name(&self) -> &'static str {
        "Double-Quoted String"
    }

    fn description(&self) -> &'static str {
        "Warns about double-quoted strings which are identifiers in SQL, not string literals"
    }

    fn default_severity(&self) -> (r: RuleSeverity) {
        RuleSeverity::Warning
    }

    fn check_expr(&self, expr: &Expr, ctx: &LintContext) -> (r: Vec<LintDiagnostic>) {
        let mut r: Vec<LintDiagnostic> = Vec::new();
        match expr {
            Expr::Ident(_, is_double_quoted, span) => {
                if *is_double_quoted {
                    r.push(LintDiagnostic {
                        rule_id: self.id(),
                        message: string_of(
                            "Double-quoted string is an identifier, not a string literal. Use single quotes for strings.",
                        ),
                        span: span.copy(),
                        severity: self.default_severity(),
                    });
                }
            }
            _ => {}
        }
        assert(lint_models(r@) =~= self.spec_check_expr(*expr));
        r
    }

    fn check_stmt(&self, stmt: &Statement, ctx: &LintContext) -> (r: Vec<LintDiagnostic>) {
        let r: Vec<LintDiagnostic> = Vec::new();
        assert(lint_models(r@) =~= Seq::<LintDiagModel>::empty());
        r
    }

    fn is_fixable(&self) -> bool {
        true
    }

    fn fix_ok(&self, diagnostic: &LintDiagnostic, source: &str) -> (r: bool) {
        range_ok(source, diagnostic.span.start, diagnostic.span.end)
    }

    fn fix(&self, diagnostic: &LintDiagnostic, source: &str) -> (r: Option<Fix>) {
        let original = byte_slice(source, diagnostic.span.start, diagnostic.span.end);
        let t = chars_of(original);
        let mut lo: usize = 0;
        assert(t@.subrange(0, t@.len() as int) =~= t@);
        while lo < t.len() && t[lo] == '"'
            invariant
                lo <= t@.len(),
                trim_start_quotes(t@) == trim_start_quotes(t@.subrange(lo as int, t@.len() as int)),
            decreases t@.len() - lo,
        {
            assert(t@.subrange(lo as int, t@.len() as int).drop_first() =~= t@.subrange(lo + 1, t@.len() as int));
            lo = lo + 1;
        }
        assert(t@.subrange(0, t@.len() as int) =~= t@);
        let mut hi: usize = t.len();
        while hi > lo && t[hi - 1] == '"'
            invariant
                lo <= hi <= t@.len(),
                trim_end_quotes(t@.subrange(lo as int, t@.len() as int)) == trim_end_quotes(t@.subrange(lo as int, hi as int)),
            decreases hi - lo,
        {
            assert(t@.subrange(lo as int, hi as int).drop_last() =~= t@.subrange(lo as int, hi - 1));
            hi = hi - 1;
        }
        let mut out: Vec<char> = Vec::new();
        out.push('\'');
        let mut i: usize = lo;
        while i < hi
            invariant
                lo <= i <= hi <= t@.len(),
                out@ + unescape_quotes(t@.subrange(i as int, hi as int)) == seq!['\''] + unescape_quotes(t@.subrange(lo as int, hi as int)),
            decreases hi - i,
        {
            let ghost rest = t@.subrange(i as int, hi as int);
            if i + 1 < hi && t[i] == '"' && t[i + 1] == '"' {
                out.push('\'');
                assert(rest.subrange(2, rest.len() as int) =~= t@.subrange(i + 2, hi as int));
                assert(out@ + unescape_quotes(t@.subrange(i + 2, hi as int)) =~= seq!['\''] + unescape_quotes(t@.subrange(lo as int, hi as int)));
                i = i + 2;
            } else {
                out.push(t[i]);
                assert(rest.drop_first() =~= t@.subrange(i + 1, hi as int));
                assert(out@ + unescape_quotes(t@.subrange(i + 1, hi as int)) =~= seq!['\''] + unescape_quotes(t@.subrange(lo as int, hi as int)));
                i = i + 1;
            }
        }
        out.push('\'');
        assert(out@ =~= dq_fix_text(t@));
        Some(Fix { span: diagnostic.span.copy(), replacement: string_from_chars(&out) })
    }
}

// ---------------------------------------------------------------------
// Aliases without AS
// ---------------------------------------------------------------------

/// The severity the missing-AS rule reports with under a configuration.
pub open spec fn missing_as_severity(config: Seq<(Seq<char>, RuleSeverity)>) -> RuleSeverity {
    match lookup(config, "missing-as"@) {
        Some(s) => s,
        None => RuleSeverity::Warning,
    }
}

/// The missing-AS diagnostics of a result list: each alias written without AS.
pub open spec fn missing_as_cols(cols: Seq<ResultColumn>, sev: RuleSeverity) -> Seq<LintDiagModel>
    decreases cols.len(),
{
    if cols.len() == 0 {
        seq![]
    } else {
        missing_as_cols(cols.drop_last(), sev) + match cols.last() {
            ResultColumn::Expr { alias, alias_has_as, span, .. } => match alias {
                Some(a) => if !alias_has_as {
                    seq![("missing-as"@, "Alias '"@ + a@ + "' should use AS keyword"@, span, sev)]
                } else {
                    seq![]
                },
                None => seq![],
            },
            _ => seq![],
        }
    }
}

/// The missing-AS diagnostics of a FROM item: table and subquery aliases
/// written without AS, through joins and parenthesized lists.
pub open spec fn missing_as_table(t: TableOrSubquery, sev: RuleSeverity) -> Seq<LintDiagModel>
    decreases t,
{
    match t {
        TableOrSubquery::Table { alias, alias_has_as, span, .. } => match alias {
            Some(a) => if !alias_has_as {
                seq![("missing-as"@, "Table alias '"@ + a@ + "' should use AS keyword"@, span, sev)]
            } else {
                seq![]
            },
            None => seq![],
        },
        TableOrSubquery::Subquery { alias, alias_has_as, span, .. } => match alias {
            Some(a) => if !alias_has_as {
                seq![("missing-as"@, "Subquery alias '"@ + a@ + "' should use AS keyword"@, span, sev)]
            } else {
                seq![]
            },
            None => seq![],
        },
        TableOrSubquery::Join { left, right, .. } => missing_as_table(*left, sev) + missing_as_table(*right, sev),
        TableOrSubquery::TableList { tables, .. } => missing_as_tables(tables@, sev),
        _ => seq![],
    }
}

/// The missing-AS diagnostics of a list of FROM items.
pub open spec fn missing_as_tables(ts: Seq<TableOrSubquery>, sev: RuleSeverity) -> Seq<LintDiagModel>
    decreases ts,
{
    if ts.len() == 0 {
        seq![]
    } else {
        missing_as_tables(ts.drop_last(), sev) + missing_as_table(ts.last(), sev)
    }
}

/// The index of the last whitespace character of `t`, if any.
pub open spec fn last_ws(t: Seq<char>) -> Option<int>
    decreases t.len(),
{
    if t.len() == 0 {
        None
    } else if spec_is_whitespace(t.last()) {
        Some(t.len() - 1)
    } else {
        last_ws(t.drop_last())
    }
}

/// The fixed text of an alias written without AS: the text up to and
/// including its last whitespace, `AS `, then the alias (the rest,
/// trimmed); nothing when the text has no whitespace.
pub open spec fn missing_as_fix_text(t: Seq<char>) -> Option<Seq<char>> {
    match last_ws(t) {
        Some(p) => Some(t.subrange(0, p + 1) + "AS "@ + trim_ws(t.subrange(p + 1, t.len() as int))),
        None => None,
    }
}

/// Warns when an alias is written without the AS keyword.
pub struct MissingAsAlias;

impl LintRule for MissingAsAlias {
    open spec fn spec_name(&self) -> Seq<char> {
        "Missing AS Keyword"@
    }

    open spec fn spec_description(&self) -> Seq<char> {
        "Warns when an alias is used without the AS keyword"@
    }

    open spec fn spec_is_fixable(&self) -> bool {
        true
    }

    open spec fn spec_id(&self) -> Seq<char> {
        "missing-as"@
    }

    open spec fn spec_default_severity(&self) -> RuleSeverity {
        RuleSeverity::Warning
    }

    open spec fn spec_check_expr(&self, e: Expr) -> Seq<LintDiagModel> {
        seq![]
    }

    open spec fn spec_check_stmt(&self, s: Statement, config: Seq<(Seq<char>, RuleSeverity)>) -> Seq<LintDiagModel> {
        match s {
            Statement::Select(sel) => {
                let sev = missing_as_severity(config);
                missing_as_cols(sel.columns@, sev) + match sel.from {
                    Some(f) => missing_as_tables(f.tables@, sev),
                    None => seq![],
                }
            },
            _ => seq![],
        }
    }

    /// The span lies on character boundaries of the source, and the last
    /// whitespace of its text, if any, is a one-byte character.
    open spec fn spec_fix_ok(&self, d: LintDiagModel, source: Seq<char>) -> bool {
        &&& byte_range_ok(source, d.2.start as int, d.2.end as int)
        &&& match last_ws(byte_slice_chars(source, d.2.start as int, d.2.end as int)) {
            Some(p) => (byte_slice_chars(source, d.2.start as int, d.2.end as int)[p] as u32) < 0x80,
            None => true,
        }
    }

    open spec fn spec_fix(&self, d: LintDiagModel, source: Seq<char>) -> Option<(Span, Seq<char>)> {
        match missing_as_fix_text(byte_slice_chars(source, d.2.start as int, d.2.end as int)) {
            Some(t) => Some((d.2, t)),
            None => None,
        }
    }

    fn id(&self) -> (r: &'static str) {
        "missing-as"
    }

    fn name(&self) -> &'static str {
        "Missing AS Keyword"
    }

    fn description(&self) -> &'static str {
        "Warns when an alias is used without the AS keyword"
    }

    fn default_severity(&self) -> (r: RuleSeverity) {
        RuleSeverity::Warning
    }

    fn check_expr(&self, expr: &Expr, ctx: &LintContext) -> (r: Vec<LintDiagnostic>) {
        let r: Vec<LintDiagnostic> = Vec::new();
        assert(lint_models(r@) =~= Seq::<LintDiagModel>::empty());
        r
    }

    fn check_stmt(&self, stmt: &Statement, ctx: &LintContext) -> (r: Vec<LintDiagnostic>) {
        let mut diagnostics: Vec<LintDiagnostic> = Vec::new();
        match stmt {
            Statement::Select(select) => {
                let sev = ctx.config.get_severity(self.id(), self.default_severity());
                let cols = &select.columns;
                let mut i: usize = 0;
                while i < cols.len()
                    invariant
                        i <= cols@.len(),
                        sev == missing_as_severity(ctx.config.rules@),
                        lint_models(diagnostics@) == missing_as_cols(cols@.subrange(0, i as int), sev),
                    decreases cols@.len() - i,
                {
                    let ghost before = diagnostics@;
                    match &cols[i] {
                        ResultColumn::Expr { alias, alias_has_as, span, .. } => {
                            match alias {
                                Some(a) => {
                                    if !*alias_has_as {
                                        diagnostics.push(LintDiagnostic {
                                            rule_id: self.id(),
                                            message: concat3("Alias '", a.as_str(), "' should use AS keyword"),
                                            span: span.copy(),
                                            severity: sev,
                                        });
                                    }
                                }
                                None => {}
                            }
                        }
                        _ => {}
                    }
                    proof {
                        let sub = cols@.subrange(0, i + 1);
                        assert(sub.drop_last() =~= cols@.subrange(0, i as int));
                        assert(sub.last() == cols@[i as int]);
                    }
                    assert(lint_models(diagnostics@) =~= missing_as_cols(cols@.subrange(0, i + 1), sev));
                    i = i + 1;
                }
                assert(cols@.subrange(0, cols@.len() as int) =~= cols@);
                match &select.from {
                    Some(from) => {
                        let ghost mid = lint_models(diagnostics@);
                        let mut j: usize = 0;
                        while j < from.tables.len()
                            invariant
                                j <= from.tables@.len(),
                                lint_models(diagnostics@) == mid + missing_as_tables(from.tables@.subrange(0, j as int), sev),
                            decreases from.tables@.len() - j,
                        {
                            self.check_table_alias(&from.tables[j], sev, &mut diagnostics);
                            assert(from.tables@.subrange(0, j + 1).drop_last() =~= from.tables@.subrange(0, j as int));
                            j = j + 1;
                        }
                        assert(from.tables@.subrange(0, from.tables@.len() as int) =~= from.tables@);
                    }
                    None => {}
                }
                assert(lint_models(diagnostics@) =~= self.spec_check_stmt(*stmt, ctx.config.rules@));
            }
            _ => {
                assert(lint_models(diagnostics@) =~= self.spec_check_stmt(*stmt, ctx.config.rules@));
            }
        }
        diagnostics
    }

    fn is_fixable(&self) -> bool {
        true
    }

    fn fix_ok(&self, diagnostic: &LintDiagnostic, source: &str) -> (r: bool) {
        if !range_ok(source, diagnostic.span.start, diagnostic.span.end) {
            return false;
        }
        let span_text = byte_slice(source, diagnostic.span.start, diagnostic.span.end);
        let t = chars_of(span_text);
        let mut p: usize = t.len();
        assert(t@.subrange(0, t@.len() as int) =~= t@);
        while p > 0 && !is_whitespace(t[p - 1])
            invariant
                p <= t@.len(),
                last_ws(t@) == last_ws(t@.subrange(0, p as int)),
            decreases p,
        {
            assert(t@.subrange(0, p as int).drop_last() =~= t@.subrange(0, p - 1));
            p = p - 1;
        }
        if p == 0 {
            assert(t@.subrange(0, 0) =~= Seq::<char>::empty());
            true
        } else {
            assert(last_ws(t@) == Some((p - 1) as int));
            (t[p - 1] as u32) < 0x80
        }
    }

    fn fix(&self, diagnostic: &LintDiagnostic, source: &str) -> (r: Option<Fix>) {
        let span_text = byte_slice(source, diagnostic.span.start, diagnostic.span.end);
        let t = chars_of(span_text);
        let mut p: usize = t.len();
        assert(t@.subrange(0, t@.len() as int) =~= t@);
        while p > 0 && !is_whitespace(t[p - 1])
            invariant
                p <= t@.len(),
                last_ws(t@) == last_ws(t@.subrange(0, p as int)),
            decreases p,
        {
            assert(t@.subrange(0, p as int).drop_last() =~= t@.subrange(0, p - 1));
            p = p - 1;
        }
        assert(t@.subrange(0, t@.len() as int) =~= t@);
        if p == 0 {
            assert(t@.subrange(0, 0) =~= Seq::<char>::empty());
            return None;
        }
        let ws = p - 1;
        assert(last_ws(t@) == Some(ws as int));
        let prefix = sub_chars(&t, 0, ws + 1);
        let (a, b) = trim_bounds(&t, ws + 1, t.len());
        let alias = sub_chars(&t, a, b);
        let mut replacement = string_from_chars(&prefix);
        push_str(&mut replacement, "AS ");
        let alias_text = string_from_chars(&alias);
        push_str(&mut replacement, alias_text.as_str());
        Some(Fix { span: diagnostic.span.copy(), replacement })
    }
}

impl MissingAsAlias {
    /// Reports the table and subquery aliases of a FROM item written without AS.
    #[verifier::loop_isolation(false)]
    pub fn check_table_alias(&self, table: &TableOrSubquery, sev: RuleSeverity, diagnostics: &mut Vec<LintDiagnostic>)
        ensures
            lint_models(final(diagnostics)@) == lint_models(old(diagnostics)@) + missing_as_table(*table, sev),
        decreases table,
    {
        let ghost before = lint_models(diagnostics@);
        match table {
            TableOrSubquery::Table { alias, alias_has_as, span, .. } => {
                match alias {
                    Some(a) => {
                        if !*alias_has_as {
                            diagnostics.push(LintDiagnostic {
                                rule_id: self.id(),
                                message: concat3("Table alias '", a.as_str(), "' should use AS keyword"),
                                span: span.copy(),
                                severity: sev,
                            });
                        }
                    }
                    None => {}
                }
                assert(lint_models(diagnostics@) =~= before + missing_as_table(*table, sev));
            }
            TableOrSubquery::Subquery { alias, alias_has_as, span, .. } => {
                match alias {
                    Some(a) => {
                        if !*alias_has_as {
                            diagnostics.push(LintDiagnostic {
                                rule_id: self.id(),
                                message: concat3("Subquery alias '", a.as_str(), "' should use AS keyword"),
                                span: span.copy(),
                                severity: sev,
                            });
                        }
                    }
                    None => {}
                }
                assert(lint_models(diagnostics@) =~= before + missing_as_table(*table, sev));
            }
            TableOrSubquery::Join { left, right, .. } => {
                self.check_table_alias(left, sev, diagnostics);
                self.check_table_alias(right, sev, diagnostics);
                assert(lint_models(diagnostics@) =~= before + missing_as_table(*table, sev));
            }
            TableOrSubquery::TableList { tables, .. } => {
                let mut i: usize = 0;
                while i < tables.len()
                    invariant
                        i <= tables@.len(),
                        lint_models(diagnostics@) == before + missing_as_tables(tables@.subrange(0, i as int), sev),
                    decreases tables@.len() - i,
                {
                    assert(decreases_to!(*table => tables@[i as int]));
                    self.check_table_alias(&tables[i], sev, diagnostics);
                    assert(tables@.subrange(0, i + 1).drop_last() =~= tables@.subrange(0, i as int));
                    i = i + 1;
                }
                assert(tables@.subrange(0, tables@.len() as int) =~= tables@);
            }
            _ => {
                assert(lint_models(diagnostics@) =~= before + missing_as_table(*table, sev));
            }
        }
    }
}

/// The ids of the built-in rules, in registry order.
pub open spec fn rule_ids() -> Seq<Seq<char>> {
    seq!["empty-blob-literal"@, "double-quoted-string"@, "missing-as"@]
}

/// The built-in rule with the given id, if there is one.
pub fn get_rule_by_id(id: &str) -> (r: Option<&'static dyn LintRule>)
    ensures
        match r {
            Some(rule) => rule.spec_id() == id@,
            None => !rule_ids().contains(id@),
        },
{
    if crate::text::str_eq(id, EmptyBlobLiteral.id()) {
        Some(&EmptyBlobLiteral)
    } else if crate::text::str_eq(id, DoubleQuotedString.id()) {
        Some(&DoubleQuotedString)
    } else if crate::text::str_eq(id, MissingAsAlias.id()) {
        Some(&MissingAsAlias)
    } else {
        None
    }
}

} // verus!
