//! Regenerating a documentation code block, one statement at a time: the
//! caller prepares and runs each statement and reports what happened; the
//! decisions of what the block reads afterwards are made here.

use vstd::prelude::*;
use crate::text::{byte_len, byte_range_ok, byte_slice, byte_slice_chars, lemma_slice_chars, chars_of, push_char, push_str, range_ok, spec_is_whitespace, string_from_chars, string_of, sub_chars, trim_end_ws, trim_start_ws, trim_ws};
use crate::cli::docs::{
    find_char, lemma_finds, skip_ws, starts_error_marker, skip_ws_from, stale_stripped, strip_expect_error_directive, strip_stale_result, stripped_directive,
    strip_stale, trailing_error, trailing_error_line, trim_end_len, trivia_chars, trivia_from,
};

verus! {

/// Where regenerating a code block stands.
#[derive(Debug)]
pub struct BlockRun {
    /// The block as regenerated so far.
    pub new_value: String,
    /// The SQL still to run.
    pub remaining: String,
    /// The result comment generated for the previous statement, if any.
    pub last_result: Option<String>,
}

/// What preparing the remaining SQL (and running the statement, when one
/// was prepared) gave.
#[derive(Debug)]
pub enum BlockEvent {
    /// A statement was prepared and run: its SQL; the byte offset in the
    /// remaining SQL where the SQL after it starts, when known; and the
    /// result comment it gave (`None` for a statement without columns), or
    /// the error message.
    Ran { sql: String, rest: Option<usize>, outcome: Result<Option<String>, String> },
    /// Nothing is left to prepare.
    Exhausted,
    /// Preparing failed with this message.
    PrepareFailed(String),
}

/// What to do next.
#[derive(Debug, PartialEq, Eq)]
pub enum BlockAction {
    /// Prepare the remaining SQL.
    Continue,
    /// The block is done: its regenerated text.
    Finish(String),
    /// A statement marked to fail succeeded: its trimmed text.
    ExpectedErrorSucceeded(String),
    /// A statement failed without being marked to: report the error.
    Report,
}

/// What a block run holds.
pub struct RunModel {
    pub new_value: Seq<char>,
    pub remaining: Seq<char>,
    pub last: Option<Seq<char>>,
}

/// What an event holds.
pub enum EventModel {
    Ran { sql: Seq<char>, rest: Option<int>, outcome: Result<Option<Seq<char>>, Seq<char>> },
    Exhausted,
    PrepareFailed(Seq<char>),
}

/// What an action holds.
pub enum ActionModel {
    Continue,
    Finish(Seq<char>),
    ExpectedErrorSucceeded(Seq<char>),
    Report,
}

impl View for BlockRun {
    type V = RunModel;

    open spec fn view(&self) -> RunModel {
        RunModel {
            new_value: self.new_value@,
            remaining: self.remaining@,
            last: match self.last_result {
                Some(t) => Some(t@),
                None => None,
            },
        }
    }
}

impl View for BlockEvent {
    type V = EventModel;

    open spec fn view(&self) -> EventModel {
        match self {
            BlockEvent::Ran { sql, rest, outcome } => EventModel::Ran {
                sql: sql@,
                rest: match rest {
                    Some(o) => Some(*o as int),
                    None => None,
                },
                outcome: match outcome {
                    Ok(Some(t)) => Ok(Some(t@)),
                    Ok(None) => Ok(None),
                    Err(m) => Err(m@),
                },
            },
            BlockEvent::Exhausted => EventModel::Exhausted,
            BlockEvent::PrepareFailed(m) => EventModel::PrepareFailed(m@),
        }
    }
}

impl View for BlockAction {
    type V = ActionModel;

    open spec fn view(&self) -> ActionModel {
        match self {
            BlockAction::Continue => ActionModel::Continue,
            BlockAction::Finish(t) => ActionModel::Finish(t@),
            BlockAction::ExpectedErrorSucceeded(t) => ActionModel::ExpectedErrorSucceeded(t@),
            BlockAction::Report => ActionModel::Report,
        }
    }
}

/// The model of an optional text.
pub open spec fn opt_str(o: Option<String>) -> Option<Seq<char>> {
    match o {
        Some(t) => Some(t@),
        None => None,
    }
}

/// The comment that stands for a failed statement.
pub open spec fn error_line(m: Seq<char>) -> Seq<char> {
    "-- error: "@ + m + seq!['\n']
}

/// The text of a statement as it is regenerated, and whether it was
/// marked to fail: its SQL without leading whitespace, without the result
/// comment of the previous statement, and without the directive.
pub open spec fn statement_text(sql: Seq<char>, last: Option<Seq<char>>) -> (Seq<char>, bool) {
    stripped_directive(stale_stripped(trim_start_ws(sql), last))
}

/// The text after the first `o` bytes, when they end on a character.
pub open spec fn after_bytes(c: Seq<char>, o: int) -> Option<Seq<char>> {
    let n = vstd::utf8::encode_utf8(c).len() as int;
    if byte_range_ok(c, o, n) {
        Some(byte_slice_chars(c, o, n))
    } else {
        None
    }
}

/// Goes on with the SQL after the statement, or, without one, ends with
/// the regenerated block without its trailing whitespace.
pub open spec fn advance(r: RunModel, after: Option<Seq<char>>) -> (RunModel, ActionModel) {
    match after {
        Some(a) => (RunModel { remaining: a, ..r }, ActionModel::Continue),
        None => (r, ActionModel::Finish(trim_end_ws(r.new_value))),
    }
}

/// A statement ran. Its text goes into the block; an `-- error:` line
/// right after it (from an earlier run), like the directive, marks it to
/// fail. A marked statement that succeeds ends the run; a failure of an
/// unmarked one is reported; otherwise the result comment (or the error
/// line) follows the text, and is what the next statement's text is
/// cleaned of (the stale error line when there was one).
pub open spec fn ran_step(r: RunModel, sql: Seq<char>, rest: Option<int>, outcome: Result<Option<Seq<char>>, Seq<char>>)
    -> (RunModel, ActionModel)
{
    let text = statement_text(sql, r.last).0;
    let directive = statement_text(sql, r.last).1;
    let after = match rest {
        Some(o) => after_bytes(r.remaining, o),
        None => None,
    };
    let stale = match after {
        Some(a) => trailing_error(a),
        None => None,
    };
    let expect = directive || stale is Some;
    let nv = r.new_value + text + seq!['\n'];
    match outcome {
        Ok(res) => if expect {
            (r, ActionModel::ExpectedErrorSucceeded(trim_ws(text)))
        } else {
            let nv2 = match res {
                Some(t) => nv + t,
                None => nv,
            };
            advance(RunModel { new_value: nv2, remaining: r.remaining, last: res }, after)
        },
        Err(m) => if expect {
            let last = match stale {
                Some(s) => s,
                None => error_line(m),
            };
            advance(RunModel { new_value: nv + error_line(m), remaining: r.remaining, last: Some(last) }, after)
        } else {
            (r, ActionModel::Report)
        },
    }
}

/// Preparing failed. The statement is taken to run to the first `;` after
/// the leading trivia (or to the end); when it is marked to fail, its text
/// and the error line go into the block, else the error is reported.
pub open spec fn failed_step(r: RunModel, m: Seq<char>) -> (RunModel, ActionModel) {
    let c = r.remaining;
    let end = match find_char(c, trivia_from(c, 0), ';') {
        Some(e) => Some(e + 1),
        None => None,
    };
    let stmt = match end {
        Some(e) => c.subrange(0, e),
        None => c,
    };
    let text = statement_text(stmt, r.last).0;
    let directive = statement_text(stmt, r.last).1;
    let after = match end {
        Some(e) => Some(c.skip(e)),
        None => None,
    };
    let stale = match after {
        Some(a) => trailing_error(a),
        None => None,
    };
    if directive || stale is Some {
        let last = match stale {
            Some(s) => s,
            None => error_line(m),
        };
        advance(
            RunModel {
                new_value: r.new_value + trim_end_ws(text) + seq!['\n'] + error_line(m),
                remaining: r.remaining,
                last: Some(last),
            },
            after,
        )
    } else {
        (r, ActionModel::Report)
    }
}

/// One step of regenerating a block.
pub open spec fn step_of(r: RunModel, e: EventModel) -> (RunModel, ActionModel) {
    match e {
        EventModel::Ran { sql, rest, outcome } => ran_step(r, sql, rest, outcome),
        EventModel::Exhausted => (r, ActionModel::Finish(trim_end_ws(r.new_value))),
        EventModel::PrepareFailed(m) => failed_step(r, m),
    }
}

/// A result comment that is not blank.
pub open spec fn not_blank(t: Option<Seq<char>>) -> bool {
    t matches Some(p) ==> trim_end_ws(p).len() > 0
}

/// What a run keeps: the previous result comment is not blank.
pub open spec fn run_ok(r: RunModel) -> bool {
    not_blank(r.last)
}

/// What an event must hold: a result comment is not blank.
pub open spec fn event_ok(e: EventModel) -> bool {
    e matches EventModel::Ran { outcome: Ok(res), .. } ==> not_blank(res)
}

/// A text that starts with a character that is not whitespace keeps that
/// character when trimmed at the end.
proof fn lemma_trim_end_keeps_start(s: Seq<char>)
    requires
        s.len() > 0,
        !spec_is_whitespace(s[0]),
    ensures
        trim_end_ws(s).len() > 0,
    decreases s.len(),
{
    if s.len() > 1 && spec_is_whitespace(s.last()) {
        lemma_trim_end_keeps_start(s.drop_last());
    }
}

/// The text with its leading whitespace removed.
fn trimmed_start(s: &str) -> (r: String)
    ensures
        r@ == trim_start_ws(s@),
{
    let v = chars_of(s);
    let k = skip_ws_from(&v, 0);
    assert(v@.skip(0) =~= v@);
    let t = sub_chars(&v, k, v.len());
    assert(t@ =~= v@.skip(k as int));
    string_from_chars(&t)
}

/// The text with its trailing whitespace removed.
fn trimmed_end(s: &str) -> (r: String)
    ensures
        r@ == trim_end_ws(s@),
{
    let v = chars_of(s);
    let e = trim_end_len(&v);
    let t = sub_chars(&v, 0, e);
    string_from_chars(&t)
}

/// The regenerated text of a statement and whether it is marked to fail.
fn statement_text_of(sql: &str, last: &Option<String>) -> (r: (String, bool))
    requires
        not_blank(
            match last {
                Some(t) => Some(t@),
                None => None,
            },
        ),
    ensures
        (r.0@, r.1) == statement_text(
            sql@,
            match last {
                Some(t) => Some(t@),
                None => None,
            },
        ),
{
    let t0 = trimmed_start(sql);
    let t1 = strip_stale_result(t0.as_str(), last);
    strip_expect_error_directive(t1)
}

/// The `-- error:` line of a message.
fn error_line_of(m: &String) -> (r: String)
    ensures
        r@ == error_line(m@),
        trim_end_ws(r@).len() > 0,
{
    let mut r = string_of("-- error: ");
    push_str(&mut r, m.as_str());
    push_char(&mut r, '\n');
    proof {
        reveal_strlit("-- error: ");
    }
    assert(r@ =~= error_line(m@));
    proof {
        assert(r@[0] == '-');
        lemma_trim_end_keeps_start(r@);
    }
    r
}

/// The error line after a statement, given the SQL after it.
fn stale_error_of(after: &Option<String>) -> (r: Option<String>)
    ensures
        (match r {
            Some(t) => Some(t@),
            None => None,
        }) == match after {
            Some(a) => trailing_error(a@),
            None => None,
        },
        not_blank(
            match r {
                Some(t) => Some(t@),
                None => None,
            },
        ),
{
    match after {
        Some(a) => match trailing_error_line(a.as_str()) {
            Some(l) => {
                            let line = string_of(l);
                proof {
                    reveal_strlit("-- error:");
                    assert(line@.subrange(0, 9) == "-- error:"@);
                    assert(line@[0] == "-- error:"@[0]);
                    lemma_trim_end_keeps_start(line@);
                }
                Some(line)
            },
            None => None,
        },
        None => None,
    }
}

/// One step of regenerating a code block: updates the run and says what
/// to do next.
pub fn block_step(run: &mut BlockRun, event: BlockEvent) -> (r: BlockAction)
    requires
        run_ok(old(run)@),
        event_ok(event@),
    ensures
        (final(run)@, r@) == step_of(old(run)@, event@),
        run_ok(final(run)@),
{
    match event {
        BlockEvent::Exhausted => {
            let done = trimmed_end(run.new_value.as_str());
            BlockAction::Finish(done)
        },
        BlockEvent::Ran { sql, rest, outcome } => ran(run, sql, rest, outcome),
        BlockEvent::PrepareFailed(m) => failed(run, m),
    }
}

/// Goes on with `after`, or finishes.
fn advance_to(run: &mut BlockRun, after: Option<String>) -> (r: BlockAction)
    ensures
        (final(run)@, r@) == advance(
            old(run)@,
            match after {
                Some(a) => Some(a@),
                None => None,
            },
        ),
{
    match after {
        Some(a) => {
            run.remaining = a;
            BlockAction::Continue
        },
        None => {
            let done = trimmed_end(run.new_value.as_str());
            BlockAction::Finish(done)
        },
    }
}

fn ran(run: &mut BlockRun, sql: String, rest: Option<usize>, outcome: Result<Option<String>, String>) -> (r: BlockAction)
    requires
        run_ok(old(run)@),
        event_ok(BlockEvent::Ran { sql, rest, outcome }@),
    ensures
        (final(run)@, r@) == ran_step(
            old(run)@,
            sql@,
            match rest {
                Some(o) => Some(o as int),
                None => None,
            },
            match outcome {
                Ok(Some(t)) => Ok(Some(t@)),
                Ok(None) => Ok(None),
                Err(m) => Err(m@),
            },
        ),
        run_ok(final(run)@),
{
    let ghost r0 = run@;
    let ghost rest_m: Option<int> = match rest {
        Some(o) => Some(o as int),
        None => None,
    };
    let (text, directive) = statement_text_of(sql.as_str(), &run.last_result);
    let clen = run.remaining.as_str().as_bytes().len();
    proof {
        vstd::utf8::encode_utf8_valid_utf8(run.remaining@);
    }
    assert(clen == vstd::utf8::encode_utf8(run.remaining@).len());
    let after: Option<String> = match rest {
        Some(o) => {
            if range_ok(run.remaining.as_str(), o, clen) {
                Some(string_of(byte_slice(run.remaining.as_str(), o, clen)))
            } else {
                None
            }
        },
        None => None,
    };
    let ghost after_m = match rest_m {
        Some(o) => after_bytes(r0.remaining, o),
        None => None,
    };
    assert(opt_str(after) == after_m);
    let stale = stale_error_of(&after);
    let expect = directive || stale.is_some();
    assert(expect == (statement_text(sql@, r0.last).1 || (match after_m {
        Some(a) => trailing_error(a),
        None => None,
    }) is Some));
    let ghost out_m: Result<Option<Seq<char>>, Seq<char>> = match &outcome {
        Ok(Some(t)) => Ok(Some(t@)),
        Ok(None) => Ok(None),
        Err(m) => Err(m@),
    };
    let ghost want = ran_step(r0, sql@, rest_m, out_m);
    match outcome {
        Ok(res) => {
            if expect {
                let t = trimmed_end(trimmed_start(text.as_str()).as_str());
                assert(run@ == want.0);
                assert(BlockAction::ExpectedErrorSucceeded(t)@ == want.1);
                return BlockAction::ExpectedErrorSucceeded(t);
            }
            push_str(&mut run.new_value, text.as_str());
            push_char(&mut run.new_value, '\n');
            match &res {
                Some(t) => push_str(&mut run.new_value, t.as_str()),
                None => {},
            }
            run.last_result = res;
            assert(run@.new_value == r0.new_value + statement_text(sql@, r0.last).0 + seq!['\n'] + match out_m {
                Ok(Some(t)) => t,
                _ => Seq::empty(),
            });
            let a = advance_to(run, after);
            assert(run@ == want.0);
            assert(a@ == want.1);
            a
        },
        Err(m) => {
            if !expect {
                assert(run@ == want.0);
                assert(BlockAction::Report@ == want.1);
                return BlockAction::Report;
            }
            let line = error_line_of(&m);
            push_str(&mut run.new_value, text.as_str());
            push_char(&mut run.new_value, '\n');
            push_str(&mut run.new_value, line.as_str());
            run.last_result = match stale {
                Some(s) => Some(s),
                None => Some(line),
            };
            assert(run@.new_value =~= r0.new_value + statement_text(sql@, r0.last).0 + seq!['\n'] + error_line(m@));
            let a = advance_to(run, after);
            assert(run@ == want.0);
            assert(a@ == want.1);
            a
        },
    }
}

fn failed(run: &mut BlockRun, m: String) -> (r: BlockAction)
    requires
        run_ok(old(run)@),
    ensures
        (final(run)@, r@) == failed_step(old(run)@, m@),
        run_ok(final(run)@),
{
    let ghost r0 = run@;
    let ghost want = failed_step(r0, m@);
    let c = chars_of(run.remaining.as_str());
    let t = trivia_chars(&c);
    let mut e = t;
    while e < c.len() && c[e] != ';'
        invariant
            t <= e <= c@.len(),
            find_char(c@, t as int, ';') == find_char(c@, e as int, ';'),
        decreases c@.len() - e,
    {
        e = e + 1;
    }
    let end: Option<usize> = if e < c.len() { Some(e + 1) } else { None };
    assert(match end {
        Some(x) => find_char(c@, trivia_from(c@, 0), ';') == Some(x - 1),
        None => find_char(c@, trivia_from(c@, 0), ';') is None,
    });
    let stmt = match end {
        Some(x) => string_from_chars(&sub_chars(&c, 0, x)),
        None => string_from_chars(&c),
    };
    let (text, directive) = statement_text_of(stmt.as_str(), &run.last_result);
    let after: Option<String> = match end {
        Some(x) => {
            let rest = sub_chars(&c, x, c.len());
            assert(rest@ =~= c@.skip(x as int));
            Some(string_from_chars(&rest))
        },
        None => None,
    };
    let stale = stale_error_of(&after);
    if !(directive || stale.is_some()) {
        assert(run@ == want.0);
        return BlockAction::Report;
    }
    let line = error_line_of(&m);
    let trimmed = trimmed_end(text.as_str());
    push_str(&mut run.new_value, trimmed.as_str());
    push_char(&mut run.new_value, '\n');
    push_str(&mut run.new_value, line.as_str());
    run.last_result = match stale {
        Some(s) => Some(s),
        None => Some(line),
    };
    assert(run@.new_value =~= r0.new_value + trim_end_ws(text@) + seq!['\n'] + error_line(m@));
    let a = advance_to(run, after);
    assert(run@ == want.0);
    assert(a@ == want.1);
    a
}

/// Trimming at the end keeps a prefix that reaches past every character
/// that is not whitespace.
proof fn lemma_trim_end_prefix(s: Seq<char>, k: int)
    requires
        0 <= k < s.len(),
        !spec_is_whitespace(s[k]),
    ensures
        k < trim_end_ws(s).len() <= s.len(),
        trim_end_ws(s) == s.subrange(0, trim_end_ws(s).len() as int),
    decreases s.len(),
{
    if spec_is_whitespace(s.last()) {
        let d = s.drop_last();
        lemma_trim_end_prefix(d, k);
        assert(trim_end_ws(s) == trim_end_ws(d));
        let n = trim_end_ws(d).len() as int;
        assert(d.subrange(0, n) =~= s.subrange(0, n));
    } else {
        assert(s.subrange(0, s.len() as int) =~= s);
    }
}

/// The first `x` at or after `i` is at `j` when `j` holds one and nothing
/// before it does.
proof fn lemma_find_char_at(c: Seq<char>, i: int, j: int, x: char)
    requires
        0 <= i <= j < c.len(),
        c[j] == x,
        forall|k: int| i <= k < j ==> c[k] != x,
    ensures
        find_char(c, i, x) == Some(j),
    decreases j - i,
{
    if i < j {
        lemma_find_char_at(c, i + 1, j, x);
    }
}

/// The error line written under a failing statement is, when the block is
/// regenerated, the `-- error:` line after the statement that marks it as
/// expected to fail (for a message without a line break).
pub proof fn law_error_line_marks_rerun(m: Seq<char>, t: Seq<char>)
    requires
        !m.contains('\n'),
    ensures
        trailing_error(seq!['\n'] + error_line(m) + t) == Some(trim_end_ws("-- error: "@ + m)),
{
    reveal_strlit("-- error: ");
    reveal_strlit("-- error:");
    let head = "-- error: "@ + m;
    let c = seq!['\n'] + error_line(m) + t;
    let e = (head.len() + 1) as int;
    assert(c.subrange(1, e) =~= head);
    assert(c[e] == '\n');
    assert(skip_ws(c, 1) == 1);
    assert(skip_ws(c, 0) == 1);
    assert forall|k: int| 1 <= k < e implies c[k] != '\n' by {
        assert(c[k] == head[k - 1]);
        if k - 1 >= 10 {
            assert(head[k - 1] == m[k - 11]);
            assert(m.contains(m[k - 11]));
        }
    }
    lemma_find_char_at(c, 1, e, '\n');
    assert(head[8] == ':');
    lemma_trim_end_prefix(head, 8);
    let line = trim_end_ws(head);
    assert(line.subrange(0, 9) =~= head.subrange(0, 9));
    assert(head.subrange(0, 9) =~= "-- error:"@);
}


/// The line after a statement that a failing, marked statement left in the
/// regenerated block is read back as an `-- error:` line.
proof fn lemma_error_line_read_back(t: Seq<char>, m: Seq<char>)
    ensures
        ({
            let once = trim_end_ws(t + seq!['\n'] + error_line(m));
            &&& t.len() + 10 <= once.len()
            &&& once.subrange(0, t.len() as int) == t
            &&& trailing_error(once.skip(t.len() as int)) is Some
        }),
{
    reveal_strlit("-- error: ");
    reveal_strlit("-- error:");
    let s = t + seq!['\n'] + error_line(m);
    let n = t.len() as int;
    assert(s[n + 9] == ':');
    lemma_trim_end_prefix(s, n + 9);
    let once = trim_end_ws(s);
    assert(once.subrange(0, n) =~= t);
    let a = once.skip(n);
    assert forall|j: int| 0 <= j < 10 implies #[trigger] a[j] == (seq!['\n'] + "-- error:"@)[j] by {
        assert(a[j] == s[n + j]);
    }
    assert(a[0] == '\n');
    assert(a[1] == '-');
    assert(skip_ws(a, 1) == 1);
    assert(skip_ws(a, 0) == 1);
    lemma_finds(a, 1, '\n', '/');
    let e = match find_char(a, 1, '\n') {
        Some(k) => k,
        None => a.len() as int,
    };
    if e < 10 {
        assert(a[e] == (seq!['\n'] + "-- error:"@)[e]);
        assert(false);
    }
    let u = a.subrange(1, e);
    assert(u[8] == ':');
    lemma_trim_end_prefix(u, 8);
    let line = trim_end_ws(u);
    assert(line.subrange(0, 9) =~= "-- error:"@) by {
        assert forall|j: int| 0 <= j < 9 implies line.subrange(0, 9)[j] == "-- error:"@[j] by {
            assert(line[j] == u[j]);
            assert(u[j] == a[j + 1]);
        }
    }
}

/// A block holding one statement marked to fail (and nothing else left to
/// clean from its text) regenerates to the same text when it is run again
/// on its own output, as long as the statement fails with the same message.
/// Each run gets from the database what it reports for such a block: the
/// statement, where the text after it starts, the failure, then nothing left
/// to prepare.
pub proof fn law_expect_error_rerun_stable(sql: Seq<char>, m: Seq<char>)
    requires
        statement_text(sql, None).1,
        statement_text(statement_text(sql, None).0, None) == (statement_text(sql, None).0, false),
    ensures
        ({
            let t = statement_text(sql, None).0;
            let once = trim_end_ws(t + seq!['\n'] + error_line(m));
            let first = step_of(
                RunModel { new_value: Seq::empty(), remaining: sql, last: None },
                EventModel::Ran { sql: sql, rest: Some(byte_len(sql, sql.len() as int)), outcome: Err(m) },
            );
            let again = step_of(
                RunModel { new_value: Seq::empty(), remaining: once, last: None },
                EventModel::Ran { sql: t, rest: Some(byte_len(once, t.len() as int)), outcome: Err(m) },
            );
            &&& first.1 == ActionModel::Continue
            &&& step_of(first.0, EventModel::Exhausted).1 == ActionModel::Finish(once)
            &&& again.1 == ActionModel::Continue
            &&& step_of(again.0, EventModel::Exhausted).1 == ActionModel::Finish(once)
        }),
{
    let t = statement_text(sql, None).0;
    let s = t + seq!['\n'] + error_line(m);
    let once = trim_end_ws(s);
    let ln = sql.len() as int;
    lemma_slice_chars(sql, ln, ln);
    assert(sql.subrange(0, ln) =~= sql);
    assert(sql.subrange(ln, ln) =~= Seq::<char>::empty());
    assert(after_bytes(sql, byte_len(sql, ln)) == Some(Seq::<char>::empty()));
    assert(trailing_error(Seq::<char>::empty()) is None);
    assert(Seq::<char>::empty() + t + seq!['\n'] + error_line(m) =~= s);
    lemma_error_line_read_back(t, m);
    let n = t.len() as int;
    let lo = once.len() as int;
    lemma_slice_chars(once, n, lo);
    assert(once.subrange(0, lo) =~= once);
    assert(once.subrange(n, lo) =~= once.skip(n));
    assert(after_bytes(once, byte_len(once, n)) == Some(once.skip(n)));
}


/// Removing leading whitespace twice removes it once.
proof fn lemma_trim_start_twice(s: Seq<char>)
    ensures
        trim_start_ws(trim_start_ws(s)) == trim_start_ws(s),
    decreases s.len(),
{
    if s.len() > 0 && spec_is_whitespace(s[0]) {
        lemma_trim_start_twice(s.drop_first());
    }
}

/// The result comment written after a statement is not read back as an
/// `-- error:` line when it does not start with one.
proof fn lemma_result_read_back(t: Seq<char>, o: Seq<char>)
    requires
        o.len() > 0,
        !spec_is_whitespace(o[0]),
        !starts_error_marker(o),
    ensures
        ({
            let once = trim_end_ws(t + seq!['\n'] + o);
            &&& t.len() + 2 <= once.len()
            &&& once.subrange(0, t.len() as int) == t
            &&& trailing_error(once.skip(t.len() as int)) is None
        }),
{
    reveal_strlit("-- error:");
    let s = t + seq!['\n'] + o;
    let n = t.len() as int;
    assert(s[n + 1] == o[0]);
    lemma_trim_end_prefix(s, n + 1);
    let once = trim_end_ws(s);
    assert(once.subrange(0, n) =~= t);
    let a = once.skip(n);
    assert(a[0] == s[n]);
    assert(a[1] == s[n + 1]);
    assert(skip_ws(a, 1) == 1);
    assert(skip_ws(a, 0) == 1);
    lemma_finds(a, 1, '\n', '/');
    let e = match find_char(a, 1, '\n') {
        Some(k) => k,
        None => a.len() as int,
    };
    assert(e >= 2) by {
        if e < 2 {
            assert(a[1] == '\n');
        }
    }
    let u = a.subrange(1, e);
    assert(u[0] == o[0]);
    lemma_trim_end_prefix(u, 0);
    let line = trim_end_ws(u);
    if starts_error_marker(line) {
        assert(o.len() >= 9) by {
            assert(s.len() >= once.len());
        }
        assert(o.subrange(0, 9) =~= "-- error:"@) by {
            assert forall|j: int| 0 <= j < 9 implies o.subrange(0, 9)[j] == "-- error:"@[j] by {
                assert(line[j] == u[j]);
                assert(u[j] == a[j + 1]);
                assert(a[j + 1] == s[n + 1 + j]);
                assert(line.subrange(0, 9)[j] == line[j]);
            }
        }
        assert(false);
    }
}

/// A block holding one statement that is not marked to fail and gives a
/// result comment regenerates to the same text when it is run again on its
/// own output, as long as the statement gives the same result. Each run gets
/// from the database what it reports for such a block: the statement, where
/// the text after it starts, its result, then nothing left to prepare.
pub proof fn law_result_rerun_stable(sql: Seq<char>, o: Seq<char>)
    requires
        !statement_text(sql, None).1,
        o.len() > 0,
        !spec_is_whitespace(o[0]),
        !starts_error_marker(o),
    ensures
        ({
            let t = statement_text(sql, None).0;
            let once = trim_end_ws(t + seq!['\n'] + o);
            let first = step_of(
                RunModel { new_value: Seq::empty(), remaining: sql, last: None },
                EventModel::Ran { sql: sql, rest: Some(byte_len(sql, sql.len() as int)), outcome: Ok(Some(o)) },
            );
            let again = step_of(
                RunModel { new_value: Seq::empty(), remaining: once, last: None },
                EventModel::Ran { sql: t, rest: Some(byte_len(once, t.len() as int)), outcome: Ok(Some(o)) },
            );
            &&& first.1 == ActionModel::Continue
            &&& step_of(first.0, EventModel::Exhausted).1 == ActionModel::Finish(once)
            &&& again.1 == ActionModel::Continue
            &&& step_of(again.0, EventModel::Exhausted).1 == ActionModel::Finish(once)
        }),
{
    let t = statement_text(sql, None).0;
    assert(t == trim_start_ws(sql));
    lemma_trim_start_twice(sql);
    assert(statement_text(t, None) == (t, false));
    let s = t + seq!['\n'] + o;
    let once = trim_end_ws(s);
    let ln = sql.len() as int;
    lemma_slice_chars(sql, ln, ln);
    assert(sql.subrange(0, ln) =~= sql);
    assert(sql.subrange(ln, ln) =~= Seq::<char>::empty());
    assert(after_bytes(sql, byte_len(sql, ln)) == Some(Seq::<char>::empty()));
    assert(trailing_error(Seq::<char>::empty()) is None);
    assert(Seq::<char>::empty() + t + seq!['\n'] + o =~= s);
    lemma_result_read_back(t, o);
    let n = t.len() as int;
    let lo = once.len() as int;
    lemma_slice_chars(once, n, lo);
    assert(once.subrange(0, lo) =~= once);
    assert(once.subrange(n, lo) =~= once.skip(n));
    assert(after_bytes(once, byte_len(once, n)) == Some(once.skip(n)));
}


// ---------------------------------------------------------------------
// Running a block again on its own output
// ---------------------------------------------------------------------

/// What one statement of a block left in the regenerated text: its text,
/// and its result comment (`Ok`) or the message it failed with (`Err`).
pub type Piece = (Seq<char>, Result<Seq<char>, Seq<char>>);

/// What a statement's piece writes after its text: the result comment, or
/// the `-- error:` line.
pub open spec fn piece_out(p: Piece) -> Seq<char> {
    match p.1 {
        Ok(o) => o,
        Err(m) => error_line(m),
    }
}

/// What running the statement of a piece gives.
pub open spec fn piece_outcome(p: Piece) -> Result<Option<Seq<char>>, Seq<char>> {
    match p.1 {
        Ok(o) => Ok(Some(o)),
        Err(m) => Err(m),
    }
}

/// What a run remembers after the statement of a piece ran again on the
/// regenerated text: its result comment, or the error line read back.
pub open spec fn piece_last(p: Piece) -> Seq<char> {
    match p.1 {
        Ok(o) => o,
        Err(m) => trim_end_ws(error_line(m)),
    }
}

/// The text regenerated from the pieces, before its trailing whitespace
/// is removed: each statement's text, a line break, what it wrote.
pub open spec fn regenerated(pieces: Seq<Piece>) -> Seq<char>
    decreases pieces.len(),
{
    if pieces.len() == 0 {
        Seq::empty()
    } else {
        regenerated(pieces.drop_last()) + pieces.last().0 + seq!['\n'] + piece_out(pieces.last())
    }
}

/// What the database reports as the SQL of the `i`-th statement of the
/// regenerated text: from the end of the previous statement (so with the
/// line break and what the previous statement wrote) to the end of its
/// text.
pub open spec fn rerun_sql(pieces: Seq<Piece>, i: int) -> Seq<char> {
    if i == 0 {
        pieces[0].0
    } else {
        seq!['\n'] + piece_out(pieces[i - 1]) + pieces[i].0
    }
}

/// The regenerated text from the end of the statement before the `i`-th
/// one (the whole text for the first).
pub open spec fn rerun_text(pieces: Seq<Piece>, i: int) -> Seq<char>
    decreases pieces.len() - i,
{
    if i < 0 || pieces.len() == 0 {
        Seq::empty()
    } else if i >= pieces.len() {
        seq!['\n'] + trim_end_ws(piece_out(pieces.last()))
    } else {
        rerun_sql(pieces, i) + rerun_text(pieces, i + 1)
    }
}

/// What the database reports, statement by statement, when the regenerated
/// text runs again with the same outcomes: each statement's SQL, where the
/// text after it starts, its outcome; then nothing left to prepare.
pub open spec fn rerun_events(pieces: Seq<Piece>) -> Seq<EventModel> {
    Seq::new(
        pieces.len() + 1,
        |i: int|
            if i < pieces.len() {
                EventModel::Ran {
                    sql: rerun_sql(pieces, i),
                    rest: Some(byte_len(rerun_text(pieces, i), rerun_sql(pieces, i).len() as int)),
                    outcome: piece_outcome(pieces[i]),
                }
            } else {
                EventModel::Exhausted
            },
    )
}

/// The steps of a block run over a series of events, up to the first
/// action that is not to go on.
pub open spec fn run_events(r: RunModel, events: Seq<EventModel>) -> ActionModel
    decreases events.len(),
{
    if events.len() == 0 {
        ActionModel::Continue
    } else {
        let (r2, a) = step_of(r, events[0]);
        if a is Continue {
            run_events(r2, events.drop_first())
        } else {
            a
        }
    }
}

/// A piece that reads back as itself: its text starts with a character
/// that is not whitespace and holds no directive; what it wrote ends with
/// one line break after a non-blank text that starts with a character that
/// is not whitespace; a result comment does not read as an `-- error:`
/// line, and an error message is a single line.
pub open spec fn piece_ok(p: Piece) -> bool {
    let o = piece_out(p);
    &&& p.0.len() > 0
    &&& !spec_is_whitespace(p.0[0])
    &&& stripped_directive(p.0) == (p.0, false)
    &&& trim_end_ws(o).len() > 0
    &&& o == trim_end_ws(o) + seq!['\n']
    &&& !spec_is_whitespace(o[0])
    &&& match p.1 {
        Ok(r) => trailing_error(seq!['\n'] + r) is None,
        Err(m) => !m.contains('\n'),
    }
}

/// Pieces that read back as themselves, no statement text starting with
/// what the statement before it wrote.
pub open spec fn pieces_ok(pieces: Seq<Piece>) -> bool {
    &&& pieces.len() > 0
    &&& forall|i: int| 0 <= i < pieces.len() ==> piece_ok(#[trigger] pieces[i])
    &&& forall|i: int|
        1 <= i < pieces.len() ==> !trim_end_ws(piece_out(pieces[i - 1])).is_prefix_of(#[trigger] pieces[i].0)
}

/// The first `x` at or after `i` in a text is where it is in any longer
/// text that starts with it; where the text has none, the first `x` of the
/// longer text is the one just after it.
proof fn lemma_find_char_extend(c2: Seq<char>, c1: Seq<char>, i: int, x: char)
    requires
        c2.len() < c1.len(),
        c1.subrange(0, c2.len() as int) == c2,
        0 <= i <= c2.len(),
        c1[c2.len() as int] == x,
    ensures
        find_char(c1, i, x) == match find_char(c2, i, x) {
            Some(k) => Some(k),
            None => Some(c2.len() as int),
        },
    decreases c2.len() - i,
{
    if i < c2.len() {
        assert(c1[i] == c2[i]);
        if c2[i] != x {
            lemma_find_char_extend(c2, c1, i + 1, x);
        }
    }
}

/// Only the first line after a statement decides whether it reads as an
/// `-- error:` line.
proof fn lemma_first_line_decides(p: Seq<char>, x: Seq<char>)
    requires
        p.len() > 0,
        !spec_is_whitespace(p[0]),
    ensures
        trailing_error(seq!['\n'] + p + seq!['\n'] + x) == trailing_error(seq!['\n'] + p),
{
    let a2 = seq!['\n'] + p;
    let a1 = seq!['\n'] + p + seq!['\n'] + x;
    assert(a1.subrange(0, a2.len() as int) =~= a2);
    assert(a1[a2.len() as int] == '\n');
    assert(a1[0] == '\n' && a2[0] == '\n');
    assert(a1[1] == p[0] && a2[1] == p[0]);
    assert(skip_ws(a1, 1) == 1);
    assert(skip_ws(a2, 1) == 1);
    assert(skip_ws(a1, 0) == 1);
    assert(skip_ws(a2, 0) == 1);
    lemma_find_char_extend(a2, a1, 1, '\n');
    lemma_finds(a2, 1, '\n', '/');
    let e = match find_char(a2, 1, '\n') {
        Some(k) => k,
        None => a2.len() as int,
    };
    assert(a1.subrange(1, e) =~= a2.subrange(1, e));
}

/// A non-blank text without its trailing whitespace ends with a character
/// that is not whitespace, and trimming it again changes nothing.
proof fn lemma_trim_end_last(s: Seq<char>)
    requires
        trim_end_ws(s).len() > 0,
    ensures
        !spec_is_whitespace(trim_end_ws(s).last()),
        trim_end_ws(trim_end_ws(s)) == trim_end_ws(s),
    decreases s.len(),
{
    if s.len() > 0 && spec_is_whitespace(s.last()) {
        lemma_trim_end_last(s.drop_last());
    }
}

/// A text after a line break, without leading whitespace, when it starts
/// with a character that is not whitespace.
proof fn lemma_trim_start_after_break(x: Seq<char>)
    requires
        x.len() > 0,
        !spec_is_whitespace(x[0]),
    ensures
        trim_start_ws(seq!['\n'] + x) == x,
{
    let s = seq!['\n'] + x;
    assert(s[0] == '\n');
    assert(spec_is_whitespace('\n'));
    assert(s.drop_first() =~= x);
    assert(trim_start_ws(x) == x);
}

/// Regenerating the pieces of two blocks one after the other.
proof fn lemma_regenerated_concat(a: Seq<Piece>, b: Seq<Piece>)
    ensures
        regenerated(a + b) == regenerated(a) + regenerated(b),
    decreases b.len(),
{
    if b.len() == 0 {
        assert(a + b =~= a);
        assert(regenerated(a) + regenerated(b) =~= regenerated(a));
    } else {
        assert((a + b).drop_last() =~= a + b.drop_last());
        lemma_regenerated_concat(a, b.drop_last());
        assert(regenerated(a + b) =~= regenerated(a) + regenerated(b));
    }
}

/// The regenerated text from the `i`-th statement on is what the
/// regenerated pieces from there write, after what the statement before
/// wrote, less the final line break.
proof fn lemma_rerun_text_shape(pieces: Seq<Piece>, i: int)
    requires
        pieces_ok(pieces),
        0 <= i < pieces.len(),
    ensures
        (if i == 0 {
            Seq::<char>::empty()
        } else {
            seq!['\n'] + piece_out(pieces[i - 1])
        }) + regenerated(pieces.skip(i)) == rerun_text(pieces, i) + seq!['\n'],
    decreases pieces.len() - i,
{
    let n = pieces.len() as int;
    let p = pieces[i];
    assert(piece_ok(p));
    let o = piece_out(p);
    let pl = trim_end_ws(o);
    assert(o == pl + seq!['\n']);
    let lead = if i == 0 {
        Seq::<char>::empty()
    } else {
        seq!['\n'] + piece_out(pieces[i - 1])
    };
    assert(rerun_sql(pieces, i) =~= lead + p.0);
    let single = seq![p];
    assert(pieces.skip(i) =~= single + pieces.skip(i + 1));
    lemma_regenerated_concat(single, pieces.skip(i + 1));
    assert(single.drop_last() =~= Seq::<Piece>::empty());
    assert(single.last() == p);
    assert(regenerated(Seq::<Piece>::empty()) == Seq::<char>::empty());
    assert(regenerated(single) == regenerated(single.drop_last()) + p.0 + seq!['\n'] + o);
    assert(regenerated(single) =~= p.0 + seq!['\n'] + o);
    let tail = regenerated(pieces.skip(i + 1));
    assert(regenerated(pieces.skip(i)) == p.0 + seq!['\n'] + o + tail);
    if i == n - 1 {
        assert(pieces.skip(i + 1) =~= Seq::<Piece>::empty());
        assert(tail == Seq::<char>::empty());
        assert(pieces.last() == p);
        assert(rerun_text(pieces, i + 1) == seq!['\n'] + pl);
        assert(rerun_text(pieces, i) == rerun_sql(pieces, i) + rerun_text(pieces, i + 1));
        assert(lead + regenerated(pieces.skip(i)) =~= rerun_text(pieces, i) + seq!['\n']);
    } else {
        lemma_rerun_text_shape(pieces, i + 1);
        assert(seq!['\n'] + o + tail == rerun_text(pieces, i + 1) + seq!['\n']);
        assert(rerun_text(pieces, i) == rerun_sql(pieces, i) + rerun_text(pieces, i + 1));
        let head = lead + p.0;
        assert(lead + regenerated(pieces.skip(i)) =~= head + (seq!['\n'] + o + tail));
        assert(rerun_text(pieces, i) + seq!['\n'] =~= head + (rerun_text(pieces, i + 1) + seq!['\n']));
    }
}

/// The block's output, the regenerated text without its trailing
/// whitespace, is the text the rerun goes through.
proof fn lemma_output_is_rerun_text(pieces: Seq<Piece>)
    requires
        pieces_ok(pieces),
    ensures
        trim_end_ws(regenerated(pieces)) == rerun_text(pieces, 0),
{
    lemma_rerun_text_shape(pieces, 0);
    assert(pieces.skip(0) =~= pieces);
    let t = rerun_text(pieces, 0);
    let r = regenerated(pieces);
    assert(Seq::<char>::empty() + r =~= r);
    assert(r == t + seq!['\n']);
    let last = pieces.last();
    assert(piece_ok(pieces[pieces.len() - 1]));
    let o = piece_out(last);
    let pl = trim_end_ws(o);
    lemma_trim_end_last(o);
    assert(o == pl + seq!['\n']);
    let before = regenerated(pieces.drop_last()) + last.0 + seq!['\n'] + pl;
    assert(r == regenerated(pieces.drop_last()) + last.0 + seq!['\n'] + o);
    assert(r =~= before + seq!['\n']);
    assert(t =~= before) by {
        assert(t =~= r.drop_last());
        assert(before =~= r.drop_last());
    }
    assert(t.last() == pl.last());
    assert(spec_is_whitespace('\n'));
    assert(r.drop_last() =~= t);
    assert(trim_end_ws(r) == trim_end_ws(t));
    assert(trim_end_ws(t) == t);
}

/// What a run remembers before the `i`-th statement runs again.
pub open spec fn last_before(pieces: Seq<Piece>, i: int) -> Option<Seq<char>> {
    if i == 0 {
        None
    } else {
        Some(piece_last(pieces[i - 1]))
    }
}

/// Where a rerun stands before the `i`-th statement runs again.
pub open spec fn rerun_state(pieces: Seq<Piece>, i: int) -> RunModel {
    RunModel {
        new_value: regenerated(pieces.take(i)),
        remaining: rerun_text(pieces, i),
        last: last_before(pieces, i),
    }
}

/// Running a statement again gives back its text and writes again what it
/// wrote.
proof fn lemma_rerun_step(pieces: Seq<Piece>, i: int)
    requires
        pieces_ok(pieces),
        0 <= i < pieces.len(),
    ensures
        step_of(rerun_state(pieces, i), rerun_events(pieces)[i]) == (rerun_state(pieces, i + 1), ActionModel::Continue),
{
    let n = pieces.len() as int;
    let p = pieces[i];
    assert(piece_ok(p));
    let t = p.0;
    let sql = rerun_sql(pieces, i);
    let rt = rerun_text(pieces, i);
    let next = rerun_text(pieces, i + 1);
    assert(rt == sql + next);
    // The statement's text, cleaned as a rerun cleans it.
    assert(trim_start_ws(t) == t);
    if i == 0 {
        assert(statement_text(sql, None) == (t, false));
    } else {
        let q = pieces[i - 1];
        assert(piece_ok(q));
        let o = piece_out(q);
        let pl = trim_end_ws(o);
        lemma_trim_end_last(o);
        lemma_trim_start_after_break(o + t);
        assert(sql =~= seq!['\n'] + (o + t));
        assert(trim_end_ws(piece_last(q)) == pl) by {
            match q.1 {
                Ok(r) => {},
                Err(m) => {},
            }
        }
        assert((o + t).subrange(0, pl.len() as int) =~= pl);
        assert(pl.is_prefix_of(o + t));
        assert((o + t).skip(pl.len() as int) =~= seq!['\n'] + t);
        lemma_trim_start_after_break(t);
        assert(!pl.is_prefix_of(t));
        assert(strip_stale(t, pl) == t);
        assert(strip_stale(o + t, pl) == t);
        assert(stale_stripped(o + t, Some(piece_last(q))) == t);
        assert(statement_text(sql, last_before(pieces, i)) == (t, false));
    }
    // The text after it, and whether it reads as an error line.
    let len = rt.len() as int;
    lemma_slice_chars(rt, sql.len() as int, len);
    assert(rt.subrange(0, len) =~= rt);
    assert(rt.subrange(sql.len() as int, len) =~= next);
    assert(after_bytes(rt, byte_len(rt, sql.len() as int)) == Some(next));
    let o = piece_out(p);
    let pl = trim_end_ws(o);
    lemma_trim_end_last(o);
    assert(pl[0] == o[0]);
    lemma_first_line_decides(pl, Seq::empty());
    assert(seq!['\n'] + o =~= seq!['\n'] + pl + seq!['\n'] + Seq::<char>::empty());
    if i + 1 < n {
        let q = pieces[i + 1];
        assert(next =~= seq!['\n'] + pl + seq!['\n'] + (q.0 + rerun_text(pieces, i + 2)));
        lemma_first_line_decides(pl, q.0 + rerun_text(pieces, i + 2));
    } else {
        assert(pieces.last() == p);
        assert(next == seq!['\n'] + pl);
    }
    assert(trailing_error(next) == trailing_error(seq!['\n'] + o));
    // The regenerated text so far.
    assert(pieces.take(i + 1).drop_last() =~= pieces.take(i));
    assert(pieces.take(i + 1).last() == p);
    match p.1 {
        Ok(r) => {
            assert(trailing_error(next) is None);
        },
        Err(m) => {
            law_error_line_marks_rerun(m, Seq::empty());
            assert(seq!['\n'] + error_line(m) + Seq::<char>::empty() =~= seq!['\n'] + o);
            assert(error_line(m).drop_last() =~= "-- error: "@ + m);
            assert(trim_end_ws(error_line(m)) == trim_end_ws("-- error: "@ + m));
            assert(trailing_error(next) == Some(piece_last(p)));
        },
    }
}

/// The rerun from the `i`-th statement on ends with the block's output.
proof fn lemma_rerun_from(pieces: Seq<Piece>, i: int)
    requires
        pieces_ok(pieces),
        0 <= i <= pieces.len(),
    ensures
        run_events(rerun_state(pieces, i), rerun_events(pieces).skip(i)) == ActionModel::Finish(rerun_text(pieces, 0)),
    decreases pieces.len() - i,
{
    let n = pieces.len() as int;
    let ev = rerun_events(pieces);
    let rest = ev.skip(i);
    assert(rest[0] == ev[i]);
    if i == n {
        assert(pieces.take(n) =~= pieces);
        lemma_output_is_rerun_text(pieces);
        assert(rest.drop_first().len() == 0);
    } else {
        lemma_rerun_step(pieces, i);
        assert(rest.drop_first() =~= ev.skip(i + 1));
        lemma_rerun_from(pieces, i + 1);
    }
}

/// Regenerating a block from its own output, with the database giving the
/// same outcomes for the same statements, gives the same text. A block
/// whose statements left `pieces` (each statement's text and its result
/// comment or failure) has the output `once`, the regenerated text without
/// its trailing whitespace; run again on `once`, statement by statement as
/// the database reports them, it finishes with `once`.
pub proof fn law_rerun_regenerates_same_text(pieces: Seq<Piece>)
    requires
        pieces_ok(pieces),
    ensures
        ({
            let once = trim_end_ws(regenerated(pieces));
            run_events(RunModel { new_value: Seq::empty(), remaining: once, last: None }, rerun_events(pieces))
                == ActionModel::Finish(once)
        }),
{
    lemma_output_is_rerun_text(pieces);
    lemma_rerun_from(pieces, 0);
    assert(pieces.take(0) =~= Seq::<Piece>::empty());
    assert(rerun_events(pieces).skip(0) =~= rerun_events(pieces));
    assert(rerun_state(pieces, 0) == RunModel {
        new_value: Seq::<char>::empty(),
        remaining: trim_end_ws(regenerated(pieces)),
        last: None,
    });
}

} // verus!
