//! Lint suppressions: a `-- solite-ignore: rule1, rule2` comment (or the
//! same text in a `/* ... */` comment) suppresses the named rules on the
//! line after the comment.

use vstd::prelude::*;
use crate::text::{chars_of, spec_is_whitespace, string_from_chars, sub_chars, trim_bounds, trim_end_ws, trim_start_ws, trim_ws};

verus! {

// ---------------------------------------------------------------------
// Finding comments
// ---------------------------------------------------------------------

/// The position just after a quoted token whose opening quote `q` ends
/// before `i`: a doubled quote stands for the quote itself; an unterminated
/// token runs to the end.
pub open spec fn quote_end(s: Seq<char>, i: int, q: char) -> int
    decreases s.len() - i,
{
    if i >= s.len() {
        s.len() as int
    } else if s[i] == q {
        if i + 1 < s.len() && s[i + 1] == q {
            quote_end(s, i + 2, q)
        } else {
            i + 1
        }
    } else {
        quote_end(s, i + 1, q)
    }
}

/// The position just after the `]` closing a bracketed identifier.
pub open spec fn bracket_end(s: Seq<char>, i: int) -> int
    decreases s.len() - i,
{
    if i >= s.len() {
        s.len() as int
    } else if s[i] == ']' {
        i + 1
    } else {
        bracket_end(s, i + 1)
    }
}

/// The end of a line comment: the next newline (not included), or the end.
pub open spec fn line_comment_end(s: Seq<char>, i: int) -> int
    decreases s.len() - i,
{
    if i >= s.len() {
        s.len() as int
    } else if s[i] == '\n' {
        i
    } else {
        line_comment_end(s, i + 1)
    }
}

/// The end of a block comment: just after the closing `*/`, or the end.
pub open spec fn block_comment_end(s: Seq<char>, i: int) -> int
    decreases s.len() - i,
{
    if i >= s.len() {
        s.len() as int
    } else if s[i] == '*' && i + 1 < s.len() && s[i + 1] == '/' {
        i + 2
    } else {
        block_comment_end(s, i + 1)
    }
}

/// Each end function moves forward and stays within the text.
pub proof fn lemma_ends(s: Seq<char>, i: int, q: char)
    requires
        0 <= i <= s.len(),
    ensures
        i <= quote_end(s, i, q) <= s.len(),
        i <= bracket_end(s, i) <= s.len(),
        i <= line_comment_end(s, i) <= s.len(),
        i <= block_comment_end(s, i) <= s.len(),
    decreases s.len() - i,
{
    if i < s.len() {
        lemma_ends(s, i + 1, q);
        if i + 2 <= s.len() {
            lemma_ends(s, i + 2, q);
        }
    }
}

/// The comments of SQL text from position `i` on, as `(start, end)`
/// character positions: `--` to the end of the line and `/* ... */`
/// comments, skipping string literals and quoted identifiers.
pub open spec fn comments_from(s: Seq<char>, i: int) -> Seq<(int, int)>
    decreases s.len() - i,
{
    if i < 0 || i >= s.len() {
        seq![]
    } else {
        proof {
            lemma_ends(s, i + 1, s[i]);
        }
        if s[i] == '-' && i + 1 < s.len() && s[i + 1] == '-' {
            proof {
                lemma_ends(s, i + 2, s[i]);
            }
            let e = line_comment_end(s, i + 2);
            seq![(i, e)] + comments_from(s, e)
        } else if s[i] == '/' && i + 1 < s.len() && s[i + 1] == '*' {
            proof {
                lemma_ends(s, i + 2, s[i]);
            }
            let e = block_comment_end(s, i + 2);
            seq![(i, e)] + comments_from(s, e)
        } else if s[i] == '\'' || s[i] == '"' || s[i] == '`' {
            comments_from(s, quote_end(s, i + 1, s[i]))
        } else if s[i] == '[' {
            comments_from(s, bracket_end(s, i + 1))
        } else {
            comments_from(s, i + 1)
        }
    }
}

/// The number of newlines among the first `n` characters.
pub open spec fn newlines_before(s: Seq<char>, n: int) -> nat
    decreases n,
{
    if n <= 0 || s.len() == 0 {
        0
    } else if n > s.len() {
        newlines_before(s, s.len() as int)
    } else {
        newlines_before(s, n - 1) + if s[n - 1] == '\n' { 1nat } else { 0nat }
    }
}

/// Skips a quoted token whose opening quote is just before `i`.
fn skip_quoted(s: &Vec<char>, i: usize, q: char) -> (r: usize)
    requires
        i <= s.len(),
    ensures
        r == quote_end(s@, i as int, q),
{
    let mut j = i;
    while j < s.len()
        invariant
            i <= j <= s.len(),
            quote_end(s@, i as int, q) == quote_end(s@, j as int, q),
        decreases s.len() - j,
    {
        if s[j] == q {
            if j + 1 < s.len() && s[j + 1] == q {
                j = j + 2;
            } else {
                return j + 1;
            }
        } else {
            j = j + 1;
        }
    }
    s.len()
}

/// Skips a bracketed identifier whose `[` is just before `i`.
fn skip_bracketed(s: &Vec<char>, i: usize) -> (r: usize)
    requires
        i <= s.len(),
    ensures
        r == bracket_end(s@, i as int),
{
    let mut j = i;
    while j < s.len()
        invariant
            i <= j <= s.len(),
            bracket_end(s@, i as int) == bracket_end(s@, j as int),
        decreases s.len() - j,
    {
        if s[j] == ']' {
            return j + 1;
        }
        j = j + 1;
    }
    s.len()
}

/// The end of a line comment whose text starts at `i`.
fn skip_line_comment(s: &Vec<char>, i: usize) -> (r: usize)
    requires
        i <= s.len(),
    ensures
        r == line_comment_end(s@, i as int),
{
    let mut j = i;
    while j < s.len()
        invariant
            i <= j <= s.len(),
            line_comment_end(s@, i as int) == line_comment_end(s@, j as int),
        decreases s.len() - j,
    {
        if s[j] == '\n' {
            return j;
        }
        j = j + 1;
    }
    s.len()
}

/// The end of a block comment whose text starts at `i`.
fn skip_block_comment(s: &Vec<char>, i: usize) -> (r: usize)
    requires
        i <= s.len(),
    ensures
        r == block_comment_end(s@, i as int),
{
    let mut j = i;
    while j < s.len()
        invariant
            i <= j <= s.len(),
            block_comment_end(s@, i as int) == block_comment_end(s@, j as int),
        decreases s.len() - j,
    {
        if s[j] == '*' && j + 1 < s.len() && s[j + 1] == '/' {
            return j + 2;
        }
        j = j + 1;
    }
    s.len()
}

/// The comments of SQL text, as `(start, end)` character positions.
pub fn comment_ranges(s: &Vec<char>) -> (r: Vec<(usize, usize)>)
    ensures
        r@.map_values(|p: (usize, usize)| (p.0 as int, p.1 as int)) == comments_from(s@, 0),
{
    let mut r: Vec<(usize, usize)> = Vec::new();
    let mut i: usize = 0;
    while i < s.len()
        invariant
            i <= s.len(),
            r@.map_values(|p: (usize, usize)| (p.0 as int, p.1 as int)) + comments_from(s@, i as int)
                == comments_from(s@, 0),
        decreases s.len() - i,
    {
        let ghost before = r@;
        let c = s[i];
        proof {
            lemma_ends(s@, i + 1, c);
        }
        if c == '-' && i + 1 < s.len() && s[i + 1] == '-' {
            proof {
                lemma_ends(s@, i + 2, c);
            }
            let e = skip_line_comment(s, i + 2);
            r.push((i, e));
            assert(r@.map_values(|p: (usize, usize)| (p.0 as int, p.1 as int))
                =~= before.map_values(|p: (usize, usize)| (p.0 as int, p.1 as int)).push((i as int, e as int)));
            assert(comments_from(s@, i as int) =~= seq![(i as int, e as int)] + comments_from(s@, e as int));
            i = e;
        } else if c == '/' && i + 1 < s.len() && s[i + 1] == '*' {
            proof {
                lemma_ends(s@, i + 2, c);
            }
            let e = skip_block_comment(s, i + 2);
            r.push((i, e));
            assert(r@.map_values(|p: (usize, usize)| (p.0 as int, p.1 as int))
                =~= before.map_values(|p: (usize, usize)| (p.0 as int, p.1 as int)).push((i as int, e as int)));
            assert(comments_from(s@, i as int) =~= seq![(i as int, e as int)] + comments_from(s@, e as int));
            i = e;
        } else if c == '\'' || c == '"' || c == '`' {
            i = skip_quoted(s, i + 1, c);
        } else if c == '[' {
            i = skip_bracketed(s, i + 1);
        } else {
            i = i + 1;
        }
    }
    assert(comments_from(s@, i as int) =~= Seq::<(int, int)>::empty());
    r
}

// ---------------------------------------------------------------------
// Reading a suppression comment
// ---------------------------------------------------------------------

/// `s` without every leading copy of the two-character marker `p`.
pub open spec fn strip_all_prefix(s: Seq<char>, p: Seq<char>) -> Seq<char>
    decreases s.len(),
{
    if p.len() == 2 && s.len() >= 2 && s[0] == p[0] && s[1] == p[1] {
        strip_all_prefix(s.subrange(2, s.len() as int), p)
    } else {
        s
    }
}

/// `s` without every trailing copy of the two-character marker `p`.
pub open spec fn strip_all_suffix(s: Seq<char>, p: Seq<char>) -> Seq<char>
    decreases s.len(),
{
    if p.len() == 2 && s.len() >= 2 && s[s.len() - 2] == p[0] && s[s.len() - 1] == p[1] {
        strip_all_suffix(s.subrange(0, s.len() - 2), p)
    } else {
        s
    }
}

/// The text of a comment without its markers: leading `--` and `/*`,
/// trailing `*/`, then surrounding whitespace.
pub open spec fn comment_body(c: Seq<char>) -> Seq<char> {
    trim_ws(strip_all_suffix(strip_all_prefix(strip_all_prefix(c, seq!['-', '-']), seq!['/', '*']), seq!['*', '/']))
}

/// The directive that opens a suppression comment.
pub open spec fn ignore_prefix() -> Seq<char> {
    seq!['s', 'o', 'l', 'i', 't', 'e', '-', 'i', 'g', 'n', 'o', 'r', 'e', ':']
}

/// A piece of a list, trimmed, kept when not empty.
pub open spec fn trimmed_piece(s: Seq<char>, a: int, b: int) -> Seq<Seq<char>> {
    let t = trim_ws(s.subrange(a, b));
    if t.len() > 0 {
        seq![t]
    } else {
        seq![]
    }
}

/// The comma-separated pieces of `s` from position `j` on, the current
/// piece starting at `start`, each trimmed, empty ones dropped.
pub open spec fn pieces_from(s: Seq<char>, start: int, j: int) -> Seq<Seq<char>>
    decreases s.len() - j,
{
    if j < start || start < 0 || j >= s.len() {
        trimmed_piece(s, start, s.len() as int)
    } else if s[j] == ',' {
        trimmed_piece(s, start, j) + pieces_from(s, j + 1, j + 1)
    } else {
        pieces_from(s, start, j + 1)
    }
}

/// The rule ids a comment suppresses: after its markers and whitespace it
/// must start with `solite-ignore:`, followed by a comma-separated list of
/// at least one non-empty id.
pub open spec fn ignore_rules(c: Seq<char>) -> Option<Seq<Seq<char>>> {
    let t = comment_body(c);
    let p = ignore_prefix();
    if t.len() >= p.len() && t.subrange(0, p.len() as int) == p {
        let list = trim_ws(t.subrange(p.len() as int, t.len() as int));
        let ids = pieces_from(list, 0, 0);
        if ids.len() == 0 {
            None
        } else {
            Some(ids)
        }
    } else {
        None
    }
}

/// The comma-separated ids of `s`, trimmed, empty ones dropped.
fn split_ids(s: &Vec<char>) -> (r: Vec<String>)
    ensures
        crate::ast::texts(r@) == pieces_from(s@, 0, 0),
{
    let mut r: Vec<String> = Vec::new();
    let mut start: usize = 0;
    let mut j: usize = 0;
    while j < s.len()
        invariant
            start <= j <= s.len(),
            crate::ast::texts(r@) + pieces_from(s@, start as int, j as int) == pieces_from(s@, 0, 0),
        decreases s.len() - j,
    {
        if s[j] == ',' {
            let ghost before = r@;
            let (a, b) = trim_bounds(s, start, j);
            if a < b {
                let piece = sub_chars(s, a, b);
                r.push(string_from_chars(&piece));
            }
            assert(crate::ast::texts(r@) =~= crate::ast::texts(before) + trimmed_piece(s@, start as int, j as int));
            start = j + 1;
            j = j + 1;
        } else {
            j = j + 1;
        }
    }
    let ghost before = r@;
    let (a, b) = trim_bounds(s, start, s.len());
    if a < b {
        let piece = sub_chars(s, a, b);
        r.push(string_from_chars(&piece));
    }
    assert(crate::ast::texts(r@) =~= crate::ast::texts(before) + trimmed_piece(s@, start as int, s@.len() as int));
    r
}

/// The bounds of the body of a comment (see `comment_body`).
fn comment_body_bounds(c: &Vec<char>) -> (r: (usize, usize))
    ensures
        r.0 <= r.1 <= c@.len(),
        c@.subrange(r.0 as int, r.1 as int) == comment_body(c@),
{
    let n = c.len();
    let mut lo: usize = 0;
    assert(c@.subrange(0, n as int) =~= c@);
    while n - lo >= 2 && c[lo] == '-' && c[lo + 1] == '-'
        invariant
            lo <= n == c@.len(),
            strip_all_prefix(c@, seq!['-', '-']) == strip_all_prefix(c@.subrange(lo as int, n as int), seq!['-', '-']),
        decreases n - lo,
    {
        assert(c@.subrange(lo as int, n as int).subrange(2, n - lo) =~= c@.subrange(lo + 2, n as int));
        lo = lo + 2;
    }
    assert(strip_all_prefix(c@.subrange(lo as int, n as int), seq!['-', '-']) == c@.subrange(lo as int, n as int));
    let ghost after_dash = lo;
    while n - lo >= 2 && c[lo] == '/' && c[lo + 1] == '*'
        invariant
            after_dash <= lo <= n == c@.len(),
            strip_all_prefix(c@.subrange(after_dash as int, n as int), seq!['/', '*'])
                == strip_all_prefix(c@.subrange(lo as int, n as int), seq!['/', '*']),
        decreases n - lo,
    {
        assert(c@.subrange(lo as int, n as int).subrange(2, n - lo) =~= c@.subrange(lo + 2, n as int));
        lo = lo + 2;
    }
    assert(strip_all_prefix(c@.subrange(lo as int, n as int), seq!['/', '*']) == c@.subrange(lo as int, n as int));
    let mut hi: usize = n;
    while hi - lo >= 2 && c[hi - 2] == '*' && c[hi - 1] == '/'
        invariant
            lo <= hi <= n == c@.len(),
            strip_all_suffix(c@.subrange(lo as int, n as int), seq!['*', '/'])
                == strip_all_suffix(c@.subrange(lo as int, hi as int), seq!['*', '/']),
        decreases hi - lo,
    {
        assert(c@.subrange(lo as int, hi as int).subrange(0, hi - lo - 2) =~= c@.subrange(lo as int, hi - 2));
        hi = hi - 2;
    }
    assert(strip_all_suffix(c@.subrange(lo as int, hi as int), seq!['*', '/']) == c@.subrange(lo as int, hi as int));
    trim_bounds(c, lo, hi)
}

/// Whether `c[a..b]` starts with `solite-ignore:`.
fn starts_with_ignore_prefix(c: &Vec<char>, a: usize, b: usize) -> (r: bool)
    requires
        a <= b <= c@.len(),
    ensures
        r == (b - a >= 14 && c@.subrange(a as int, a + 14) == ignore_prefix()),
{
    if b - a < 14 {
        return false;
    }
    let r = c[a] == 's' && c[a + 1] == 'o' && c[a + 2] == 'l' && c[a + 3] == 'i' && c[a + 4] == 't'
        && c[a + 5] == 'e' && c[a + 6] == '-' && c[a + 7] == 'i' && c[a + 8] == 'g' && c[a + 9] == 'n'
        && c[a + 10] == 'o' && c[a + 11] == 'r' && c[a + 12] == 'e' && c[a + 13] == ':';
    proof {
        let t = c@.subrange(a as int, a + 14);
        if r {
            assert(t =~= ignore_prefix());
        } else {
            if t == ignore_prefix() {
                assert(t[0] == c@[a as int] && t[1] == c@[a + 1] && t[2] == c@[a + 2] && t[3] == c@[a + 3]);
                assert(t[4] == c@[a + 4] && t[5] == c@[a + 5] && t[6] == c@[a + 6] && t[7] == c@[a + 7]);
                assert(t[8] == c@[a + 8] && t[9] == c@[a + 9] && t[10] == c@[a + 10] && t[11] == c@[a + 11]);
                assert(t[12] == c@[a + 12] && t[13] == c@[a + 13]);
            }
        }
    }
    r
}

/// Reads a `solite-ignore:` directive from a comment, returning the rule
/// ids it lists, or `None` when the comment is no such directive or lists
/// no id.
pub fn parse_ignore_comment(comment: &str) -> (r: Option<Vec<String>>)
    ensures
        match ignore_rules(comment@) {
            Some(ids) => r matches Some(v) && crate::ast::texts(v@) == ids,
            None => r is None,
        },
{
    let c = chars_of(comment);
    let (a, b) = comment_body_bounds(&c);
    let ghost body = c@.subrange(a as int, b as int);
    if !starts_with_ignore_prefix(&c, a, b) {
        assert(body.len() >= 14 ==> body.subrange(0, 14) =~= c@.subrange(a as int, a + 14));
        return None;
    }
    assert(body.subrange(0, 14) =~= c@.subrange(a as int, a + 14));
    let (la, lb) = trim_bounds(&c, a + 14, b);
    let list = sub_chars(&c, la, lb);
    assert(body.subrange(14, body.len() as int) =~= c@.subrange(a + 14, b as int));
    let ids = split_ids(&list);
    if ids.len() == 0 {
        None
    } else {
        Some(ids)
    }
}


// ---------------------------------------------------------------------
// Suppressions
// ---------------------------------------------------------------------

/// Every comment range lies within the text, in order.
pub proof fn lemma_comments_bounds(s: Seq<char>, i: int)
    requires
        0 <= i,
    ensures
        forall|k: int| 0 <= k < comments_from(s, i).len() ==> {
            let p = #[trigger] comments_from(s, i)[k];
            i <= p.0 <= p.1 <= s.len()
        },
    decreases s.len() - i,
{
    if i < s.len() {
        lemma_ends(s, i + 1, s[i]);
        if s[i] == '-' && i + 1 < s.len() && s[i + 1] == '-' {
            lemma_ends(s, i + 2, s[i]);
            let e = line_comment_end(s, i + 2);
            lemma_comments_bounds(s, e);
            assert(comments_from(s, i) == seq![(i, e)] + comments_from(s, e));
            assert forall|k: int| 0 <= k < comments_from(s, i).len() implies {
                let p = #[trigger] comments_from(s, i)[k];
                i <= p.0 <= p.1 <= s.len()
            } by {
                if k > 0 {
                    assert(comments_from(s, i)[k] == comments_from(s, e)[k - 1]);
                }
            }
        } else if s[i] == '/' && i + 1 < s.len() && s[i + 1] == '*' {
            lemma_ends(s, i + 2, s[i]);
            let e = block_comment_end(s, i + 2);
            lemma_comments_bounds(s, e);
            assert(comments_from(s, i) == seq![(i, e)] + comments_from(s, e));
            assert forall|k: int| 0 <= k < comments_from(s, i).len() implies {
                let p = #[trigger] comments_from(s, i)[k];
                i <= p.0 <= p.1 <= s.len()
            } by {
                if k > 0 {
                    assert(comments_from(s, i)[k] == comments_from(s, e)[k - 1]);
                }
            }
        } else if s[i] == '\'' || s[i] == '"' || s[i] == '`' {
            lemma_comments_bounds(s, quote_end(s, i + 1, s[i]));
            assert(comments_from(s, i) == comments_from(s, quote_end(s, i + 1, s[i])));
        } else if s[i] == '[' {
            lemma_comments_bounds(s, bracket_end(s, i + 1));
            assert(comments_from(s, i) == comments_from(s, bracket_end(s, i + 1)));
        } else {
            lemma_comments_bounds(s, i + 1);
            assert(comments_from(s, i) == comments_from(s, i + 1));
        }
    }
}

/// The suppression entries of one comment at `(a, b)`: each rule id it
/// lists, on the line after the comment's first line.
pub open spec fn comment_entries(s: Seq<char>, a: int, b: int) -> Seq<(int, Seq<char>)> {
    let line: int = 1 + newlines_before(s, a) as int;
    match ignore_rules(s.subrange(a, b)) {
        Some(ids) => ids.map_values(|id: Seq<char>| ((line + 1) as int, id)),
        None => seq![],
    }
}

/// The suppression entries of a list of comments, in order.
pub open spec fn entries_of(s: Seq<char>, cs: Seq<(int, int)>) -> Seq<(int, Seq<char>)>
    decreases cs.len(),
{
    if cs.len() == 0 {
        seq![]
    } else {
        entries_of(s, cs.drop_last()) + comment_entries(s, cs.last().0, cs.last().1)
    }
}

/// The `(line, rule id)` pairs a source suppresses (lines are 1-based).
pub open spec fn suppressions_of(s: Seq<char>) -> Seq<(int, Seq<char>)> {
    entries_of(s, comments_from(s, 0))
}

/// Whether a comment at `(a, b)` suppresses rule `id` on `line`: it is a
/// `solite-ignore:` comment that lists `id`, and `line` follows the
/// comment's first line.
pub open spec fn comment_suppresses(s: Seq<char>, a: int, b: int, line: int, id: Seq<char>) -> bool {
    &&& line == 2 + newlines_before(s, a)
    &&& ignore_rules(s.subrange(a, b)) matches Some(ids) && ids.contains(id)
}

proof fn lemma_entries_of(s: Seq<char>, cs: Seq<(int, int)>, line: int, id: Seq<char>)
    ensures
        entries_of(s, cs).contains((line, id)) <==> exists|j: int|
            0 <= j < cs.len() && #[trigger] comment_suppresses(s, cs[j].0, cs[j].1, line, id),
    decreases cs.len(),
{
    if cs.len() > 0 {
        let before = entries_of(s, cs.drop_last());
        let (a, b) = cs.last();
        let here = comment_entries(s, a, b);
        lemma_entries_of(s, cs.drop_last(), line, id);
        assert(entries_of(s, cs) == before + here);
        if entries_of(s, cs).contains((line, id)) {
            let k = choose|k: int| 0 <= k < entries_of(s, cs).len() && entries_of(s, cs)[k] == (line, id);
            if k < before.len() {
                assert(before[k] == (line, id));
                let j = choose|j: int|
                    0 <= j < cs.drop_last().len() && #[trigger] comment_suppresses(
                        s,
                        cs.drop_last()[j].0,
                        cs.drop_last()[j].1,
                        line,
                        id,
                    );
                assert(cs.drop_last()[j] == cs[j]);
                assert(comment_suppresses(s, cs[j].0, cs[j].1, line, id));
            } else {
                let ids = ignore_rules(s.subrange(a, b)).unwrap();
                assert(here[k - before.len()] == (line, id));
                assert(ids[k - before.len()] == id);
                assert(comment_suppresses(s, cs[cs.len() - 1].0, cs[cs.len() - 1].1, line, id));
            }
        }
        if exists|j: int| 0 <= j < cs.len() && #[trigger] comment_suppresses(s, cs[j].0, cs[j].1, line, id) {
            let j = choose|j: int| 0 <= j < cs.len() && #[trigger] comment_suppresses(s, cs[j].0, cs[j].1, line, id);
            if j < cs.len() - 1 {
                assert(cs.drop_last()[j] == cs[j]);
                assert(comment_suppresses(s, cs.drop_last()[j].0, cs.drop_last()[j].1, line, id));
                let k = choose|k: int| 0 <= k < before.len() && before[k] == (line, id);
                assert((before + here)[k] == (line, id));
            } else {
                let ids = ignore_rules(s.subrange(a, b)).unwrap();
                let m = choose|m: int| 0 <= m < ids.len() && ids[m] == id;
                assert(here[m] == (line, id));
                assert((before + here)[before.len() + m] == (line, id));
            }
        }
    }
}

/// A rule is suppressed on a line exactly when a `solite-ignore:` comment
/// that lists it starts on the line before: a suppression reaches only
/// the next line and only the rules it names.
pub proof fn law_suppressed_iff_listed_on_previous_line(s: Seq<char>, line: int, id: Seq<char>)
    ensures
        suppressions_of(s).contains((line, id)) <==> exists|j: int|
            0 <= j < comments_from(s, 0).len() && #[trigger] comment_suppresses(
                s,
                comments_from(s, 0)[j].0,
                comments_from(s, 0)[j].1,
                line,
                id,
            ),
{
    lemma_entries_of(s, comments_from(s, 0), line, id);
}

/// The rules suppressed on each line of a source.
#[derive(Debug)]
pub struct Suppressions {
    suppressed_lines: Vec<(usize, String)>,
}

impl View for Suppressions {
    type V = Seq<(int, Seq<char>)>;

    /// The `(line, rule id)` pairs, lines 1-based.
    closed spec fn view(&self) -> Seq<(int, Seq<char>)> {
        self.suppressed_lines@.map_values(|p: (usize, String)| (p.0 as int, p.1@))
    }
}

/// The number of newlines before position `n` (`n` within the text).
fn count_newlines(s: &Vec<char>, n: usize) -> (r: usize)
    requires
        n <= s@.len(),
    ensures
        r == newlines_before(s@, n as int),
        r <= n,
{
    let mut r: usize = 0;
    let mut i: usize = 0;
    while i < n
        invariant
            i <= n <= s@.len(),
            r == newlines_before(s@, i as int),
            r <= i,
        decreases n - i,
    {
        if s[i] == '\n' {
            r = r + 1;
        }
        i = i + 1;
    }
    r
}

impl Suppressions {
    /// No suppressions.
    pub fn new() -> (r: Self)
        ensures
            r@ == Seq::<(int, Seq<char>)>::empty(),
    {
        let r = Suppressions { suppressed_lines: Vec::new() };
        assert(r@ =~= Seq::<(int, Seq<char>)>::empty());
        r
    }

    /// Reads the suppressions of a source: each `solite-ignore:` comment
    /// suppresses the rules it lists on the line after it.
    pub fn parse(source: &str) -> (r: Self)
        requires
            source@.len() < usize::MAX,
        ensures
            r@ == suppressions_of(source@),
    {
        let chars = chars_of(source);
        let comments = comment_ranges(&chars);
        let ghost cs = comments@.map_values(|p: (usize, usize)| (p.0 as int, p.1 as int));
        proof {
            lemma_comments_bounds(chars@, 0);
        }
        let mut entries: Vec<(usize, String)> = Vec::new();
        let mut k: usize = 0;
        while k < comments.len()
            invariant
                k <= comments@.len(),
                chars@ == source@,
                chars@.len() < usize::MAX,
                cs == comments@.map_values(|p: (usize, usize)| (p.0 as int, p.1 as int)),
                cs == comments_from(chars@, 0),
                forall|j: int| 0 <= j < cs.len() ==> 0 <= (#[trigger] cs[j]).0 <= cs[j].1 <= chars@.len(),
                entries@.map_values(|p: (usize, String)| (p.0 as int, p.1@)) == entries_of(chars@, cs.subrange(0, k as int)),
            decreases comments@.len() - k,
        {
            let (a, b) = comments[k];
            assert(cs[k as int] == (a as int, b as int));
            let count = count_newlines(&chars, a);
            let line = count + 1;
            let text_chars = sub_chars(&chars, a, b);
            let text = string_from_chars(&text_chars);
            let ghost before = entries@;
            match parse_ignore_comment(text.as_str()) {
                Some(rules) => {
                    let mut j: usize = 0;
                    while j < rules.len()
                        invariant
                            j <= rules@.len(),
                            line == 1 + newlines_before(chars@, a as int),
                            line < usize::MAX,
                            entries@.map_values(|p: (usize, String)| (p.0 as int, p.1@))
                                == before.map_values(|p: (usize, String)| (p.0 as int, p.1@))
                                    + crate::ast::texts(rules@).subrange(0, j as int)
                                        .map_values(|id: Seq<char>| ((line + 1) as int, id)),
                        decreases rules@.len() - j,
                    {
                        let id = rules[j].clone();
                        let ghost prev = entries@;
                        entries.push((line + 1, id));
                        proof {
                            let ids = crate::ast::texts(rules@);
                            assert(ids.subrange(0, j + 1) =~= ids.subrange(0, j as int).push(rules@[j as int]@));
                            assert(entries@.map_values(|p: (usize, String)| (p.0 as int, p.1@))
                                =~= prev.map_values(|p: (usize, String)| (p.0 as int, p.1@)).push(((line + 1) as int, rules@[j as int]@)));
                            assert(ids.subrange(0, j + 1).map_values(|id: Seq<char>| ((line + 1) as int, id))
                                =~= ids.subrange(0, j as int).map_values(|id: Seq<char>| ((line + 1) as int, id))
                                    .push(((line + 1) as int, rules@[j as int]@)));
                        }
                        assert(entries@.map_values(|p: (usize, String)| (p.0 as int, p.1@))
                            =~= before.map_values(|p: (usize, String)| (p.0 as int, p.1@))
                                + crate::ast::texts(rules@).subrange(0, j + 1)
                                    .map_values(|id: Seq<char>| ((line + 1) as int, id)));
                        j = j + 1;
                    }
                    assert(crate::ast::texts(rules@).subrange(0, rules@.len() as int) =~= crate::ast::texts(rules@));
                }
                None => {}
            }
            proof {
                let sub = cs.subrange(0, k + 1);
                assert(sub.drop_last() =~= cs.subrange(0, k as int));
                assert(sub.last() == (a as int, b as int));
                assert(entries@.map_values(|p: (usize, String)| (p.0 as int, p.1@))
                    =~= entries_of(chars@, cs.subrange(0, k as int)) + comment_entries(chars@, a as int, b as int));
            }
            k = k + 1;
        }
        assert(cs.subrange(0, cs.len() as int) =~= cs);
        Suppressions { suppressed_lines: entries }
    }

    /// Whether `rule_id` is suppressed on `line` (1-based).
    pub fn is_suppressed(&self, rule_id: &str, line: usize) -> (r: bool)
        ensures
            r == self@.contains((line as int, rule_id@)),
    {
        let mut i: usize = 0;
        while i < self.suppressed_lines.len()
            invariant
                i <= self.suppressed_lines@.len(),
                forall|j: int| 0 <= j < i ==> #[trigger] self@[j] != (line as int, rule_id@),
            decreases self.suppressed_lines@.len() - i,
        {
            let entry = &self.suppressed_lines[i];
            if entry.0 == line && crate::text::str_eq(entry.1.as_str(), rule_id) {
                assert(self@[i as int] == (line as int, rule_id@));
                return true;
            }
            assert(self@[i as int] != (line as int, rule_id@));
            i = i + 1;
        }
        false
    }
}


// ---------------------------------------------------------------------
// What a suppression comment names
// ---------------------------------------------------------------------

/// A rule id as written in a suppression list: not empty, without
/// whitespace or commas.
pub open spec fn plain_rule_id(r: Seq<char>) -> bool {
    &&& r.len() > 0
    &&& forall|k: int| 0 <= k < r.len() ==> !spec_is_whitespace(#[trigger] r[k]) && r[k] != ','
}

/// A text whose first and last characters are not whitespace is its own
/// trimmed text.
proof fn lemma_trim_ws_keeps(r: Seq<char>)
    requires
        r.len() > 0,
        !spec_is_whitespace(r[0]),
        !spec_is_whitespace(r.last()),
    ensures
        trim_ws(r) == r,
{
    assert(trim_start_ws(r) == r);
    assert(trim_end_ws(r) == r);
}

/// A text after one space, trimmed, is the text when its ends are not
/// whitespace.
proof fn lemma_trim_ws_after_space(r: Seq<char>)
    requires
        r.len() > 0,
        !spec_is_whitespace(r[0]),
        !spec_is_whitespace(r.last()),
    ensures
        trim_ws(seq![' '] + r) == r,
{
    let s = seq![' '] + r;
    assert(s[0] == ' ');
    assert(s.drop_first() =~= r);
    assert(trim_start_ws(s) == trim_start_ws(r));
    lemma_trim_ws_keeps(r);
}

/// A list without commas is one piece.
proof fn lemma_pieces_without_commas(s: Seq<char>, j: int)
    requires
        0 <= j <= s.len(),
        forall|k: int| 0 <= k < s.len() ==> s[k] != ',',
    ensures
        pieces_from(s, 0, j) == trimmed_piece(s, 0, s.len() as int),
    decreases s.len() - j,
{
    if j < s.len() {
        lemma_pieces_without_commas(s, j + 1);
    }
}

/// A comment whose body is `solite-ignore:` and one id names that id.
proof fn lemma_ignore_rules_of_body(c: Seq<char>, r: Seq<char>)
    requires
        plain_rule_id(r),
        comment_body(c) == ignore_prefix() + seq![' '] + r,
    ensures
        ignore_rules(c) == Some(seq![r]),
{
    let p = ignore_prefix();
    let t = comment_body(c);
    assert(t.subrange(0, p.len() as int) =~= p);
    assert(t.subrange(p.len() as int, t.len() as int) =~= seq![' '] + r);
    assert(!spec_is_whitespace(r[0]) && !spec_is_whitespace(r[r.len() - 1]));
    lemma_trim_ws_after_space(r);
    lemma_pieces_without_commas(r, 0);
    assert(r.subrange(0, r.len() as int) =~= r);
    lemma_trim_ws_keeps(r);
}

/// A block comment `/* solite-ignore: r */` suppresses exactly the rule `r`
/// (its closing `*/` is not part of the id).
pub proof fn law_block_comment_names_its_rule(r: Seq<char>)
    requires
        plain_rule_id(r),
    ensures
        ignore_rules(seq!['/', '*', ' '] + ignore_prefix() + seq![' '] + r + seq![' ', '*', '/']) == Some(seq![r]),
{
    let c = seq!['/', '*', ' '] + ignore_prefix() + seq![' '] + r + seq![' ', '*', '/'];
    let body = ignore_prefix() + seq![' '] + r;
    assert(strip_all_prefix(c, seq!['-', '-']) == c);
    let c2 = c.subrange(2, c.len() as int);
    assert(c2 =~= seq![' '] + body + seq![' ', '*', '/']);
    assert(strip_all_prefix(c2, seq!['/', '*']) == c2);
    assert(strip_all_prefix(c, seq!['/', '*']) == c2);
    let c3 = c2.subrange(0, c2.len() - 2);
    assert(c3 =~= seq![' '] + body + seq![' ']);
    assert(strip_all_suffix(c3, seq!['*', '/']) == c3);
    assert(strip_all_suffix(c2, seq!['*', '/']) == c3);
    assert(!spec_is_whitespace(r[r.len() - 1]));
    let s1 = seq![' '] + body + seq![' '];
    assert(s1[0] == ' ');
    assert(s1.drop_first() =~= body + seq![' ']);
    assert(body[0] == 's');
    assert(trim_start_ws(body + seq![' ']) == body + seq![' ']);
    assert(trim_start_ws(s1) == body + seq![' ']);
    assert((body + seq![' ']).drop_last() =~= body);
    assert(body.last() == r.last());
    assert(trim_end_ws(body) == body);
    assert(trim_end_ws(body + seq![' ']) == body);
    assert(comment_body(c) == body);
    lemma_ignore_rules_of_body(c, r);
}

/// A line comment `-- solite-ignore: r` suppresses exactly the rule `r`
/// (unless the id itself ends with `*/`, which is taken for a comment's end).
pub proof fn law_line_comment_names_its_rule(r: Seq<char>)
    requires
        plain_rule_id(r),
        !(r.len() >= 2 && r[r.len() - 2] == '*' && r[r.len() - 1] == '/'),
    ensures
        ignore_rules(seq!['-', '-', ' '] + ignore_prefix() + seq![' '] + r) == Some(seq![r]),
{
    let c = seq!['-', '-', ' '] + ignore_prefix() + seq![' '] + r;
    let body = ignore_prefix() + seq![' '] + r;
    let c2 = c.subrange(2, c.len() as int);
    assert(c2 =~= seq![' '] + body);
    assert(strip_all_prefix(c2, seq!['-', '-']) == c2);
    assert(strip_all_prefix(c, seq!['-', '-']) == c2);
    assert(strip_all_prefix(c2, seq!['/', '*']) == c2);
    assert(c2[c2.len() - 1] == r[r.len() - 1]);
    assert(!(c2[c2.len() - 2] == '*' && c2[c2.len() - 1] == '/')) by {
        if r.len() >= 2 {
            assert(c2[c2.len() - 2] == r[r.len() - 2]);
        } else {
            assert(c2[c2.len() - 2] == ' ');
        }
    }
    assert(strip_all_suffix(c2, seq!['*', '/']) == c2);
    assert(!spec_is_whitespace(r[r.len() - 1]));
    assert(c2[0] == ' ');
    assert(c2.drop_first() =~= body);
    assert(body[0] == 's');
    assert(trim_start_ws(body) == body);
    assert(trim_start_ws(c2) == body);
    assert(body.last() == r.last());
    assert(trim_end_ws(body) == body);
    assert(comment_body(c) == body);
    lemma_ignore_rules_of_body(c, r);
}

} // verus!
