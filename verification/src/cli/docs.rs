//! Helpers of inline documentation: leading trivia of statements, the
//! `-- @expect-error` directive, `-- error:` lines left by earlier runs,
//! heading anchors, and the documentation errors.

use vstd::prelude::*;
use crate::ast::texts;
use crate::text::{
    chars_of, string_from_chars, sub_chars, is_whitespace, spec_is_whitespace, str_eq, string_of, push_str,
    byte_slice, byte_len, byte_offset, lemma_slice_chars, trim_ws, trim_start_ws, trim_end_ws, trim_bounds,
    suffix_from,
};

verus! {

// ---------------------------------------------------------------------
// Leading trivia
// ---------------------------------------------------------------------

/// The first position at or after `i` that is not whitespace.
pub open spec fn skip_ws(c: Seq<char>, i: int) -> int
    decreases c.len() - i,
{
    if i < 0 || i >= c.len() || !spec_is_whitespace(c[i]) {
        i
    } else {
        skip_ws(c, i + 1)
    }
}

/// The position of the first `x` at or after `i`.
pub open spec fn find_char(c: Seq<char>, i: int, x: char) -> Option<int>
    decreases c.len() - i,
{
    if i < 0 || i >= c.len() {
        None
    } else if c[i] == x {
        Some(i)
    } else {
        find_char(c, i + 1, x)
    }
}

/// The position of the first two-character sequence `x y` at or after `i`.
pub open spec fn find_pair(c: Seq<char>, i: int, x: char, y: char) -> Option<int>
    decreases c.len() - i,
{
    if i < 0 || i + 1 >= c.len() {
        None
    } else if c[i] == x && c[i + 1] == y {
        Some(i)
    } else {
        find_pair(c, i + 1, x, y)
    }
}

/// Bounds of the search helpers.
pub proof fn lemma_finds(c: Seq<char>, i: int, x: char, y: char)
    requires
        0 <= i <= c.len(),
    ensures
        i <= skip_ws(c, i) <= c.len(),
        match find_char(c, i, x) {
            Some(n) => i <= n < c.len() && c[n] == x,
            None => true,
        },
        match find_pair(c, i, x, y) {
            Some(n) => i <= n && n + 1 < c.len() && c[n] == x && c[n + 1] == y,
            None => true,
        },
    decreases c.len() - i,
{
    if i < c.len() {
        lemma_finds(c, i + 1, x, y);
    }
}

/// The end of the leading trivia from position `i`: whitespace, `--` line
/// comments (with their newline) and `/* ... */` comments; an unterminated
/// comment runs to the end.
pub open spec fn trivia_from(c: Seq<char>, i: int) -> int
    decreases c.len() - i,
{
    if i < 0 || i > c.len() {
        c.len() as int
    } else {
        proof {
            lemma_finds(c, i, '\n', '/');
        }
        let j = skip_ws(c, i);
        if j + 1 < c.len() && c[j] == '-' && c[j + 1] == '-' {
            proof {
                lemma_finds(c, j, '\n', '/');
            }
            match find_char(c, j, '\n') {
                Some(n) => trivia_from(c, n + 1),
                None => c.len() as int,
            }
        } else if j + 1 < c.len() && c[j] == '/' && c[j + 1] == '*' {
            proof {
                lemma_finds(c, j, '*', '/');
            }
            match find_pair(c, j, '*', '/') {
                Some(n) => trivia_from(c, n + 2),
                None => c.len() as int,
            }
        } else {
            j
        }
    }
}

/// The trivia end is a position of the text.
pub proof fn lemma_trivia(c: Seq<char>, i: int)
    requires
        0 <= i <= c.len(),
    ensures
        0 <= trivia_from(c, i) <= c.len(),
    decreases c.len() - i,
{
    lemma_finds(c, i, '\n', '/');
    let j = skip_ws(c, i);
    if j + 1 < c.len() && c[j] == '-' && c[j + 1] == '-' {
        lemma_finds(c, j, '\n', '/');
        match find_char(c, j, '\n') {
            Some(n) => lemma_trivia(c, n + 1),
            None => {},
        }
    } else if j + 1 < c.len() && c[j] == '/' && c[j + 1] == '*' {
        lemma_finds(c, j, '*', '/');
        match find_pair(c, j, '*', '/') {
            Some(n) => lemma_trivia(c, n + 2),
            None => {},
        }
    }
}

/// The character length of the leading trivia of `c`.
pub(crate) fn trivia_chars(c: &Vec<char>) -> (r: usize)
    ensures
        r == trivia_from(c@, 0),
        r <= c@.len(),
{
    let n = c.len();
    let mut i: usize = 0;
    proof {
        lemma_trivia(c@, 0);
    }
    loop
        invariant
            i <= n == c@.len(),
            trivia_from(c@, i as int) == trivia_from(c@, 0),
        decreases n - i,
    {
        proof {
            lemma_finds(c@, i as int, '\n', '/');
            lemma_trivia(c@, i as int);
        }
        let mut j = i;
        while j < n && is_whitespace(c[j])
            invariant
                i <= j <= n == c@.len(),
                skip_ws(c@, i as int) == skip_ws(c@, j as int),
            decreases n - j,
        {
            j = j + 1;
        }
        if j < n && j + 1 < n && c[j] == '-' && c[j + 1] == '-' {
            proof {
                lemma_finds(c@, j as int, '\n', '/');
            }
            let mut k = j;
            while k < n && c[k] != '\n'
                invariant
                    j <= k <= n == c@.len(),
                    find_char(c@, j as int, '\n') == find_char(c@, k as int, '\n'),
                decreases n - k,
            {
                k = k + 1;
            }
            if k == n {
                return n;
            }
            i = k + 1;
        } else if j < n && j + 1 < n && c[j] == '/' && c[j + 1] == '*' {
            proof {
                lemma_finds(c@, j as int, '*', '/');
            }
            let mut k = j;
            while k + 1 < n && !(c[k] == '*' && c[k + 1] == '/')
                invariant
                    j <= k < n == c@.len(),
                    find_pair(c@, j as int, '*', '/') == find_pair(c@, k as int, '*', '/'),
                decreases n - k,
            {
                k = k + 1;
            }
            if k + 1 >= n {
                return n;
            }
            i = k + 2;
        } else {
            return j;
        }
    }
}

/// Byte length of the leading trivia (whitespace, `--` line comments and
/// `/* ... */` block comments) at the start of `s`.
pub fn leading_trivia_len(s: &str) -> (r: usize)
    ensures
        r == byte_len(s@, trivia_from(s@, 0)),
{
    let c = chars_of(s);
    let k = trivia_chars(&c);
    let total = s.as_bytes().len();
    byte_offset(&c, k)
}

// ---------------------------------------------------------------------
// The expect-error directive
// ---------------------------------------------------------------------

/// The directive marking a statement as expected to fail.
pub open spec fn expect_error_directive() -> Seq<char> {
    "-- @expect-error"@
}

/// The end of the line starting at `i` within `[i, k)`: just after its
/// newline, or `k`.
pub open spec fn line_piece_end(c: Seq<char>, i: int, k: int) -> int
    decreases k - i,
{
    if i >= k {
        k
    } else if c[i] == '\n' {
        i + 1
    } else {
        line_piece_end(c, i + 1, k)
    }
}

/// The lines (each with its newline) of `c[i..k]` without the first one
/// whose trimmed text is the directive (unless `found` already), and
/// whether such a line was found.
pub open spec fn strip_directive_lines(c: Seq<char>, i: int, k: int, found: bool) -> (Seq<char>, bool)
    decreases k - i,
{
    if i < 0 || i >= k || k > c.len() {
        (seq![], found)
    } else {
        proof {
            lemma_line_piece(c, i, k);
        }
        let e = line_piece_end(c, i, k);
        if e <= i {
            (seq![], found)
        } else {
            let line = c.subrange(i, e);
            if !found && trim_ws(line) == expect_error_directive() {
                strip_directive_lines(c, e, k, true)
            } else {
                let rest = strip_directive_lines(c, e, k, found);
                (line + rest.0, rest.1)
            }
        }
    }
}

/// What removing the directive from a statement's leading trivia gives:
/// the text without that line (then without leading whitespace), and
/// whether it was there; the text unchanged when it was not.
pub open spec fn stripped_directive(c: Seq<char>) -> (Seq<char>, bool) {
    let k = trivia_from(c, 0);
    let r = strip_directive_lines(c, 0, k, false);
    if !r.1 {
        (c, false)
    } else {
        (trim_start_ws(r.0 + c.subrange(k, c.len() as int)), true)
    }
}

/// Bounds of a line piece.
pub proof fn lemma_line_piece(c: Seq<char>, i: int, k: int)
    requires
        0 <= i < k <= c.len(),
    ensures
        i < line_piece_end(c, i, k) <= k,
    decreases k - i,
{
    if c[i] == '\n' {
    } else if i + 1 < k {
        lemma_line_piece(c, i + 1, k);
    } else {
        assert(line_piece_end(c, i + 1, k) == k);
    }
}

/// Whether the characters of `v[a..b]`, trimmed, are the directive.
fn is_directive_line(v: &Vec<char>, a: usize, b: usize) -> (r: bool)
    requires
        a <= b <= v@.len(),
    ensures
        r == (trim_ws(v@.subrange(a as int, b as int)) == expect_error_directive()),
{
    let (x, y) = trim_bounds(v, a, b);
    let t = sub_chars(v, x, y);
    let s = string_from_chars(&t);
    str_eq(s.as_str(), "-- @expect-error")
}

/// Removes a `-- @expect-error` directive line from the leading trivia of
/// `text`, returning the stripped text (then trimmed at the start) and
/// whether the directive was present; the text is returned unchanged when
/// it was not.
pub fn strip_expect_error_directive(text: &str) -> (r: (String, bool))
    ensures
        (r.0@, r.1) == stripped_directive(text@),
{
    let c = chars_of(text);
    let k = trivia_chars(&c);
    let mut out: Vec<char> = Vec::new();
    let mut found = false;
    let mut i: usize = 0;
    while i < k
        invariant
            i <= k <= c@.len(),
            k == trivia_from(c@, 0),
            c@ == text@,
            ({
                let rest = strip_directive_lines(c@, i as int, k as int, found);
                (out@ + rest.0, rest.1) == strip_directive_lines(c@, 0, k as int, false)
            }),
        decreases k - i,
    {
        proof {
            lemma_line_piece(c@, i as int, k as int);
        }
        let mut e = i;
        while e < k && c[e] != '\n'
            invariant
                i <= e <= k <= c@.len(),
                line_piece_end(c@, i as int, k as int) == line_piece_end(c@, e as int, k as int),
            decreases k - e,
        {
            e = e + 1;
        }
        if e < k {
            e = e + 1;
        }
        if !found && is_directive_line(&c, i, e) {
            found = true;
        } else {
            let ghost before = out@;
            let mut j = i;
            while j < e
                invariant
                    i <= j <= e <= c@.len(),
                    out@ == before + c@.subrange(i as int, j as int),
                decreases e - j,
            {
                out.push(c[j]);
                j = j + 1;
                assert(out@ =~= before + c@.subrange(i as int, j as int));
            }
            assert(out@ + strip_directive_lines(c@, e as int, k as int, found).0
                =~= before + (c@.subrange(i as int, e as int) + strip_directive_lines(c@, e as int, k as int, found).0));
        }
        i = e;
    }
    if !found {
        return (string_of(text), false);
    }
    let ghost before = out@;
    let mut j = k;
    while j < c.len()
        invariant
            k <= j <= c@.len(),
            out@ == before + c@.subrange(k as int, j as int),
        decreases c@.len() - j,
    {
        out.push(c[j]);
        j = j + 1;
        assert(out@ =~= before + c@.subrange(k as int, j as int));
    }
    let mut a: usize = 0;
    assert(out@.subrange(0, out@.len() as int) =~= out@);
    while a < out.len() && is_whitespace(out[a])
        invariant
            a <= out@.len(),
            trim_start_ws(out@) == trim_start_ws(out@.subrange(a as int, out@.len() as int)),
        decreases out@.len() - a,
    {
        assert(out@.subrange(a as int, out@.len() as int).drop_first() =~= out@.subrange(a + 1, out@.len() as int));
        a = a + 1;
    }
    let rest = sub_chars(&out, a, out.len());
    (string_from_chars(&rest), true)
}


// ---------------------------------------------------------------------
// Error lines and heading anchors
// ---------------------------------------------------------------------

/// Whether `t` starts with `-- error:`.
pub open spec fn starts_error_marker(t: Seq<char>) -> bool {
    t.len() >= 9 && t.subrange(0, 9) == "-- error:"@
}

/// The first line after a statement (after leading whitespace), without
/// trailing whitespace, when it is an `-- error:` comment.
pub open spec fn trailing_error(c: Seq<char>) -> Option<Seq<char>> {
    let a = skip_ws(c, 0);
    if a >= c.len() {
        None
    } else {
        let e = match find_char(c, a, '\n') {
            Some(n) => n,
            None => c.len() as int,
        };
        let line = trim_end_ws(c.subrange(a, e));
        if starts_error_marker(line) {
            Some(line)
        } else {
            None
        }
    }
}

/// The first non-blank line after a statement, when it is an `-- error:`
/// comment left by a previous run.
pub fn trailing_error_line(after: &str) -> (r: Option<&str>)
    ensures
        match trailing_error(after@) {
            Some(l) => r matches Some(x) && x@ == l,
            None => r is None,
        },
{
    let c = chars_of(after);
    let total = after.as_bytes().len();
    let n = c.len();
    proof {
        lemma_finds(c@, 0, '\n', '/');
    }
    let mut a: usize = 0;
    while a < n && is_whitespace(c[a])
        invariant
            a <= n == c@.len(),
            skip_ws(c@, 0) == skip_ws(c@, a as int),
        decreases n - a,
    {
        a = a + 1;
    }
    if a >= n {
        return None;
    }
    proof {
        lemma_finds(c@, a as int, '\n', '/');
    }
    let mut e = a;
    while e < n && c[e] != '\n'
        invariant
            a <= e <= n == c@.len(),
            find_char(c@, a as int, '\n') == find_char(c@, e as int, '\n'),
        decreases n - e,
    {
        e = e + 1;
    }
    let mut k = e;
    assert(c@.subrange(a as int, e as int) =~= c@.subrange(a as int, k as int));
    while k > a && is_whitespace(c[k - 1])
        invariant
            a <= k <= e,
            e <= n == c@.len(),
            trim_end_ws(c@.subrange(a as int, e as int)) == trim_end_ws(c@.subrange(a as int, k as int)),
        decreases k - a,
    {
        assert(c@.subrange(a as int, k as int).drop_last() =~= c@.subrange(a as int, k - 1));
        k = k - 1;
    }
    let ghost line = c@.subrange(a as int, k as int);
    assert(trim_end_ws(line) == line);
    let marker = k - a >= 9 && c[a] == '-' && c[a + 1] == '-' && c[a + 2] == ' ' && c[a + 3] == 'e'
        && c[a + 4] == 'r' && c[a + 5] == 'r' && c[a + 6] == 'o' && c[a + 7] == 'r' && c[a + 8] == ':';
    proof {
        reveal_strlit("-- error:");
        if line.len() >= 9 {
            let p = line.subrange(0, 9);
            assert(p[0] == c@[a as int] && p[1] == c@[a + 1] && p[2] == c@[a + 2] && p[3] == c@[a + 3]);
            assert(p[4] == c@[a + 4] && p[5] == c@[a + 5] && p[6] == c@[a + 6] && p[7] == c@[a + 7]);
            assert(p[8] == c@[a + 8]);
            if marker {
                assert(p =~= "-- error:"@);
            }
        }
    }
    if !marker {
        return None;
    }
    let ba = byte_offset(&c, a);
    let bk = byte_offset(&c, k);
    proof {
        lemma_slice_chars(c@, a as int, k as int);
    }
    Some(byte_slice(after, ba, bk))
}

/// The position of the last `{#` that ends before `n`.
pub open spec fn rfind_anchor(c: Seq<char>, n: int) -> Option<int>
    decreases n,
{
    if n < 2 || n > c.len() {
        None
    } else if c[n - 2] == '{' && c[n - 1] == '#' {
        Some(n - 2)
    } else {
        rfind_anchor(c, n - 1)
    }
}

/// The length of `c[0..n]` without trailing whitespace.
pub open spec fn trimmed_end_len(c: Seq<char>, n: int) -> int
    decreases n,
{
    if n <= 0 || n > c.len() {
        0
    } else if spec_is_whitespace(c[n - 1]) {
        trimmed_end_len(c, n - 1)
    } else {
        n
    }
}

/// Whether `s` holds a brace.
pub open spec fn has_brace(s: Seq<char>) -> bool {
    s.contains('{') || s.contains('}')
}

/// The length of a heading's text once trailing `{#anchor}` parts (each
/// with a non-empty anchor without braces) and trailing whitespace are
/// removed from its first `n` characters.
pub open spec fn anchors_end(c: Seq<char>, n: int) -> int
    decreases n,
{
    let m = trimmed_end_len(c, n);
    if 0 < m <= n && c[m - 1] == '}' {
        match rfind_anchor(c, m) {
            Some(idx) => {
                let inner = c.subrange(idx + 2, m - 1);
                if 0 <= idx < n && inner.len() > 0 && !has_brace(inner) {
                    anchors_end(c, idx)
                } else {
                    m
                }
            },
            None => m,
        }
    } else {
        m
    }
}

/// Bounds of the anchor search helpers.
pub proof fn lemma_anchor_helpers(c: Seq<char>, n: int)
    requires
        0 <= n <= c.len(),
    ensures
        0 <= trimmed_end_len(c, n) <= n,
        match rfind_anchor(c, n) {
            Some(i) => 0 <= i && i + 2 <= n && c[i] == '{' && c[i + 1] == '#',
            None => true,
        },
        0 <= anchors_end(c, n) <= n,
    decreases n,
{
    if n > 0 {
        lemma_anchor_helpers(c, n - 1);
    }
    let m = trimmed_end_len(c, n);
    if 0 < m <= n && c[m - 1] == '}' {
        lemma_anchor_helpers_no_rec(c, m);
        match rfind_anchor(c, m) {
            Some(idx) => {
                if 0 <= idx < n {
                    lemma_anchor_helpers(c, idx);
                }
            },
            None => {},
        }
    }
}

/// Bounds of the trailing-whitespace and anchor searches.
pub proof fn lemma_anchor_helpers_no_rec(c: Seq<char>, n: int)
    requires
        0 <= n <= c.len(),
    ensures
        0 <= trimmed_end_len(c, n) <= n,
        match rfind_anchor(c, n) {
            Some(i) => 0 <= i && i + 2 <= n && c[i] == '{' && c[i + 1] == '#',
            None => true,
        },
    decreases n,
{
    if n > 0 {
        lemma_anchor_helpers_no_rec(c, n - 1);
    }
}

/// A heading's text with its trailing anchors removed.
pub open spec fn anchors_stripped(h: Seq<char>) -> Seq<char> {
    h.subrange(0, anchors_end(h, h.len() as int))
}

/// Removing trailing whitespace twice is removing it once.
proof fn lemma_trimmed_end_fixpoint(c: Seq<char>, n: int)
    requires
        0 <= n <= c.len(),
    ensures
        trimmed_end_len(c, trimmed_end_len(c, n)) == trimmed_end_len(c, n),
    decreases n,
{
    if n > 0 && spec_is_whitespace(c[n - 1]) {
        lemma_trimmed_end_fixpoint(c, n - 1);
    }
}

/// The anchors' end is where the anchor search stops: searching again from
/// there cuts nothing more.
proof fn lemma_anchors_end_fixpoint(c: Seq<char>, n: int)
    requires
        0 <= n <= c.len(),
    ensures
        anchors_end(c, anchors_end(c, n)) == anchors_end(c, n),
    decreases n,
{
    lemma_anchor_helpers(c, n);
    lemma_trimmed_end_fixpoint(c, n);
    let m = trimmed_end_len(c, n);
    lemma_anchor_helpers_no_rec(c, m);
    if 0 < m <= n && c[m - 1] == '}' {
        match rfind_anchor(c, m) {
            Some(idx) => {
                let inner = c.subrange(idx + 2, m - 1);
                if 0 <= idx < n && inner.len() > 0 && !has_brace(inner) {
                    lemma_anchors_end_fixpoint(c, idx);
                }
            },
            None => {},
        }
    }
}

/// The search helpers read only the first `n` characters.
proof fn lemma_anchor_helpers_prefix(c: Seq<char>, k: int, n: int)
    requires
        0 <= n <= k <= c.len(),
    ensures
        trimmed_end_len(c.subrange(0, k), n) == trimmed_end_len(c, n),
        rfind_anchor(c.subrange(0, k), n) == rfind_anchor(c, n),
    decreases n,
{
    if n > 0 {
        lemma_anchor_helpers_prefix(c, k, n - 1);
    }
}

/// The anchors' end of the first `n` characters does not depend on what
/// follows them.
proof fn lemma_anchors_end_prefix(c: Seq<char>, k: int, n: int)
    requires
        0 <= n <= k <= c.len(),
    ensures
        anchors_end(c.subrange(0, k), n) == anchors_end(c, n),
    decreases n,
{
    let d = c.subrange(0, k);
    lemma_anchor_helpers_prefix(c, k, n);
    lemma_anchor_helpers(c, n);
    let m = trimmed_end_len(c, n);
    lemma_anchor_helpers_prefix(c, k, m);
    lemma_anchor_helpers_no_rec(c, m);
    if 0 < m <= n && c[m - 1] == '}' {
        assert(d[m - 1] == c[m - 1]);
        match rfind_anchor(c, m) {
            Some(idx) => {
                assert(d.subrange(idx + 2, m - 1) =~= c.subrange(idx + 2, m - 1));
                if 0 <= idx < n {
                    lemma_anchors_end_prefix(c, k, idx);
                }
            },
            None => {},
        }
    }
}

/// Stripping a heading's anchors twice strips as much as once, and the
/// result is a prefix of the heading.
pub proof fn law_strip_anchors_idempotent(h: Seq<char>)
    ensures
        anchors_stripped(anchors_stripped(h)) == anchors_stripped(h),
        anchors_stripped(h) == h.subrange(0, anchors_stripped(h).len() as int),
{
    let n = h.len() as int;
    lemma_anchor_helpers(h, n);
    let e = anchors_end(h, n);
    let d = h.subrange(0, e);
    lemma_anchors_end_prefix(h, e, e);
    lemma_anchors_end_fixpoint(h, n);
    assert(d.len() == e);
    assert(anchors_end(d, e) == e);
    assert(d.subrange(0, e) =~= d);
}

/// Removes `{#anchor}` texts (possibly several, possibly escaped) trailing
/// a heading's source text, with the whitespace before them.
pub fn strip_trailing_anchors(heading_src: &str) -> (r: &str)
    ensures
        r@ == heading_src@.subrange(0, anchors_end(heading_src@, heading_src@.len() as int)),
        r@ == anchors_stripped(heading_src@),
{
    let c = chars_of(heading_src);
    let total = heading_src.as_bytes().len();
    let mut n = c.len();
    loop
        invariant
            n <= c@.len(),
            c@ == heading_src@,
            vstd::utf8::encode_utf8(c@).len() == total as int,
            anchors_end(c@, n as int) == anchors_end(c@, c@.len() as int),
        decreases n,
    {
        proof {
            lemma_anchor_helpers_no_rec(c@, n as int);
            lemma_anchor_helpers(c@, n as int);
        }
        let mut m = n;
        while m > 0 && is_whitespace(c[m - 1])
            invariant
                m <= n <= c@.len(),
                trimmed_end_len(c@, n as int) == trimmed_end_len(c@, m as int),
            decreases m,
        {
            m = m - 1;
        }
        let mut cut: Option<usize> = None;
        if m > 0 && c[m - 1] == '}' {
            proof {
                lemma_anchor_helpers_no_rec(c@, m as int);
            }
            let mut p = m;
            while p >= 2 && !(c[p - 2] == '{' && c[p - 1] == '#')
                invariant
                    p <= m <= c@.len(),
                    rfind_anchor(c@, m as int) == rfind_anchor(c@, p as int),
                decreases p,
            {
                p = p - 1;
            }
            if p >= 2 {
                let idx = p - 2;
                let mut q = idx + 2;
                while q < m - 1 && c[q] != '{' && c[q] != '}'
                    invariant
                        idx + 2 <= q <= m - 1,
                        m <= c@.len(),
                        forall|t: int| idx + 2 <= t < q ==> c@[t] != '{' && c@[t] != '}',
                    decreases m - 1 - q,
                {
                    q = q + 1;
                }
                let ok = idx + 2 < m - 1 && q == m - 1;
                proof {
                    let inner = c@.subrange(idx + 2, m - 1);
                    if q == m - 1 {
                        assert(!inner.contains('{') && !inner.contains('}')) by {
                            assert forall|t: int| 0 <= t < inner.len() implies inner[t] != '{' && inner[t] != '}' by {
                                assert(inner[t] == c@[idx + 2 + t]);
                            }
                        }
                    } else {
                        assert(inner[q - idx - 2] == c@[q as int]);
                        assert(has_brace(inner));
                    }
                }
                if ok {
                    cut = Some(idx);
                }
            }
        }
        match cut {
            Some(idx) => {
                n = idx;
            }
            None => {
                let bm = byte_offset(&c, m);
                proof {
                    lemma_slice_chars(c@, 0, m as int);
                    assert(byte_len(c@, 0) == 0) by {
                        assert(c@.subrange(0, 0) =~= Seq::<char>::empty());
                    }
                    assert(anchors_end(c@, n as int) == m);
                }
                return byte_slice(heading_src, 0, bm);
            }
        }
    }
}


// ---------------------------------------------------------------------
// Results of an earlier run
// ---------------------------------------------------------------------

/// The model of an optional text.
pub open spec fn opt_text_of(o: Option<String>) -> Option<Seq<char>> {
    match o {
        Some(s) => Some(s@),
        None => None,
    }
}

/// `text` with leading copies of `prev` removed, each only when it ends at
/// a line boundary, trimming the whitespace after each copy.
pub open spec fn strip_stale(text: Seq<char>, prev: Seq<char>) -> Seq<char>
    decreases text.len(),
{
    if prev.is_prefix_of(text) {
        let rest = text.skip(prev.len() as int);
        if rest.len() == 0 || rest[0] == '\n' || rest[0] == '\r' {
            let t = trim_start_ws(rest);
            if t.len() < text.len() {
                strip_stale(t, prev)
            } else {
                t
            }
        } else {
            text
        }
    } else {
        text
    }
}

/// The statement text without the result comment the previous statement
/// regenerated (its trailing whitespace ignored), when there is one.
pub open spec fn stale_stripped(text: Seq<char>, last: Option<Seq<char>>) -> Seq<char> {
    match last {
        Some(p) => strip_stale(text, trim_end_ws(p)),
        None => text,
    }
}

/// Stripping terminates: an empty previous result can only be stripped
/// from text that does not shrink to nothing.
pub open spec fn stale_strip_terminates(text: Seq<char>, last: Option<Seq<char>>) -> bool {
    last matches Some(p) && trim_end_ws(p).len() == 0 ==> !(text.len() == 0 || ((text[0] == '\n' || text[0] == '\r')
        && trim_start_ws(text).len() == 0))
}

proof fn lemma_trim_start_suffix(s: Seq<char>)
    ensures
        trim_start_ws(s).len() <= s.len(),
        trim_start_ws(s) == s.skip(s.len() - trim_start_ws(s).len()),
        trim_start_ws(s).len() == 0 || !spec_is_whitespace(trim_start_ws(s)[0]),
    decreases s.len(),
{
    if s.len() > 0 && spec_is_whitespace(s[0]) {
        lemma_trim_start_suffix(s.drop_first());
        let t = trim_start_ws(s.drop_first());
        assert(s.drop_first().skip(s.drop_first().len() - t.len()) =~= s.skip(s.len() - t.len()));
    } else {
        assert(s.skip(0) =~= s);
    }
}

/// The first position at or after `k` that is not whitespace.
pub fn skip_ws_from(v: &Vec<char>, k: usize) -> (r: usize)
    requires
        k <= v@.len(),
    ensures
        k <= r <= v@.len(),
        v@.skip(r as int) == trim_start_ws(v@.skip(k as int)),
{
    let mut i = k;
    while i < v.len() && is_whitespace(v[i])
        invariant
            k <= i <= v@.len(),
            trim_start_ws(v@.skip(k as int)) == trim_start_ws(v@.skip(i as int)),
        decreases v.len() - i,
    {
        assert(v@.skip(i as int).drop_first() =~= v@.skip(i + 1));
        i = i + 1;
    }
    i
}

pub(crate) fn trim_end_len(v: &Vec<char>) -> (r: usize)
    ensures
        r <= v@.len(),
        v@.subrange(0, r as int) == trim_end_ws(v@),
{
    let mut e = v.len();
    assert(v@.subrange(0, e as int) =~= v@);
    while e > 0 && is_whitespace(v[e - 1])
        invariant
            e <= v@.len(),
            trim_end_ws(v@) == trim_end_ws(v@.subrange(0, e as int)),
        decreases e,
    {
        assert(v@.subrange(0, e as int).drop_last() =~= v@.subrange(0, e - 1));
        e = e - 1;
    }
    e
}

fn is_prefix_at(p: &Vec<char>, v: &Vec<char>, k: usize) -> (r: bool)
    requires
        k <= v@.len(),
    ensures
        r == p@.is_prefix_of(v@.skip(k as int)),
{
    let n = v.len();
    if p.len() > n - k {
        return false;
    }
    let mut i: usize = 0;
    while i < p.len()
        invariant
            n == v@.len(),
            i <= p@.len() <= v@.len() - k,
            k <= v@.len(),
            forall|j: int| 0 <= j < i ==> p@[j] == v@[k + j],
        decreases p.len() - i,
    {
        if p[i] != v[k + i] {
            assert(v@.skip(k as int)[i as int] == v@[k + i]);
            return false;
        }
        i = i + 1;
    }
    assert(p@ =~= v@.skip(k as int).subrange(0, p@.len() as int));
    true
}

/// Removes the previous statement's regenerated result comment from the
/// leading trivia of `text` (only on line boundaries, never mid-line).
pub fn strip_stale_result<'a>(text: &'a str, last_result: &Option<String>) -> (r: &'a str)
    requires
        stale_strip_terminates(text@, opt_text_of(*last_result)),
    ensures
        r@ == stale_stripped(text@, opt_text_of(*last_result)),
{
    let prev = match last_result {
        Some(p) => p,
        None => {
            return text;
        },
    };
    let pv = chars_of(prev.as_str());
    let pe = trim_end_len(&pv);
    let p = sub_chars(&pv, 0, pe);
    let v = chars_of(text);
    let ghost pt = p@;
    let vlen = v.len();
    let mut k: usize = 0;
    assert(v@.skip(0) =~= v@);
    loop
        invariant
            vlen == v@.len(),
            v@ == text@,
            k <= v@.len(),
            spec_is_whitespace('\n'),
            spec_is_whitespace('\r'),
            pt == p@,
            pt == trim_end_ws(prev@),
            strip_stale(v@.skip(k as int), pt) == strip_stale(text@, pt),
            pt.len() == 0 ==> k < v@.len(),
            pt.len() == 0 && k > 0 ==> !spec_is_whitespace(v@[k as int]),
            pt.len() == 0 && k == 0 ==> ((v@[0] == '\n' || v@[0] == '\r') ==> trim_start_ws(v@).len() > 0),
        ensures
            v@ == text@,
            k <= v@.len(),
            pt == trim_end_ws(prev@),
            strip_stale(v@.skip(k as int), pt) == strip_stale(text@, pt),
            strip_stale(v@.skip(k as int), pt) == v@.skip(k as int),
        decreases v@.len() - k,
    {
        let ghost cur = v@.skip(k as int);
        if !is_prefix_at(&p, &v, k) {
            assert(strip_stale(cur, pt) == cur);
            break;
        }
        assert(pt.len() <= cur.len());
        let k2 = k + p.len();
        assert(cur.skip(pt.len() as int) =~= v@.skip(k2 as int));
        if k2 < v.len() && v[k2] != '\n' && v[k2] != '\r' {
            assert(cur.skip(pt.len() as int)[0] == v@[k2 as int]);
            assert(strip_stale(cur, pt) == cur);
            break;
        }
        let k3 = skip_ws_from(&v, k2);
        proof {
            lemma_trim_start_suffix(v@.skip(k2 as int));
            if pt.len() == 0 {
                assert(k2 == k);
                if k == 0 {
                    assert(v@.skip(0) =~= v@);
                }
                assert(v@.skip(k2 as int)[0] == v@[k2 as int]);
                assert(k3 > k);
                assert(k3 < v@.len());
                assert(v@.skip(k3 as int)[0] == v@[k3 as int]);
            }
            if k2 < v@.len() {
                assert(cur.skip(pt.len() as int)[0] == v@[k2 as int]);
            }
        }
        if k3 <= k {
            assert(v@.skip(k3 as int) == cur);
            assert(strip_stale(cur, pt) == cur);
            break;
        }
        assert(strip_stale(cur, pt) == strip_stale(v@.skip(k3 as int), pt));
        k = k3;
    }
    suffix_from(text, &v, k)
}

// ---------------------------------------------------------------------
// Errors
// ---------------------------------------------------------------------

/// Errors of documentation generation.
#[derive(Debug)]
pub enum DocsError {
    /// Failed to attach a database.
    DatabaseAttach(String),
    /// Failed to execute SQL.
    SqlError(String),
    /// Failed to load an extension.
    ExtensionLoad(String),
    /// Failed to read the input file.
    FileRead(String),
    /// Failed to parse markdown.
    MarkdownParse(String),
    /// Failed to write the output file.
    FileWrite(String),
    /// Undocumented functions and/or virtual-table modules were found.
    Undocumented { functions: Vec<String>, modules: Vec<String> },
    /// A statement marked as expected to fail succeeded.
    ExpectedErrorSucceeded(String),
    /// The error was already reported to stderr.
    AlreadyReported,
}

/// The list lines of names: `\n  - name` for each.
pub open spec fn names_text(v: Seq<Seq<char>>) -> Seq<char>
    decreases v.len(),
{
    if v.len() == 0 {
        seq![]
    } else {
        names_text(v.drop_last()) + "\n  - "@ + v.last()
    }
}

/// The paragraph listing undocumented items of one kind.
pub open spec fn undocumented_section(label: Seq<char>, names: Seq<Seq<char>>) -> Seq<char> {
    "The following "@ + label + " are not documented:"@ + names_text(names)
}

/// The message of undocumented functions and modules: a paragraph for
/// each non-empty kind, functions first, separated by a newline.
pub open spec fn undocumented_text(f: Seq<Seq<char>>, m: Seq<Seq<char>>) -> Seq<char> {
    if f.len() > 0 && m.len() > 0 {
        undocumented_section("functions"@, f) + "\n"@ + undocumented_section("modules"@, m)
    } else if f.len() > 0 {
        undocumented_section("functions"@, f)
    } else if m.len() > 0 {
        undocumented_section("modules"@, m)
    } else {
        seq![]
    }
}

/// The message of a documentation error.
pub open spec fn docs_error_text(e: DocsError) -> Seq<char> {
    match e {
        DocsError::DatabaseAttach(m) => "Failed to attach database: "@ + m@,
        DocsError::SqlError(m) => "SQL error: "@ + m@,
        DocsError::ExtensionLoad(m) => "Failed to load extension: "@ + m@,
        DocsError::FileRead(m) => "Failed to read file: "@ + m@,
        DocsError::MarkdownParse(m) => "Failed to parse markdown: "@ + m@,
        DocsError::FileWrite(m) => "Failed to write file: "@ + m@,
        DocsError::Undocumented { functions, modules } => undocumented_text(texts(functions@), texts(modules@)),
        DocsError::ExpectedErrorSucceeded(stmt) => "Statement is expected to fail (`-- @expect-error` directive or trailing `-- error:` comment) but succeeded:\n"@ + stmt@,
        DocsError::AlreadyReported => "SQL error in code block"@,
    }
}

/// Appends the paragraph listing undocumented items of one kind.
fn push_undocumented(out: &mut String, label: &str, names: &Vec<String>)
    ensures
        final(out)@ == old(out)@ + undocumented_section(label@, texts(names@)),
{
    let ghost start = out@;
    push_str(out, "The following ");
    push_str(out, label);
    push_str(out, " are not documented:");
    let ghost head = out@;
    let mut i: usize = 0;
    while i < names.len()
        invariant
            i <= names@.len(),
            out@ == head + names_text(texts(names@.subrange(0, i as int))),
        decreases names@.len() - i,
    {
        push_str(out, "\n  - ");
        push_str(out, names[i].as_str());
        proof {
            let sub = texts(names@.subrange(0, i + 1));
            assert(sub.drop_last() =~= texts(names@.subrange(0, i as int)));
            assert(sub.last() == names@[i as int]@);
        }
        assert(out@ =~= head + names_text(texts(names@.subrange(0, i + 1))));
        i = i + 1;
    }
    assert(names@.subrange(0, names@.len() as int) =~= names@);
    assert(out@ =~= start + undocumented_section(label@, texts(names@)));
}

impl DocsError {
    /// The message of the error.
    pub fn to_string(&self) -> (r: String)
        ensures
            r@ == docs_error_text(*self),
    {
        match self {
            DocsError::DatabaseAttach(m) => concat_msg("Failed to attach database: ", m),
            DocsError::SqlError(m) => concat_msg("SQL error: ", m),
            DocsError::ExtensionLoad(m) => concat_msg("Failed to load extension: ", m),
            DocsError::FileRead(m) => concat_msg("Failed to read file: ", m),
            DocsError::MarkdownParse(m) => concat_msg("Failed to parse markdown: ", m),
            DocsError::FileWrite(m) => concat_msg("Failed to write file: ", m),
            DocsError::Undocumented { functions, modules } => {
                let mut out = String::new();
                if functions.len() > 0 {
                    push_undocumented(&mut out, "functions", functions);
                }
                if modules.len() > 0 {
                    if functions.len() > 0 {
                        push_str(&mut out, "\n");
                    }
                    push_undocumented(&mut out, "modules", modules);
                }
                assert(out@ =~= docs_error_text(*self));
                out
            }
            DocsError::ExpectedErrorSucceeded(stmt) => concat_msg(
                "Statement is expected to fail (`-- @expect-error` directive or trailing `-- error:` comment) but succeeded:\n",
                stmt,
            ),
            DocsError::AlreadyReported => string_of("SQL error in code block"),
        }
    }
}

/// A fixed prefix followed by a message.
fn concat_msg(prefix: &str, m: &String) -> (r: String)
    ensures
        r@ == prefix@ + m@,
{
    let mut r = string_of(prefix);
    push_str(&mut r, m.as_str());
    r
}

} // verus!
