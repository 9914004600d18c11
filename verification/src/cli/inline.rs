//! Inlining query results into documentation: the comment block written
//! under a statement, the byte-span edits of code blocks and headings,
//! and the undocumented functions of an extension.

use vstd::prelude::*;
use vstd::string::StringSliceAdditionalSpecFns;
use crate::ast::texts;
use crate::text::{chars_of, push_char, push_str, range_ok, string_of, string_from_chars, sub_chars, trim_start_ws};
use crate::cli::table::{render_table, table_text, byte_widths, rows_byte_widths, rows_view};

verus! {

/// The lines of a text as `str::lines` gives them: split at `\n`, a `\r`
/// before the `\n` dropped, no empty line after a final `\n`.
pub open spec fn lines_of(s: Seq<char>) -> Seq<Seq<char>>
    decreases s.len(),
{
    if s.len() == 0 {
        Seq::empty()
    } else {
        match crate::cli::docs::find_char(s, 0, '\n') {
            None => seq![s],
            Some(i) => {
                let line = s.subrange(0, i);
                let line = if line.len() > 0 && line.last() == '\r' {
                    line.drop_last()
                } else {
                    line
                };
                proof {
                    crate::cli::docs::lemma_finds(s, 0, '\n', '\n');
                }
                seq![line] + lines_of(s.skip(i + 1))
            },
        }
    }
}

/// Each line after `prefix`, ended by a newline.
pub open spec fn prefixed(lines: Seq<Seq<char>>, prefix: Seq<char>) -> Seq<char>
    decreases lines.len(),
{
    if lines.len() == 0 {
        Seq::empty()
    } else {
        prefixed(lines.drop_last(), prefix) + prefix + lines.last() + seq!['\n']
    }
}

/// Each line as a `-- ` comment line.
pub open spec fn commented(lines: Seq<Seq<char>>) -> Seq<char> {
    prefixed(lines, "-- "@)
}

fn next_newline(v: &Vec<char>, k: usize) -> (r: usize)
    requires
        k <= v@.len(),
    ensures
        k <= r <= v@.len(),
        crate::cli::docs::find_char(v@, k as int, '\n') == if r < v@.len() { Some(r as int) } else { None },
{
    let mut i = k;
    while i < v.len() && v[i] != '\n'
        invariant
            k <= i <= v@.len(),
            crate::cli::docs::find_char(v@, k as int, '\n') == crate::cli::docs::find_char(v@, i as int, '\n'),
        decreases v.len() - i,
    {
        i = i + 1;
    }
    i
}

proof fn lemma_find_shift(s: Seq<char>, k: int, i: int)
    requires
        0 <= k <= i <= s.len(),
    ensures
        crate::cli::docs::find_char(s, i, '\n') == match crate::cli::docs::find_char(s.skip(k), i - k, '\n') {
            Some(j) => Some(j + k),
            None => None,
        },
    decreases s.len() - i,
{
    if i < s.len() {
        assert(s.skip(k)[i - k] == s[i]);
        lemma_find_shift(s, k, i + 1);
    }
}

/// Appends each line of `text` as a `-- ` comment line.
/// Appends each line of `text` after `prefix`, ended by a newline.
pub fn push_prefixed(out: &mut String, text: &str, prefix: &str)
    ensures
        final(out)@ == old(out)@ + prefixed(lines_of(text@), prefix@),
{
    let v = chars_of(text);
    let ghost start = out@;
    let mut k: usize = 0;
    let ghost done: Seq<Seq<char>> = Seq::empty();
    assert(v@.skip(0) =~= v@);
    while k < v.len()
        invariant
            v@ == text@,
            k <= v@.len(),
            done + lines_of(v@.skip(k as int)) == lines_of(text@),
            out@ == start + prefixed(done, prefix@),
        decreases v.len() - k,
    {
        let e = next_newline(&v, k);
        proof {
            lemma_find_shift(v@, k as int, k as int);
            assert(v@.skip(k as int).len() > 0);
        }
        let mut line_end = e;
        if e < v.len() && e > k && v[e - 1] == '\r' {
            line_end = e - 1;
        }
        let line = sub_chars(&v, k, line_end);
        let ls = string_from_chars(&line);
        push_str(out, prefix);
        push_str(out, ls.as_str());
        push_char(out, '\n');
        let ghost l = line@;
        proof {
            let rest = v@.skip(k as int);
            if e < v.len() {
                assert(rest.subrange(0, e - k) =~= v@.subrange(k as int, e as int));
                if e > k && v@[e - 1] == '\r' {
                    assert(v@.subrange(k as int, e as int).drop_last() =~= l);
                } else {
                    assert(v@.subrange(k as int, e as int) =~= l);
                }
                assert(rest.skip(e - k + 1) =~= v@.skip(e + 1));
                assert(lines_of(rest) == seq![l] + lines_of(v@.skip(e + 1)));
            } else {
                assert(rest =~= l);
                assert(lines_of(rest) == seq![l]);
                assert(v@.skip(v@.len() as int) =~= Seq::<char>::empty());
            }
            assert(done.push(l) + lines_of(v@.skip(if e < v@.len() { e + 1 } else { e as int })) =~= done + lines_of(
                rest,
            ));
            assert(prefixed(done.push(l), prefix@) == prefixed(done, prefix@) + prefix@ + l + seq!['\n']) by {
                assert(done.push(l).drop_last() =~= done);
            }
            done = done.push(l);
        }
        k = if e < v.len() { e + 1 } else { e };
    }
    assert(v@.skip(v@.len() as int) =~= Seq::<char>::empty());
    assert(done + Seq::<Seq<char>>::empty() =~= done);
}

fn push_commented(out: &mut String, text: &str)
    ensures
        final(out)@ == old(out)@ + commented(lines_of(text@)),
{
    push_prefixed(out, text, "-- ");
}

fn has_newline(s: &str) -> (r: bool)
    ensures
        r == crate::cli::docs::find_char(s@, 0, '\n') is Some,
{
    let v = chars_of(s);
    let e = next_newline(&v, 0);
    e < v.len()
}

fn has_comment_end(s: &str) -> (r: bool)
    ensures
        r == crate::cli::docs::find_pair(s@, 0, '*', '/') is Some,
{
    let v = chars_of(s);
    let n = v.len();
    if n < 2 {
        return false;
    }
    let mut i: usize = 0;
    while i < n - 1
        invariant
            n == v@.len(),
            n >= 2,
            v@ == s@,
            i <= v@.len(),
            crate::cli::docs::find_pair(s@, 0, '*', '/') == crate::cli::docs::find_pair(s@, i as int, '*', '/'),
        decreases v.len() - i,
    {
        if v[i] == '*' && v[i + 1] == '/' {
            return true;
        }
        i = i + 1;
    }
    false
}

/// The comment block inlined under a statement with result columns: `--
/// No results`; a single value as a `-- ` line (every line of it prefixed
/// when it spans several); several rows as a table in a `/* */` block, or
/// prefixed line by line when a cell holds `*/`. Each form ends in a
/// newline.
pub open spec fn results_text(columns: Seq<Seq<char>>, rows: Seq<Seq<Seq<char>>>) -> Seq<char> {
    if rows.len() == 0 {
        "-- No results\n"@
    } else if rows.len() == 1 {
        let v = rows[0][0];
        if crate::cli::docs::find_char(v, 0, '\n') is Some {
            commented(lines_of(v))
        } else {
            "-- "@ + v + seq!['\n']
        }
    } else {
        let t = table_text(columns, byte_widths(columns), rows, rows_byte_widths(rows));
        if crate::cli::docs::find_pair(t, 0, '*', '/') is Some {
            commented(lines_of(t))
        } else {
            "/*\n"@ + t + "*/\n"@
        }
    }
}

/// Formats the rows of a statement (each value already displayed as text)
/// as the comment block inlined under it.
pub fn format_results(columns: &Vec<String>, rows: &Vec<Vec<String>>) -> (r: String)
    requires
        rows@.len() == 1 ==> rows@[0]@.len() > 0,
    ensures
        r@ == results_text(texts(columns@), rows_view(rows@)),
{
    let mut out = String::new();
    let ghost rv = rows_view(rows@);
    if rows.len() == 0 {
        push_str(&mut out, "-- No results\n");
    } else if rows.len() == 1 {
        let value = rows[0][0].as_str();
        assert(rv[0][0] == value@);
        if has_newline(value) {
            push_commented(&mut out, value);
        } else {
            push_str(&mut out, "-- ");
            push_str(&mut out, value);
            push_char(&mut out, '\n');
        }
    } else {
        let table = render_table(columns, rows);
        if has_comment_end(table.as_str()) {
            push_commented(&mut out, table.as_str());
        } else {
            push_str(&mut out, "/*\n");
            push_str(&mut out, table.as_str());
            push_str(&mut out, "*/\n");
        }
    }
    out
}

/// A byte-span replacement against the original markdown source.
#[derive(Debug)]
pub struct Edit {
    pub start: usize,
    pub end: usize,
    pub replacement: String,
}

/// The models of a list of edits.
pub open spec fn edit_models(v: Seq<Edit>) -> Seq<(crate::ast::Span, Seq<char>)> {
    Seq::new(v.len(), |i: int| (crate::ast::Span { start: v[i].start, end: v[i].end }, v[i].replacement@))
}

/// The documented function named by a heading whose first child is inline
/// code: the code up to its first `(`.
pub open spec fn heading_function_of(code: Option<Seq<char>>) -> Option<Seq<char>> {
    match code {
        Some(c) => match crate::cli::docs::find_char(c, 0, '(') {
            Some(i) => Some(c.subrange(0, i)),
            None => Some(c),
        },
        None => None,
    }
}

/// The function a heading documents, given the text of its first child
/// when that child is inline code.
pub fn heading_function_name(first_inline_code: Option<&str>) -> (r: Option<String>)
    ensures
        opt_view(r) == heading_function_of(match first_inline_code {
            Some(c) => Some(c@),
            None => None,
        }),
{
    match first_inline_code {
        None => None,
        Some(c) => {
            let v = chars_of(c);
            let mut i: usize = 0;
            while i < v.len() && v[i] != '('
                invariant
                    v@ == c@,
                    i <= v@.len(),
                    crate::cli::docs::find_char(c@, 0, '(') == crate::cli::docs::find_char(c@, i as int, '('),
                decreases v.len() - i,
            {
                i = i + 1;
            }
            if i < v.len() {
                let f = sub_chars(&v, 0, i);
                Some(string_from_chars(&f))
            } else {
                Some(string_of(c))
            }
        },
    }
}

/// The model of an optional text.
pub open spec fn opt_view(o: Option<String>) -> Option<Seq<char>> {
    match o {
        Some(s) => Some(s@),
        None => None,
    }
}

/// The edit appending a fresh `{#function}` anchor to a heading found at
/// bytes `[start, end)`, replacing the anchors an earlier run left there;
/// none when those bytes are not a slice of the source.
pub open spec fn heading_anchor_of(src: Seq<char>, start: int, end: int, function: Seq<char>) -> Option<(crate::ast::Span, Seq<char>)> {
    if crate::text::byte_range_ok(src, start, end) {
        let h = crate::text::byte_slice_chars(src, start, end);
        let kept = crate::cli::docs::anchors_end(h, h.len() as int);
        Some((crate::ast::Span { start: (start + crate::text::byte_len(h, kept)) as usize, end: end as usize },
            " {#"@ + function + seq!['}']))
    } else {
        None
    }
}

/// Builds the edit appending a fresh `{#function}` anchor to the heading at
/// bytes `[start, end)` of the source.
pub fn heading_anchor_edit(start: usize, end: usize, src: &str, function: &str) -> (r: Option<Edit>)
    ensures
        match r {
            Some(e) => heading_anchor_of(src@, start as int, end as int, function@) == Some(
                (crate::ast::Span { start: e.start, end: e.end }, e.replacement@),
            ),
            None => heading_anchor_of(src@, start as int, end as int, function@) is None,
        },
{
    if !range_ok(src, start, end) {
        return None;
    }
    let heading_src = crate::text::byte_slice(src, start, end);
    let kept = crate::cli::docs::strip_trailing_anchors(heading_src);
    let kept_len = kept.as_bytes().len();
    proof {
        crate::cli::docs::lemma_anchor_helpers(heading_src@, heading_src@.len() as int);
        crate::text::lemma_prefix_boundary(
            heading_src@,
            crate::cli::docs::anchors_end(heading_src@, heading_src@.len() as int),
        );
    }
    let mut rep = string_of(" {#");
    push_str(&mut rep, function);
    push_char(&mut rep, '}');
    Some(Edit { start: start + kept_len, end, replacement: rep })
}

/// The position of the last `\n` of `b`.
pub open spec fn rfind_newline(b: Seq<char>) -> Option<int>
    decreases b.len(),
{
    if b.len() == 0 {
        None
    } else if b.last() == '\n' {
        Some(b.len() - 1)
    } else {
        rfind_newline(b.drop_last())
    }
}

/// A closing fence line: after leading whitespace, three backticks or
/// three tildes.
pub open spec fn is_fence_line(l: Seq<char>) -> bool {
    let t = trim_start_ws(l);
    seq!['`', '`', '`'].is_prefix_of(t) || seq!['~', '~', '~'].is_prefix_of(t)
}

/// The end of a code block's interior: the start of the last line when
/// it is a closing fence and does not start before the interior, else the
/// end of the block.
pub open spec fn interior_end_of(b: Seq<char>, interior_start: int) -> int {
    match rfind_newline(b) {
        Some(idx) => if idx + 1 >= interior_start {
            if is_fence_line(b.skip(idx + 1)) {
                idx + 1
            } else {
                b.len() as int
            }
        } else {
            b.len() as int
        },
        None => b.len() as int,
    }
}

/// Lines re-indented: each non-empty line after the indent, each ending in
/// a newline.
pub open spec fn reindented(lines: Seq<Seq<char>>, indent: Seq<char>) -> Seq<char>
    decreases lines.len(),
{
    if lines.len() == 0 {
        Seq::empty()
    } else {
        reindented(lines.drop_last(), indent) + (if lines.last().len() > 0 {
            indent + lines.last()
        } else {
            Seq::empty()
        }) + seq!['\n']
    }
}

/// The edit replacing the interior of a code block found at bytes
/// `[start, end)` (starting in 1-based `column`): from after the opening
/// fence line to the start of the closing fence line, with the new
/// contents indented to the fence's column. None when those bytes are not
/// a slice of the source or hold no line break.
pub open spec fn code_block_edit_of(src: Seq<char>, start: int, end: int, column: int, new_value: Seq<char>)
    -> Option<(crate::ast::Span, Seq<char>)>
{
    if !crate::text::byte_range_ok(src, start, end) {
        None
    } else {
        let b = crate::text::byte_slice_chars(src, start, end);
        match crate::cli::docs::find_char(b, 0, '\n') {
            None => None,
            Some(f) => {
                let is = f + 1;
                let ie = interior_end_of(b, is);
                Some((
                    crate::ast::Span {
                        start: (start + crate::text::byte_len(b, is)) as usize,
                        end: (start + crate::text::byte_len(b, ie)) as usize,
                    },
                    reindented(lines_of(new_value), crate::cli::table::repeat(' ', if column >= 1 { column - 1 } else { 0 })),
                ))
            },
        }
    }
}

/// Appends each line of `text`, re-indented.
fn push_reindented(out: &mut String, text: &str, indent: &str)
    ensures
        final(out)@ == old(out)@ + reindented(lines_of(text@), indent@),
{
    let v = chars_of(text);
    let ghost start = out@;
    let mut k: usize = 0;
    let ghost done: Seq<Seq<char>> = Seq::empty();
    assert(v@.skip(0) =~= v@);
    while k < v.len()
        invariant
            v@ == text@,
            k <= v@.len(),
            done + lines_of(v@.skip(k as int)) == lines_of(text@),
            out@ == start + reindented(done, indent@),
        decreases v.len() - k,
    {
        let e = next_newline(&v, k);
        proof {
            lemma_find_shift(v@, k as int, k as int);
            assert(v@.skip(k as int).len() > 0);
        }
        let mut line_end = e;
        if e < v.len() && e > k && v[e - 1] == '\r' {
            line_end = e - 1;
        }
        let line = sub_chars(&v, k, line_end);
        if line.len() > 0 {
            push_str(out, indent);
            let ls = string_from_chars(&line);
            push_str(out, ls.as_str());
        }
        push_char(out, '\n');
        let ghost l = line@;
        proof {
            let rest = v@.skip(k as int);
            if e < v.len() {
                assert(rest.subrange(0, e - k) =~= v@.subrange(k as int, e as int));
                if e > k && v@[e - 1] == '\r' {
                    assert(v@.subrange(k as int, e as int).drop_last() =~= l);
                } else {
                    assert(v@.subrange(k as int, e as int) =~= l);
                }
                assert(rest.skip(e - k + 1) =~= v@.skip(e + 1));
                assert(lines_of(rest) == seq![l] + lines_of(v@.skip(e + 1)));
            } else {
                assert(rest =~= l);
                assert(lines_of(rest) == seq![l]);
                assert(v@.skip(v@.len() as int) =~= Seq::<char>::empty());
            }
            assert(done.push(l) + lines_of(v@.skip(if e < v@.len() { e + 1 } else { e as int })) =~= done + lines_of(
                rest,
            ));
            assert(reindented(done.push(l), indent@) == reindented(done, indent@) + (if l.len() > 0 {
                indent@ + l
            } else {
                Seq::empty()
            }) + seq!['\n']) by {
                assert(done.push(l).drop_last() =~= done);
            }
            done = done.push(l);
        }
        k = if e < v.len() { e + 1 } else { e };
    }
    assert(v@.skip(v@.len() as int) =~= Seq::<char>::empty());
    assert(done + Seq::<Seq<char>>::empty() =~= done);
}

fn last_newline(b: &Vec<char>) -> (r: Option<usize>)
    ensures
        match r {
            Some(i) => rfind_newline(b@) == Some(i as int) && i < b@.len(),
            None => rfind_newline(b@) is None,
        },
{
    let mut j = b.len();
    assert(b@.subrange(0, j as int) =~= b@);
    while j > 0 && b[j - 1] != '\n'
        invariant
            j <= b@.len(),
            rfind_newline(b@) == rfind_newline(b@.subrange(0, j as int)),
        decreases j,
    {
        assert(b@.subrange(0, j as int).drop_last() =~= b@.subrange(0, j - 1));
        j = j - 1;
    }
    if j == 0 {
        None
    } else {
        Some(j - 1)
    }
}

fn fence_at(b: &Vec<char>, k: usize, c: char) -> (r: bool)
    requires
        k <= b@.len(),
    ensures
        r == seq![c, c, c].is_prefix_of(b@.skip(k as int)),
{
    if b.len() - k < 3 {
        return false;
    }
    let r = b[k] == c && b[k + 1] == c && b[k + 2] == c;
    proof {
        let t = b@.skip(k as int);
        assert(t[0] == b@[k as int] && t[1] == b@[k + 1] && t[2] == b@[k + 2]);
        if r {
            assert(seq![c, c, c] =~= t.subrange(0, 3));
        }
    }
    r
}

/// Builds the edit replacing the interior of the code block at bytes
/// `[start, end)` of the source, whose opening fence starts in 1-based
/// `column`, with `new_value`.
pub fn code_block_edit(start: usize, end: usize, column: usize, src: &str, new_value: &str) -> (r: Option<Edit>)
    ensures
        match r {
            Some(e) => code_block_edit_of(src@, start as int, end as int, column as int, new_value@) == Some(
                (crate::ast::Span { start: e.start, end: e.end }, e.replacement@),
            ),
            None => code_block_edit_of(src@, start as int, end as int, column as int, new_value@) is None,
        },
{
    if !range_ok(src, start, end) {
        return None;
    }
    let block = crate::text::byte_slice(src, start, end);
    let b = chars_of(block);
    let total = block.as_bytes().len();
    let f = next_newline(&b, 0);
    if f >= b.len() {
        return None;
    }
    let is = f + 1;
    let ie = match last_newline(&b) {
        Some(idx) => {
            if idx + 1 >= is {
                let k = crate::cli::docs::skip_ws_from(&b, idx + 1);
                if fence_at(&b, k, '`') || fence_at(&b, k, '~') {
                    idx + 1
                } else {
                    b.len()
                }
            } else {
                b.len()
            }
        },
        None => b.len(),
    };
    let bis = crate::text::byte_offset(&b, is);
    let bie = crate::text::byte_offset(&b, ie);
    proof {
        crate::text::lemma_prefix_boundary(b@, is as int);
        crate::text::lemma_prefix_boundary(b@, ie as int);
    }
    let indent_len = if column >= 1 { column - 1 } else { 0 };
    let mut indent = String::new();
    let mut i: usize = 0;
    while i < indent_len
        invariant
            i <= indent_len,
            indent@ == crate::cli::table::repeat(' ', i as int),
        decreases indent_len - i,
    {
        push_char(&mut indent, ' ');
        i = i + 1;
        assert(indent@ =~= crate::cli::table::repeat(' ', i as int));
    }
    let mut replacement = String::new();
    push_reindented(&mut replacement, new_value, indent.as_str());
    Some(Edit { start: start + bis, end: start + bie, replacement })
}

/// Applies the edits back to front, so that each applies to the bytes it
/// was computed against.
pub fn apply_edits(src: &str, edits: &Vec<Edit>) -> (r: String)
    requires
        crate::cli::lint::apply_ok(src@, edit_models(edits@).reverse()),
    ensures
        r@ == crate::cli::lint::apply_seq(src@, edit_models(edits@).reverse()),
{
    let ghost em = edit_models(edits@).reverse();
    let mut out = string_of(src);
    let mut k: usize = edits.len();
    assert(em.take(0) =~= Seq::<(crate::ast::Span, Seq<char>)>::empty());
    while k > 0
        invariant
            k <= edits@.len(),
            em == edit_models(edits@).reverse(),
            crate::cli::lint::apply_ok(src@, em),
            out@ == crate::cli::lint::apply_seq(src@, em.take(edits@.len() - k)),
        decreases k,
    {
        let i = edits.len() - k;
        proof {
            crate::cli::lint::lemma_apply_ok_prefix(src@, em, i + 1);
            assert(em.take(i + 1).drop_last() =~= em.take(i as int));
            assert(em[i as int] == edit_models(edits@)[k - 1]);
        }
        let e = &edits[k - 1];
        out = crate::cli::lint::replace_range(&out, e.start, e.end, &e.replacement);
        k = k - 1;
    }
    assert(em.take(edits@.len() as int) =~= em);
    out
}

/// The caret offset of an error report: the statement's offset when SQLite
/// gave its own offset into it (that one is added later), else the
/// statement's offset past its leading trivia.
pub fn error_caret_offset(sqlite_offset: Option<usize>, curr: &str, curr_offset: usize) -> (r: usize)
    requires
        curr_offset + vstd::utf8::encode_utf8(curr@).len() <= usize::MAX,
    ensures
        r == match sqlite_offset {
            Some(_) => curr_offset as int,
            None => curr_offset + crate::text::byte_len(curr@, crate::cli::docs::trivia_from(curr@, 0)),
        },
{
    match sqlite_offset {
        Some(_) => curr_offset,
        None => {
            let t = crate::cli::docs::leading_trivia_len(curr);
            proof {
                crate::cli::docs::lemma_trivia(curr@, 0);
                crate::text::lemma_prefix_boundary(curr@, crate::cli::docs::trivia_from(curr@, 0));
            }
            curr_offset + t
        },
    }
}

/// `a` comes before or with `b` in code point order (the order of
/// `String`'s `Ord`, since UTF-8 keeps code point order).
pub open spec fn lex_le(a: Seq<char>, b: Seq<char>) -> bool
    decreases a.len(),
{
    if a.len() == 0 {
        true
    } else if b.len() == 0 {
        false
    } else if a[0] != b[0] {
        (a[0] as u32) < (b[0] as u32)
    } else {
        lex_le(a.drop_first(), b.drop_first())
    }
}

/// Inserting a name into a sorted list, after every name that comes
/// before or with it.
pub open spec fn insert_lex(sorted: Seq<Seq<char>>, x: Seq<char>) -> Seq<Seq<char>>
    decreases sorted.len(),
{
    if sorted.len() == 0 {
        seq![x]
    } else if lex_le(sorted.last(), x) {
        sorted.push(x)
    } else {
        insert_lex(sorted.drop_last(), x).push(sorted.last())
    }
}

/// Names sorted in code point order.
pub open spec fn sort_lex(s: Seq<Seq<char>>) -> Seq<Seq<char>>
    decreases s.len(),
{
    if s.len() == 0 {
        Seq::empty()
    } else {
        insert_lex(sort_lex(s.drop_last()), s.last())
    }
}

/// The loaded names that no heading documents, in code point order.
pub open spec fn undocumented_of(loaded: Seq<Seq<char>>, documented: Seq<Seq<char>>) -> Seq<Seq<char>> {
    sort_lex(loaded.filter(|f: Seq<char>| !documented.contains(f)))
}

fn lex_le_exec(a: &Vec<char>, b: &Vec<char>) -> (r: bool)
    ensures
        r == lex_le(a@, b@),
{
    let mut i: usize = 0;
    assert(a@.skip(0) =~= a@ && b@.skip(0) =~= b@);
    while i < a.len() && i < b.len() && a[i] == b[i]
        invariant
            i <= a@.len(),
            i <= b@.len(),
            lex_le(a@, b@) == lex_le(a@.skip(i as int), b@.skip(i as int)),
        decreases a.len() - i,
    {
        assert(a@.skip(i as int).drop_first() =~= a@.skip(i + 1));
        assert(b@.skip(i as int).drop_first() =~= b@.skip(i + 1));
        i = i + 1;
    }
    if i == a.len() {
        return true;
    }
    if i == b.len() {
        return false;
    }
    assert(a@.skip(i as int)[0] == a@[i as int] && b@.skip(i as int)[0] == b@[i as int]);
    (a[i] as u32) < (b[i] as u32)
}

proof fn lemma_insert_lex(sorted: Seq<Seq<char>>, x: Seq<char>, k: int)
    requires
        0 <= k <= sorted.len(),
        forall|j: int| k <= j < sorted.len() ==> !lex_le(#[trigger] sorted[j], x),
        k == 0 || lex_le(sorted[k - 1], x),
    ensures
        insert_lex(sorted, x) == sorted.insert(k, x),
    decreases sorted.len(),
{
    if sorted.len() > 0 && k < sorted.len() {
        let d = sorted.drop_last();
        assert forall|j: int| k <= j < d.len() implies !lex_le(#[trigger] d[j], x) by {
            assert(d[j] == sorted[j]);
        }
        if k > 0 {
            assert(d[k - 1] == sorted[k - 1]);
        }
        lemma_insert_lex(d, x, k);
        assert(d.insert(k, x).push(sorted.last()) =~= sorted.insert(k, x));
    } else if sorted.len() > 0 {
        assert(sorted.push(x) =~= sorted.insert(k, x));
    } else {
        assert(seq![x] =~= sorted.insert(k, x));
    }
}

/// The functions or modules an extension loaded that no heading documents,
/// sorted.
pub fn undocumented(loaded: &Vec<String>, documented: &Vec<String>) -> (r: Vec<String>)
    ensures
        texts(r@) == undocumented_of(texts(loaded@), texts(documented@)),
{
    let ghost l = texts(loaded@);
    let ghost d = texts(documented@);
    let mut sorted: Vec<String> = Vec::new();
    let mut i: usize = 0;
    proof {
        reveal(Seq::filter);
    }
    assert(l.take(0).filter(|f: Seq<char>| !d.contains(f)) =~= Seq::<Seq<char>>::empty());
    while i < loaded.len()
        invariant
            i <= loaded@.len(),
            l == texts(loaded@),
            d == texts(documented@),
            texts(sorted@) == sort_lex(l.take(i as int).filter(|f: Seq<char>| !d.contains(f))),
        decreases loaded.len() - i,
    {
        let name = &loaded[i];
        let known = crate::analyzer::schema::contains_text(documented, name.as_str());
        assert(l.take(i + 1) =~= l.take(i as int).push(name@));
        proof {
            reveal(Seq::filter);
            assert(l.take(i + 1).drop_last() =~= l.take(i as int));
            assert(l.take(i + 1).last() == name@);
        }
        if !known {
            let ghost before = texts(sorted@);
            let nv = chars_of(name.as_str());
            let mut pos = sorted.len();
            while pos > 0 && !lex_le_exec(&chars_of(sorted[pos - 1].as_str()), &nv)
                invariant
                    pos <= sorted@.len(),
                    before == texts(sorted@),
                    nv@ == name@,
                    forall|j: int| pos <= j < before.len() ==> !lex_le(#[trigger] before[j], nv@),
                decreases pos,
            {
                pos = pos - 1;
            }
            proof {
                lemma_insert_lex(before, nv@, pos as int);
                let fl = l.take(i as int).filter(|f: Seq<char>| !d.contains(f));
                assert(fl.push(name@).drop_last() =~= fl);
                assert(l.take(i + 1).filter(|f: Seq<char>| !d.contains(f)) =~= l.take(i as int).filter(
                    |f: Seq<char>| !d.contains(f),
                ).push(name@));
            }
            sorted.insert(pos, name.clone());
            assert(texts(sorted@) =~= before.insert(pos as int, name@));
        } else {
            assert(l.take(i + 1).filter(|f: Seq<char>| !d.contains(f)) =~= l.take(i as int).filter(
                |f: Seq<char>| !d.contains(f),
            ));
        }
        i = i + 1;
    }
    assert(l.take(loaded.len() as int) =~= l);
    sorted
}

/// Whether the edits can be applied back to front: each replaces a
/// well-formed byte range of the text the later ones left.
pub fn edits_applicable(src: &str, edits: &Vec<Edit>) -> (r: bool)
    ensures
        r == crate::cli::lint::apply_ok(src@, edit_models(edits@).reverse()),
{
    let ghost em = edit_models(edits@).reverse();
    let mut cur = string_of(src);
    let mut k: usize = edits.len();
    assert(em.take(0) =~= Seq::<(crate::ast::Span, Seq<char>)>::empty());
    while k > 0
        invariant
            k <= edits@.len(),
            em == edit_models(edits@).reverse(),
            crate::cli::lint::apply_ok(src@, em.take(edits@.len() - k)),
            cur@ == crate::cli::lint::apply_seq(src@, em.take(edits@.len() - k)),
        decreases k,
    {
        let i = edits.len() - k;
        let e = &edits[k - 1];
        proof {
            assert(em.take(i + 1).drop_last() =~= em.take(i as int));
            assert(em[i as int] == edit_models(edits@)[k - 1]);
        }
        if !range_ok(cur.as_str(), e.start, e.end) {
            proof {
                if crate::cli::lint::apply_ok(src@, em) {
                    crate::cli::lint::lemma_apply_ok_prefix(src@, em, i + 1);
                }
            }
            return false;
        }
        cur = crate::cli::lint::replace_range(&cur, e.start, e.end, &e.replacement);
        k = k - 1;
    }
    assert(em.take(edits@.len() as int) =~= em);
    true
}

} // verus!
