//! Code generation helpers: reading `-- name: xxx :annotation` lines and
//! `$name::type` parameters, choosing result types, validating annotations,
//! and locating errors in the SQL source.

use vstd::prelude::*;
use vstd::string::StringSliceAdditionalSpecFns;
use crate::ast::texts;
use crate::text::{chars_of, string_from_chars, sub_chars, is_whitespace, spec_is_whitespace, str_eq, string_of, push_str, byte_slice, byte_slice_chars, trim_end_ws, byte_len, byte_offset, lemma_slice_chars, concat3};

verus! {

/// The kind of result a query returns.
#[derive(Debug, Clone, Copy, PartialEq, Eq, Structural)]
pub enum ResultType {
    /// No result set.
    Void,
    /// Every row.
    Rows,
    /// At most one row.
    Row,
    /// A single value.
    Value,
    /// The first column of every row.
    List,
}

/// A query parameter: `$name` or `:name`, possibly typed as `$name::text`.
#[derive(Debug, PartialEq)]
pub struct Parameter {
    /// The parameter as written.
    pub full_name: String,
    /// The name without its prefix and type.
    pub name: String,
    /// The type after `::`, if any.
    pub annotated_type: Option<String>,
}

// ---------------------------------------------------------------------
// Name lines
// ---------------------------------------------------------------------

/// The pattern of a name line: `-- name: <word>` followed by annotations.
pub const NAME_LINE_PATTERN: &'static str = "^--\\s+name:\\s+(\\w+)((?:\\s+:\\w+)*)";

/// What the `regex` crate gives for a pattern on a text: when the pattern
/// compiles and matches, the texts of capture groups 1 and 2 (empty for a
/// group that did not take part); a function of its arguments alone.
pub uninterp spec fn regex_two_groups(pattern: Seq<char>, text: Seq<char>) -> Option<(Seq<char>, Seq<char>)>;

/// Captures groups 1 and 2 of `pattern` in `text` with `regex::Regex`.
/// Trusted: the result is the named `regex_two_groups` of the arguments;
/// `None` when the pattern does not compile or does not match.
#[verifier::external_body]
fn regex_captures(pattern: &str, text: &str) -> (r: Option<(String, String)>)
    ensures
        match r {
            Some(p) => regex_two_groups(pattern@, text@) == Some((p.0@, p.1@)),
            None => regex_two_groups(pattern@, text@) is None,
        },
{
    let re = regex::Regex::new(pattern).ok()?;
    let caps = re.captures(text)?;
    let first = caps.get(1).map_or("", |m| m.as_str()).to_string();
    let second = caps.get(2).map_or("", |m| m.as_str()).to_string();
    Some((first, second))
}

/// The end of the word starting at `i`: the next whitespace, or the end.
pub open spec fn word_end(s: Seq<char>, i: int) -> int
    decreases s.len() - i,
{
    if i < 0 || i >= s.len() || spec_is_whitespace(s[i]) {
        i
    } else {
        word_end(s, i + 1)
    }
}

/// The annotations among the whitespace-separated words of `s` from
/// position `i` on: each word that starts with `:`, without the colon.
pub open spec fn annotations_from(s: Seq<char>, i: int) -> Seq<Seq<char>>
    decreases s.len() - i,
{
    if i < 0 || i >= s.len() {
        seq![]
    } else if spec_is_whitespace(s[i]) {
        annotations_from(s, i + 1)
    } else {
        proof {
            lemma_word_end(s, i + 1);
        }
        let e = word_end(s, i + 1);
        if e <= i {
            seq![]
        } else {
            let w = s.subrange(i, e);
            (if w[0] == ':' { seq![w.subrange(1, w.len() as int)] } else { Seq::<Seq<char>>::empty() })
                + annotations_from(s, e)
        }
    }
}

/// The end of a word moves forward and stays within the text.
pub proof fn lemma_word_end(s: Seq<char>, i: int)
    requires
        0 <= i <= s.len(),
    ensures
        i <= word_end(s, i) <= s.len(),
    decreases s.len() - i,
{
    if i < s.len() && !spec_is_whitespace(s[i]) {
        lemma_word_end(s, i + 1);
    }
}

/// The annotations of the annotation part of a name line: each
/// whitespace-separated word that starts with `:`, without the colon.
pub fn parse_annotations(s: &str) -> (r: Vec<String>)
    ensures
        texts(r@) == annotations_from(s@, 0),
{
    let c = chars_of(s);
    let mut r: Vec<String> = Vec::new();
    let mut i: usize = 0;
    while i < c.len()
        invariant
            i <= c@.len(),
            c@ == s@,
            texts(r@) + annotations_from(c@, i as int) == annotations_from(c@, 0),
        decreases c@.len() - i,
    {
        if is_whitespace(c[i]) {
            i = i + 1;
        } else {
            let mut e = i + 1;
            proof {
                lemma_word_end(c@, i + 1);
            }
            while e < c.len() && !is_whitespace(c[e])
                invariant
                    i < e <= c@.len(),
                    word_end(c@, i + 1) == word_end(c@, e as int),
                decreases c@.len() - e,
            {
                e = e + 1;
            }
            let ghost before = r@;
            if c[i] == ':' {
                let w = sub_chars(&c, i + 1, e);
                r.push(string_from_chars(&w));
                assert(c@.subrange(i as int, e as int).subrange(1, e - i) =~= c@.subrange(i + 1, e as int));
                assert(texts(r@) =~= texts(before).push(w@));
            }
            assert(texts(r@) + annotations_from(c@, e as int) =~= annotations_from(c@, 0));
            i = e;
        }
    }
    r
}

/// What a name line gives: the query name and its annotations, when the
/// line matches the name-line pattern.
pub open spec fn name_line_of(line: Seq<char>) -> Option<(Seq<char>, Seq<Seq<char>>)> {
    match regex_two_groups(NAME_LINE_PATTERN@, line) {
        Some(g) => Some((g.0, annotations_from(g.1, 0))),
        None => None,
    }
}

/// Reads a `-- name: xxx :annotation` line: the name and the annotations
/// (without their colons), or `None` for any other line.
pub fn parse_name_line(line: &str) -> (r: Option<(String, Vec<String>)>)
    ensures
        match name_line_of(line@) {
            Some(v) => r matches Some(p) && p.0@ == v.0 && texts(p.1@) == v.1,
            None => r is None,
        },
{
    match regex_captures(NAME_LINE_PATTERN, line) {
        Some((name, rest)) => {
            let annotations = parse_annotations(rest.as_str());
            Some((name, annotations))
        }
        None => None,
    }
}

// ---------------------------------------------------------------------
// Parameters
// ---------------------------------------------------------------------

/// The position of the first `::` in `s` at or after `i`.
pub open spec fn find_double_colon(s: Seq<char>, i: int) -> Option<int>
    decreases s.len() - i,
{
    if i < 0 || i + 1 >= s.len() {
        None
    } else if s[i] == ':' && s[i + 1] == ':' {
        Some(i)
    } else {
        find_double_colon(s, i + 1)
    }
}

/// Whether a parameter string can be read: its first character, if any,
/// is one byte, and it does not start with `::`.
pub open spec fn parameter_ok(s: Seq<char>) -> bool {
    &&& s.len() > 0 ==> (s[0] as u32) < 0x80
    &&& !(s.len() >= 2 && s[0] == ':' && s[1] == ':')
}

/// The name and type of a parameter string: `$name::type` or
/// `:name::type` splits at the first `::`; otherwise the name is all but
/// the first character and there is no type.
pub open spec fn parameter_parts(s: Seq<char>) -> (Seq<char>, Option<Seq<char>>) {
    if s.len() > 0 && (s[0] == '$' || s[0] == ':') && find_double_colon(s, 0) is Some {
        let p = find_double_colon(s, 0)->0;
        (s.subrange(1, p), Some(s.subrange(p + 2, s.len() as int)))
    } else if s.len() == 0 {
        (seq![], None)
    } else {
        (s.subrange(1, s.len() as int), None)
    }
}

/// The first `::` found is within the text.
pub proof fn lemma_find_double_colon(s: Seq<char>, i: int)
    requires
        0 <= i,
    ensures
        match find_double_colon(s, i) {
            Some(p) => i <= p && p + 1 < s.len() && s[p] == ':' && s[p + 1] == ':',
            None => true,
        },
    decreases s.len() - i,
{
    if i + 1 < s.len() && !(s[i] == ':' && s[i + 1] == ':') {
        lemma_find_double_colon(s, i + 1);
    }
}

/// Reads a parameter string: `$name`, `:name`, or typed `$name::text`.
pub fn parse_parameter(param: &str) -> (r: Parameter)
    requires
        parameter_ok(param@),
    ensures
        r.full_name@ == param@,
        r.name@ == parameter_parts(param@).0,
        crate::analyzer::symbols::opt_text(r.annotated_type) == parameter_parts(param@).1,
{
    let c = chars_of(param);
    let n = c.len();
    let mut i: usize = 0;
    if n >= 2 {
        while i < n - 1 && !(c[i] == ':' && c[i + 1] == ':')
            invariant
                n == c@.len(),
                n >= 2,
                i <= n - 1,
                c@ == param@,
                find_double_colon(c@, 0) == find_double_colon(c@, i as int),
            decreases n - i,
        {
            i = i + 1;
        }
    }
    let found: Option<usize> = if n >= 2 && i < n - 1 { Some(i) } else { None };
    proof {
        lemma_find_double_colon(c@, 0);
    }
    assert(found matches Some(p) ==> find_double_colon(c@, 0) == Some(p as int));
    assert(found is None ==> find_double_colon(c@, 0) is None);
    if n > 0 && (c[0] == '$' || c[0] == ':') {
        match found {
            Some(p) => {
                let name = sub_chars(&c, 1, p);
                let ty = sub_chars(&c, p + 2, n);
                return Parameter {
                    full_name: string_of(param),
                    name: string_from_chars(&name),
                    annotated_type: Some(string_from_chars(&ty)),
                };
            }
            None => {}
        }
    }
    let name = if n == 0 {
        String::new()
    } else {
        let rest = sub_chars(&c, 1, n);
        string_from_chars(&rest)
    };
    Parameter { full_name: string_of(param), name, annotated_type: None }
}

// ---------------------------------------------------------------------
// Result types and annotations
// ---------------------------------------------------------------------

/// The result type of a query: the first of `rows`, `row`, `value`,
/// `list` among its annotations (in that priority), else `Void` for a
/// query without columns and `Rows` otherwise.
pub open spec fn result_type_of(ann: Seq<Seq<char>>, column_count: int) -> ResultType {
    if ann.contains("rows"@) {
        ResultType::Rows
    } else if ann.contains("row"@) {
        ResultType::Row
    } else if ann.contains("value"@) {
        ResultType::Value
    } else if ann.contains("list"@) {
        ResultType::List
    } else if column_count == 0 {
        ResultType::Void
    } else {
        ResultType::Rows
    }
}

/// How annotations and the column count decide a query's result type:
/// `rows` wins over `row`, which wins over `value`, which wins over `list`;
/// without any of them a query with columns returns rows, whatever the
/// number of columns, and one without columns returns nothing; other
/// annotations change nothing.
pub proof fn law_result_type_choice(ann: Seq<Seq<char>>, n: int, other: Seq<char>)
    ensures
        ann.contains("rows"@) ==> result_type_of(ann, n) == ResultType::Rows,
        !ann.contains("rows"@) && ann.contains("row"@) ==> result_type_of(ann, n) == ResultType::Row,
        !ann.contains("rows"@) && !ann.contains("row"@) && ann.contains("value"@) ==> result_type_of(ann, n)
            == ResultType::Value,
        !ann.contains("rows"@) && !ann.contains("row"@) && !ann.contains("value"@) && ann.contains("list"@)
            ==> result_type_of(ann, n) == ResultType::List,
        (forall|i: int| 0 <= i < ann.len() ==> !is_known_annotation(#[trigger] ann[i])) ==> result_type_of(ann, n)
            == if n == 0 {
            ResultType::Void
        } else {
            ResultType::Rows
        },
        !is_known_annotation(other) ==> result_type_of(ann.push(other), n) == result_type_of(ann, n),
        result_type_of(Seq::empty(), n) == if n == 0 {
            ResultType::Void
        } else {
            ResultType::Rows
        },
{
    if forall|i: int| 0 <= i < ann.len() ==> !is_known_annotation(#[trigger] ann[i]) {
        assert(!ann.contains("rows"@));
        assert(!ann.contains("row"@));
        assert(!ann.contains("value"@));
        assert(!ann.contains("list"@));
    }
    let pushed = ann.push(other);
    if !is_known_annotation(other) {
        assert forall|w: Seq<char>| is_known_annotation(w) implies pushed.contains(w) == ann.contains(w) by {
            if pushed.contains(w) {
                let k = choose|k: int| 0 <= k < pushed.len() && pushed[k] == w;
                if k < ann.len() {
                    assert(ann[k] == w);
                }
            }
            if ann.contains(w) {
                let k = choose|k: int| 0 <= k < ann.len() && ann[k] == w;
                assert(pushed[k] == w);
            }
        }
        assert(is_known_annotation("rows"@));
        assert(is_known_annotation("row"@));
        assert(is_known_annotation("value"@));
        assert(is_known_annotation("list"@));
    }
    assert(!Seq::<Seq<char>>::empty().contains("rows"@));
    assert(!Seq::<Seq<char>>::empty().contains("row"@));
    assert(!Seq::<Seq<char>>::empty().contains("value"@));
    assert(!Seq::<Seq<char>>::empty().contains("list"@));
}

/// Whether one of `v` is exactly `s`.
fn has_text(v: &[String], s: &str) -> (r: bool)
    ensures
        r == texts(v@).contains(s@),
{
    let mut i: usize = 0;
    while i < v.len()
        invariant
            i <= v@.len(),
            forall|j: int| 0 <= j < i ==> #[trigger] v@[j]@ != s@,
        decreases v@.len() - i,
    {
        if str_eq(v[i].as_str(), s) {
            assert(texts(v@)[i as int] == s@);
            return true;
        }
        i = i + 1;
    }
    assert(forall|j: int| 0 <= j < texts(v@).len() ==> texts(v@)[j] != s@);
    false
}

/// Chooses the result type from the annotations and the column count.
pub fn determine_result_type(annotations: &[String], column_count: usize) -> (r: ResultType)
    ensures
        r == result_type_of(texts(annotations@), column_count as int),
{
    if has_text(annotations, "rows") {
        ResultType::Rows
    } else if has_text(annotations, "row") {
        ResultType::Row
    } else if has_text(annotations, "value") {
        ResultType::Value
    } else if has_text(annotations, "list") {
        ResultType::List
    } else if column_count == 0 {
        ResultType::Void
    } else {
        ResultType::Rows
    }
}

/// The result-type annotations a query may carry.
pub open spec fn is_known_annotation(a: Seq<char>) -> bool {
    a == "rows"@ || a == "row"@ || a == "value"@ || a == "list"@
}

/// The annotations joined as `:a :b`.
pub open spec fn colon_list(v: Seq<Seq<char>>) -> Seq<char>
    decreases v.len(),
{
    if v.len() == 0 {
        seq![]
    } else if v.len() == 1 {
        ":"@ + v[0]
    } else {
        colon_list(v.drop_last()) + " :"@ + v.last()
    }
}

/// The index of the first annotation that is not a known result type.
pub open spec fn first_unknown(v: Seq<Seq<char>>, i: int) -> Option<int>
    decreases v.len() - i,
{
    if i < 0 || i >= v.len() {
        None
    } else if !is_known_annotation(v[i]) {
        Some(i)
    } else {
        first_unknown(v, i + 1)
    }
}

/// What validating the annotations of query `name` at `reference` gives:
/// an error for the first unknown annotation, else an error when more than
/// one result type is given, else success.
pub open spec fn annotations_check(name: Seq<char>, ann: Seq<Seq<char>>, reference: Seq<char>) -> Result<(), Seq<char>> {
    match first_unknown(ann, 0) {
        Some(i) => Err("Unknown annotation `:"@ + ann[i] + "` on query `"@ + name + "` at "@ + reference
            + "; accepted annotations are :rows, :row, :value, :list"@),
        None => if ann.len() > 1 {
            Err("Conflicting result-type annotations on query `"@ + name + "` at "@ + reference + ": "@
                + colon_list(ann))
        } else {
            Ok(())
        },
    }
}

/// Validates the annotation tokens of query `name` defined at `reference`:
/// codegen accepts only the result types `rows`, `row`, `value` and `list`,
/// and at most one of them.
pub fn validate_annotations(name: &str, annotations: &[String], reference: &str) -> (r: Result<(), String>)
    ensures
        match annotations_check(name@, texts(annotations@), reference@) {
            Ok(_) => r is Ok,
            Err(m) => r matches Err(e) && e@ == m,
        },
{
    let ghost ann = texts(annotations@);
    let mut i: usize = 0;
    assert(first_unknown(ann, 0) == first_unknown(ann, 0));
    while i < annotations.len()
        invariant
            i <= annotations@.len(),
            ann == texts(annotations@),
            first_unknown(ann, 0) == first_unknown(ann, i as int),
        decreases annotations@.len() - i,
    {
        let a = annotations[i].as_str();
        let known = str_eq(a, "rows") || str_eq(a, "row") || str_eq(a, "value") || str_eq(a, "list");
        if !known {
            assert(ann[i as int] == a@);
            let mut m = concat3("Unknown annotation `:", a, "` on query `");
            push_str(&mut m, name);
            push_str(&mut m, "` at ");
            push_str(&mut m, reference);
            push_str(&mut m, "; accepted annotations are :rows, :row, :value, :list");
            return Err(m);
        }
        i = i + 1;
    }
    if annotations.len() > 1 {
        let mut m = concat3("Conflicting result-type annotations on query `", name, "` at ");
        push_str(&mut m, reference);
        push_str(&mut m, ": ");
        let ghost head = m@;
        let mut j: usize = 0;
        while j < annotations.len()
            invariant
                1 < annotations@.len(),
                j <= annotations@.len(),
                ann == texts(annotations@),
                m@ == head + colon_list(ann.subrange(0, j as int)),
            decreases annotations@.len() - j,
        {
            if j > 0 {
                push_str(&mut m, " :");
            } else {
                push_str(&mut m, ":");
            }
            push_str(&mut m, annotations[j].as_str());
            proof {
                let sub = ann.subrange(0, j + 1);
                assert(sub.drop_last() =~= ann.subrange(0, j as int));
                assert(sub.last() == annotations@[j as int]@);
                if j == 0 {
                    assert(ann.subrange(0, 0) =~= Seq::<Seq<char>>::empty());
                    assert(sub.len() == 1 && sub[0] == sub.last());
                    assert(colon_list(sub) == ":"@ + sub[0]);
                } else {
                    assert(colon_list(sub) == colon_list(sub.drop_last()) + " :"@ + sub.last());
                }
            }
            assert(m@ =~= head + colon_list(ann.subrange(0, j + 1)));
            j = j + 1;
        }
        assert(ann.subrange(0, ann.len() as int) =~= ann);
        return Err(m);
    }
    Ok(())
}


// ---------------------------------------------------------------------
// Locating errors in the source
// ---------------------------------------------------------------------

/// The position just after the last newline among the first `n` bytes,
/// or 0 when there is none.
pub open spec fn line_start(b: Seq<u8>, n: int) -> int
    decreases n,
{
    if n <= 0 || n > b.len() {
        0
    } else if b[n - 1] == 10u8 {
        n
    } else {
        line_start(b, n - 1)
    }
}

/// The position of the first newline at or after `i`, or the end.
pub open spec fn line_end(b: Seq<u8>, i: int) -> int
    decreases b.len() - i,
{
    if i < 0 || i >= b.len() {
        b.len() as int
    } else if b[i] == 10u8 {
        i
    } else {
        line_end(b, i + 1)
    }
}

/// The smaller of an offset and a length.
pub open spec fn clamp(o: int, len: int) -> int {
    if o < len { o } else { len }
}

/// The 1-based line and byte column of a byte offset (clamped to the
/// end of the text).
pub open spec fn line_col(b: Seq<u8>, offset: int) -> (int, int) {
    let o = clamp(offset, b.len() as int);
    (1 + crate::analyzer::lint::byte_newlines(b, o) as int, o - line_start(b, o) + 1)
}

/// The line start found scanning back from `n` is within `[0, n]`.
pub proof fn lemma_line_start(b: Seq<u8>, n: int)
    requires
        0 <= n <= b.len(),
    ensures
        0 <= line_start(b, n) <= n,
        line_start(b, n) == 0 || b[line_start(b, n) - 1] == 10u8,
    decreases n,
{
    if n > 0 && b[n - 1] != 10u8 {
        lemma_line_start(b, n - 1);
    }
}

/// The line end found scanning forward from `i` is within `[i, len]`.
pub proof fn lemma_line_end(b: Seq<u8>, i: int)
    requires
        0 <= i <= b.len(),
    ensures
        i <= line_end(b, i) <= b.len(),
        line_end(b, i) == b.len() || b[line_end(b, i)] == 10u8,
    decreases b.len() - i,
{
    if i < b.len() && b[i] != 10u8 {
        lemma_line_end(b, i + 1);
    }
}

/// The 1-based (line, column) of a byte offset of `src`; offsets past the
/// end are clamped to the end. Lines and columns are counted in bytes.
pub fn offset_to_line_col(src: &str, offset: usize) -> (r: (usize, usize))
    requires
        src.spec_bytes().len() < usize::MAX,
        vstd::utf8::is_char_boundary(src.spec_bytes(), clamp(offset as int, src.spec_bytes().len() as int)),
    ensures
        r.0 == line_col(src.spec_bytes(), offset as int).0,
        r.1 == line_col(src.spec_bytes(), offset as int).1,
{
    let b = src.as_bytes();
    let n = b.len();
    let o = if offset < n { offset } else { n };
    let mut count: usize = 0;
    let mut i: usize = 0;
    while i < o
        invariant
            i <= o <= n == b@.len(),
            count == crate::analyzer::lint::byte_newlines(b@, i as int),
            count <= i,
        decreases o - i,
    {
        if b[i] == 10u8 {
            count = count + 1;
        }
        i = i + 1;
    }
    let mut st = o;
    while st > 0 && b[st - 1] != 10u8
        invariant
            st <= o <= n == b@.len(),
            line_start(b@, o as int) == line_start(b@, st as int),
        decreases st,
    {
        st = st - 1;
    }
    proof {
        lemma_line_start(b@, o as int);
    }
    (count + 1, o - st + 1)
}

/// The line of `src` that contains byte `offset` (clamped to the last
/// byte), without trailing whitespace; empty for an empty source.
pub open spec fn line_at(s: Seq<char>, offset: int) -> Seq<char> {
    let b = vstd::utf8::encode_utf8(s);
    if b.len() == 0 {
        seq![]
    } else {
        let o = clamp(offset, b.len() - 1);
        let st = line_start(b, o);
        trim_end_ws(byte_slice_chars(s, st, line_end(b, st)))
    }
}

/// The line of `src` that contains byte `offset` (clamped to the last
/// byte), trimmed of trailing whitespace; empty for an empty source.
pub fn first_line_at(src: &str, offset: usize) -> (r: &str)
    requires
        src.spec_bytes().len() == 0
            || vstd::utf8::is_char_boundary(src.spec_bytes(), clamp(offset as int, src.spec_bytes().len() - 1)),
    ensures
        r@ == line_at(src@, offset as int),
{
    let b = src.as_bytes();
    let n = b.len();
    if n == 0 {
        proof {
            reveal_strlit("");
        }
        return "";
    }
    let o = if offset < n - 1 { offset } else { n - 1 };
    let mut st = o;
    while st > 0 && b[st - 1] != 10u8
        invariant
            st <= o < n == b@.len(),
            line_start(b@, o as int) == line_start(b@, st as int),
        decreases st,
    {
        st = st - 1;
    }
    let mut en = st;
    while en < n && b[en] != 10u8
        invariant
            st <= en <= n == b@.len(),
            line_end(b@, st as int) == line_end(b@, en as int),
        decreases n - en,
    {
        en = en + 1;
    }
    proof {
        vstd::utf8::encode_utf8_valid_utf8(src@);
        vstd::utf8::is_char_boundary_start_end_of_seq(b@);
        lemma_line_start(b@, o as int);
        if st > 0 {
            crate::text::lemma_ascii_boundaries(b@, st - 1);
        }
        if en < n {
            crate::text::lemma_ascii_boundaries(b@, en as int);
        }
    }
    let line = byte_slice(src, st, en);
    let t = chars_of(line);
    let mut k = t.len();
    assert(t@.subrange(0, t@.len() as int) =~= t@);
    while k > 0 && is_whitespace(t[k - 1])
        invariant
            k <= t@.len(),
            trim_end_ws(t@) == trim_end_ws(t@.subrange(0, k as int)),
        decreases k,
    {
        assert(t@.subrange(0, k as int).drop_last() =~= t@.subrange(0, k - 1));
        k = k - 1;
    }
    let line_len = line.as_bytes().len();
    let bl = byte_offset(&t, k);
    proof {
        lemma_slice_chars(t@, 0, k as int);
        assert(byte_len(t@, 0) == 0) by {
            assert(t@.subrange(0, 0) =~= Seq::<char>::empty());
        }
        assert(t@.subrange(0, k as int) == trim_end_ws(t@));
    }
    byte_slice(line, 0, bl)
}

/// The first line of a (possibly multi-line) statement, trimmed.
pub open spec fn first_line_text(s: Seq<char>) -> Seq<char> {
    crate::text::trim_ws(s.subrange(0, first_newline(s, 0)))
}

/// The position of the first newline character at or after `i`, or the end.
pub open spec fn first_newline(s: Seq<char>, i: int) -> int
    decreases s.len() - i,
{
    if i < 0 || i >= s.len() {
        s.len() as int
    } else if s[i] == '\n' {
        i
    } else {
        first_newline(s, i + 1)
    }
}

/// The first line of a (possibly multi-line) SQL statement, trimmed, for
/// error messages.
pub fn first_line(sql: &str) -> (r: &str)
    ensures
        r@ == first_line_text(sql@),
{
    let c = chars_of(sql);
    let total = sql.as_bytes().len();
    let mut e: usize = 0;
    while e < c.len() && c[e] != '\n'
        invariant
            e <= c@.len(),
            c@ == sql@,
            first_newline(c@, 0) == first_newline(c@, e as int),
        decreases c@.len() - e,
    {
        e = e + 1;
    }
    let (a, b) = crate::text::trim_bounds(&c, 0, e);
    let ba = byte_offset(&c, a);
    let bb = byte_offset(&c, b);
    proof {
        lemma_slice_chars(c@, a as int, b as int);
    }
    byte_slice(sql, ba, bb)
}

/// A SQLite extension loaded via `.load` in the input file, as written
/// there.
#[derive(Debug, Clone)]
pub struct Extension {
    /// Path of the extension library, or the package spec for uv loads.
    pub path: String,
    /// Optional entry point function name.
    pub entrypoint: Option<String>,
    /// Whether the extension is loaded from a Python package via uv.
    pub is_uv: bool,
}

/// The base database to validate queries against.
#[derive(Debug)]
pub enum BaseDatabaseType {
    /// An empty in-memory database.
    InMemory,
    /// An existing SQLite database file.
    Database(String),
    /// A SQL file run to set up the schema.
    SqlFile(String),
}

/// The base database named by a `--schema` path: a `.db` file is a
/// database, a `.sql` file is run to set up the schema, anything else is
/// refused; without a path, an empty database.
pub fn determine_db_type(schema: &Option<String>) -> (r: Result<BaseDatabaseType, String>)
    ensures
        match schema {
            None => r matches Ok(BaseDatabaseType::InMemory),
            Some(p) => if crate::cli::paths::path_extension(p@) == Some(seq!['d', 'b']) {
                r matches Ok(BaseDatabaseType::Database(q)) && q@ == p@
            } else if crate::cli::paths::path_extension(p@) == Some(seq!['s', 'q', 'l']) {
                r matches Ok(BaseDatabaseType::SqlFile(q)) && q@ == p@
            } else {
                r matches Err(m) && m@ == "Unsupported schema file type: "@ + p@ + ". Use .db or .sql"@
            },
        },
{
    proof {
        reveal_strlit("db");
        reveal_strlit("sql");
        assert("db"@ =~= seq!['d', 'b']);
        assert("sql"@ =~= seq!['s', 'q', 'l']);
    }
    match schema {
        None => Ok(BaseDatabaseType::InMemory),
        Some(p) => {
            let ext = crate::cli::paths::extension(p.as_str());
            let is_db = match &ext {
                Some(e) => crate::cli::paths::ext_is(e, "db"),
                None => false,
            };
            let is_sql = match &ext {
                Some(e) => crate::cli::paths::ext_is(e, "sql"),
                None => false,
            };
            if is_db {
                Ok(BaseDatabaseType::Database(p.clone()))
            } else if is_sql {
                Ok(BaseDatabaseType::SqlFile(p.clone()))
            } else {
                Err(concat3("Unsupported schema file type: ", p.as_str(), ". Use .db or .sql"))
            }
        },
    }
}

/// The message for a statement that failed to prepare: where it failed
/// (file, 1-based line and column of the statement's offset plus SQLite's
/// own offset into it, saturating), SQLite's message, and the offending
/// line when it is not blank.
pub open spec fn prepare_error_text(
    file_name: Seq<char>,
    src: Seq<char>,
    offset: int,
    sqlite_offset: Option<usize>,
    message: Seq<char>,
) -> Seq<char> {
    let extra: int = match sqlite_offset {
        Some(o) => o as int,
        None => 0,
    };
    let abs = if offset + extra > usize::MAX { usize::MAX as int } else { offset + extra };
    let lc = line_col(vstd::utf8::encode_utf8(src), abs);
    let text = line_at(src, abs);
    let head = "Failed to prepare statement at "@ + file_name + seq![':'] + crate::text::nat_digits(lc.0 as nat)
        + seq![':'] + crate::text::nat_digits(lc.1 as nat) + seq![':', ' '] + message;
    if text.len() == 0 {
        head
    } else {
        head + seq!['\n', ' ', ' ', '>', ' '] + text
    }
}

/// The message for a statement of `src` that failed to prepare at
/// `offset`, with SQLite's own offset into it when it gave one.
pub fn prepare_error_message(
    file_name: &str,
    src: &str,
    offset: usize,
    sqlite_offset: Option<usize>,
    message: &str,
) -> (r: String)
    requires
        src.spec_bytes().len() < usize::MAX,
        ({
            let extra: int = match sqlite_offset {
                Some(o) => o as int,
                None => 0,
            };
            let abs = if offset + extra > usize::MAX { usize::MAX as int } else { offset + extra };
            &&& vstd::utf8::is_char_boundary(src.spec_bytes(), clamp(abs, src.spec_bytes().len() as int))
            &&& (src.spec_bytes().len() == 0 || vstd::utf8::is_char_boundary(
                src.spec_bytes(),
                clamp(abs, src.spec_bytes().len() - 1),
            ))
        }),
    ensures
        r@ == prepare_error_text(file_name@, src@, offset as int, sqlite_offset, message@),
{
    let extra: usize = match sqlite_offset {
        Some(o) => o,
        None => 0,
    };
    let abs = offset.saturating_add(extra);
    let (line, col) = offset_to_line_col(src, abs);
    let text = first_line_at(src, abs);
    let mut m = string_of("Failed to prepare statement at ");
    push_str(&mut m, file_name);
    crate::text::push_char(&mut m, ':');
    let l = crate::text::u64_text(line as u64);
    push_str(&mut m, l.as_str());
    crate::text::push_char(&mut m, ':');
    let c = crate::text::u64_text(col as u64);
    push_str(&mut m, c.as_str());
    crate::text::push_char(&mut m, ':');
    crate::text::push_char(&mut m, ' ');
    push_str(&mut m, message);
    let tv = chars_of(text);
    if tv.len() > 0 {
        crate::text::push_char(&mut m, '\n');
        crate::text::push_char(&mut m, ' ');
        crate::text::push_char(&mut m, ' ');
        crate::text::push_char(&mut m, '>');
        crate::text::push_char(&mut m, ' ');
        push_str(&mut m, text);
    }
    assert(m@ =~= prepare_error_text(file_name@, src@, offset as int, sqlite_offset, message@));
    m
}

} // verus!
