//! The `lint` command's decisions: where each diagnostic is reported, which
//! results count as errors, and how the collected fixes rewrite the source.

use vstd::prelude::*;
use vstd::string::StringSliceAdditionalSpecFns;
use crate::ast::{Span, texts};
use crate::analyzer::rules::{Fix, LintDiagModel, LintResult, RuleSeverity};
use crate::text::{
    byte_len, chars_of, char_width, lemma_encode_concat, lemma_encode_one, lemma_prefix_boundary, nat_digits,
    push_char, push_str, string_of, u64_text,
};

verus! {

/// The number of characters of `s`, from position `j` on, that start
/// before byte `offset`.
pub open spec fn chars_before(s: Seq<char>, offset: int, j: int) -> int
    decreases s.len() - j,
{
    if j < 0 || j >= s.len() || byte_len(s, j) >= offset {
        j
    } else {
        chars_before(s, offset, j + 1)
    }
}

/// The number of line breaks in `s`.
pub open spec fn newline_count(s: Seq<char>) -> int
    decreases s.len(),
{
    if s.len() == 0 {
        0
    } else {
        newline_count(s.drop_last()) + if s.last() == '\n' { 1int } else { 0int }
    }
}

/// The 1-based column just after the characters `s`.
pub open spec fn col_after(s: Seq<char>) -> int
    decreases s.len(),
{
    if s.len() == 0 {
        1
    } else if s.last() == '\n' {
        1
    } else {
        col_after(s.drop_last()) + 1
    }
}

/// The 1-based line and column of a byte offset, counting the characters
/// that start before it.
pub open spec fn char_line_col(s: Seq<char>, offset: int) -> (int, int) {
    let before = s.take(chars_before(s, offset, 0));
    (1 + newline_count(before), col_after(before))
}

/// The 1-based line and column (in characters) of a byte offset of
/// `source`.
pub fn offset_to_line_col(source: &str, offset: usize) -> (r: (usize, usize))
    requires
        source.spec_bytes().len() < usize::MAX,
    ensures
        r.0 as int == char_line_col(source@, offset as int).0,
        r.1 as int == char_line_col(source@, offset as int).1,
{
    let c = chars_of(source);
    let total = source.as_bytes().len();
    let mut line: usize = 1;
    let mut col: usize = 1;
    let mut pos: usize = 0;
    let mut j: usize = 0;
    assert(c@.subrange(0, 0) =~= Seq::<char>::empty());
    while j < c.len() && pos < offset
        invariant
            c@ == source@,
            total == vstd::utf8::encode_utf8(source@).len(),
            total < usize::MAX,
            j <= c@.len(),
            pos == byte_len(c@, j as int),
            j <= pos <= total,
            chars_before(c@, offset as int, 0) == chars_before(c@, offset as int, j as int),
            line as int == 1 + newline_count(c@.take(j as int)),
            col as int == col_after(c@.take(j as int)),
            line <= j + 1,
            col <= j + 1,
        decreases c@.len() - j,
    {
        let ch = c[j];
        let w = char_width(ch);
        proof {
            assert(c@.subrange(0, j + 1) =~= c@.subrange(0, j as int) + seq![c@[j as int]]);
            lemma_encode_concat(c@.subrange(0, j as int), seq![c@[j as int]]);
            lemma_encode_one(c@[j as int]);
            lemma_prefix_boundary(c@, j + 1);
            assert(c@.take(j + 1).drop_last() =~= c@.take(j as int));
        }
        if ch == '\n' {
            line = line + 1;
            col = 1;
        } else {
            col = col + 1;
        }
        pos = pos + w;
        j = j + 1;
    }
    (line, col)
}

/// How a severity is named in a report line.
pub open spec fn severity_word(s: RuleSeverity) -> Seq<char> {
    match s {
        RuleSeverity::Error => "error"@,
        RuleSeverity::Warning => "warning"@,
        RuleSeverity::Off => Seq::empty(),
    }
}

/// The report line of a diagnostic: `file:line:col: severity[rule]: message`.
pub open spec fn report_line(file: Seq<char>, source: Seq<char>, d: LintDiagModel) -> Seq<char> {
    let lc = char_line_col(source, d.2.start as int);
    file + seq![':'] + nat_digits(lc.0 as nat) + seq![':'] + nat_digits(lc.1 as nat) + seq![':', ' ']
        + severity_word(d.3) + seq!['['] + d.0 + seq![']', ':', ' '] + d.1
}

/// What the results of a file amount to: whether any is an error, the
/// report line of each that is not off, and the fixes of those, in order.
pub open spec fn report_of(
    file: Seq<char>,
    source: Seq<char>,
    rs: Seq<(LintDiagModel, Option<(Span, Seq<char>)>)>,
) -> (bool, Seq<Seq<char>>, Seq<(Span, Seq<char>)>)
    decreases rs.len(),
{
    if rs.len() == 0 {
        (false, Seq::empty(), Seq::empty())
    } else {
        let before = report_of(file, source, rs.drop_last());
        let d = rs.last().0;
        if d.3 == RuleSeverity::Off {
            before
        } else {
            (
                before.0 || d.3 == RuleSeverity::Error,
                before.1.push(report_line(file, source, d)),
                match rs.last().1 {
                    Some(f) => before.2.push(f),
                    None => before.2,
                },
            )
        }
    }
}

/// The models of a list of fixes.
pub open spec fn fix_models(v: Seq<Fix>) -> Seq<(Span, Seq<char>)> {
    Seq::new(v.len(), |i: int| v[i]@)
}

/// The models of a list of results.
pub open spec fn results_view(v: Seq<LintResult>) -> Seq<(LintDiagModel, Option<(Span, Seq<char>)>)> {
    Seq::new(v.len(), |i: int| v[i]@)
}

fn copy_fix(f: &Fix) -> (r: Fix)
    ensures
        r@ == f@,
{
    Fix { span: f.span.copy(), replacement: f.replacement.clone() }
}

/// Reports the lint results of a file: whether any is an error, one line
/// per result that is not off, and the fixes of those results.
pub fn lint_report(filename: &str, source: &str, results: &Vec<LintResult>) -> (r: (bool, Vec<String>, Vec<Fix>))
    requires
        source.spec_bytes().len() < usize::MAX,
    ensures
        (r.0, texts(r.1@), fix_models(r.2@)) == report_of(filename@, source@, results_view(results@)),
{
    let ghost rv = results_view(results@);
    let mut has_errors = false;
    let mut lines: Vec<String> = Vec::new();
    let mut fixes: Vec<Fix> = Vec::new();
    let mut i: usize = 0;
    while i < results.len()
        invariant
            i <= results@.len(),
            rv == results_view(results@),
            source.spec_bytes().len() < usize::MAX,
            (has_errors, texts(lines@), fix_models(fixes@)) == report_of(filename@, source@, rv.take(i as int)),
        decreases results.len() - i,
    {
        let res = &results[i];
        let d = &res.diagnostic;
        assert(rv.take(i + 1).drop_last() =~= rv.take(i as int));
        assert(rv.take(i + 1).last() == res@);
        let word = match d.severity {
            RuleSeverity::Error => Some("error"),
            RuleSeverity::Warning => Some("warning"),
            RuleSeverity::Off => None,
        };
        match word {
            None => {},
            Some(w) => {
                if d.severity == RuleSeverity::Error {
                    has_errors = true;
                }
                let (line, col) = offset_to_line_col(source, d.span.start);
                let mut m = string_of(filename);
                push_char(&mut m, ':');
                let l = u64_text(line as u64);
                push_str(&mut m, l.as_str());
                push_char(&mut m, ':');
                let c = u64_text(col as u64);
                push_str(&mut m, c.as_str());
                push_char(&mut m, ':');
                push_char(&mut m, ' ');
                push_str(&mut m, w);
                push_char(&mut m, '[');
                push_str(&mut m, d.rule_id);
                push_char(&mut m, ']');
                push_char(&mut m, ':');
                push_char(&mut m, ' ');
                push_str(&mut m, d.message.as_str());
                assert(m@ =~= report_line(filename@, source@, d@));
                let ghost old_lines = lines@;
                lines.push(m);
                assert(texts(lines@) =~= texts(old_lines).push(report_line(filename@, source@, d@)));
                match &res.fix {
                    Some(f) => {
                        let ghost old_fixes = fixes@;
                        fixes.push(copy_fix(f));
                        assert(fix_models(fixes@) =~= fix_models(old_fixes).push(f@));
                    },
                    None => {},
                }
            },
        }
        i = i + 1;
    }
    assert(rv.take(results.len() as int) =~= rv);
    (has_errors, lines, fixes)
}

/// Inserting a fix into a list ordered by descending start: after every
/// fix that starts at or after it.
pub open spec fn insert_desc(sorted: Seq<(Span, Seq<char>)>, f: (Span, Seq<char>)) -> Seq<(Span, Seq<char>)>
    decreases sorted.len(),
{
    if sorted.len() == 0 {
        seq![f]
    } else if sorted.last().0.start >= f.0.start {
        sorted.push(f)
    } else {
        insert_desc(sorted.drop_last(), f).push(sorted.last())
    }
}

/// Fixes ordered by descending start; fixes that start at the same place
/// keep their order (a stable sort).
pub open spec fn sort_desc(fs: Seq<(Span, Seq<char>)>) -> Seq<(Span, Seq<char>)>
    decreases fs.len(),
{
    if fs.len() == 0 {
        Seq::empty()
    } else {
        insert_desc(sort_desc(fs.drop_last()), fs.last())
    }
}

/// The text with one fix applied: its byte range replaced.
pub open spec fn apply_one(s: Seq<char>, f: (Span, Seq<char>)) -> Seq<char> {
    crate::text::byte_slice_chars(s, 0, f.0.start as int) + f.1 + crate::text::byte_slice_chars(
        s,
        f.0.end as int,
        vstd::utf8::encode_utf8(s).len() as int,
    )
}

/// The text with the fixes applied one after another.
pub open spec fn apply_seq(s: Seq<char>, fs: Seq<(Span, Seq<char>)>) -> Seq<char>
    decreases fs.len(),
{
    if fs.len() == 0 {
        s
    } else {
        apply_one(apply_seq(s, fs.drop_last()), fs.last())
    }
}

/// Each fix, in turn, replaces a well-formed byte range of the text the
/// earlier ones left.
pub open spec fn apply_ok(s: Seq<char>, fs: Seq<(Span, Seq<char>)>) -> bool
    decreases fs.len(),
{
    if fs.len() == 0 {
        true
    } else {
        &&& apply_ok(s, fs.drop_last())
        &&& crate::text::byte_range_ok(apply_seq(s, fs.drop_last()), fs.last().0.start as int, fs.last().0.end as int)
    }
}

/// Where a fix goes in a list ordered by descending start: the length of
/// the longest prefix that starts at or after it.
pub open spec fn insert_pos(sorted: Seq<(Span, Seq<char>)>, f: (Span, Seq<char>)) -> int
    decreases sorted.len(),
{
    if sorted.len() == 0 || sorted.last().0.start >= f.0.start {
        sorted.len() as int
    } else {
        insert_pos(sorted.drop_last(), f)
    }
}

proof fn lemma_insert_desc(sorted: Seq<(Span, Seq<char>)>, f: (Span, Seq<char>))
    ensures
        0 <= insert_pos(sorted, f) <= sorted.len(),
        insert_desc(sorted, f) == sorted.insert(insert_pos(sorted, f), f),
    decreases sorted.len(),
{
    if sorted.len() > 0 && sorted.last().0.start < f.0.start {
        lemma_insert_desc(sorted.drop_last(), f);
        let p = insert_pos(sorted.drop_last(), f);
        assert(sorted.drop_last().insert(p, f).push(sorted.last()) =~= sorted.insert(p, f));
    } else {
        assert(sorted.push(f) =~= sorted.insert(sorted.len() as int, f));
    }
}

proof fn lemma_insert_pos_step(sorted: Seq<(Span, Seq<char>)>, f: (Span, Seq<char>), k: int)
    requires
        0 < k <= sorted.len(),
        sorted[k - 1].0.start < f.0.start,
    ensures
        insert_pos(sorted.take(k), f) == insert_pos(sorted.take(k - 1), f),
{
    assert(sorted.take(k).drop_last() =~= sorted.take(k - 1));
}

proof fn lemma_insert_pos_stop(sorted: Seq<(Span, Seq<char>)>, f: (Span, Seq<char>), k: int)
    requires
        0 <= k <= sorted.len(),
        k == 0 || sorted[k - 1].0.start >= f.0.start,
    ensures
        insert_pos(sorted.take(k), f) == k,
{
}

/// Orders fixes by descending start, keeping the order of fixes that start
/// at the same place.
pub fn sort_fixes(fixes: Vec<Fix>) -> (r: Vec<Fix>)
    ensures
        fix_models(r@) == sort_desc(fix_models(fixes@)),
{
    let ghost fm = fix_models(fixes@);
    let mut sorted: Vec<Fix> = Vec::new();
    let mut rest = fixes;
    let ghost orig = rest@;
    let n = rest.len();
    let mut i: usize = 0;
    while rest.len() > 0
        invariant
            n == orig.len(),
            fm == fix_models(orig),
            i <= orig.len(),
            rest@ == orig.subrange(i as int, orig.len() as int),
            fix_models(sorted@) == sort_desc(fm.take(i as int)),
        decreases rest@.len(),
    {
        let f = rest.remove(0);
        assert(f == orig[i as int]);
        let ghost sm = fix_models(sorted@);
        let mut pos = sorted.len();
        assert(sm.take(pos as int) =~= sm);
        while pos > 0 && sorted[pos - 1].span.start < f.span.start
            invariant
                pos <= sorted@.len(),
                sm == fix_models(sorted@),
                insert_pos(sm, f@) == insert_pos(sm.take(pos as int), f@),
            decreases pos,
        {
            proof {
                lemma_insert_pos_step(sm, f@, pos as int);
            }
            pos = pos - 1;
        }
        proof {
            assert(sm.take(sm.len() as int) =~= sm);
            lemma_insert_pos_stop(sm, f@, pos as int);
            lemma_insert_desc(sm, f@);
            assert(fm.take(i + 1).drop_last() =~= fm.take(i as int));
            assert(fm.take(i + 1).last() == f@);
        }
        sorted.insert(pos, f);
        assert(fix_models(sorted@) =~= sm.insert(pos as int, fm[i as int]));
        i = i + 1;
        assert(rest@ =~= orig.subrange(i as int, orig.len() as int));
    }
    assert(fm.take(orig.len() as int) =~= fm);
    sorted
}

/// A list of fixes ordered by descending start.
pub open spec fn descending(fs: Seq<(Span, Seq<char>)>) -> bool {
    forall|i: int, j: int| 0 <= i < j < fs.len() ==> #[trigger] fs[i].0.start >= #[trigger] fs[j].0.start
}

proof fn lemma_insert_pos_splits(sorted: Seq<(Span, Seq<char>)>, f: (Span, Seq<char>))
    requires
        descending(sorted),
    ensures
        forall|i: int| 0 <= i < insert_pos(sorted, f) ==> #[trigger] sorted[i].0.start >= f.0.start,
        forall|i: int| insert_pos(sorted, f) <= i < sorted.len() ==> #[trigger] sorted[i].0.start < f.0.start,
    decreases sorted.len(),
{
    if sorted.len() > 0 {
        if sorted.last().0.start >= f.0.start {
            assert forall|i: int| 0 <= i < sorted.len() implies #[trigger] sorted[i].0.start >= f.0.start by {
                if i < sorted.len() - 1 {
                    assert(sorted[i].0.start >= sorted[sorted.len() - 1].0.start);
                }
            }
        } else {
            let d = sorted.drop_last();
            assert(descending(d)) by {
                assert forall|i: int, j: int| 0 <= i < j < d.len() implies #[trigger] d[i].0.start >= #[trigger] d[j].0.start by {
                    assert(d[i] == sorted[i] && d[j] == sorted[j]);
                }
            }
            lemma_insert_pos_splits(d, f);
            lemma_insert_desc(d, f);
            assert(insert_pos(sorted, f) == insert_pos(d, f));
            assert forall|i: int| insert_pos(sorted, f) <= i < sorted.len() implies #[trigger] sorted[i].0.start
                < f.0.start by {
                if i < sorted.len() - 1 {
                    assert(d[i] == sorted[i]);
                }
            }
            assert forall|i: int| 0 <= i < insert_pos(sorted, f) implies #[trigger] sorted[i].0.start >= f.0.start by {
                assert(d[i] == sorted[i]);
            }
        }
    }
}

/// The fixes are applied in order of descending start, and none is lost
/// or added: the sorted list is a rearrangement of the fixes.
pub proof fn law_sorted_fixes_descend(fs: Seq<(Span, Seq<char>)>)
    ensures
        descending(sort_desc(fs)),
        sort_desc(fs).to_multiset() == fs.to_multiset(),
    decreases fs.len(),
{
    broadcast use vstd::seq_lib::to_multiset_build, vstd::seq_lib::to_multiset_insert;

    if fs.len() == 0 {
        assert(sort_desc(fs) =~= fs);
    } else {
        let rest = sort_desc(fs.drop_last());
        let f = fs.last();
        law_sorted_fixes_descend(fs.drop_last());
        lemma_insert_desc(rest, f);
        lemma_insert_pos_splits(rest, f);
        let p = insert_pos(rest, f);
        let r = rest.insert(p, f);
        assert forall|i: int, j: int| 0 <= i < j < r.len() implies #[trigger] r[i].0.start >= #[trigger] r[j].0.start by {
            if j < p {
                assert(r[i] == rest[i] && r[j] == rest[j]);
            } else if j == p {
                assert(r[i] == rest[i]);
            } else if i < p {
                assert(r[i] == rest[i] && r[j] == rest[j - 1]);
            } else if i == p {
                assert(r[j] == rest[j - 1]);
            } else {
                assert(r[i] == rest[i - 1] && r[j] == rest[j - 1]);
            }
        }
        assert(fs =~= fs.drop_last().push(f));
    }
}

/// The fixes of a prefix apply whenever all the fixes do.
pub proof fn lemma_apply_ok_prefix(s: Seq<char>, fs: Seq<(Span, Seq<char>)>, k: int)
    requires
        apply_ok(s, fs),
        0 <= k <= fs.len(),
    ensures
        apply_ok(s, fs.take(k)),
    decreases fs.len() - k,
{
    if k < fs.len() {
        assert(fs.drop_last().take(k) =~= fs.take(k));
        lemma_apply_ok_prefix(s, fs.drop_last(), k);
    } else {
        assert(fs.take(k) =~= fs);
    }
}

/// Replaces bytes `[start, end)` of `cur` with `rep`.
pub fn replace_range(cur: &String, start: usize, end: usize, rep: &String) -> (r: String)
    requires
        crate::text::byte_range_ok(cur@, start as int, end as int),
    ensures
        r@ == apply_one(cur@, (Span { start, end }, rep@)),
{
    let len = cur.as_str().as_bytes().len();
    proof {
        vstd::utf8::encode_utf8_valid_utf8(cur@);
        vstd::utf8::is_char_boundary_start_end_of_seq(vstd::utf8::encode_utf8(cur@));
    }
    let a = crate::text::byte_slice(cur.as_str(), 0, start);
    let b = crate::text::byte_slice(cur.as_str(), end, len);
    let mut out = string_of(a);
    push_str(&mut out, rep.as_str());
    push_str(&mut out, b);
    out
}

/// Applies the fixes to the source, latest start first, each replacing its
/// byte range of the text the earlier ones left; `None` when there are no
/// fixes.
pub fn apply_fixes(source: &str, fixes: Vec<Fix>) -> (r: Option<String>)
    requires
        apply_ok(source@, sort_desc(fix_models(fixes@))),
    ensures
        fixes@.len() == 0 ==> r is None,
        fixes@.len() > 0 ==> (r matches Some(t) && t@ == apply_seq(source@, sort_desc(fix_models(fixes@)))),
{
    if fixes.len() == 0 {
        return None;
    }
    let sorted = sort_fixes(fixes);
    let ghost sm = fix_models(sorted@);
    let mut fixed = string_of(source);
    let mut i: usize = 0;
    assert(sm.take(0) =~= Seq::<(Span, Seq<char>)>::empty());
    while i < sorted.len()
        invariant
            i <= sorted@.len(),
            sm == fix_models(sorted@),
            apply_ok(source@, sm),
            fixed@ == apply_seq(source@, sm.take(i as int)),
        decreases sorted.len() - i,
    {
        proof {
            lemma_apply_ok_prefix(source@, sm, i + 1);
            assert(sm.take(i + 1).drop_last() =~= sm.take(i as int));
            assert(sm.take(i + 1).last() == sorted@[i as int]@);
        }
        let f = &sorted[i];
        fixed = replace_range(&fixed, f.span.start, f.span.end, &f.replacement);
        i = i + 1;
    }
    assert(sm.take(sorted.len() as int) =~= sm);
    Some(fixed)
}

/// Whether the fixes can be applied to the source: each, latest start
/// first, replaces a well-formed byte range of the text the earlier ones
/// left.
pub fn fixes_applicable(source: &str, fixes: &Vec<Fix>) -> (r: bool)
    ensures
        r == apply_ok(source@, sort_desc(fix_models(fixes@))),
{
    let mut copy: Vec<Fix> = Vec::new();
    let mut k: usize = 0;
    while k < fixes.len()
        invariant
            k <= fixes@.len(),
            copy@.len() == k,
            fix_models(copy@) == fix_models(fixes@).take(k as int),
        decreases fixes.len() - k,
    {
        let ghost before = copy@;
        let c = copy_fix(&fixes[k]);
        copy.push(c);
        assert forall|j: int| 0 <= j < k implies copy@[j]@ == fixes@[j]@ by {
            assert(copy@[j] == before[j]);
            assert(fix_models(before)[j] == fix_models(fixes@).take(k as int)[j]);
        }
        assert(fix_models(copy@) =~= fix_models(fixes@).take(k + 1));
        k = k + 1;
    }
    assert(fix_models(fixes@).take(fixes.len() as int) =~= fix_models(fixes@));
    let sorted = sort_fixes(copy);
    let ghost sm = fix_models(sorted@);
    let mut cur = string_of(source);
    let mut i: usize = 0;
    assert(sm.take(0) =~= Seq::<(Span, Seq<char>)>::empty());
    while i < sorted.len()
        invariant
            i <= sorted@.len(),
            sm == fix_models(sorted@),
            sm == sort_desc(fix_models(fixes@)),
            apply_ok(source@, sm.take(i as int)),
            cur@ == apply_seq(source@, sm.take(i as int)),
        decreases sorted.len() - i,
    {
        let f = &sorted[i];
        let len = cur.as_str().as_bytes().len();
        let ok = f.span.start <= f.span.end && f.span.end <= len && cur.as_str().is_char_boundary(f.span.start)
            && cur.as_str().is_char_boundary(f.span.end);
        proof {
            assert(sm.take(i + 1).drop_last() =~= sm.take(i as int));
            assert(sm.take(i + 1).last() == f@);
        }
        if !ok {
            proof {
                if apply_ok(source@, sm) {
                    lemma_apply_ok_prefix(source@, sm, i + 1);
                    assert(apply_ok(source@, sm.take(i + 1)));
                    assert(crate::text::byte_range_ok(cur@, f.span.start as int, f.span.end as int));
                    assert(false);
                }
            }
            return false;
        }
        cur = replace_range(&cur, f.span.start, f.span.end, &f.replacement);
        i = i + 1;
    }
    assert(sm.take(sorted.len() as int) =~= sm);
    true
}

} // verus!
