//! A small HTML builder: elements with attributes, inline styles, text and
//! children, rendered to a string with the text and attribute values
//! escaped.

use vstd::prelude::*;
use crate::text::{chars_of, push_char, push_str, string_of};

verus! {

/// A name/value list (attributes or style declarations) as character
/// sequences.
pub type PairsModel = Seq<(Seq<char>, Seq<char>)>;

/// The character sequences of a list of name/value strings.
pub open spec fn pairs_view(v: Seq<(String, String)>) -> PairsModel {
    Seq::new(v.len(), |i: int| (v[i].0@, v[i].1@))
}

/// A character with ASCII upper-case letters folded to lower case, as a
/// code point.
pub open spec fn ascii_fold(c: char) -> int {
    if 65 <= (c as u32) && (c as u32) <= 90 {
        (c as u32) + 32
    } else {
        c as u32 as int
    }
}

/// Two texts are equal when ASCII letters are compared without regard to
/// case (`str::eq_ignore_ascii_case`).
pub open spec fn ascii_ci_eq(a: Seq<char>, b: Seq<char>) -> bool {
    a.len() == b.len() && forall|k: int| 0 <= k < a.len() ==> ascii_fold(#[trigger] a[k]) == ascii_fold(b[k])
}

/// `i` is the first entry whose name matches `name` without regard to
/// ASCII case.
pub open spec fn is_first_match(list: PairsModel, name: Seq<char>, i: int) -> bool {
    &&& 0 <= i < list.len()
    &&& ascii_ci_eq(list[i].0, name)
    &&& forall|j: int| 0 <= j < i ==> !ascii_ci_eq(#[trigger] list[j].0, name)
}

/// Setting `name` to `value` in a list: the first entry with that name
/// (ignoring ASCII case) is replaced, name included; else the pair is
/// appended.
pub open spec fn set_entry(list: PairsModel, name: Seq<char>, value: Seq<char>) -> PairsModel {
    if exists|i: int| is_first_match(list, name, i) {
        list.update(choose|i: int| is_first_match(list, name, i), (name, value))
    } else {
        list.push((name, value))
    }
}

/// Setting the same name twice leaves the list as if only the second value
/// had been set: one entry, at the place of the first setting.
pub proof fn law_set_entry_overrides(list: PairsModel, name: Seq<char>, v1: Seq<char>, v2: Seq<char>)
    ensures
        set_entry(set_entry(list, name, v1), name, v2) == set_entry(list, name, v2),
{
    let once = set_entry(list, name, v1);
    assert(ascii_ci_eq(name, name));
    if exists|i: int| is_first_match(list, name, i) {
        let i = choose|i: int| is_first_match(list, name, i);
        assert(is_first_match(once, name, i));
        let c = choose|j: int| is_first_match(once, name, j);
        if c < i {
            assert(!ascii_ci_eq(once[c].0, name));
        } else if c > i {
            assert(!ascii_ci_eq(once[i].0, name));
        }
        assert(set_entry(once, name, v2) =~= set_entry(list, name, v2));
    } else {
        let n = list.len() as int;
        assert forall|j: int| 0 <= j < n implies !ascii_ci_eq(#[trigger] once[j].0, name) by {
            if ascii_ci_eq(once[j].0, name) {
                lemma_first_match_exists(list, name, j);
                assert(false);
            }
        }
        assert(is_first_match(once, name, n));
        let c = choose|j: int| is_first_match(once, name, j);
        if c < n {
            assert(!ascii_ci_eq(once[c].0, name));
        }
        assert(set_entry(once, name, v2) =~= set_entry(list, name, v2));
    }
}

/// A match at `j` means there is a first match.
proof fn lemma_first_match_exists(list: PairsModel, name: Seq<char>, j: int)
    requires
        0 <= j < list.len(),
        ascii_ci_eq(list[j].0, name),
    ensures
        exists|i: int| is_first_match(list, name, i),
    decreases j,
{
    if forall|m: int| 0 <= m < j ==> !ascii_ci_eq(#[trigger] list[m].0, name) {
        assert(is_first_match(list, name, j));
    } else {
        let m = choose|m: int| 0 <= m < j && ascii_ci_eq(#[trigger] list[m].0, name);
        lemma_first_match_exists(list, name, m);
    }
}

fn fold_char(c: char) -> (r: u32)
    ensures
        r == ascii_fold(c),
{
    let n = c as u32;
    if 65 <= n && n <= 90 {
        n + 32
    } else {
        n
    }
}

/// Compares two texts with ASCII letters folded to lower case.
pub fn eq_ignore_ascii_case(a: &str, b: &str) -> (r: bool)
    ensures
        r == ascii_ci_eq(a@, b@),
{
    let x = chars_of(a);
    let y = chars_of(b);
    if x.len() != y.len() {
        return false;
    }
    let mut k: usize = 0;
    while k < x.len()
        invariant
            x@ == a@,
            y@ == b@,
            x.len() == y.len(),
            k <= x.len(),
            forall|j: int| 0 <= j < k ==> ascii_fold(#[trigger] a@[j]) == ascii_fold(b@[j]),
        decreases x.len() - k,
    {
        if fold_char(x[k]) != fold_char(y[k]) {
            return false;
        }
        k = k + 1;
    }
    true
}

/// The index of the first entry named `name` (ignoring ASCII case).
fn find_entry(list: &Vec<(String, String)>, name: &str) -> (r: Option<usize>)
    ensures
        match r {
            Some(i) => is_first_match(pairs_view(list@), name@, i as int),
            None => !exists|i: int| is_first_match(pairs_view(list@), name@, i),
        },
{
    let ghost m = pairs_view(list@);
    let mut i: usize = 0;
    while i < list.len()
        invariant
            i <= list.len(),
            m == pairs_view(list@),
            forall|j: int| 0 <= j < i ==> !ascii_ci_eq(#[trigger] m[j].0, name@),
        decreases list.len() - i,
    {
        if eq_ignore_ascii_case(list[i].0.as_str(), name) {
            return Some(i);
        }
        i = i + 1;
    }
    proof {
        assert forall|k: int| !is_first_match(m, name@, k) by {
            if 0 <= k < m.len() {
                assert(!ascii_ci_eq(m[k].0, name@));
            }
        }
    }
    None
}

/// Sets `name` to `value` in a name/value list.
fn set_in(list: &mut Vec<(String, String)>, name: String, value: String)
    ensures
        pairs_view(final(list)@) == set_entry(pairs_view(old(list)@), name@, value@),
{
    let ghost m = pairs_view(list@);
    match find_entry(list, name.as_str()) {
        Some(pos) => {
            proof {
                let c = choose|i: int| is_first_match(m, name@, i);
                assert(is_first_match(m, name@, pos as int));
                if c < pos {
                    assert(!ascii_ci_eq(m[c].0, name@));
                } else if c > pos {
                    assert(!ascii_ci_eq(m[pos as int].0, name@));
                }
            }
            let ghost nm = name@;
            let ghost vl = value@;
            list.set(pos, (name, value));
            assert(pairs_view(list@) =~= m.update(pos as int, (nm, vl)));
        },
        None => {
            let ghost nm = name@;
            let ghost vl = value@;
            list.push((name, value));
            assert(pairs_view(list@) =~= m.push((nm, vl)));
        },
    }
}

/// How a character of text content is written.
pub open spec fn escape_char(c: char) -> Seq<char> {
    if c == '&' {
        "&amp;"@
    } else if c == '<' {
        "&lt;"@
    } else if c == '>' {
        "&gt;"@
    } else {
        seq![c]
    }
}

/// How a character of an attribute value is written.
pub open spec fn escape_attr_char(c: char) -> Seq<char> {
    if c == '"' {
        "&quot;"@
    } else if c == '\'' {
        "&#39;"@
    } else {
        escape_char(c)
    }
}

/// Text content with `&`, `<` and `>` escaped.
pub open spec fn escape_text(s: Seq<char>) -> Seq<char>
    decreases s.len(),
{
    if s.len() == 0 {
        Seq::empty()
    } else {
        escape_text(s.drop_last()) + escape_char(s.last())
    }
}

/// An attribute value with `&`, `<`, `>`, `"` and `'` escaped.
pub open spec fn escape_attr(s: Seq<char>) -> Seq<char>
    decreases s.len(),
{
    if s.len() == 0 {
        Seq::empty()
    } else {
        escape_attr(s.drop_last()) + escape_attr_char(s.last())
    }
}

/// Escaped text content holds no `<` or `>`: text can never open or close
/// a tag.
pub proof fn law_escaped_text_has_no_tags(s: Seq<char>)
    ensures
        forall|i: int| 0 <= i < escape_text(s).len() ==> #[trigger] escape_text(s)[i] != '<' && escape_text(s)[i] != '>',
    decreases s.len(),
{
    reveal_strlit("&amp;");
    reveal_strlit("&lt;");
    reveal_strlit("&gt;");
    if s.len() > 0 {
        law_escaped_text_has_no_tags(s.drop_last());
        let a = escape_text(s.drop_last());
        let b = escape_char(s.last());
        assert(escape_text(s) == a + b);
        assert forall|i: int| 0 <= i < (a + b).len() implies #[trigger] (a + b)[i] != '<' && (a + b)[i] != '>' by {
            if i < a.len() {
                assert((a + b)[i] == a[i]);
            } else {
                assert((a + b)[i] == b[i - a.len()]);
            }
        }
    }
}

/// An escaped attribute value holds no `<`, `>` or `"`: a value can never
/// end its attribute or open a tag.
pub proof fn law_escaped_attr_stays_quoted(s: Seq<char>)
    ensures
        forall|i: int|
            0 <= i < escape_attr(s).len() ==> #[trigger] escape_attr(s)[i] != '<' && escape_attr(s)[i] != '>'
                && escape_attr(s)[i] != '"',
    decreases s.len(),
{
    reveal_strlit("&amp;");
    reveal_strlit("&lt;");
    reveal_strlit("&gt;");
    reveal_strlit("&quot;");
    reveal_strlit("&#39;");
    if s.len() > 0 {
        law_escaped_attr_stays_quoted(s.drop_last());
        let a = escape_attr(s.drop_last());
        let b = escape_attr_char(s.last());
        assert(escape_attr(s) == a + b);
        assert forall|i: int| 0 <= i < (a + b).len() implies #[trigger] (a + b)[i] != '<' && (a + b)[i] != '>' && (a
            + b)[i] != '"' by {
            if i < a.len() {
                assert((a + b)[i] == a[i]);
            } else {
                assert((a + b)[i] == b[i - a.len()]);
            }
        }
    }
}

/// One attribute as written inside a start tag: ` name="value"`.
pub open spec fn attr_html(name: Seq<char>, value: Seq<char>) -> Seq<char> {
    seq![' '] + name + seq!['=', '"'] + escape_attr(value) + seq!['"']
}

/// The style declarations joined as `name:value` with `;` between them.
pub open spec fn style_value(styles: PairsModel) -> Seq<char>
    decreases styles.len(),
{
    if styles.len() == 0 {
        Seq::empty()
    } else {
        let before = style_value(styles.drop_last());
        let sep = if styles.len() > 1 { seq![';'] } else { Seq::empty() };
        before + sep + styles.last().0 + seq![':'] + styles.last().1
    }
}

/// The attributes as written in a start tag; an attribute named `style`
/// (ignoring ASCII case) is left out, the style declarations take its
/// place.
pub open spec fn attrs_html(attrs: PairsModel) -> Seq<char>
    decreases attrs.len(),
{
    if attrs.len() == 0 {
        Seq::empty()
    } else {
        let last = attrs.last();
        attrs_html(attrs.drop_last()) + if ascii_ci_eq(last.0, "style"@) {
            Seq::empty()
        } else {
            attr_html(last.0, last.1)
        }
    }
}

/// The start tag up to its closing `>`: the tag name, then the merged
/// `style` attribute when there are style declarations, then the other
/// attributes.
pub open spec fn start_tag(tag: Seq<char>, attrs: PairsModel, styles: PairsModel) -> Seq<char> {
    seq!['<'] + tag + (if styles.len() > 0 {
        attr_html("style"@, style_value(styles))
    } else {
        Seq::empty()
    }) + attrs_html(attrs)
}

/// The text content as written: escaped, or nothing.
pub open spec fn text_html(text: Option<Seq<char>>) -> Seq<char> {
    match text {
        Some(t) => escape_text(t),
        None => Seq::empty(),
    }
}

/// The HTML of a sequence of elements, one after another.
pub closed spec fn children_html(cs: Seq<Element>) -> Seq<char>
    decreases cs,
{
    if cs.len() == 0 {
        Seq::empty()
    } else {
        children_html(cs.drop_last()) + html_of(cs.last())
    }
}

/// The HTML of an element: its start tag, its escaped text, its children,
/// and its end tag.
pub closed spec fn html_of(e: Element) -> Seq<char>
    decreases e,
{
    start_tag(e.tag@, pairs_view(e.attrs@), pairs_view(e.styles@)) + seq!['>'] + text_html(
        e.text_content(),
    ) + children_html(e.children@) + seq!['<', '/'] + e.tag@ + seq!['>']
}

/// The HTML of an element, in terms of its parts.
pub proof fn lemma_html_of(e: Element)
    ensures
        html_of(e) == start_tag(e.tag_name(), e.attr_list(), e.style_list()) + seq!['>'] + text_html(
            e.text_content(),
        ) + children_html(e.child_list()) + seq!['<', '/'] + e.tag_name() + seq!['>'],
{
}

/// The HTML of a sequence of elements with one more at the end.
pub proof fn lemma_children_html_push(cs: Seq<Element>, e: Element)
    ensures
        children_html(cs.push(e)) == children_html(cs) + html_of(e),
{
    assert(cs.push(e).drop_last() =~= cs);
}

/// The attributes of two lists one after the other are written one after
/// the other.
proof fn lemma_attrs_html_concat(a: PairsModel, b: PairsModel)
    ensures
        attrs_html(a + b) == attrs_html(a) + attrs_html(b),
    decreases b.len(),
{
    if b.len() == 0 {
        assert(a + b =~= a);
        assert(attrs_html(a) + attrs_html(b) =~= attrs_html(a));
    } else {
        assert((a + b).drop_last() =~= a + b.drop_last());
        assert((a + b).last() == b.last());
        lemma_attrs_html_concat(a, b.drop_last());
        assert(attrs_html(a + b) =~= attrs_html(a) + attrs_html(b));
    }
}

/// A single attribute not named `style` is written as ` name="value"`.
proof fn lemma_attrs_html_single(p: (Seq<char>, Seq<char>))
    requires
        !ascii_ci_eq(p.0, "style"@),
    ensures
        attrs_html(seq![p]) == attr_html(p.0, p.1),
{
    let e = Seq::<(Seq<char>, Seq<char>)>::empty();
    assert(seq![p].drop_last() =~= e);
    assert(seq![p].last() == p);
    assert(attrs_html(e) == Seq::<char>::empty());
    assert(attrs_html(seq![p]) == attrs_html(e) + attr_html(p.0, p.1));
    assert(attrs_html(seq![p]) =~= attr_html(p.0, p.1));
}

/// A name that matches `name` (ignoring ASCII case) is not `style` when
/// `name` is not.
proof fn lemma_ci_eq_not_style(x: Seq<char>, name: Seq<char>)
    requires
        ascii_ci_eq(x, name),
        !ascii_ci_eq(name, "style"@),
    ensures
        !ascii_ci_eq(x, "style"@),
{
    if ascii_ci_eq(x, "style"@) {
        assert forall|k: int| 0 <= k < name.len() implies ascii_fold(#[trigger] name[k]) == ascii_fold(
            "style"@[k],
        ) by {
            assert(ascii_fold(x[k]) == ascii_fold(name[k]));
            assert(ascii_fold(x[k]) == ascii_fold("style"@[k]));
        }
        assert(ascii_ci_eq(name, "style"@));
    }
}

/// Setting an attribute that is already there (its first entry with that
/// name, ignoring ASCII case, at `i`) rewrites that attribute where it
/// stood and leaves the others as they were written.
pub proof fn law_attr_list_replaced_in_place(list: PairsModel, name: Seq<char>, value: Seq<char>, i: int)
    requires
        is_first_match(list, name, i),
        !ascii_ci_eq(name, "style"@),
    ensures
        attrs_html(list) == attrs_html(list.subrange(0, i)) + attr_html(list[i].0, list[i].1)
            + attrs_html(list.subrange(i + 1, list.len() as int)),
        attrs_html(set_entry(list, name, value)) == attrs_html(list.subrange(0, i)) + attr_html(
            name,
            value,
        ) + attrs_html(list.subrange(i + 1, list.len() as int)),
{
    let n = list.len() as int;
    let c = choose|j: int| is_first_match(list, name, j);
    if c < i {
        assert(!ascii_ci_eq(list[c].0, name));
    } else if c > i {
        assert(!ascii_ci_eq(list[i].0, name));
    }
    let head = list.subrange(0, i);
    let tail = list.subrange(i + 1, n);
    lemma_ci_eq_not_style(list[i].0, name);
    assert(list =~= head + seq![list[i]] + tail);
    lemma_attrs_html_concat(head + seq![list[i]], tail);
    lemma_attrs_html_concat(head, seq![list[i]]);
    lemma_attrs_html_single(list[i]);
    let after = set_entry(list, name, value);
    assert(after =~= head + seq![(name, value)] + tail);
    lemma_attrs_html_concat(head + seq![(name, value)], tail);
    lemma_attrs_html_concat(head, seq![(name, value)]);
    lemma_attrs_html_single((name, value));
}

/// Setting an attribute that is not there yet (no name matches, ignoring
/// ASCII case) writes it after all the attributes set before it.
pub proof fn law_new_attr_written_last(list: PairsModel, name: Seq<char>, value: Seq<char>)
    requires
        forall|j: int| 0 <= j < list.len() ==> !ascii_ci_eq(#[trigger] list[j].0, name),
        !ascii_ci_eq(name, "style"@),
    ensures
        attrs_html(set_entry(list, name, value)) == attrs_html(list) + attr_html(name, value),
{
    assert(!exists|i: int| is_first_match(list, name, i));
    assert(list.push((name, value)) =~= list + seq![(name, value)]);
    lemma_attrs_html_concat(list, seq![(name, value)]);
    lemma_attrs_html_single((name, value));
}

/// The HTML of an element whose attributes were set on another one, all
/// else alike: the HTML around the attributes is the same for both.
pub proof fn law_attr_rewrites_html(e1: Element, e2: Element, name: Seq<char>, value: Seq<char>)
    requires
        e2.tag_name() == e1.tag_name(),
        e2.attr_list() == set_entry(e1.attr_list(), name, value),
        e2.style_list() == e1.style_list(),
        e2.text_content() == e1.text_content(),
        e2.child_list() == e1.child_list(),
    ensures
        ({
            let head = seq!['<'] + e1.tag_name() + (if e1.style_list().len() > 0 {
                attr_html("style"@, style_value(e1.style_list()))
            } else {
                Seq::empty()
            });
            let tail = seq!['>'] + text_html(e1.text_content()) + children_html(e1.child_list())
                + seq!['<', '/'] + e1.tag_name() + seq!['>'];
            &&& html_of(e1) == head + attrs_html(e1.attr_list()) + tail
            &&& html_of(e2) == head + attrs_html(set_entry(e1.attr_list(), name, value)) + tail
        }),
{
    lemma_html_of(e1);
    lemma_html_of(e2);
    let head = seq!['<'] + e1.tag_name() + (if e1.style_list().len() > 0 {
        attr_html("style"@, style_value(e1.style_list()))
    } else {
        Seq::empty()
    });
    let tail = seq!['>'] + text_html(e1.text_content()) + children_html(e1.child_list()) + seq!['<', '/']
        + e1.tag_name() + seq!['>'];
    assert(html_of(e1) =~= head + attrs_html(e1.attr_list()) + tail);
    assert(html_of(e2) =~= head + attrs_html(e2.attr_list()) + tail);
}

fn push_escaped(out: &mut String, text: &str)
    ensures
        final(out)@ == old(out)@ + escape_text(text@),
{
    let v = chars_of(text);
    let ghost start = out@;
    let mut i: usize = 0;
    while i < v.len()
        invariant
            i <= v.len(),
            v@ == text@,
            out@ == start + escape_text(v@.take(i as int)),
        decreases v.len() - i,
    {
        let c = v[i];
        if c == '&' {
            push_str(out, "&amp;");
        } else if c == '<' {
            push_str(out, "&lt;");
        } else if c == '>' {
            push_str(out, "&gt;");
        } else {
            push_char(out, c);
        }
        assert(v@.take(i + 1).drop_last() =~= v@.take(i as int));
        i = i + 1;
        assert(out@ =~= start + escape_text(v@.take(i as int)));
    }
    assert(v@.take(v.len() as int) =~= v@);
}

fn push_escaped_attr(out: &mut String, text: &str)
    ensures
        final(out)@ == old(out)@ + escape_attr(text@),
{
    let v = chars_of(text);
    let ghost start = out@;
    let mut i: usize = 0;
    while i < v.len()
        invariant
            i <= v.len(),
            v@ == text@,
            out@ == start + escape_attr(v@.take(i as int)),
        decreases v.len() - i,
    {
        let c = v[i];
        if c == '&' {
            push_str(out, "&amp;");
        } else if c == '<' {
            push_str(out, "&lt;");
        } else if c == '>' {
            push_str(out, "&gt;");
        } else if c == '"' {
            push_str(out, "&quot;");
        } else if c == '\'' {
            push_str(out, "&#39;");
        } else {
            push_char(out, c);
        }
        assert(v@.take(i + 1).drop_last() =~= v@.take(i as int));
        i = i + 1;
        assert(out@ =~= start + escape_attr(v@.take(i as int)));
    }
    assert(v@.take(v.len() as int) =~= v@);
}

/// The text with `&`, `<`, `>`, `"` and `'` written as HTML entities.
pub fn html_escape(s: &String) -> (r: String)
    ensures
        r@ == escape_attr(s@),
{
    let mut out = String::new();
    push_escaped_attr(&mut out, s.as_str());
    assert(out@ =~= escape_attr(s@));
    out
}

fn push_attr(out: &mut String, name: &str, value: &str)
    ensures
        final(out)@ == old(out)@ + attr_html(name@, value@),
{
    let ghost start = out@;
    push_char(out, ' ');
    push_str(out, name);
    push_char(out, '=');
    push_char(out, '"');
    push_escaped_attr(out, value);
    push_char(out, '"');
    assert(out@ =~= start + attr_html(name@, value@));
}

fn join_styles(styles: &Vec<(String, String)>) -> (r: String)
    ensures
        r@ == style_value(pairs_view(styles@)),
{
    let ghost m = pairs_view(styles@);
    let mut out = String::new();
    let mut i: usize = 0;
    while i < styles.len()
        invariant
            i <= styles.len(),
            m == pairs_view(styles@),
            out@ == style_value(m.take(i as int)),
        decreases styles.len() - i,
    {
        let ghost before = out@;
        if i > 0 {
            push_char(&mut out, ';');
        }
        push_str(&mut out, styles[i].0.as_str());
        push_char(&mut out, ':');
        push_str(&mut out, styles[i].1.as_str());
        assert(m.take(i + 1).drop_last() =~= m.take(i as int));
        i = i + 1;
        assert(out@ =~= style_value(m.take(i as int)));
    }
    assert(m.take(styles.len() as int) =~= m);
    out
}

/// An entry point that makes elements.
#[derive(Debug, Clone, Copy)]
pub struct HtmlDoc;

/// An HTML element under construction.
#[derive(Debug)]
pub struct Element {
    tag: String,
    attrs: Vec<(String, String)>,
    styles: Vec<(String, String)>,
    children: Vec<Element>,
    text: Option<String>,
}

impl Element {
    /// The tag name.
    pub closed spec fn tag_name(&self) -> Seq<char> {
        self.tag@
    }

    /// The attributes, in the order they were first set.
    pub closed spec fn attr_list(&self) -> PairsModel {
        pairs_view(self.attrs@)
    }

    /// The style declarations, in the order they were first set.
    pub closed spec fn style_list(&self) -> PairsModel {
        pairs_view(self.styles@)
    }

    /// The text content, if any.
    pub closed spec fn text_content(&self) -> Option<Seq<char>> {
        match self.text {
            Some(t) => Some(t@),
            None => None,
        }
    }

    /// The child elements, in order.
    pub closed spec fn child_list(&self) -> Seq<Element> {
        self.children@
    }

    /// A fresh element: the tag alone, with nothing set.
    pub open spec fn is_fresh(&self, tag: Seq<char>) -> bool {
        &&& self.tag_name() == tag
        &&& self.attr_list() == Seq::<(Seq<char>, Seq<char>)>::empty()
        &&& self.style_list() == Seq::<(Seq<char>, Seq<char>)>::empty()
        &&& self.child_list() == Seq::<Element>::empty()
        &&& self.text_content() == None::<Seq<char>>
    }

    /// An element with the given tag and nothing else.
    pub fn new(tag: &str) -> (r: Self)
        ensures
            r.is_fresh(tag@),
    {
        let r = Element { tag: string_of(tag), attrs: Vec::new(), styles: Vec::new(), children: Vec::new(), text: None };
        assert(pairs_view(r.attrs@) =~= Seq::<(Seq<char>, Seq<char>)>::empty());
        assert(pairs_view(r.styles@) =~= Seq::<(Seq<char>, Seq<char>)>::empty());
        r
    }

    /// Sets an attribute; an attribute of the same name (ignoring ASCII
    /// case) is replaced in place.
    pub fn attr(&mut self, name: &str, value: &str) -> (r: &mut Self)
        ensures
            r.tag_name() == old(self).tag_name(),
            r.attr_list() == set_entry(old(self).attr_list(), name@, value@),
            r.style_list() == old(self).style_list(),
            r.text_content() == old(self).text_content(),
            r.child_list() == old(self).child_list(),
            *final(self) == *final(r),
    {
        set_in(&mut self.attrs, string_of(name), string_of(value));
        self
    }

    /// Sets a style declaration, merged into the `style` attribute; one of
    /// the same name (ignoring ASCII case) is replaced in place.
    pub fn style(&mut self, name: &str, value: &str) -> (r: &mut Self)
        ensures
            r.tag_name() == old(self).tag_name(),
            r.attr_list() == old(self).attr_list(),
            r.style_list() == set_entry(old(self).style_list(), name@, value@),
            r.text_content() == old(self).text_content(),
            r.child_list() == old(self).child_list(),
            *final(self) == *final(r),
    {
        set_in(&mut self.styles, string_of(name), string_of(value));
        self
    }

    /// Sets the text content, replacing any earlier text.
    pub fn set_text(&mut self, text: &str) -> (r: &mut Self)
        ensures
            r.tag_name() == old(self).tag_name(),
            r.attr_list() == old(self).attr_list(),
            r.style_list() == old(self).style_list(),
            r.text_content() == Some(text@),
            r.child_list() == old(self).child_list(),
            *final(self) == *final(r),
    {
        self.text = Some(string_of(text));
        self
    }

    /// Appends a fresh child element with the given tag and hands it out
    /// for further building.
    pub fn child(&mut self, tag: &str) -> (r: &mut Element)
        ensures
            r.is_fresh(tag@),
            final(self).tag_name() == old(self).tag_name(),
            final(self).attr_list() == old(self).attr_list(),
            final(self).style_list() == old(self).style_list(),
            final(self).text_content() == old(self).text_content(),
            final(self).child_list() == old(self).child_list().push(*final(r)),
    {
        self.children.push(Element::new(tag));
        let idx = self.children.len() - 1;
        &mut self.children[idx]
    }

    /// Appends a `<div>` child.
    pub fn div(&mut self) -> (r: &mut Element)
        ensures
            r.is_fresh("div"@),
            final(self).tag_name() == old(self).tag_name(),
            final(self).attr_list() == old(self).attr_list(),
            final(self).style_list() == old(self).style_list(),
            final(self).text_content() == old(self).text_content(),
            final(self).child_list() == old(self).child_list().push(*final(r)),
    {
        self.child("div")
    }

    /// Appends a `<p>` child.
    pub fn p(&mut self) -> (r: &mut Element)
        ensures
            r.is_fresh("p"@),
            final(self).tag_name() == old(self).tag_name(),
            final(self).attr_list() == old(self).attr_list(),
            final(self).style_list() == old(self).style_list(),
            final(self).text_content() == old(self).text_content(),
            final(self).child_list() == old(self).child_list().push(*final(r)),
    {
        self.child("p")
    }

    /// Appends a `<span>` child.
    pub fn span(&mut self) -> (r: &mut Element)
        ensures
            r.is_fresh("span"@),
            final(self).tag_name() == old(self).tag_name(),
            final(self).attr_list() == old(self).attr_list(),
            final(self).style_list() == old(self).style_list(),
            final(self).text_content() == old(self).text_content(),
            final(self).child_list() == old(self).child_list().push(*final(r)),
    {
        self.child("span")
    }

    /// The HTML of this element and its subtree.
    pub fn to_html(&self) -> (r: String)
        ensures
            r@ == html_of(*self),
    {
        let mut s = String::new();
        self.write_html(&mut s);
        assert(s@ =~= html_of(*self));
        s
    }

    fn write_html(&self, out: &mut String)
        ensures
            final(out)@ == old(out)@ + html_of(*self),
        decreases *self,
    {
        let ghost start = out@;
        push_char(out, '<');
        push_str(out, self.tag.as_str());
        if self.styles.len() > 0 {
            let style_value = join_styles(&self.styles);
            push_attr(out, "style", style_value.as_str());
        }
        let ghost attrs = pairs_view(self.attrs@);
        let ghost head = out@;
        let mut i: usize = 0;
        while i < self.attrs.len()
            invariant
                i <= self.attrs.len(),
                attrs == pairs_view(self.attrs@),
                out@ == head + attrs_html(attrs.take(i as int)),
            decreases self.attrs.len() - i,
        {
            let ghost before = out@;
            if !eq_ignore_ascii_case(self.attrs[i].0.as_str(), "style") {
                push_attr(out, self.attrs[i].0.as_str(), self.attrs[i].1.as_str());
            }
            assert(attrs.take(i + 1).drop_last() =~= attrs.take(i as int));
            i = i + 1;
            assert(out@ =~= head + attrs_html(attrs.take(i as int)));
        }
        assert(attrs.take(self.attrs.len() as int) =~= attrs);
        assert(out@ =~= start + start_tag(self.tag@, attrs, pairs_view(self.styles@)));
        push_char(out, '>');
        match &self.text {
            Some(t) => push_escaped(out, t.as_str()),
            None => {},
        }
        let ghost body = out@;
        let mut k: usize = 0;
        while k < self.children.len()
            invariant
                k <= self.children.len(),
                out@ == body + children_html(self.children@.take(k as int)),
            decreases self.children.len() - k,
        {
            proof {
                lemma_children_html_push(self.children@.take(k as int), self.children@[k as int]);
                assert(self.children@.take(k as int).push(self.children@[k as int]) =~= self.children@.take(k + 1));
            }
            self.children[k].write_html(out);
            k = k + 1;
        }
        assert(self.children@.take(self.children.len() as int) =~= self.children@);
        push_str(out, "</");
        push_str(out, self.tag.as_str());
        push_char(out, '>');
        proof {
            reveal_strlit("</");
        }
        assert(out@ =~= start + html_of(*self));
    }
}

impl HtmlDoc {
    /// A document handle.
    pub fn new() -> (r: Self) {
        HtmlDoc
    }

    /// A fresh `<div>` element.
    pub fn div(&self) -> (r: Element)
        ensures
            r.is_fresh("div"@),
    {
        Element::new("div")
    }

    /// A fresh element with an arbitrary tag.
    pub fn el(&self, tag: &str) -> (r: Element)
        ensures
            r.is_fresh(tag@),
    {
        Element::new(tag)
    }
}

} // verus!
