//! Character-level helpers over `String` and `str`, together with the few
//! standard-library string functions whose behaviour the library relies on.

use vstd::prelude::*;
use vstd::string::StringSliceAdditionalSpecFns;

verus! {

/// What `str::to_lowercase` returns for a sequence of characters that
/// holds a non-ASCII character (Unicode-aware lowercasing; a function of
/// its argument alone).
pub uninterp spec fn unicode_lowercase(s: Seq<char>) -> Seq<char>;

/// Whether every character is ASCII.
pub open spec fn all_ascii(s: Seq<char>) -> bool {
    forall|i: int| 0 <= i < s.len() ==> (#[trigger] s[i] as u32) < 0x80
}

/// The ASCII lowercase of a character: `A` to `Z` become `a` to `z`.
pub open spec fn ascii_lower(c: char) -> char {
    if 'A' <= c && c <= 'Z' {
        ((c as u32) + 32) as char
    } else {
        c
    }
}

/// What `str::to_lowercase` returns: for ASCII text, each letter `A` to
/// `Z` lowercased and every other character kept.
pub open spec fn spec_lowercase(s: Seq<char>) -> Seq<char> {
    if all_ascii(s) {
        s.map_values(|c: char| ascii_lower(c))
    } else {
        unicode_lowercase(s)
    }
}

/// Lowercases `s` with `str::to_lowercase`.
/// Trusted: the result is the Unicode lowercase of the input (the
/// `Lowercase` mapping the method's documentation names), which on ASCII
/// text maps `A` to `Z` onto `a` to `z` and keeps every other character;
/// of other text only that the result depends on the input alone is stated.
#[verifier::external_body]
pub(crate) fn to_lower(s: &str) -> (r: String)
    ensures
        r@ == spec_lowercase(s@),
        !all_ascii(s@) ==> r@ == unicode_lowercase(s@),
{
    s.to_lowercase()
}

/// Appends one character with `String::push`.
/// Trusted: the new contents are the old contents followed by `c`.
#[verifier::external_body]
pub(crate) fn push_char(s: &mut String, c: char)
    ensures
        final(s)@ == old(s)@.push(c),
{
    s.push(c);
}

/// The characters of `s`, in order.
pub fn chars_of(s: &str) -> (r: Vec<char>)
    ensures
        r@ == s@,
{
    broadcast use vstd::string::axiom_spec_iter;
    let mut r: Vec<char> = Vec::new();
    for c in it: s.chars()
        invariant
            r@ == it.seq().take(it.index() as int),
    {
        r.push(c);
    }
    r
}

/// Whether two string slices hold the same characters (`str`'s `==`).
pub(crate) fn str_eq(a: &str, b: &str) -> (r: bool)
    ensures
        r == (a@ == b@),
{
    let x = chars_of(a);
    let y = chars_of(b);
    if x.len() != y.len() {
        return false;
    }
    let mut i: usize = 0;
    while i < x.len()
        invariant
            x@ == a@,
            y@ == b@,
            x.len() == y.len(),
            i <= x.len(),
            forall|j: int| 0 <= j < i ==> x@[j] == y@[j],
        decreases x.len() - i,
    {
        if x[i] != y[i] {
            return false;
        }
        i = i + 1;
    }
    assert(x@ =~= y@);
    true
}

/// A new string holding the characters of `s`.
pub fn string_of(s: &str) -> (r: String)
    ensures
        r@ == s@,
{
    s.to_owned()
}

/// A new string holding exactly the characters `v`.
pub fn string_from_chars(v: &Vec<char>) -> (r: String)
    ensures
        r@ == v@,
{
    let mut r = String::new();
    let mut i: usize = 0;
    while i < v.len()
        invariant
            i <= v.len(),
            r@ == v@.subrange(0, i as int),
        decreases v.len() - i,
    {
        push_char(&mut r, v[i]);
        i = i + 1;
        assert(r@ =~= v@.subrange(0, i as int));
    }
    assert(v@.subrange(0, v.len() as int) =~= v@);
    r
}

/// Appends the characters of `t` to `s`.
pub fn push_str(s: &mut String, t: &str)
    ensures
        final(s)@ == old(s)@ + t@,
{
    let v = chars_of(t);
    let ghost start = s@;
    let mut i: usize = 0;
    while i < v.len()
        invariant
            i <= v.len(),
            v@ == t@,
            s@ == start + v@.subrange(0, i as int),
        decreases v.len() - i,
    {
        push_char(s, v[i]);
        i = i + 1;
        assert(s@ =~= start + v@.subrange(0, i as int));
    }
    assert(v@.subrange(0, v.len() as int) =~= v@);
}

/// The decimal digits of a natural number (most significant first).
pub open spec fn nat_digits(n: nat) -> Seq<char>
    decreases n,
{
    if n < 10 {
        seq![digit_char(n)]
    } else {
        nat_digits(n / 10).push(digit_char(n % 10))
    }
}

/// The character of a single decimal digit.
pub open spec fn digit_char(d: nat) -> char {
    if d == 0 { '0' }
    else if d == 1 { '1' }
    else if d == 2 { '2' }
    else if d == 3 { '3' }
    else if d == 4 { '4' }
    else if d == 5 { '5' }
    else if d == 6 { '6' }
    else if d == 7 { '7' }
    else if d == 8 { '8' }
    else { '9' }
}

/// The decimal text of an integer, with a leading `-` for negatives,
/// as Rust's `to_string` writes it.
pub open spec fn int_text(n: int) -> Seq<char> {
    if n < 0 {
        seq!['-'] + nat_digits((-n) as nat)
    } else {
        nat_digits(n as nat)
    }
}

fn digit(d: u64) -> (c: char)
    requires
        d < 10,
    ensures
        c == digit_char(d as nat),
{
    if d == 0 { '0' }
    else if d == 1 { '1' }
    else if d == 2 { '2' }
    else if d == 3 { '3' }
    else if d == 4 { '4' }
    else if d == 5 { '5' }
    else if d == 6 { '6' }
    else if d == 7 { '7' }
    else if d == 8 { '8' }
    else { '9' }
}

/// The decimal text of an unsigned integer.
pub fn u64_text(n: u64) -> (r: String)
    ensures
        r@ == nat_digits(n as nat),
    decreases n,
{
    if n < 10 {
        let mut r = String::new();
        push_char(&mut r, digit(n));
        assert(r@ =~= nat_digits(n as nat));
        r
    } else {
        let mut r = u64_text(n / 10);
        push_char(&mut r, digit(n % 10));
        r
    }
}

/// The decimal text of a signed integer.
pub fn i64_text(n: i64) -> (r: String)
    ensures
        r@ == int_text(n as int),
{
    if n < 0 {
        let m: u64 = if n == i64::MIN { 9223372036854775808u64 } else { (-n) as u64 };
        let digits = u64_text(m);
        let mut r = String::new();
        push_char(&mut r, '-');
        push_str(&mut r, digits.as_str());
        assert(r@ =~= int_text(n as int));
        r
    } else {
        u64_text(n as u64)
    }
}

/// The concatenation of two strings.
pub fn concat2(a: &str, b: &str) -> (r: String)
    ensures
        r@ == a@ + b@,
{
    let mut r = string_of(a);
    push_str(&mut r, b);
    r
}

/// The concatenation of three strings.
pub fn concat3(a: &str, b: &str, c: &str) -> (r: String)
    ensures
        r@ == a@ + b@ + c@,
{
    let mut r = string_of(a);
    push_str(&mut r, b);
    push_str(&mut r, c);
    r
}

/// The concatenation of five strings.
pub fn concat5(a: &str, b: &str, c: &str, d: &str, e: &str) -> (r: String)
    ensures
        r@ == a@ + b@ + c@ + d@ + e@,
{
    let mut r = concat3(a, b, c);
    push_str(&mut r, d);
    push_str(&mut r, e);
    r
}


/// Whether `p` is a prefix of `s`.
pub fn starts_with(s: &str, p: &str) -> (r: bool)
    ensures
        r == p@.is_prefix_of(s@),
{
    let x = chars_of(s);
    let y = chars_of(p);
    if y.len() > x.len() {
        return false;
    }
    let mut i: usize = 0;
    while i < y.len()
        invariant
            x@ == s@,
            y@ == p@,
            y.len() <= x.len(),
            i <= y.len(),
            forall|j: int| 0 <= j < i ==> x@[j] == y@[j],
        decreases y.len() - i,
    {
        if x[i] != y[i] {
            return false;
        }
        i = i + 1;
    }
    assert(p@ =~= s@.subrange(0, p@.len() as int));
    true
}

/// Whether `p` is a suffix of `s`.
pub fn ends_with(s: &str, p: &str) -> (r: bool)
    ensures
        r == (p@.len() <= s@.len() && s@.subrange(s@.len() - p@.len(), s@.len() as int) == p@),
{
    let x = chars_of(s);
    let y = chars_of(p);
    if y.len() > x.len() {
        return false;
    }
    let off = x.len() - y.len();
    let mut i: usize = 0;
    while i < y.len()
        invariant
            x@ == s@,
            y@ == p@,
            off == x.len() - y.len(),
            i <= y.len(),
            forall|j: int| 0 <= j < i ==> x@[off + j] == y@[j],
        decreases y.len() - i,
    {
        if x[off + i] != y[i] {
            assert(s@.subrange(off as int, s@.len() as int)[i as int] != p@[i as int]);
            return false;
        }
        i = i + 1;
    }
    assert(s@.subrange(off as int, s@.len() as int) =~= p@);
    true
}

/// The rest of `s` after the prefix `p`, if `s` starts with `p`.
pub fn strip_prefix(s: &str, p: &str) -> (r: Option<String>)
    ensures
        match r {
            Some(t) => p@.is_prefix_of(s@) && t@ == s@.skip(p@.len() as int),
            None => !p@.is_prefix_of(s@),
        },
{
    if !starts_with(s, p) {
        return None;
    }
    let x = chars_of(s);
    let n = chars_of(p).len();
    let rest = sub_chars(&x, n, x.len());
    assert(rest@ =~= s@.skip(p@.len() as int));
    Some(string_from_chars(&rest))
}

/// What `char::is_whitespace` says of a non-ASCII character (the Unicode
/// `White_Space` property; a function of the character alone).
pub uninterp spec fn unicode_whitespace(c: char) -> bool;

/// Whether a character has the Unicode `White_Space` property: among the
/// ASCII characters exactly tab, line feed, vertical tab, form feed,
/// carriage return (U+0009 to U+000D) and space.
pub open spec fn spec_is_whitespace(c: char) -> bool {
    if (c as u32) < 0x80 {
        c == ' ' || (9 <= (c as u32) && (c as u32) <= 13)
    } else {
        unicode_whitespace(c)
    }
}

/// Whether `c` is whitespace, by `char::is_whitespace`.
/// Trusted: the result is the `White_Space` property of `c` (Unicode
/// `PropList.txt`, which the method's documentation refers to), whose ASCII
/// members are U+0009 to U+000D and space; of the other characters only
/// that the result depends on the character alone is stated.
#[verifier::external_body]
pub(crate) fn is_whitespace(c: char) -> (r: bool)
    ensures
        r == spec_is_whitespace(c),
        (c as u32) >= 0x80 ==> r == unicode_whitespace(c),
{
    c.is_whitespace()
}

/// `s` without its leading whitespace.
pub open spec fn trim_start_ws(s: Seq<char>) -> Seq<char>
    decreases s.len(),
{
    if s.len() > 0 && spec_is_whitespace(s[0]) {
        trim_start_ws(s.drop_first())
    } else {
        s
    }
}

/// `s` without its trailing whitespace.
pub open spec fn trim_end_ws(s: Seq<char>) -> Seq<char>
    decreases s.len(),
{
    if s.len() > 0 && spec_is_whitespace(s.last()) {
        trim_end_ws(s.drop_last())
    } else {
        s
    }
}

/// `s` without leading and trailing whitespace, as `str::trim` gives it.
pub open spec fn trim_ws(s: Seq<char>) -> Seq<char> {
    trim_end_ws(trim_start_ws(s))
}

/// The characters of `v[lo..hi]`.
pub fn sub_chars(v: &Vec<char>, lo: usize, hi: usize) -> (r: Vec<char>)
    requires
        lo <= hi <= v.len(),
    ensures
        r@ == v@.subrange(lo as int, hi as int),
{
    let mut r: Vec<char> = Vec::new();
    let mut i: usize = lo;
    while i < hi
        invariant
            lo <= i <= hi <= v.len(),
            r@ == v@.subrange(lo as int, i as int),
        decreases hi - i,
    {
        r.push(v[i]);
        i = i + 1;
        assert(r@ =~= v@.subrange(lo as int, i as int));
    }
    r
}

/// The bounds `[lo, hi)` of `v[lo0..hi0]` with whitespace trimmed from both ends.
pub fn trim_bounds(v: &Vec<char>, lo0: usize, hi0: usize) -> (r: (usize, usize))
    requires
        lo0 <= hi0 <= v.len(),
    ensures
        lo0 <= r.0 <= r.1 <= hi0,
        v@.subrange(r.0 as int, r.1 as int) == trim_ws(v@.subrange(lo0 as int, hi0 as int)),
{
    let mut lo = lo0;
    while lo < hi0 && is_whitespace(v[lo])
        invariant
            lo0 <= lo <= hi0 <= v.len(),
            trim_start_ws(v@.subrange(lo0 as int, hi0 as int)) == trim_start_ws(v@.subrange(lo as int, hi0 as int)),
        decreases hi0 - lo,
    {
        assert(v@.subrange(lo as int, hi0 as int).drop_first() =~= v@.subrange(lo + 1, hi0 as int));
        lo = lo + 1;
    }
    assert(trim_start_ws(v@.subrange(lo as int, hi0 as int)) == v@.subrange(lo as int, hi0 as int));
    let mut hi = hi0;
    while hi > lo && is_whitespace(v[hi - 1])
        invariant
            lo <= hi <= hi0 <= v.len(),
            trim_end_ws(v@.subrange(lo as int, hi0 as int)) == trim_end_ws(v@.subrange(lo as int, hi as int)),
        decreases hi - lo,
    {
        assert(v@.subrange(lo as int, hi as int).drop_last() =~= v@.subrange(lo as int, hi - 1));
        hi = hi - 1;
    }
    (lo, hi)
}

/// Whether a byte range of `s` is well formed: within the UTF-8 encoding
/// of `s` and on character boundaries.
pub open spec fn byte_range_ok(s: Seq<char>, start: int, end: int) -> bool {
    let b = vstd::utf8::encode_utf8(s);
    &&& 0 <= start <= end <= b.len()
    &&& vstd::utf8::is_char_boundary(b, start)
    &&& vstd::utf8::is_char_boundary(b, end)
}

/// Whether bytes `[start, end)` are a slice of `s` (what `str::get` checks).
pub fn range_ok(s: &str, start: usize, end: usize) -> (r: bool)
    ensures
        r == byte_range_ok(s@, start as int, end as int),
{
    let n = s.as_bytes().len();
    start <= end && end <= n && s.is_char_boundary(start) && s.is_char_boundary(end)
}

/// The characters whose UTF-8 encoding is bytes `[start, end)` of `s`'s.
pub open spec fn byte_slice_chars(s: Seq<char>, start: int, end: int) -> Seq<char> {
    vstd::utf8::decode_utf8(vstd::utf8::encode_utf8(s).subrange(start, end))
}

/// The sub-slice `&s[start..end]` of `s` by byte offsets.
pub fn byte_slice(s: &str, start: usize, end: usize) -> (r: &str)
    requires
        byte_range_ok(s@, start as int, end as int),
    ensures
        r@ == byte_slice_chars(s@, start as int, end as int),
        vstd::utf8::encode_utf8(r@) == vstd::utf8::encode_utf8(s@).subrange(start as int, end as int),
{
    let ghost b = s.spec_bytes();
    proof {
        vstd::utf8::encode_utf8_valid_utf8(s@);
    }
    let (a, _) = s.split_at(end);
    proof {
        vstd::utf8::valid_utf8_split(b, end as int);
        let ab = a.spec_bytes();
        assert(ab =~= b.subrange(0, end as int));
        if start < end {
            vstd::utf8::is_char_boundary_iff_not_is_continuation_byte(b, start as int);
            vstd::utf8::is_char_boundary_iff_not_is_continuation_byte(ab, start as int);
        } else {
            vstd::utf8::is_char_boundary_start_end_of_seq(ab);
        }
    }
    let (_, r) = a.split_at(start);
    proof {
        let rb = r.spec_bytes();
        assert(rb =~= b.subrange(start as int, end as int));
        vstd::utf8::encode_utf8_decode_utf8(r@);
    }
    r
}


// ---------------------------------------------------------------------
// Byte offsets of character positions
// ---------------------------------------------------------------------

/// The number of UTF-8 bytes of the first `k` characters of `s`.
pub open spec fn byte_len(s: Seq<char>, k: int) -> int {
    vstd::utf8::encode_utf8(s.subrange(0, k)).len() as int
}

/// Encoding distributes over concatenation.
pub proof fn lemma_encode_concat(a: Seq<char>, b: Seq<char>)
    ensures
        vstd::utf8::encode_utf8(a + b) == vstd::utf8::encode_utf8(a) + vstd::utf8::encode_utf8(b),
    decreases a.len(),
{
    if a.len() == 0 {
        assert(a + b =~= b);
        assert(vstd::utf8::encode_utf8(a) =~= Seq::<u8>::empty());
        assert(vstd::utf8::encode_utf8(b) =~= Seq::<u8>::empty() + vstd::utf8::encode_utf8(b));
    } else {
        lemma_encode_concat(a.drop_first(), b);
        assert((a + b).drop_first() =~= a.drop_first() + b);
        assert((a + b)[0] == a[0]);
        let ea = vstd::utf8::encode_scalar(a[0] as u32);
        assert(vstd::utf8::encode_utf8(a + b) =~= ea + vstd::utf8::encode_utf8(a.drop_first() + b));
        assert(vstd::utf8::encode_utf8(a) =~= ea + vstd::utf8::encode_utf8(a.drop_first()));
    }
}

/// The bytes of one character.
pub proof fn lemma_encode_one(c: char)
    ensures
        vstd::utf8::encode_utf8(seq![c]) == vstd::utf8::encode_scalar(c as u32),
{
    let one = seq![c];
    assert(one.drop_first() =~= Seq::<char>::empty());
    assert(one[0] == c);
    assert(vstd::utf8::encode_utf8(Seq::<char>::empty()) =~= Seq::<u8>::empty());
    assert(vstd::utf8::encode_utf8(one) == vstd::utf8::encode_scalar(one[0] as u32) + vstd::utf8::encode_utf8(one.drop_first()));
    assert(vstd::utf8::encode_utf8(one) =~= vstd::utf8::encode_scalar(c as u32));
}

/// Dropping the first character's bytes from an encoding leaves the
/// encoding of the rest.
pub proof fn lemma_pop_encoded(s: Seq<char>)
    requires
        s.len() > 0,
    ensures
        vstd::utf8::valid_utf8(vstd::utf8::encode_utf8(s)),
        vstd::utf8::pop_first_scalar(vstd::utf8::encode_utf8(s)) == vstd::utf8::encode_utf8(s.drop_first()),
{
    let e = vstd::utf8::encode_utf8(s);
    vstd::utf8::encode_utf8_valid_utf8(s);
    vstd::utf8::encode_utf8_decode_utf8(s);
    let p = vstd::utf8::pop_first_scalar(e);
    assert(vstd::utf8::valid_utf8(p));
    assert(vstd::utf8::decode_utf8(e) == seq![vstd::utf8::decode_first_scalar(e) as char] + vstd::utf8::decode_utf8(p));
    assert(vstd::utf8::decode_utf8(p) =~= s.drop_first());
    vstd::utf8::decode_utf8_encode_utf8(p);
}

/// The byte offset of any character position is a character boundary.
pub proof fn lemma_prefix_boundary(s: Seq<char>, k: int)
    requires
        0 <= k <= s.len(),
    ensures
        vstd::utf8::is_char_boundary(vstd::utf8::encode_utf8(s), byte_len(s, k)),
        byte_len(s, k) <= vstd::utf8::encode_utf8(s).len(),
    decreases k,
{
    let e = vstd::utf8::encode_utf8(s);
    vstd::utf8::encode_utf8_valid_utf8(s);
    lemma_encode_concat(s.subrange(0, k), s.subrange(k, s.len() as int));
    assert(s.subrange(0, k) + s.subrange(k, s.len() as int) =~= s);
    if k == 0 {
        assert(s.subrange(0, 0) =~= Seq::<char>::empty());
    } else {
        let t = s.drop_first();
        lemma_prefix_boundary(t, k - 1);
        lemma_pop_encoded(s);
        assert(s.subrange(0, k) =~= seq![s[0]] + t.subrange(0, k - 1));
        lemma_encode_concat(seq![s[0]], t.subrange(0, k - 1));
        lemma_encode_one(s[0]);
        lemma_encode_concat(seq![s[0]], t);
        assert(s =~= seq![s[0]] + t);
        let w = vstd::utf8::encode_scalar(s[0] as u32).len() as int;
        assert(vstd::utf8::pop_first_scalar(e).len() == e.len() - vstd::utf8::length_of_first_scalar(e));
        assert(vstd::utf8::length_of_first_scalar(e) == w);
        assert(byte_len(s, k) == w + byte_len(t, k - 1));
    }
}

/// The characters between two positions are the decoding of the bytes
/// between their offsets.
pub proof fn lemma_slice_chars(s: Seq<char>, a: int, b: int)
    requires
        0 <= a <= b <= s.len(),
    ensures
        byte_range_ok(s, byte_len(s, a), byte_len(s, b)),
        byte_slice_chars(s, byte_len(s, a), byte_len(s, b)) == s.subrange(a, b),
{
    lemma_prefix_boundary(s, a);
    lemma_prefix_boundary(s, b);
    let pa = s.subrange(0, a);
    let mid = s.subrange(a, b);
    let rest = s.subrange(b, s.len() as int);
    assert(s =~= pa + mid + rest);
    assert(s.subrange(0, b) =~= pa + mid);
    lemma_encode_concat(pa, mid);
    lemma_encode_concat(pa + mid, rest);
    let e = vstd::utf8::encode_utf8(s);
    assert(e.subrange(byte_len(s, a), byte_len(s, b)) =~= vstd::utf8::encode_utf8(mid));
    vstd::utf8::encode_utf8_decode_utf8(mid);
}

/// The number of UTF-8 bytes of a character.
pub fn char_width(c: char) -> (r: usize)
    ensures
        r == vstd::utf8::encode_scalar(c as u32).len(),
        1 <= r <= 4,
{
    proof {
        vstd::utf8::char_is_scalar(c);
    }
    let v = c as u32;
    if v <= 0x7F {
        1
    } else if v <= 0x7FF {
        2
    } else if v <= 0xFFFF {
        3
    } else {
        4
    }
}

/// The byte offset of character position `k` of `s`.
pub fn byte_offset(s: &Vec<char>, k: usize) -> (r: usize)
    requires
        k <= s@.len(),
        vstd::utf8::encode_utf8(s@).len() <= usize::MAX,
    ensures
        r == byte_len(s@, k as int),
{
    let mut r: usize = 0;
    let mut i: usize = 0;
    assert(s@.subrange(0, 0) =~= Seq::<char>::empty());
    while i < k
        invariant
            i <= k <= s@.len(),
            vstd::utf8::encode_utf8(s@).len() <= usize::MAX,
            r == byte_len(s@, i as int),
        decreases k - i,
    {
        let w = char_width(s[i]);
        proof {
            assert(s@.subrange(0, i + 1) =~= s@.subrange(0, i as int) + seq![s@[i as int]]);
            lemma_encode_concat(s@.subrange(0, i as int), seq![s@[i as int]]);
            lemma_encode_one(s@[i as int]);
            lemma_prefix_boundary(s@, i + 1);
        }
        r = r + w;
        i = i + 1;
    }
    r
}


/// The part of `s` from character position `k` on, as a sub-slice.
pub fn suffix_from<'a>(s: &'a str, v: &Vec<char>, k: usize) -> (r: &'a str)
    requires
        v@ == s@,
        k <= v@.len(),
    ensures
        r@ == s@.skip(k as int),
{
    let total = s.as_bytes().len();
    let b = byte_offset(v, k);
    proof {
        lemma_slice_chars(s@, k as int, s@.len() as int);
        assert(s@.subrange(0, s@.len() as int) =~= s@);
        assert(s@.subrange(k as int, s@.len() as int) =~= s@.skip(k as int));
    }
    byte_slice(s, b, total)
}

/// In valid UTF-8, the position after a one-byte character at a
/// character boundary is a character boundary too.
pub proof fn lemma_boundary_after_ascii(b: Seq<u8>, i: int)
    requires
        vstd::utf8::valid_utf8(b),
        0 <= i < b.len(),
        vstd::utf8::is_char_boundary(b, i),
        b[i] < 0x80,
    ensures
        vstd::utf8::is_char_boundary(b, i + 1),
    decreases b.len(),
{
    let p = vstd::utf8::pop_first_scalar(b);
    let l = vstd::utf8::length_of_first_scalar(b);
    assert(vstd::utf8::valid_utf8(p));
    if i == 0 {
        assert(l == 1);
        assert(vstd::utf8::is_char_boundary(b, 1) == vstd::utf8::is_char_boundary(p, 0));
    } else {
        assert(vstd::utf8::is_char_boundary(b, i) == vstd::utf8::is_char_boundary(p, i - l));
        assert(p[i - l] == b[i]);
        lemma_boundary_after_ascii(p, i - l);
        assert(vstd::utf8::is_char_boundary(b, i + 1) == vstd::utf8::is_char_boundary(p, i + 1 - l));
    }
}

/// In valid UTF-8, the position of a one-byte character is a character
/// boundary, and so is the position after it.
pub proof fn lemma_ascii_boundaries(b: Seq<u8>, i: int)
    requires
        vstd::utf8::valid_utf8(b),
        0 <= i < b.len(),
        b[i] < 0x80,
    ensures
        vstd::utf8::is_char_boundary(b, i),
        vstd::utf8::is_char_boundary(b, i + 1),
{
    vstd::utf8::is_char_boundary_iff_not_is_continuation_byte(b, i);
    lemma_boundary_after_ascii(b, i);
}

} // verus!
