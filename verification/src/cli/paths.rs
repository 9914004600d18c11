//! Classifying positional arguments by their file extension, with the
//! rules of `std::path::Path::file_name` and `Path::extension` on Unix
//! paths.

use vstd::prelude::*;
use crate::text::{chars_of, string_from_chars, sub_chars, trim_bounds, trim_ws};
use crate::cli::exec::ArgFacts;

verus! {

/// The index just past the last `/` of `s` (0 when there is none).
pub open spec fn segment_start(s: Seq<char>) -> int
    decreases s.len(),
{
    if s.len() == 0 {
        0
    } else if s.last() == '/' {
        s.len() as int
    } else {
        segment_start(s.drop_last())
    }
}

/// The start of the last segment lies within the text.
pub proof fn lemma_segment_start_bounds(s: Seq<char>)
    ensures
        0 <= segment_start(s) <= s.len(),
        s.len() > 0 && s.last() != '/' ==> segment_start(s) < s.len(),
    decreases s.len(),
{
    if s.len() > 0 && s.last() != '/' {
        lemma_segment_start_bounds(s.drop_last());
    }
}

/// The final component of a path, as `Path::file_name` gives it: trailing
/// `/` and `.` components are skipped; a path that ends in `..`, or that
/// is only a root or `.`, has none.
pub open spec fn file_name(p: Seq<char>) -> Option<Seq<char>>
    decreases p.len(),
{
    if p.len() == 0 {
        None
    } else if p.last() == '/' {
        file_name(p.drop_last())
    } else {
        let st = segment_start(p);
        let seg = p.subrange(st, p.len() as int);
        if seg == seq!['.'] {
            if st == 0 {
                None
            } else {
                proof {
                    lemma_segment_start_bounds(p);
                }
                file_name(p.subrange(0, st))
            }
        } else if seg == seq!['.', '.'] {
            None
        } else {
            Some(seg)
        }
    }
}

/// The index of the last `.` of `s`, or -1.
pub open spec fn last_dot(s: Seq<char>) -> int
    decreases s.len(),
{
    if s.len() == 0 {
        -1
    } else if s.last() == '.' {
        s.len() - 1
    } else {
        last_dot(s.drop_last())
    }
}

/// The extension of a path, as `Path::extension` gives it: what follows
/// the last `.` of the file name, when that `.` is not its first
/// character.
pub open spec fn path_extension(p: Seq<char>) -> Option<Seq<char>> {
    match file_name(p) {
        Some(name) => {
            let d = last_dot(name);
            if d <= 0 {
                None
            } else {
                Some(name.subrange(d + 1, name.len() as int))
            }
        },
        None => None,
    }
}

/// The path's extension is `sql`.
pub open spec fn is_sql_path(p: Seq<char>) -> bool {
    path_extension(p) == Some(seq!['s', 'q', 'l'])
}

/// The path's extension is `db`, `sqlite` or `sqlite3`.
pub open spec fn is_db_path(p: Seq<char>) -> bool {
    ||| path_extension(p) == Some(seq!['d', 'b'])
    ||| path_extension(p) == Some(seq!['s', 'q', 'l', 'i', 't', 'e'])
    ||| path_extension(p) == Some(seq!['s', 'q', 'l', 'i', 't', 'e', '3'])
}

fn segment_start_of(v: &Vec<char>, end: usize) -> (r: usize)
    requires
        end <= v.len(),
    ensures
        r == segment_start(v@.subrange(0, end as int)),
        r <= end,
{
    let mut k: usize = end;
    while k > 0 && v[k - 1] != '/'
        invariant
            k <= end <= v.len(),
            segment_start(v@.subrange(0, k as int)) == segment_start(v@.subrange(0, end as int)),
        decreases k,
    {
        assert(v@.subrange(0, k as int).drop_last() =~= v@.subrange(0, k - 1));
        k = k - 1;
    }
    proof {
        lemma_segment_start_at(v@, k);
    }
    k
}

proof fn lemma_segment_start_at(s: Seq<char>, k: usize)
    requires
        k <= s.len(),
        k == 0 || s[k - 1] == '/',
    ensures
        k == segment_start(s.subrange(0, k as int)),
{
    if k > 0 {
        assert(s.subrange(0, k as int).last() == '/');
    }
}

/// The bounds of the file name within the characters of a path.
fn file_name_bounds(v: &Vec<char>) -> (r: Option<(usize, usize)>)
    ensures
        match r {
            Some((a, b)) => a <= b <= v.len() && file_name(v@) == Some(v@.subrange(a as int, b as int)),
            None => file_name(v@) is None,
        },
{
    let mut end: usize = v.len();
    assert(v@.subrange(0, end as int) =~= v@);
    loop
        invariant
            end <= v.len(),
            file_name(v@.subrange(0, end as int)) == file_name(v@),
        decreases end,
    {
        let ghost p = v@.subrange(0, end as int);
        if end == 0 {
            return None;
        }
        if v[end - 1] == '/' {
            assert(p.drop_last() =~= v@.subrange(0, end - 1));
            end = end - 1;
        } else {
            let st = segment_start_of(v, end);
            assert(p.subrange(st as int, p.len() as int) =~= v@.subrange(st as int, end as int));
            let len = end - st;
            if len == 1 && v[st] == '.' {
                assert(v@.subrange(st as int, end as int) =~= seq!['.']);
                if st == 0 {
                    return None;
                }
                assert(p.subrange(0, st as int) =~= v@.subrange(0, st as int));
                end = st;
            } else if len == 2 && v[st] == '.' && v[st + 1] == '.' {
                assert(v@.subrange(st as int, end as int) =~= seq!['.', '.']);
                return None;
            } else {
                let ghost seg = v@.subrange(st as int, end as int);
                assert(seg != seq!['.']) by {
                    if seg == seq!['.'] {
                        assert(seg.len() == 1 && seg[0] == v@[st as int]);
                    }
                }
                assert(seg != seq!['.', '.']) by {
                    if seg == seq!['.', '.'] {
                        assert(seg.len() == 2 && seg[0] == v@[st as int] && seg[1] == v@[st + 1]);
                    }
                }
                return Some((st, end));
            }
        }
    }
}

/// The extension of a path (see `path_extension`).
pub fn extension(path: &str) -> (r: Option<Vec<char>>)
    ensures
        match r {
            Some(e) => path_extension(path@) == Some(e@),
            None => path_extension(path@) is None,
        },
{
    let v = chars_of(path);
    match file_name_bounds(&v) {
        None => None,
        Some((a, b)) => {
            let ghost name = v@.subrange(a as int, b as int);
            let mut k: usize = b;
            while k > a && v[k - 1] != '.'
                invariant
                    a <= k <= b <= v.len(),
                    name == v@.subrange(a as int, b as int),
                    last_dot(v@.subrange(a as int, k as int)) == last_dot(name),
                decreases k,
            {
                assert(v@.subrange(a as int, k as int).drop_last() =~= v@.subrange(a as int, k - 1));
                k = k - 1;
            }
            if k > a {
                assert(v@.subrange(a as int, k as int).last() == '.');
            }
            if k - a <= 1 {
                None
            } else {
                let e = sub_chars(&v, k, b);
                assert(name.subrange(k - a, name.len() as int) =~= v@.subrange(k as int, b as int));
                Some(e)
            }
        },
    }
}

/// Whether the characters of an extension are exactly `w`.
pub fn ext_is(e: &Vec<char>, w: &str) -> (r: bool)
    ensures
        r == (e@ == w@),
{
    let x = chars_of(w);
    if e.len() != x.len() {
        return false;
    }
    let mut i: usize = 0;
    while i < e.len()
        invariant
            i <= e.len() == x.len(),
            x@ == w@,
            forall|j: int| 0 <= j < i ==> e@[j] == x@[j],
        decreases e.len() - i,
    {
        if e[i] != x[i] {
            return false;
        }
        i = i + 1;
    }
    assert(e@ =~= x@);
    true
}

/// Whether the path names a `.sql` file.
pub fn is_sql_file(path: &str) -> (r: bool)
    ensures
        r == is_sql_path(path@),
{
    proof {
        reveal_strlit("sql");
        assert("sql"@ =~= seq!['s', 'q', 'l']);
    }
    match extension(path) {
        Some(e) => ext_is(&e, "sql"),
        None => false,
    }
}

/// Whether the path has a database extension (`.db`, `.sqlite`,
/// `.sqlite3`).
pub fn is_database_path(path: &str) -> (r: bool)
    ensures
        r == is_db_path(path@),
{
    proof {
        reveal_strlit("db");
        reveal_strlit("sqlite");
        reveal_strlit("sqlite3");
        assert("db"@ =~= seq!['d', 'b']);
        assert("sqlite"@ =~= seq!['s', 'q', 'l', 'i', 't', 'e']);
        assert("sqlite3"@ =~= seq!['s', 'q', 'l', 'i', 't', 'e', '3']);
    }
    match extension(path) {
        Some(e) => ext_is(&e, "db") || ext_is(&e, "sqlite") || ext_is(&e, "sqlite3"),
        None => false,
    }
}

/// What an argument is as a path, given whether it exists on disk.
pub fn arg_facts(path: &str, exists: bool) -> (r: ArgFacts)
    ensures
        r.exists == exists,
        r.is_sql == is_sql_path(path@),
        r.is_db_path == is_db_path(path@),
{
    ArgFacts { exists, is_sql: is_sql_file(path), is_db_path: is_database_path(path) }
}

/// The SQL held by a `.sql` file: its contents with surrounding whitespace
/// removed.
pub fn sql_file_text(contents: &str) -> (r: String)
    ensures
        r@ == trim_ws(contents@),
{
    let v = chars_of(contents);
    let (lo, hi) = trim_bounds(&v, 0, v.len());
    assert(v@.subrange(0, v.len() as int) =~= v@);
    let t = sub_chars(&v, lo, hi);
    string_from_chars(&t)
}

/// Whether `:memory:` is a completion of a partly typed database argument:
/// what has been typed starts it.
pub fn offers_memory(current: &str) -> (r: bool)
    ensures
        r == current@.is_prefix_of(":memory:"@),
{
    crate::text::starts_with(":memory:", current)
}

} // verus!
