//! The texts the notebook kernel shows for dot commands: what was loaded
//! from a `.env` file, how setting a parameter went, the process a shell
//! command started.

use vstd::prelude::*;
use crate::ast::texts;
use crate::text::{nat_digits, push_str, u64_text};

verus! {

/// One markdown list line per key: ``- `key` `` and a line break.
pub open spec fn key_lines(keys: Seq<Seq<char>>) -> Seq<char>
    decreases keys.len(),
{
    if keys.len() == 0 {
        Seq::empty()
    } else {
        key_lines(keys.drop_last()) + "- `"@ + keys.last() + "`\n"@
    }
}

/// The markdown report of a `.env` load: none, one or several keys
/// loaded from `path`.
pub open spec fn dotenv_report_text(path: Seq<char>, loaded: Seq<Seq<char>>) -> Seq<char> {
    if loaded.len() == 0 {
        "No environment variables loaded from `"@ + path + "`\n"@
    } else if loaded.len() == 1 {
        "Loaded `"@ + loaded[0] + "` from `"@ + path + "`\n"@
    } else {
        "Loaded "@ + nat_digits(loaded.len()) + " environment variables from `"@ + path + "`:\n"@ + key_lines(
            loaded,
        )
    }
}

/// Reports which environment variables a `.env` file (at `path`, as it
/// is to be shown) set: a line for none or one, else a count and a list.
pub fn dotenv_report(path: &str, loaded: &Vec<String>) -> (r: String)
    ensures
        r@ == dotenv_report_text(path@, texts(loaded@)),
{
    let ghost keys = texts(loaded@);
    let mut r = String::new();
    if loaded.len() == 0 {
        push_str(&mut r, "No environment variables loaded from `");
        push_str(&mut r, path);
        push_str(&mut r, "`\n");
        assert(r@ =~= dotenv_report_text(path@, keys));
    } else if loaded.len() == 1 {
        push_str(&mut r, "Loaded `");
        push_str(&mut r, loaded[0].as_str());
        push_str(&mut r, "` from `");
        push_str(&mut r, path);
        push_str(&mut r, "`\n");
        assert(r@ =~= dotenv_report_text(path@, keys));
    } else {
        push_str(&mut r, "Loaded ");
        let n = u64_text(loaded.len() as u64);
        push_str(&mut r, n.as_str());
        push_str(&mut r, " environment variables from `");
        push_str(&mut r, path);
        push_str(&mut r, "`:\n");
        let ghost head = r@;
        assert(keys.take(0) =~= Seq::<Seq<char>>::empty());
        let mut i: usize = 0;
        while i < loaded.len()
            invariant
                i <= loaded@.len(),
                keys == texts(loaded@),
                r@ == head + key_lines(keys.take(i as int)),
            decreases loaded@.len() - i,
        {
            push_str(&mut r, "- `");
            push_str(&mut r, loaded[i].as_str());
            push_str(&mut r, "`\n");
            assert(keys.take(i + 1).drop_last() =~= keys.take(i as int));
            assert(keys.take(i + 1).last() == loaded@[i as int]@);
            i = i + 1;
            assert(r@ =~= head + key_lines(keys.take(i as int)));
        }
        assert(keys.take(loaded@.len() as int) =~= keys);
        assert(r@ =~= dotenv_report_text(path@, keys));
    }
    r
}

/// The reply to setting a parameter: success, or the error it gave.
pub open spec fn parameter_set_text(key: Seq<char>, error: Option<Seq<char>>) -> Seq<char> {
    match error {
        None => "Set parameter: "@ + key,
        Some(e) => "Failed to set parameter "@ + key + ": "@ + e,
    }
}

/// Reports how setting the parameter `key` went (`error` is the message
/// of a failure).
pub fn parameter_set_message(key: &str, error: Option<&str>) -> (r: String)
    ensures
        r@ == parameter_set_text(
            key@,
            match error {
                Some(e) => Some(e@),
                None => None,
            },
        ),
{
    let mut r = String::new();
    match error {
        None => {
            push_str(&mut r, "Set parameter: ");
            push_str(&mut r, key);
        },
        Some(e) => {
            push_str(&mut r, "Failed to set parameter ");
            push_str(&mut r, key);
            push_str(&mut r, ": ");
            push_str(&mut r, e);
        },
    }
    assert(r@ =~= parameter_set_text(
        key@,
        match error {
            Some(e) => Some(e@),
            None => None,
        },
    ));
    r
}

/// Reports the process a shell command started in the background.
pub fn background_process_message(pid: u32) -> (r: String)
    ensures
        r@ == "Started background process with PID "@ + nat_digits(pid as nat),
{
    let mut r = String::new();
    push_str(&mut r, "Started background process with PID ");
    let n = u64_text(pid as u64);
    push_str(&mut r, n.as_str());
    assert(r@ =~= "Started background process with PID "@ + nat_digits(pid as nat));
    r
}

} // verus!
