//! Reading the theme flags from raw command-line arguments before the full
//! parse has run.

use vstd::prelude::*;
use crate::text::{str_eq, strip_prefix, string_of, push_str, ends_with};
use crate::analyzer::rules::{join_path, join_path_of, opt_text};

verus! {

/// The theme flags found so far: `--theme`, `--theme-dark`, `--theme-light`.
pub type ThemeFlags = (Option<Seq<char>>, Option<Seq<char>>, Option<Seq<char>>);

/// The argument after `i`, if there is one.
pub open spec fn next_arg(args: Seq<Seq<char>>, i: int) -> Option<Seq<char>> {
    if i + 1 < args.len() {
        Some(args[i + 1])
    } else {
        None
    }
}

/// The position after a flag and its value.
pub open spec fn after_value(args: Seq<Seq<char>>, i: int) -> int {
    if i + 1 < args.len() {
        i + 2
    } else {
        args.len() as int
    }
}

/// What scanning the arguments from `i` on makes of the flags found before
/// `i`: `--flag=value` sets the flag to `value`; `--flag` sets it to the
/// next argument (nothing when there is none) and skips that argument; the
/// last setting of a flag wins; anything else is passed over.
pub open spec fn scan_from(args: Seq<Seq<char>>, i: int, acc: ThemeFlags) -> ThemeFlags
    decreases args.len() - i,
{
    if i < 0 || i >= args.len() {
        acc
    } else {
        let a = args[i];
        if "--theme-dark="@.is_prefix_of(a) {
            scan_from(args, i + 1, (acc.0, Some(a.skip("--theme-dark="@.len() as int)), acc.2))
        } else if a == "--theme-dark"@ {
            scan_from(args, after_value(args, i), (acc.0, next_arg(args, i), acc.2))
        } else if "--theme-light="@.is_prefix_of(a) {
            scan_from(args, i + 1, (acc.0, acc.1, Some(a.skip("--theme-light="@.len() as int))))
        } else if a == "--theme-light"@ {
            scan_from(args, after_value(args, i), (acc.0, acc.1, next_arg(args, i)))
        } else if "--theme="@.is_prefix_of(a) {
            scan_from(args, i + 1, (Some(a.skip("--theme="@.len() as int)), acc.1, acc.2))
        } else if a == "--theme"@ {
            scan_from(args, after_value(args, i), (next_arg(args, i), acc.1, acc.2))
        } else {
            scan_from(args, i + 1, acc)
        }
    }
}

/// The model of a found flag.
pub open spec fn opt_view(o: Option<String>) -> Option<Seq<char>> {
    match o {
        Some(s) => Some(s@),
        None => None,
    }
}

fn next_of(args: &Vec<String>, i: usize) -> (r: Option<String>)
    requires
        i < args@.len(),
    ensures
        opt_view(r) == next_arg(crate::ast::texts(args@), i as int),
{
    if i < args.len() - 1 {
        Some(args[i + 1].clone())
    } else {
        None
    }
}

/// Scans raw arguments for `--theme`, `--theme-dark` and `--theme-light`
/// (space or `=` form) and returns `(theme, theme_dark, theme_light)`.
pub fn scan_theme_flags(args: &Vec<String>) -> (r: (Option<String>, Option<String>, Option<String>))
    ensures
        (opt_view(r.0), opt_view(r.1), opt_view(r.2)) == scan_from(crate::ast::texts(args@), 0, (None, None, None)),
{
    let ghost a = crate::ast::texts(args@);
    let mut theme: Option<String> = None;
    let mut theme_dark: Option<String> = None;
    let mut theme_light: Option<String> = None;
    let mut i: usize = 0;
    while i < args.len()
        invariant
            a == crate::ast::texts(args@),
            i <= args@.len(),
            scan_from(a, i as int, (opt_view(theme), opt_view(theme_dark), opt_view(theme_light)))
                == scan_from(a, 0, (None, None, None)),
        decreases args.len() - i,
    {
        let arg = args[i].as_str();
        assert(a[i as int] == arg@);
        if let Some(value) = strip_prefix(arg, "--theme-dark=") {
            theme_dark = Some(value);
            i = i + 1;
        } else if str_eq(arg, "--theme-dark") {
            theme_dark = next_of(args, i);
            i = if i < args.len() - 1 { i + 2 } else { args.len() };
        } else if let Some(value) = strip_prefix(arg, "--theme-light=") {
            theme_light = Some(value);
            i = i + 1;
        } else if str_eq(arg, "--theme-light") {
            theme_light = next_of(args, i);
            i = if i < args.len() - 1 { i + 2 } else { args.len() };
        } else if let Some(value) = strip_prefix(arg, "--theme=") {
            theme = Some(value);
            i = i + 1;
        } else if str_eq(arg, "--theme") {
            theme = next_of(args, i);
            i = if i < args.len() - 1 { i + 2 } else { args.len() };
        } else {
            i = i + 1;
        }
    }
    (theme, theme_dark, theme_light)
}

/// When to color output.
#[derive(Debug, Clone, Copy, PartialEq, Eq, Structural)]
pub enum ColorChoice {
    /// Color when the output is a terminal.
    Auto,
    /// Always color.
    Always,
    /// Never color.
    Never,
}

/// What `str::parse::<clap::ColorChoice>` accepts: exactly `auto`,
/// `always` or `never`.
pub open spec fn color_choice_of(s: Seq<char>) -> Option<ColorChoice> {
    if s == "auto"@ {
        Some(ColorChoice::Auto)
    } else if s == "always"@ {
        Some(ColorChoice::Always)
    } else if s == "never"@ {
        Some(ColorChoice::Never)
    } else {
        None
    }
}

/// Parses a color choice with `str::parse::<clap::ColorChoice>`.
/// Trusted: clap's `FromStr` for `ColorChoice` accepts exactly the names
/// `auto`, `always` and `never` (case-sensitive, no aliases).
#[verifier::external_body]
fn parse_color_choice(s: &str) -> (r: Option<ColorChoice>)
    ensures
        r == color_choice_of(s@),
{
    match s.parse::<clap::ColorChoice>() {
        Ok(clap::ColorChoice::Auto) => Some(ColorChoice::Auto),
        Ok(clap::ColorChoice::Always) => Some(ColorChoice::Always),
        Ok(clap::ColorChoice::Never) => Some(ColorChoice::Never),
        Err(_) => None,
    }
}

/// What scanning the arguments from `i` on finds for `--color`: the first
/// value that parses, given as `--color=value` or as the argument after
/// `--color` (which is then skipped); `auto` when none does.
pub open spec fn color_scan_from(args: Seq<Seq<char>>, i: int) -> ColorChoice
    decreases args.len() - i,
{
    if i < 0 || i >= args.len() {
        ColorChoice::Auto
    } else {
        let a = args[i];
        if "--color="@.is_prefix_of(a) {
            match color_choice_of(a.skip("--color="@.len() as int)) {
                Some(c) => c,
                None => color_scan_from(args, i + 1),
            }
        } else if a == "--color"@ {
            match next_arg(args, i) {
                Some(v) => match color_choice_of(v) {
                    Some(c) => c,
                    None => color_scan_from(args, after_value(args, i)),
                },
                None => ColorChoice::Auto,
            }
        } else {
            color_scan_from(args, i + 1)
        }
    }
}

/// Scans raw arguments for `--color <value>` / `--color=<value>`.
pub fn scan_color_flag(args: &Vec<String>) -> (r: ColorChoice)
    ensures
        r == color_scan_from(crate::ast::texts(args@), 0),
{
    let ghost a = crate::ast::texts(args@);
    let mut i: usize = 0;
    while i < args.len()
        invariant
            a == crate::ast::texts(args@),
            i <= args@.len(),
            color_scan_from(a, i as int) == color_scan_from(a, 0),
        decreases args.len() - i,
    {
        let arg = args[i].as_str();
        assert(a[i as int] == arg@);
        if let Some(value) = strip_prefix(arg, "--color=") {
            if let Some(c) = parse_color_choice(value.as_str()) {
                return c;
            }
            i = i + 1;
        } else if str_eq(arg, "--color") {
            if i < args.len() - 1 {
                assert(a[i + 1] == args@[i + 1]@);
                if let Some(c) = parse_color_choice(args[i + 1].as_str()) {
                    return c;
                }
                i = i + 2;
            } else {
                return ColorChoice::Auto;
            }
        } else {
            i = i + 1;
        }
    }
    ColorChoice::Auto
}

/// The environment-wide half of the color decision: forced on or off, or
/// left to each stream's terminal check.
#[derive(Debug, Clone, Copy, PartialEq, Eq, Structural)]
pub enum Resolution {
    Forced(bool),
    Auto,
}

/// The color precedence: `--color always/never`, then a non-empty
/// `NO_COLOR` (off), then `CLICOLOR_FORCE` set and not `0` (on), then
/// `CLICOLOR=0` (off), then `TERM=dumb` (off); else each stream decides.
pub open spec fn resolution_of(
    choice: ColorChoice,
    no_color: Option<Seq<char>>,
    clicolor_force: Option<Seq<char>>,
    clicolor: Option<Seq<char>>,
    term: Option<Seq<char>>,
) -> Resolution {
    match choice {
        ColorChoice::Always => Resolution::Forced(true),
        ColorChoice::Never => Resolution::Forced(false),
        ColorChoice::Auto => if no_color matches Some(v) && v.len() > 0 {
            Resolution::Forced(false)
        } else if clicolor_force matches Some(v) && v != "0"@ {
            Resolution::Forced(true)
        } else if clicolor == Some("0"@) {
            Resolution::Forced(false)
        } else if term == Some("dumb"@) {
            Resolution::Forced(false)
        } else {
            Resolution::Auto
        },
    }
}

/// Resolves the color decision from the choice and the values of
/// `NO_COLOR`, `CLICOLOR_FORCE`, `CLICOLOR` and `TERM`.
pub fn resolve(
    choice: ColorChoice,
    no_color: &Option<String>,
    clicolor_force: &Option<String>,
    clicolor: &Option<String>,
    term: &Option<String>,
) -> (r: Resolution)
    ensures
        r == resolution_of(choice, opt_text(*no_color), opt_text(*clicolor_force), opt_text(*clicolor), opt_text(*term)),
{
    match choice {
        ColorChoice::Always => return Resolution::Forced(true),
        ColorChoice::Never => return Resolution::Forced(false),
        ColorChoice::Auto => {},
    }
    if let Some(v) = no_color {
        if !v.as_str().is_empty() {
            return Resolution::Forced(false);
        }
    }
    if let Some(v) = clicolor_force {
        if !str_eq(v.as_str(), "0") {
            return Resolution::Forced(true);
        }
    }
    if let Some(v) = clicolor {
        if str_eq(v.as_str(), "0") {
            return Resolution::Forced(false);
        }
    }
    if let Some(v) = term {
        if str_eq(v.as_str(), "dumb") {
            return Resolution::Forced(false);
        }
    }
    Resolution::Auto
}

/// The background of a terminal.
#[derive(Debug, Clone, Copy, PartialEq, Eq, Structural)]
pub enum ThemeMode {
    Dark,
    Light,
}

/// The theme to load (`None`: the terminal's own colors): an explicit
/// theme wins; with neither half of the dark/light pair set, none;
/// otherwise a light background picks the light theme and a dark one, or
/// a failed detection, the dark theme (each `None` when not set).
pub open spec fn theme_pair_of(
    explicit: Option<Seq<char>>,
    dark: Option<Seq<char>>,
    light: Option<Seq<char>>,
    detected: Option<ThemeMode>,
) -> Option<Seq<char>> {
    if explicit is Some {
        explicit
    } else if dark is None && light is None {
        None
    } else if detected == Some(ThemeMode::Light) {
        light
    } else {
        dark
    }
}

fn opt_str_of(o: Option<&str>) -> (r: Option<String>)
    ensures
        opt_text(r) == match o {
            Some(s) => Some(s@),
            None => None::<Seq<char>>,
        },
{
    match o {
        Some(s) => Some(string_of(s)),
        None => None,
    }
}

/// Resolves a `--theme`/`--theme-dark`/`--theme-light` set against the
/// detected background (`None`: not detected) into the theme to load.
pub fn resolve_theme_pair(
    explicit: Option<&str>,
    dark: Option<&str>,
    light: Option<&str>,
    detected: Option<ThemeMode>,
) -> (r: Option<String>)
    ensures
        opt_text(r) == theme_pair_of(
            match explicit { Some(s) => Some(s@), None => None },
            match dark { Some(s) => Some(s@), None => None },
            match light { Some(s) => Some(s@), None => None },
            detected,
        ),
{
    if let Some(name) = explicit {
        return Some(string_of(name));
    }
    if dark.is_none() && light.is_none() {
        return None;
    }
    match detected {
        Some(ThemeMode::Light) => opt_str_of(light),
        _ => opt_str_of(dark),
    }
}

/// The directories searched for user themes, most specific first:
/// `$XDG_CONFIG_HOME/solite/themes`, then `$HOME/.config/solite/themes`
/// unless it is the same directory; unset or empty variables are skipped.
pub open spec fn theme_dirs_of(xdg: Option<Seq<char>>, home: Option<Seq<char>>) -> Seq<Seq<char>> {
    let first: Seq<Seq<char>> = match xdg {
        Some(x) => if x.len() > 0 {
            seq![join_path(join_path(x, "solite"@), "themes"@)]
        } else {
            Seq::empty()
        },
        None => Seq::empty(),
    };
    match home {
        Some(h) => if h.len() > 0 && !first.contains(
            join_path(join_path(join_path(h, ".config"@), "solite"@), "themes"@),
        ) {
            first.push(join_path(join_path(join_path(h, ".config"@), "solite"@), "themes"@))
        } else {
            first
        },
        None => first,
    }
}

proof fn lemma_push_contains(s: Seq<Seq<char>>, x: Seq<char>, y: Seq<char>)
    ensures
        s.push(x).contains(y) == (s.contains(y) || x == y),
{
    if s.push(x).contains(y) {
        let j = choose|j: int| 0 <= j < s.push(x).len() && s.push(x)[j] == y;
        if j < s.len() {
            assert(s[j] == y);
        }
    }
    if s.contains(y) {
        let j = choose|j: int| 0 <= j < s.len() && s[j] == y;
        assert(s.push(x)[j] == y);
    }
    if x == y {
        assert(s.push(x)[s.len() as int] == y);
    }
}

fn themes_dir(base: &str, prefix: Option<&str>) -> (r: String)
    ensures
        r@ == match prefix {
            Some(p) => join_path(join_path(join_path(base@, p@), "solite"@), "themes"@),
            None => join_path(join_path(base@, "solite"@), "themes"@),
        },
{
    let a = match prefix {
        Some(p) => join_path_of(base, p),
        None => string_of(base),
    };
    let b = join_path_of(a.as_str(), "solite");
    join_path_of(b.as_str(), "themes")
}

/// The directories searched for user themes, given `$XDG_CONFIG_HOME` and
/// `$HOME`.
pub fn theme_search_dirs(xdg: &Option<String>, home: &Option<String>) -> (r: Vec<String>)
    ensures
        crate::ast::texts(r@) == theme_dirs_of(opt_text(*xdg), opt_text(*home)),
{
    let mut dirs: Vec<String> = Vec::new();
    if let Some(x) = xdg {
        if !x.as_str().is_empty() {
            dirs.push(themes_dir(x.as_str(), None));
        }
    }
    assert(crate::ast::texts(dirs@) =~= match opt_text(*xdg) {
        Some(x) => if x.len() > 0 {
            seq![join_path(join_path(x, "solite"@), "themes"@)]
        } else {
            Seq::<Seq<char>>::empty()
        },
        None => Seq::<Seq<char>>::empty(),
    });
    if let Some(h) = home {
        if !h.as_str().is_empty() {
            let dir = themes_dir(h.as_str(), Some(".config"));
            let mut present = false;
            let mut k: usize = 0;
            while k < dirs.len()
                invariant
                    k <= dirs@.len(),
                    dirs@.len() <= 1,
                    present == crate::ast::texts(dirs@).take(k as int).contains(dir@),
                decreases dirs.len() - k,
            {
                assert(crate::ast::texts(dirs@).take(k + 1) =~= crate::ast::texts(dirs@).take(k as int).push(
                    dirs@[k as int]@,
                ));
                proof {
                    lemma_push_contains(crate::ast::texts(dirs@).take(k as int), dirs@[k as int]@, dir@);
                }
                if str_eq(dirs[k].as_str(), dir.as_str()) {
                    present = true;
                }
                k = k + 1;
            }
            assert(crate::ast::texts(dirs@).take(dirs@.len() as int) =~= crate::ast::texts(dirs@));
            if !present {
                let ghost before = crate::ast::texts(dirs@);
                dirs.push(dir);
                assert(crate::ast::texts(dirs@) =~= before.push(join_path(
                    join_path(join_path(h@, ".config"@), "solite"@),
                    "themes"@,
                )));
            }
        }
    }
    dirs
}

/// Whether a `--theme` value names a file rather than a theme: it ends in
/// `.toml` or contains a `/`.
pub open spec fn is_theme_path(name: Seq<char>) -> bool {
    ||| (".toml"@.len() <= name.len() && name.subrange(name.len() - ".toml"@.len(), name.len() as int) == ".toml"@)
    ||| name.contains('/')
}

/// Whether a `--theme` value is loaded as a file path.
pub fn theme_value_is_path(name: &str) -> (r: bool)
    ensures
        r == is_theme_path(name@),
{
    if ends_with(name, ".toml") {
        return true;
    }
    let v = crate::text::chars_of(name);
    let mut i: usize = 0;
    while i < v.len()
        invariant
            i <= v@.len(),
            v@ == name@,
            forall|j: int| 0 <= j < i ==> v@[j] != '/',
        decreases v.len() - i,
    {
        if v[i] == '/' {
            return true;
        }
        i = i + 1;
    }
    false
}

/// The lines listing where a theme was looked for.
pub open spec fn searched_lines(name: Seq<char>, dirs: Seq<Seq<char>>) -> Seq<char>
    decreases dirs.len(),
{
    if dirs.len() == 0 {
        Seq::empty()
    } else {
        let before = searched_lines(name, dirs.drop_last());
        (if dirs.len() > 1 { before.push('\n') } else { before }) + "  searched: "@ + join_path(
            dirs.last(),
            name + ".toml"@,
        )
    }
}

/// The message for a theme that is neither built in nor found in the
/// search directories.
pub open spec fn theme_not_found_text(name: Seq<char>, dirs: Seq<Seq<char>>, builtin: Seq<char>) -> Seq<char> {
    let searched = if dirs.len() == 0 {
        "  (no config directory: neither $XDG_CONFIG_HOME nor $HOME is set)"@
    } else {
        searched_lines(name, dirs)
    };
    "no theme named `"@ + name + "`\n  built-in themes: "@ + builtin + seq!['\n'] + searched
        + "\n  (a value containing `/` or ending in `.toml` is loaded as a file path)"@
}

/// The message for a theme not found, given the search directories and
/// the built-in theme names joined by `, `.
pub fn theme_not_found_message(name: &str, dirs: &Vec<String>, builtin: &str) -> (r: String)
    ensures
        r@ == theme_not_found_text(name@, crate::ast::texts(dirs@), builtin@),
{
    let ghost d = crate::ast::texts(dirs@);
    let mut searched = String::new();
    if dirs.len() == 0 {
        searched = string_of("  (no config directory: neither $XDG_CONFIG_HOME nor $HOME is set)");
    } else {
        let file = crate::text::concat2(name, ".toml");
        let mut i: usize = 0;
        while i < dirs.len()
            invariant
                i <= dirs@.len(),
                d == crate::ast::texts(dirs@),
                file@ == name@ + ".toml"@,
                searched@ == searched_lines(name@, d.take(i as int)),
            decreases dirs.len() - i,
        {
            assert(d.take(i + 1).drop_last() =~= d.take(i as int));
            if i > 0 {
                crate::text::push_char(&mut searched, '\n');
            }
            push_str(&mut searched, "  searched: ");
            let p = join_path_of(dirs[i].as_str(), file.as_str());
            push_str(&mut searched, p.as_str());
            i = i + 1;
            assert(searched@ =~= searched_lines(name@, d.take(i as int)));
        }
        assert(d.take(dirs.len() as int) =~= d);
    }
    let mut m = string_of("no theme named `");
    push_str(&mut m, name);
    push_str(&mut m, "`\n  built-in themes: ");
    push_str(&mut m, builtin);
    crate::text::push_char(&mut m, '\n');
    push_str(&mut m, searched.as_str());
    push_str(&mut m, "\n  (a value containing `/` or ending in `.toml` is loaded as a file path)");
    m
}

} // verus!
