use solite::cli::colors::{
    resolve, resolve_theme_pair, scan_color_flag, scan_theme_flags, theme_not_found_message, theme_search_dirs,
    theme_value_is_path, ColorChoice, Resolution, ThemeMode,
};

fn strings(v: &[&str]) -> Vec<String> {
    v.iter().map(|s| s.to_string()).collect()
}

#[test]
fn scan_theme_flags_equals_and_space_forms() {
    let args = strings(&["solite", "--theme-dark=mocha", "run", "--theme-light", "latte", "x.sql"]);
    assert_eq!(scan_theme_flags(&args), (None, Some("mocha".to_string()), Some("latte".to_string())));
}

#[test]
fn scan_theme_flags_plain_theme() {
    let args = strings(&["solite", "--theme", "terminal"]);
    assert_eq!(scan_theme_flags(&args), (Some("terminal".to_string()), None, None));
}

#[test]
fn scan_theme_flags_all_absent() {
    let args = strings(&["solite", "run", "x.sql"]);
    assert_eq!(scan_theme_flags(&args), (None, None, None));
}

#[test]
fn scan_theme_flags_last_wins_and_missing_value_clears() {
    let args = strings(&["--theme=a", "--theme", "b", "--theme-dark=d", "--theme-dark"]);
    assert_eq!(scan_theme_flags(&args), (Some("b".to_string()), None, None));
}

#[test]
fn scan_color_flag_equals_form() {
    let args = strings(&["solite", "run", "--color=always", "x.sql"]);
    assert_eq!(scan_color_flag(&args), ColorChoice::Always);
}

#[test]
fn scan_color_flag_space_form() {
    let args = strings(&["solite", "--color", "never", "run", "x.sql"]);
    assert_eq!(scan_color_flag(&args), ColorChoice::Never);
}

#[test]
fn scan_color_flag_absent_defaults_auto() {
    let args = strings(&["solite", "run", "x.sql"]);
    assert_eq!(scan_color_flag(&args), ColorChoice::Auto);
}

#[test]
fn scan_color_flag_skips_unparsable_values() {
    let args = strings(&["--color=sometimes", "--color", "ALWAYS", "--color", "never"]);
    assert_eq!(scan_color_flag(&args), ColorChoice::Never);
}

#[test]
fn resolve_precedence() {
    assert_eq!(resolve(ColorChoice::Always, &None, &None, &None, &None), Resolution::Forced(true));
    assert_eq!(resolve(ColorChoice::Never, &None, &None, &None, &None), Resolution::Forced(false));
}

#[test]
fn resolve_environment_order() {
    let s = |v: &str| Some(v.to_string());
    assert_eq!(resolve(ColorChoice::Auto, &s("1"), &s("1"), &None, &None), Resolution::Forced(false));
    assert_eq!(resolve(ColorChoice::Auto, &s(""), &s("1"), &None, &None), Resolution::Forced(true));
    assert_eq!(resolve(ColorChoice::Auto, &None, &s("0"), &s("0"), &None), Resolution::Forced(false));
    assert_eq!(resolve(ColorChoice::Auto, &None, &None, &None, &s("dumb")), Resolution::Forced(false));
    assert_eq!(resolve(ColorChoice::Auto, &None, &None, &s("1"), &s("xterm")), Resolution::Auto);
}

#[test]
fn explicit_always_wins() {
    for (dark, light, detected) in [
        (None, None, None),
        (Some("d"), Some("l"), Some(ThemeMode::Light)),
        (Some("d"), None, Some(ThemeMode::Dark)),
    ] {
        assert_eq!(resolve_theme_pair(Some("x"), dark, light, detected), Some("x".to_string()));
    }
}

#[test]
fn both_unset_is_terminal_regardless_of_detection() {
    for detected in [None, Some(ThemeMode::Dark), Some(ThemeMode::Light)] {
        assert_eq!(resolve_theme_pair(None, None, None, detected), None);
    }
}

#[test]
fn dark_only_detected_dark() {
    assert_eq!(resolve_theme_pair(None, Some("d"), None, Some(ThemeMode::Dark)), Some("d".to_string()));
}

#[test]
fn dark_only_detection_failed_falls_back_to_dark() {
    assert_eq!(resolve_theme_pair(None, Some("d"), None, None), Some("d".to_string()));
}

#[test]
fn dark_only_detected_light_falls_back_to_terminal() {
    assert_eq!(resolve_theme_pair(None, Some("d"), None, Some(ThemeMode::Light)), None);
}

#[test]
fn light_only_detected_light() {
    assert_eq!(resolve_theme_pair(None, None, Some("l"), Some(ThemeMode::Light)), Some("l".to_string()));
}

#[test]
fn light_only_detected_dark_falls_back_to_terminal() {
    assert_eq!(resolve_theme_pair(None, None, Some("l"), Some(ThemeMode::Dark)), None);
}

#[test]
fn light_only_detection_failed_falls_back_to_terminal() {
    assert_eq!(resolve_theme_pair(None, None, Some("l"), None), None);
}

#[test]
fn both_set_detected_dark() {
    assert_eq!(resolve_theme_pair(None, Some("d"), Some("l"), Some(ThemeMode::Dark)), Some("d".to_string()));
}

#[test]
fn both_set_detected_light() {
    assert_eq!(resolve_theme_pair(None, Some("d"), Some("l"), Some(ThemeMode::Light)), Some("l".to_string()));
}

#[test]
fn both_set_detection_failed_falls_back_to_dark() {
    assert_eq!(resolve_theme_pair(None, Some("d"), Some("l"), None), Some("d".to_string()));
}

#[test]
fn theme_dirs_from_environment() {
    let s = |v: &str| Some(v.to_string());
    assert_eq!(
        theme_search_dirs(&s("/x"), &s("/home/u")),
        vec!["/x/solite/themes".to_string(), "/home/u/.config/solite/themes".to_string()]
    );
    assert_eq!(theme_search_dirs(&s("/home/u/.config"), &s("/home/u")), vec!["/home/u/.config/solite/themes".to_string()]);
    assert_eq!(theme_search_dirs(&s(""), &None), Vec::<String>::new());
}

#[test]
fn theme_values_that_are_paths() {
    assert!(theme_value_is_path("mine.toml"));
    assert!(theme_value_is_path("./mocha"));
    assert!(!theme_value_is_path("mocha"));
}

#[test]
fn theme_not_found_lists_what_was_searched() {
    let dirs = vec!["/a/themes".to_string(), "/b/themes/".to_string()];
    let msg = theme_not_found_message("x", &dirs, "mocha, latte");
    assert_eq!(
        msg,
        "no theme named `x`\n  built-in themes: mocha, latte\n  searched: /a/themes/x.toml\n  searched: /b/themes/x.toml\n  (a value containing `/` or ending in `.toml` is loaded as a file path)"
    );
    let none = theme_not_found_message("x", &vec![], "mocha");
    assert!(none.contains("(no config directory: neither $XDG_CONFIG_HOME nor $HOME is set)"));
}
