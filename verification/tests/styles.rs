use cosmic_applet_window_list::styles::{strip_exec_args, truncate_text};

#[test]
fn strip_removes_field_codes() {
    assert_eq!(strip_exec_args("firefox %u"), "firefox ");
    assert_eq!(strip_exec_args("app %U --x %f %F"), "app  --x  ");
    assert_eq!(strip_exec_args("plain"), "plain");
    assert_eq!(strip_exec_args(""), "");
    assert_eq!(strip_exec_args("keep %i %c"), "keep %i %c");
}

#[test]
fn strip_removes_codes_in_sequence() {
    // removing "%u" first joins "%" and "u" into a new "%u", which stays
    assert_eq!(strip_exec_args("%%uu"), "%u");
    // "%U" removed in the second pass leaves "%u" behind
    assert_eq!(strip_exec_args("%%Uu"), "%u");
    assert_eq!(strip_exec_args("%uu%U"), "u");
}

#[test]
fn stripped_command_without_double_percent_has_no_codes() {
    let out = strip_exec_args("a%uU%Uf%fF%Fz %% x");
    for code in ["%u", "%U", "%f", "%F"] {
        assert!(!out.contains(code), "{out}");
    }
    let out = strip_exec_args("sh -c 'run %u%U%f%F'");
    assert_eq!(out, "sh -c 'run '");
}

#[test]
fn truncate_keeps_short_text() {
    assert_eq!(truncate_text("hello", 5), "hello");
    assert_eq!(truncate_text("hello", 10), "hello");
    assert_eq!(truncate_text("", 0), "");
}

#[test]
fn truncate_cuts_long_text() {
    assert_eq!(truncate_text("hello world", 5), "he...");
    assert_eq!(truncate_text("hello world", 3), "...");
    assert_eq!(truncate_text("abcd", 1), "a");
    assert_eq!(truncate_text("abc", 0), "");
    // characters, not bytes
    assert_eq!(truncate_text("ééééé", 4), "é...");
    assert_eq!(truncate_text("ééééé", 2), "éé");
}

#[test]
fn truncated_shape() {
    let text = "a fairly long window title";
    for limit in 0..30 {
        let out = truncate_text(text, limit);
        assert!(out.chars().count() <= limit);
        if text.chars().count() <= limit {
            assert_eq!(out, text);
        } else if limit >= 3 {
            let kept: String = text.chars().take(limit - 3).collect();
            assert_eq!(out, format!("{kept}..."));
        }
    }
}
