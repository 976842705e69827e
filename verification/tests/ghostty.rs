use miami::ghostty::{focus, new_tab, quote, quote_with_cr, script_outcome, tidy_error, trim};

#[test]
fn quote_escapes_applescript_specials() {
    assert_eq!(quote("plain").unwrap(), "\"plain\"");
    assert_eq!(quote(r#"a"b"#).unwrap(), r#""a\"b""#);
    assert_eq!(quote(r"a\b").unwrap(), r#""a\\b""#);
    // A path with a space needs no escaping, only the surrounding quotes.
    assert_eq!(quote("/Users/x/my dir").unwrap(), "\"/Users/x/my dir\"");
}

#[test]
fn quote_rejects_newlines() {
    assert!(quote("a\nb").is_err());
    assert!(quote("a\rb").is_err());
}

#[test]
fn tidy_error_keeps_only_the_message() {
    assert_eq!(
        tidy_error(
            "34:36: execution error: Ghostty got an error: Can't get terminal id \"DEAD\". (-1728)\n"
        ),
        "Can't get terminal id \"DEAD\""
    );
    // the -1708 seen when `new tab` is called without `in`
    assert_eq!(
        tidy_error(
            "225:255: execution error: Ghostty got an error: Can't continue new tab. (-1708)\n"
        ),
        "Can't continue new tab"
    );
    // Ghostty not running at all
    assert_eq!(
        tidy_error("execution error: Application isn't running. (-600)\n"),
        "Application isn't running"
    );
    // unrecognised shape passes through rather than being blanked
    assert_eq!(tidy_error("unexpected stderr\n"), "unexpected stderr");
    // nothing usable at all still says something
    assert_eq!(tidy_error(""), "osascript failed");
    assert_eq!(tidy_error("error: (-42)\n"), "osascript failed");
}

#[test]
fn quote_with_cr_appends_the_return_constant() {
    assert_eq!(quote_with_cr("pi\r").unwrap(), "\"pi\" & return");
    assert_eq!(quote_with_cr("pi").unwrap(), "\"pi\"");
    assert!(quote_with_cr("a\rb\r").is_err());
}

#[test]
fn quote_leaves_real_ids_and_paths_alone() {
    let id = "2B846B1E-24D2-42D9-8F8F-21A63CA0543D";
    assert_eq!(quote(id).unwrap(), format!("\"{id}\""));
    let cwd = "/Users/g/dev/lego/brickbank/.worktrees/buck-coin-2695";
    assert_eq!(quote(cwd).unwrap(), format!("\"{cwd}\""));
}

#[test]
fn quote_error_names_the_problem() {
    assert_eq!(quote("a\nb").unwrap_err(), "newline in AppleScript string");
    assert_eq!(quote_with_cr("a\nb\r").unwrap_err(), "newline in AppleScript string");
}

#[test]
fn quote_handles_empty_and_unicode() {
    assert_eq!(quote("").unwrap(), "\"\"");
    assert_eq!(quote("ünï \"x\"").unwrap(), "\"ünï \\\"x\\\"\"");
    assert_eq!(quote_with_cr("\r").unwrap(), "\"\" & return");
}

#[test]
fn tidy_error_uses_the_last_error_marker_and_trims() {
    assert_eq!(tidy_error("error: first error: second. (-1)"), "second");
    assert_eq!(tidy_error("  padded message  \n"), "padded message");
    assert_eq!(tidy_error("code 42"), "code");
}

#[test]
fn focus_script_targets_the_surface() {
    assert_eq!(
        focus("2B846B1E").unwrap(),
        "tell application \"Ghostty\" to focus terminal id \"2B846B1E\""
    );
    assert_eq!(focus("bad\nid").unwrap_err(), "newline in AppleScript string");
}

#[test]
fn new_tab_script_types_the_command_with_a_return() {
    let script = new_tab("/Users/x/my dir", "pi").unwrap();
    assert_eq!(
        script,
        "tell application \"Ghostty\"\n  set cfg to new surface configuration\n  set initial working directory of cfg to \"/Users/x/my dir\"\n  set initial input of cfg to \"pi\" & return\n  set t to new tab in front window with configuration cfg\n  return id of t\nend tell"
    );
    assert!(new_tab("/x\n", "pi").is_err());
    assert!(new_tab("/x", "pi\nrm").is_err());
}

#[test]
fn script_outcome_trims_stdout_and_tidies_stderr() {
    assert_eq!(script_outcome(true, "  tab-id-1\n", "ignored"), Ok("tab-id-1".to_string()));
    assert_eq!(
        script_outcome(false, "", "execution error: Application isn't running. (-600)\n"),
        Err("Application isn't running".to_string())
    );
    assert_eq!(trim("\t x y \n"), "x y");
}
