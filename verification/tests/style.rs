use overstay::style::{color_enabled, Style};

#[test]
fn enabled_style_wraps_text_in_ansi_codes() {
    let style = Style { enabled: true };

    assert_eq!(style.heading("Heading"), "\x1b[1;4mHeading\x1b[0m");
    assert_eq!(style.path("/work/app"), "\x1b[4;36m/work/app\x1b[0m");
    assert_eq!(style.error("75 GiB"), "\x1b[1;31m75 GiB\x1b[0m");
}

#[test]
fn disabled_style_leaves_text_unchanged() {
    let style = Style { enabled: false };

    assert_eq!(style.heading("Heading"), "Heading");
    assert_eq!(style.muted("2d ago"), "2d ago");
}

#[test]
fn terminal_policy_enables_color_for_interactive_terminals() {
    assert!(color_enabled(true, false, Some("xterm-256color")));
}

#[test]
fn terminal_policy_disables_color_for_redirected_output() {
    assert!(!color_enabled(false, false, Some("xterm-256color")));
}

#[test]
fn terminal_policy_honors_no_color() {
    assert!(!color_enabled(true, true, Some("xterm-256color")));
}

#[test]
fn terminal_policy_disables_color_for_dumb_terminals() {
    assert!(!color_enabled(true, false, Some("dumb")));
    assert!(!color_enabled(true, false, Some("DUMB")));
}

#[test]
fn a_terminal_without_a_type_gets_color() {
    assert!(color_enabled(true, false, None));
    assert!(color_enabled(true, false, Some("")));
    assert!(color_enabled(true, false, Some("dumber")));
    assert!(color_enabled(true, false, Some("d\u{fc}mb")));
}

#[test]
fn the_style_of_a_stream_follows_the_policy() {
    assert!(Style::for_terminal(true, false, Some("xterm")).enabled);
    assert!(!Style::for_terminal(true, false, Some("Dumb")).enabled);
    assert!(!Style::for_terminal(true, true, None).enabled);
    assert!(!Style::for_terminal(false, false, None).enabled);
}

#[test]
fn every_role_has_its_code() {
    let style = Style { enabled: true };
    assert_eq!(style.command("x"), "\x1b[1;36mx\x1b[0m");
    assert_eq!(style.accent("x"), "\x1b[36mx\x1b[0m");
    assert_eq!(style.success("x"), "\x1b[1;32mx\x1b[0m");
    assert_eq!(style.warning("x"), "\x1b[1;33mx\x1b[0m");
    assert_eq!(style.strong("x"), "\x1b[1mx\x1b[0m");
    assert_eq!(style.muted("x"), "\x1b[2mx\x1b[0m");
    assert_eq!(style.paint("7", ""), "\x1b[7m\x1b[0m");
}
