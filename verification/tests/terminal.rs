use prismfetch::terminal::{cyan, parse_usize, winsize_columns, Terminal};

#[test]
fn redirected_output_disables_color() {
    let t = Terminal::from_environment(true, None, None, Some("xterm-256color"), true, None, None, None);
    assert!(!t.color);
}

fn env(
    tty: bool,
    columns: Option<&str>,
    reported: Option<usize>,
    term: Option<&str>,
    no_color: bool,
    lc_all: Option<&str>,
    lang: Option<&str>,
) -> Terminal {
    Terminal::from_environment(tty, columns, reported, term, no_color, lc_all, None, lang)
}

#[test]
fn color_needs_tty_no_no_color_and_a_capable_term() {
    assert!(env(true, None, None, Some("xterm"), false, None, None).color);
    assert!(!env(false, None, None, Some("xterm"), false, None, None).color);
    assert!(!env(true, None, None, Some("dumb"), false, None, None).color);
    assert!(env(true, None, None, None, false, None, None).color);
}

#[test]
fn width_comes_from_columns_then_terminal_then_default() {
    assert_eq!(env(true, Some("120"), Some(90), None, false, None, None).width, 120);
    assert_eq!(env(true, Some("+120"), Some(90), None, false, None, None).width, 120);
    assert_eq!(env(true, Some("10"), Some(90), None, false, None, None).width, 90);
    assert_eq!(env(true, Some("wide"), Some(90), None, false, None, None).width, 90);
    assert_eq!(env(true, None, None, None, false, None, None).width, 100);
    assert_eq!(env(true, Some("500"), None, None, false, None, None).width, 160);
    assert_eq!(env(true, None, Some(5), None, false, None, None).width, 20);
}

#[test]
fn unicode_needs_utf8_locale_and_no_linux_console() {
    assert!(env(true, None, None, Some("xterm"), false, None, Some("en_US.UTF-8")).unicode);
    assert!(env(true, None, None, Some("xterm"), false, None, Some("de_DE.utf8")).unicode);
    assert!(!env(true, None, None, Some("xterm"), false, None, Some("C")).unicode);
    assert!(!env(true, None, None, Some("linux"), false, None, Some("en_US.UTF-8")).unicode);
    assert!(!env(true, None, None, Some("xterm"), false, Some("POSIX"), Some("en_US.UTF-8")).unicode);
    assert!(!env(true, None, None, Some("xterm"), false, None, None).unicode);
    let t = Terminal::from_environment(true, None, None, Some("xterm"), false, None, Some("C.UTF-8"), Some("C"));
    assert!(t.unicode);
}

#[test]
fn parse_matches_std() {
    for s in ["0", "80", "+80", "", "+", "-5", " 80", "80 ", "1_0", "18446744073709551615", "18446744073709551616", "007", "++1", "٣"] {
        assert_eq!(parse_usize(s), s.parse::<usize>().ok(), "input {:?}", s);
    }
}

#[test]
fn window_size_columns() {
    assert_eq!(winsize_columns(0, 80), Some(80));
    assert_eq!(winsize_columns(-1, 80), None);
    assert_eq!(winsize_columns(0, 0), None);
}

#[test]
fn paint_without_color_is_identity() {
    let t = Terminal { color: false, unicode: true, width: 100 };
    assert_eq!(t.paint("OS:", cyan(), true), "OS:");
}

#[test]
fn paint_with_color_wraps_in_sequences() {
    let t = Terminal { color: true, unicode: true, width: 100 };
    assert_eq!(t.paint("OS:", cyan(), true), "\x1b[1m\x1b[38;2;41;213;255mOS:\x1b[0m");
    assert_eq!(t.paint("x", cyan(), false), "\x1b[38;2;41;213;255mx\x1b[0m");
}
