use prismfetch::text::{decimal_string, pad_left, pad_right, repeat_char, shorten, trim, trim_end};

#[test]
fn decimal_matches_display() {
    for n in [0u64, 7, 10, 99, 100, 12345, u64::MAX] {
        assert_eq!(decimal_string(n), n.to_string());
    }
}

#[test]
fn shorten_keeps_fitting_values() {
    assert_eq!(shorten("hello", 10), "hello");
    assert_eq!(shorten("hello", 5), "hello");
}

#[test]
fn shorten_cuts_with_ellipsis() {
    assert_eq!(shorten("hello world", 5), "hell…");
    assert_eq!(shorten("héllo wörld", 6), "héllo…");
    assert_eq!(shorten("hello", 2), "h…");
}

#[test]
fn shorten_to_nothing_when_too_narrow() {
    assert_eq!(shorten("hello", 1), "");
    assert_eq!(shorten("hello", 0), "");
}

#[test]
fn padding_aligns_like_format() {
    assert_eq!(pad_right("ab", 5), format!("{:<5}", "ab"));
    assert_eq!(pad_left("7%", 5), format!("{:>5}", "7%"));
    assert_eq!(pad_right("longer than five", 5), "longer than five");
    assert_eq!(pad_left("123456", 5), "123456");
    assert_eq!(pad_right("°C", 4), "°C  ");
}

#[test]
fn repeat_and_trim() {
    assert_eq!(repeat_char('─', 3), "───");
    assert_eq!(trim(" \t x y \n"), "x y");
    assert_eq!(trim("\u{3000}z\u{a0}"), "z");
    assert_eq!(trim_end("  ab  "), "  ab");
    assert_eq!(trim_end("     "), "");
}

#[test]
fn whitespace_is_std_whitespace() {
    let mut all = String::new();
    for c in (0u32..0x3100).filter_map(char::from_u32) {
        all.push('x');
        all.push(c);
        all.push('x');
        let s = format!("{c}x{c}");
        assert_eq!(trim(&s), s.trim(), "char {:?}", c);
    }
    assert_eq!(trim(&all), all.trim());
}
