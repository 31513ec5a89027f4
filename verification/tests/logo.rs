use prismfetch::ascii::{logo_width, LOGO};
use prismfetch::render::gradient_logo;
use prismfetch::terminal::Terminal;

#[test]
fn logo_has_consistent_max_width() {
    assert!(logo_width() <= 45);
    assert_eq!(LOGO.len(), 7);
}

#[test]
fn logo_width_is_widest_line() {
    assert_eq!(logo_width(), 45);
    let widest = LOGO.iter().map(|l| l.chars().count()).max().unwrap();
    assert_eq!(logo_width(), widest);
}

fn plain(width: usize, unicode: bool) -> Terminal {
    Terminal { color: false, unicode, width }
}

#[test]
fn gradient_without_color_is_the_line() {
    let t = plain(100, true);
    for line in LOGO {
        assert_eq!(gradient_logo(&t, line), line);
    }
}

#[test]
fn gradient_colors_spread_over_logo_width() {
    let t = Terminal { color: true, unicode: true, width: 100 };
    let line = "ab";
    let out = gradient_logo(&t, line);
    let cyan = "\x1b[1m\x1b[38;2;41;213;255m";
    assert_eq!(out, format!("{cyan}a\x1b[0m{cyan}b\x1b[0m"));
    // Columns 6 and 7 form one slice (6 * 7 / 45 = 0): still cyan.
    let out = gradient_logo(&t, &"x".repeat(8));
    assert!(out.ends_with(&format!("{cyan}x\x1b[0m{cyan}x\x1b[0m")));
    // Column 8 starts the first slice of the second band (8 * 7 / 45 = 1): blue.
    let out = gradient_logo(&t, &"x".repeat(9));
    assert!(out.ends_with("\x1b[1m\x1b[38;2;66;133;255mx\x1b[0m"));
    // Column 44 is pink, and past the logo's width pink holds.
    let out = gradient_logo(&t, &"y".repeat(45));
    assert!(out.ends_with("\x1b[1m\x1b[38;2;236;72;153my\x1b[0m"));
    let out = gradient_logo(&t, &"y".repeat(60));
    assert!(out.ends_with("\x1b[1m\x1b[38;2;236;72;153my\x1b[0m"));
}

#[test]
fn gradient_colors_two_column_slices() {
    let t = Terminal { color: true, unicode: true, width: 100 };
    for line in LOGO {
        let out = gradient_logo(&t, line);
        // Each character is painted on its own, so the pieces are in order.
        let pieces: Vec<&str> = out.split("\x1b[0m").filter(|p| !p.is_empty()).collect();
        assert_eq!(pieces.len(), line.chars().count());
        let colors: Vec<&str> = pieces.iter().map(|p| &p[..p.rfind('m').unwrap()]).collect();
        for k in 0..colors.len() / 2 {
            assert_eq!(colors[2 * k], colors[2 * k + 1]);
        }
    }
}
