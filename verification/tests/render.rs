use prismfetch::ascii::LOGO;
use prismfetch::render::{
    info_rows, meter_bar_width, meter_line, render_meters, report_lines, InfoFields, Reading, Row,
};
use prismfetch::terminal::{blue, cyan, Terminal};

fn fields(packages: Option<usize>) -> InfoFields {
    InfoFields {
        os: "PrismOS 1.0 Aurora".to_string(),
        kernel: "6.8.0".to_string(),
        shell: "Prism Shell".to_string(),
        compositor: "Wayland".to_string(),
        window_manager: "GNOME".to_string(),
        terminal: "Prism Terminal".to_string(),
        cpu: "AMD Ryzen 7 7840U w/ Radeon 780M Graphics".to_string(),
        gpu: "Advanced Micro Devices, Inc. [AMD/ATI] Phoenix1 (rev c4)".to_string(),
        ram_used: "3.2".to_string(),
        ram_total: "15.5".to_string(),
        packages,
        theme: "Aurora Glass".to_string(),
        icons: "Prism Icons".to_string(),
        font: "Inter".to_string(),
        uptime: "1h 2m".to_string(),
    }
}

fn plain(width: usize, unicode: bool) -> Terminal {
    Terminal { color: false, unicode, width }
}

fn labels(rows: &[Row]) -> Vec<String> {
    rows.iter().map(|r| r.label.clone()).collect()
}

#[test]
fn info_rows_in_order_with_values() {
    let rows = info_rows(&fields(Some(1234)));
    assert_eq!(
        labels(&rows),
        vec![
            "OS", "Kernel", "Shell", "Compositor", "Window Manager", "Terminal", "CPU", "GPU",
            "RAM", "Packages", "Theme", "Icons", "Font", "Uptime"
        ]
    );
    assert_eq!(rows[1].value, "Linux 6.8.0");
    assert_eq!(rows[8].value, "3.2 GB / 15.5 GB");
    assert_eq!(rows[9].value, "1234");
    assert_eq!(rows[0].color, cyan());
    assert_eq!(rows[13].color, blue());
}

#[test]
fn unknown_package_count_shows_na() {
    let rows = info_rows(&fields(None));
    assert_eq!(rows[9].value, "N/A");
}

#[test]
fn wide_terminal_uses_side_by_side_layout() {
    let t = plain(100, false);
    let lines = report_lines(&t, &info_rows(&fields(Some(7))));
    assert_eq!(lines.len(), 16);
    assert_eq!(lines[0], "-".repeat(100));
    assert_eq!(lines[15], "-".repeat(100));
    // Rows 0..3 sit above the logo, which is centred on the 14 rows.
    assert_eq!(lines[1], format!(" {}  |  OS: PrismOS 1.0 Aurora", " ".repeat(45)));
    assert_eq!(lines[4], format!(" {}{}  |  Compositor: Wayland", LOGO[0], " ".repeat(5)));
    assert!(lines[8].starts_with(&format!(" {}", LOGO[4])));
}

#[test]
fn side_by_side_values_are_shortened_to_fit() {
    let t = plain(100, true);
    let lines = report_lines(&t, &info_rows(&fields(Some(7))));
    // GPU row: 45 + 8 + 3 columns are fixed, 44 are left for the value.
    let gpu = &lines[8];
    assert_eq!(gpu.chars().count(), 100);
    assert!(gpu.ends_with("GPU: Advanced Micro Devices, Inc. [AMD/ATI] Phoe…"));
    assert!(gpu.contains(" │  "));
    assert_eq!(lines[0], "─".repeat(100));
}

#[test]
fn narrow_terminal_uses_stacked_layout() {
    let t = plain(60, false);
    let lines = report_lines(&t, &info_rows(&fields(Some(7))));
    assert_eq!(lines.len(), 24);
    assert_eq!(lines[1], format!(" {}", LOGO[0].trim_end()));
    assert_eq!(lines[6], " ");
    assert_eq!(lines[8], "");
    assert_eq!(lines[9], " OS: PrismOS 1.0 Aurora");
    // The CPU row: 60 - (3 + 4) = 53 columns for the value.
    assert_eq!(lines[15], " CPU: AMD Ryzen 7 7840U w/ Radeon 780M Graphics");
}

#[test]
fn report_never_wraps_without_styling() {
    for width in 20usize..=160 {
        for unicode in [false, true] {
            let t = plain(width, unicode);
            for line in report_lines(&t, &info_rows(&fields(Some(7)))) {
                assert!(line.chars().count() <= width, "width {}: {:?}", width, line);
            }
        }
    }
}

#[test]
fn stacked_logo_is_cut_to_the_width() {
    let t = plain(20, false);
    let lines = report_lines(&t, &info_rows(&fields(Some(7))));
    let first: String = LOGO[0].trim_end().chars().take(19).collect();
    assert_eq!(lines[1], format!(" {}", first));
    assert_eq!(lines[1].chars().count(), 20);
    for line in &lines {
        assert!(line.chars().count() <= 20);
    }
    // With room for the whole logo, nothing is cut.
    let t = plain(46, false);
    let lines = report_lines(&t, &info_rows(&fields(Some(7))));
    assert_eq!(lines[1], format!(" {}", LOGO[0].trim_end()));
}

#[test]
fn plain_report_has_no_escape() {
    let t = plain(120, true);
    for line in report_lines(&t, &info_rows(&fields(None))) {
        assert!(!line.contains('\x1b'));
    }
}

#[test]
fn colored_report_is_styled() {
    let t = Terminal { color: true, unicode: true, width: 120 };
    let lines = report_lines(&t, &info_rows(&fields(None)));
    assert!(lines[0].starts_with("\x1b[38;2;156;163;175m─"));
    assert!(lines[1].contains("\x1b[1m\x1b[38;2;41;213;255mOS:\x1b[0m"));
}

#[test]
fn bar_width_follows_terminal() {
    assert_eq!(meter_bar_width(160), 64);
    assert_eq!(meter_bar_width(100), 64);
    assert_eq!(meter_bar_width(80), 50);
    assert_eq!(meter_bar_width(60), 34);
    assert_eq!(meter_bar_width(20), 8);
}

#[test]
fn meter_line_plain_ascii() {
    let t = plain(100, false);
    let line = meter_line(&t, "CPU Usage", 32, "50%", cyan(), blue());
    assert_eq!(line, format!(" CPU Usage         [{}{}]   50%", "#".repeat(32), "-".repeat(32)));
    assert!(line.chars().count() < 100);
}

#[test]
fn meter_line_unicode_and_color() {
    let t = Terminal { color: true, unicode: true, width: 60 };
    let line = meter_line(&t, "Temperature", 3, "N/A", cyan(), blue());
    let expected = format!(
        " Temperature   [\x1b[38;2;41;213;255m█\x1b[0m\x1b[38;2;66;133;255m██\x1b[0m\x1b[2m{}\x1b[0m]   N/A",
        "░".repeat(31)
    );
    assert_eq!(line, expected);
}

#[test]
fn empty_and_full_meters() {
    let t = plain(80, true);
    let empty = meter_line(&t, "Disk Usage", 0, "0%", cyan(), blue());
    assert!(empty.contains(&format!("[{}]", "░".repeat(50))));
    let full = meter_line(&t, "Disk Usage", 50, "100%", cyan(), blue());
    assert!(full.contains(&format!("[{}]", "█".repeat(50))));
    assert!(full.ends_with(" 100%"));
}

#[test]
fn four_meters_with_missing_temperature() {
    let t = plain(100, false);
    let r = |filled: usize, suffix: &str| Reading { filled, suffix: suffix.to_string() };
    let lines = render_meters(&t, &r(32, "50%"), &r(64, "100%"), &r(0, "0%"), &None);
    assert_eq!(lines.len(), 4);
    assert_eq!(lines[0], format!(" CPU Usage         [{}{}]   50%", "#".repeat(32), "-".repeat(32)));
    assert_eq!(lines[1], format!(" Memory Usage      [{}]  100%", "#".repeat(64)));
    assert_eq!(lines[2], format!(" Disk Usage        [{}]    0%", "-".repeat(64)));
    assert_eq!(lines[3], format!(" Temperature       [{}]   N/A", "-".repeat(64)));
    let lines = render_meters(&t, &r(0, "0%"), &r(0, "0%"), &r(0, "0%"), &Some(r(30, "47°C")));
    assert_eq!(lines[3], format!(" Temperature       [{}{}]  47°C", "#".repeat(30), "-".repeat(34)));
}

#[test]
fn meter_colors() {
    let t = Terminal { color: true, unicode: false, width: 100 };
    let r = |filled: usize| Reading { filled, suffix: "1%".to_string() };
    let lines = render_meters(&t, &r(2), &r(2), &r(2), &None);
    assert!(lines[0].contains("\x1b[38;2;41;213;255m#\x1b[0m\x1b[38;2;66;133;255m#\x1b[0m"));
    assert!(lines[1].contains("\x1b[38;2;217;70;239m#\x1b[0m\x1b[38;2;139;92;246m#\x1b[0m"));
    assert!(lines[2].contains("\x1b[38;2;74;168;255m#\x1b[0m\x1b[38;2;66;133;255m#\x1b[0m"));
    assert!(lines[3].contains("\x1b[38;2;245;158;11m\x1b[0m\x1b[38;2;180;83;9m\x1b[0m"));
}

/// What a terminal shows: the text without its escape sequences.
fn shown(s: &str) -> String {
    let mut out = String::new();
    let mut in_escape = false;
    for c in s.chars() {
        if in_escape {
            if c == 'm' {
                in_escape = false;
            }
        } else if c == '\x1b' {
            in_escape = true;
        } else {
            out.push(c);
        }
    }
    out
}

#[test]
fn styled_report_never_wraps() {
    for width in 20usize..=160 {
        for unicode in [false, true] {
            let styled = Terminal { color: true, unicode, width };
            let bare = plain(width, unicode);
            let rows = info_rows(&fields(Some(7)));
            let lines = report_lines(&styled, &rows);
            let plain_lines = report_lines(&bare, &rows);
            assert_eq!(lines.len(), plain_lines.len());
            for (line, expected) in lines.iter().zip(plain_lines.iter()) {
                assert_eq!(&shown(line), expected);
                assert!(shown(line).chars().count() <= width, "width {}: {:?}", width, line);
            }
        }
    }
}
