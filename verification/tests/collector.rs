use prismfetch::collector::{
    compositor_name, cpu_name, describes_display, disk_usage, format_uptime, gpu_name,
    is_cpu_sensor, kernel_release, mentions_cpu, os_pretty_name, package_count_from,
    setting_value, shell_name, terminal_name, window_manager_name, DiskSpace, Manager,
    PackageStep, package_step,
};

#[test]
fn os_name_from_pretty_name() {
    let text = "NAME=\"PrismOS\"\nPRETTY_NAME=\"PrismOS 1.0 Aurora\"\nID=prismos\n";
    assert_eq!(os_pretty_name(Some(text)), "PrismOS 1.0 Aurora");
    assert_eq!(os_pretty_name(Some("PRETTY_NAME=Plain\r\n")), "Plain");
    assert_eq!(os_pretty_name(Some("PRETTY_NAME=\"\"\"x\"")), "x");
}

#[test]
fn os_name_unknown_without_pretty_name() {
    assert_eq!(os_pretty_name(None), "Unknown Linux");
    assert_eq!(os_pretty_name(Some("NAME=Foo\n")), "Unknown Linux");
    assert_eq!(os_pretty_name(Some(" PRETTY_NAME=Foo\n")), "Unknown Linux");
    assert_eq!(os_pretty_name(Some("")), "Unknown Linux");
}

#[test]
fn gpu_from_lspci() {
    let text = "00:00.0 Host bridge: Intel Corporation Device 9b61\n\
                00:02.0 VGA compatible controller: Intel Corporation UHD Graphics 620 (rev 07)\n\
                01:00.0 3D controller: NVIDIA Corporation GP108M [GeForce MX150] (rev a1)\n";
    assert_eq!(gpu_name(Some(text)), "Intel Corporation UHD Graphics 620 (rev 07)");
    let only_3d = "01:00.0 3D Controller: NVIDIA Corporation GP108M  \n";
    assert_eq!(gpu_name(Some(only_3d)), "NVIDIA Corporation GP108M");
}

#[test]
fn gpu_skips_lines_without_separator() {
    let text = "VGA without separator\n00:02.0 vga thing: Card\n";
    assert_eq!(gpu_name(Some(text)), "Card");
    assert_eq!(gpu_name(Some("00:1f.3 Audio device: Intel\n")), "Unknown GPU");
    assert_eq!(gpu_name(None), "Unknown GPU");
}

#[test]
fn display_line_test_is_on_small_letters() {
    assert!(describes_display("00:02.0 vga compatible controller"));
    assert!(describes_display("3d controller"));
    assert!(!describes_display("VGA"));
}

#[test]
fn package_count_counts_nonblank_lines() {
    assert_eq!(package_count_from(true, "a\nb\n\n  \nc"), Some(3));
    assert_eq!(package_count_from(true, ".\n.\n.\n"), Some(3));
    assert_eq!(package_count_from(false, "a\nb\n"), None);
    assert_eq!(package_count_from(true, ""), None);
    assert_eq!(package_count_from(true, "\n \r\n\t\n"), None);
}

#[test]
fn names_from_environment() {
    assert_eq!(shell_name(None), "Prism Shell");
    assert_eq!(shell_name(Some("")), "Prism Shell");
    assert_eq!(shell_name(Some("zsh")), "zsh");
    assert_eq!(terminal_name(None, None), "Prism Terminal");
    assert_eq!(terminal_name(None, Some("")), "Prism Terminal");
    assert_eq!(terminal_name(None, Some("kitty")), "kitty");
    assert_eq!(terminal_name(Some("Prism Term"), Some("kitty")), "Prism Term");
    assert_eq!(window_manager_name(None, Some("GNOME"), Some("gnome")), "GNOME");
    assert_eq!(window_manager_name(None, None, Some("plasma")), "plasma");
    assert_eq!(window_manager_name(None, None, None), "Unknown");
    assert_eq!(window_manager_name(Some("Aurora WM"), Some("GNOME"), None), "Aurora WM");
    assert_eq!(kernel_release(Some("6.8.0")), "6.8.0");
    assert_eq!(kernel_release(None), "Unknown");
}

#[test]
fn compositor_by_session_type() {
    assert_eq!(compositor_name(Some("wayland")), "Wayland");
    assert_eq!(compositor_name(Some("WayLand")), "Wayland");
    assert_eq!(compositor_name(Some("X11")), "X11");
    assert_eq!(compositor_name(Some("tty")), "Unknown");
    assert_eq!(compositor_name(Some("")), "Unknown");
    assert_eq!(compositor_name(None), "Unknown");
}

#[test]
fn cpu_brand_trimmed() {
    assert_eq!(cpu_name(Some("  Intel(R) Core(TM) i7-8550U  ")), "Intel(R) Core(TM) i7-8550U");
    assert_eq!(cpu_name(Some("   ")), "Unknown CPU");
    assert_eq!(cpu_name(None), "Unknown CPU");
}

#[test]
fn desktop_settings() {
    assert_eq!(setting_value(None, Some("'Adwaita-dark'\n"), "Aurora Glass"), "Adwaita-dark");
    assert_eq!(setting_value(Some("Prism Glass"), Some("'Adwaita'\n"), "Aurora Glass"), "Prism Glass");
    assert_eq!(setting_value(Some(""), None, "Inter"), "Inter");
    assert_eq!(setting_value(None, None, "Prism Icons"), "Prism Icons");
}

#[test]
fn uptime_hours_and_minutes() {
    assert_eq!(format_uptime(0), "0h 0m");
    assert_eq!(format_uptime(3725), "1h 2m");
    assert_eq!(format_uptime(86399), "23h 59m");
    assert_eq!(format_uptime(360000), "100h 0m");
}

fn d(is_root: bool, total: u64, available: u64) -> DiskSpace {
    DiskSpace { is_root, total, available }
}

#[test]
fn disk_prefers_root_mount() {
    let disks = vec![d(false, 900, 100), d(true, 500, 200), d(true, 700, 0)];
    assert_eq!(disk_usage(&disks), (300, 500));
}

#[test]
fn disk_falls_back_to_largest() {
    let disks = vec![d(false, 500, 100), d(false, 900, 100), d(false, 900, 400)];
    // Of equally large disks the last counts.
    assert_eq!(disk_usage(&disks), (500, 900));
    assert_eq!(disk_usage(&vec![]), (0, 0));
    assert_eq!(disk_usage(&vec![d(false, 10, 20)]), (0, 10));
}

#[test]
fn processor_sensors() {
    assert!(is_cpu_sensor("CPU Package id 0"));
    assert!(is_cpu_sensor("coretemp Core 0"));
    assert!(is_cpu_sensor("k10temp Tctl cpu"));
    assert!(!is_cpu_sensor("nvme Composite"));
    assert!(!is_cpu_sensor("acpitz temp1"));
    assert!(mentions_cpu("package id 0"));
    assert!(!mentions_cpu("PACKAGE"));
}

#[test]
fn pacman_count_wins_then_dpkg() {
    assert!(matches!(package_step(&vec![]), PackageStep::Ask(Manager::Pacman)));
    assert!(matches!(package_step(&vec![Some(900)]), PackageStep::Show(Some(900))));
    assert!(matches!(package_step(&vec![None]), PackageStep::Ask(Manager::Dpkg)));
    assert!(matches!(package_step(&vec![None, Some(1200)]), PackageStep::Show(Some(1200))));
    assert!(matches!(package_step(&vec![None, None]), PackageStep::Show(None)));
}
