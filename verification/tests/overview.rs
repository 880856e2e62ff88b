use rtop::icons::{IconMode, InfoItem};
use rtop::os::parse_os_release;
use rtop::overview::{
    build_system_overview_snapshot, icon_line, label_line, pad_label, push_overview_lines,
    OverviewInputs, OverviewLine, SystemOverviewSnapshot,
};
use rtop::text::Language;

fn item(l: &OverviewLine) -> (String, String, String) {
    match l {
        OverviewLine::Item { icon, sep, value } => (icon.clone(), sep.clone(), value.clone()),
        OverviewLine::Blank => panic!("expected an item"),
    }
}

fn bare_inputs() -> OverviewInputs {
    OverviewInputs {
        host_name: None,
        user_name: None,
        os_release: parse_os_release(""),
        immutable: false,
        system_name: Some("Linux".to_string()),
        kernel_version: None,
        uptime_secs: 90061,
        board: None,
        cpu_brand: Some("   ".to_string()),
        cpu_count: 4,
        cpu_passport: None,
        cpu_freqs: vec![],
        gpu: None,
        mem_line: "1.0 GiB / 2.0 GiB".to_string(),
        disk_lines: vec![],
        display: None,
        mouse: None,
        desktop: None,
        window_manager: None,
        shell: None,
        terminal: None,
        packages: None,
    }
}

#[test]
fn labelled_lines() {
    let (icon, sep, value) = item(&icon_line(InfoItem::Cpu, "AMD Ryzen", 20, IconMode::Text));
    assert_eq!(icon, "CPU: ");
    assert_eq!(sep, "");
    assert_eq!(value, "AMD Ryzen");
    let (_, _, value) = item(&icon_line(InfoItem::Cpu, "abcdefghijklmnop", 10, IconMode::Text));
    assert_eq!(value, "ab...");
    let (_, _, value) = item(&icon_line(InfoItem::Cpu, "xyz", 3, IconMode::Text));
    assert_eq!(value, "x");
    let (icon, sep, _) = item(&icon_line(InfoItem::Cpu, "x", 40, IconMode::Nerd));
    assert_eq!(icon, "\u{f0ee0} ");
    assert!(sep.ends_with(' '));
}

#[test]
fn padded_labels() {
    assert_eq!(pad_label("CPU", 6), "CPU   ");
    assert_eq!(pad_label("Memory usage", 6), "Mem...");
    assert_eq!(pad_label("abc", 0), "");
    let (l, v) = label_line("CPU", "value long text", 10, 6);
    assert_eq!(l, "CPU   ");
    assert_eq!(v, "v...");
    let (_, v) = label_line("CPU", "short", 40, 6);
    assert_eq!(v, "short");
}

#[test]
fn snapshot_fallbacks() {
    let s: SystemOverviewSnapshot = build_system_overview_snapshot(&bare_inputs(), Language::English);
    assert_eq!(s.user_host, "unknown@unknown");
    assert_eq!(s.distro_line, "n/a");
    assert_eq!(s.os_name, "Linux");
    assert_eq!(s.kernel_line, "Linux unknown");
    assert_eq!(s.uptime_line, "1 day, 1 hour, 1 min");
    assert_eq!(s.board_line, "n/a");
    assert_eq!(s.cpu_line, "unknown (4)");
    assert_eq!(s.gpu_line, "n/a");
    assert_eq!(s.mem_line, "1.0 GiB / 2.0 GiB");
    assert_eq!(s.disk_lines, vec!["n/a".to_string()]);
    assert_eq!(s.package_line, "n/a");
    let r = build_system_overview_snapshot(&bare_inputs(), Language::Russian);
    assert_eq!(r.user_host, "неизвестно@неизвестно");
    assert_eq!(r.board_line, "н/д");
}

#[test]
fn snapshot_values() {
    let mut i = bare_inputs();
    i.user_name = Some("ann".to_string());
    i.host_name = Some("box".to_string());
    i.os_release = parse_os_release("NAME=\"Fedora Linux\"\nID=fedora\nVERSION_ID=40\n");
    i.kernel_version = Some("6.9".to_string());
    i.cpu_brand = Some("Ryzen".to_string());
    i.cpu_freqs = vec![800, 3400];
    i.disk_lines = vec!["a".to_string(), "b".to_string()];
    i.shell = Some("bash 5.2".to_string());
    let s = build_system_overview_snapshot(&i, Language::English);
    assert_eq!(s.user_host, "ann@box");
    assert_eq!(s.distro_line, "fedora:40");
    assert_eq!(s.os_name, "Fedora Linux");
    assert_eq!(s.kernel_line, "Linux 6.9");
    assert_eq!(s.cpu_line, "Ryzen (4) @ 3.40 GHz");
    assert_eq!(s.disk_lines, vec!["a".to_string(), "b".to_string()]);
    assert_eq!(s.shell_line, "bash 5.2");
}

#[test]
fn overview_line_order() {
    let mut i = bare_inputs();
    i.disk_lines = vec!["d1".to_string(), "d2".to_string()];
    let s = build_system_overview_snapshot(&i, Language::English);
    let lines = push_overview_lines(&s, 40, IconMode::Text, "n/a");
    assert_eq!(lines.len(), 21);
    assert!(matches!(lines[1], OverviewLine::Blank));
    assert!(matches!(lines[6], OverviewLine::Blank));
    assert!(matches!(lines[13], OverviewLine::Blank));
    assert_eq!(item(&lines[0]).0, "User: ");
    assert_eq!(item(&lines[11]).2, "d1");
    assert_eq!(item(&lines[12]).2, "d2");
    assert_eq!(item(&lines[20]).0, "Pkgs: ");

    let mut s = s;
    s.disk_lines = vec![];
    let lines = push_overview_lines(&s, 40, IconMode::Text, "none");
    assert_eq!(lines.len(), 20);
    assert_eq!(item(&lines[11]).2, "none");
}
