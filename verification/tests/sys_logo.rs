use rtop::sys_logo::{
    linux_os_id, logo_column_width, logo_max_width, parse_logo_line, select_logo,
    stripped_logo_width, LogoKind, SegmentColor,
};

#[test]
fn os_release_id() {
    assert_eq!(linux_os_id("NAME=\"Arch Linux\"\nID=arch\n").as_deref(), Some("arch"));
    assert_eq!(linux_os_id("ID_LIKE=rhel\nNAME=\"Fedora Linux\"\n").as_deref(), Some("fedora linux"));
    assert_eq!(linux_os_id("ID=\"Debian\"\n").as_deref(), Some("debian"));
    assert_eq!(linux_os_id("VERSION=1\n"), None);
}

#[test]
fn logo_by_system() {
    assert_eq!(select_logo(Some("Linux"), Some("ID=debian\n")), LogoKind::Debian);
    assert_eq!(select_logo(Some("Linux"), Some("ID=fedora\n")), LogoKind::Fedora);
    assert_eq!(select_logo(Some("Linux"), Some("ID=ubuntu\n")), LogoKind::Rtop);
    assert_eq!(select_logo(Some("Arch Linux"), None), LogoKind::Arch);
    assert_eq!(select_logo(Some("Darwin"), None), LogoKind::MacOs);
    assert_eq!(select_logo(Some("Windows 11"), None), LogoKind::Windows);
    assert_eq!(select_logo(None, Some("ID=arch\n")), LogoKind::Rtop);
}

#[test]
fn logo_widths() {
    assert_eq!(stripped_logo_width("$1ab$2cd"), 4);
    assert_eq!(stripped_logo_width("$x"), 2);
    assert_eq!(stripped_logo_width("a$"), 2);
    assert_eq!(stripped_logo_width(""), 0);
    assert_eq!(logo_max_width(&vec!["$1abc", "de", ""]), 3);
    assert_eq!(logo_max_width(&vec![]), 0);
}

#[test]
fn logo_column() {
    assert_eq!(logo_column_width(80, 40), 40);
    assert_eq!(logo_column_width(30, 40), 10);
    assert_eq!(logo_column_width(5, 40), 5);
    assert_eq!(logo_column_width(80, 3), 8);
    assert_eq!(logo_column_width(0, 3), 0);
}

#[test]
fn logo_line_segments() {
    let s = parse_logo_line("$1ab$2cd");
    assert_eq!(s.len(), 2);
    assert_eq!(s[0].text, "ab");
    assert_eq!(s[0].color, SegmentColor::Palette(0));
    assert_eq!(s[1].text, "cd");
    assert_eq!(s[1].color, SegmentColor::Palette(1));

    let s = parse_logo_line("xy$0z");
    assert_eq!(s.len(), 2);
    assert_eq!(s[0].text, "xy");
    assert_eq!(s[0].color, SegmentColor::Accent);
    assert_eq!(s[1].text, "z");
    assert_eq!(s[1].color, SegmentColor::Accent);

    let s = parse_logo_line("");
    assert_eq!(s.len(), 1);
    assert_eq!(s[0].text, "");
    assert_eq!(s[0].color, SegmentColor::Default);

    let s = parse_logo_line("$3");
    assert_eq!(s.len(), 1);
    assert_eq!(s[0].color, SegmentColor::Default);
}
