use rtop::os::{distro_variant_line, format_uptime_long, parse_os_release, pluralize};
use rtop::text::Language;

const FEDORA: &str = "NAME=\"Fedora Linux\"\nID=fedora\nVERSION_ID=40\n# a comment\nVARIANT_ID=workstation\nNOT_A_LINE\n";

#[test]
fn parse_os_release_reads_known_keys() {
    let info = parse_os_release(FEDORA);
    assert_eq!(info.name.as_deref(), Some("Fedora Linux"));
    assert_eq!(info.id.as_deref(), Some("fedora"));
    assert_eq!(info.version_id.as_deref(), Some("40"));
    assert_eq!(info.variant_id.as_deref(), Some("workstation"));
    assert_eq!(info.pretty_name, None);
    assert_eq!(info.image_id, None);
}

#[test]
fn parse_os_release_later_line_wins_and_trims() {
    let info = parse_os_release("  ID = \"old\" \nID=new\n");
    assert_eq!(info.id.as_deref(), Some("new"));
}

#[test]
fn distro_line_uses_variant() {
    let info = parse_os_release(FEDORA);
    assert_eq!(distro_variant_line(&info, false).as_deref(), Some("fedora:workstation"));
    assert_eq!(distro_variant_line(&info, true).as_deref(), Some("fedora:workstation "));
}

#[test]
fn distro_line_falls_back_to_version() {
    let info = parse_os_release("ID=ubuntu\nVERSION_ID=\"24.04\"\n");
    assert_eq!(distro_variant_line(&info, false).as_deref(), Some("ubuntu:24.04"));
}

#[test]
fn distro_line_needs_an_id() {
    let info = parse_os_release("VERSION_ID=1\n");
    assert_eq!(distro_variant_line(&info, false), None);
}

#[test]
fn uptime_long_english() {
    assert_eq!(format_uptime_long(0, Language::English), "0 mins");
    assert_eq!(format_uptime_long(60, Language::English), "1 min");
    assert_eq!(format_uptime_long(90061, Language::English), "1 day, 1 hour, 1 min");
    assert_eq!(format_uptime_long(3 * 86_400 + 2 * 3_600, Language::English), "3 days, 2 hours");
}

#[test]
fn uptime_long_russian() {
    assert_eq!(
        format_uptime_long(21 * 86_400 + 2 * 3_600 + 5 * 60, Language::Russian),
        "21 день, 2 часа, 5 минут"
    );
}

#[test]
fn pluralize_russian_rules() {
    let p = |n| pluralize(Language::Russian, n, "one", "many", "р1", "р2", "р5");
    assert_eq!(p(1), "р1");
    assert_eq!(p(11), "р5");
    assert_eq!(p(12), "р5");
    assert_eq!(p(22), "р2");
    assert_eq!(p(111), "р5");
    assert_eq!(p(101), "р1");
    assert_eq!(pluralize(Language::English, 1, "one", "many", "a", "b", "c"), "one");
    assert_eq!(pluralize(Language::English, 2, "one", "many", "a", "b", "c"), "many");
}
