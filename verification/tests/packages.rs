use rtop::packages::{count_command_lines, count_flatpak, count_packages, count_rpm, package_summary, Listing, PackageCounts};

#[test]
fn rpm_listing_skips_keys() {
    assert_eq!(count_rpm("bash-5.2\ngpg-pubkey-abc\n  \nkernel-6.8\n"), 2);
    assert_eq!(count_rpm(""), 0);
}

#[test]
fn flatpak_listing_skips_header() {
    assert_eq!(count_flatpak("Application\norg.gnome.Maps\norg.kde.krita\n"), 2);
    assert_eq!(count_flatpak("  APPLICATION  \n"), 0);
}

#[test]
fn plain_listing_counts_non_blank_lines() {
    assert_eq!(count_command_lines("a\n\n b \n"), 2);
    assert_eq!(count_packages("x\r\ny\n", Listing::Plain), 2);
}

#[test]
fn summary_joins_managers() {
    let counts = PackageCounts { dpkg: Some(1520), snap: Some(13), flatpak: Some(0), ..Default::default() };
    assert_eq!(package_summary(&counts).as_deref(), Some("1520 (dpkg), 12 (snap)"));
    let snap_header_only = PackageCounts { snap: Some(1), ..Default::default() };
    assert_eq!(package_summary(&snap_header_only), None);
    assert_eq!(package_summary(&PackageCounts::default()), None);
    let all = PackageCounts { rpm: Some(1), brew: Some(2), brew_cask: Some(3), nix: Some(4), ..Default::default() };
    assert_eq!(package_summary(&all).as_deref(), Some("1 (rpm), 4 (nix), 2 (brew), 3 (brew-cask)"));
}
