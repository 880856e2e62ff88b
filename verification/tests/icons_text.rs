use rtop::icons::{icon_label, IconLabel, IconMode, InfoItem};
use rtop::text::{tr, Language};

#[test]
fn translation_picks_language() {
    assert_eq!(tr(Language::English, "Free", "Своб."), "Free");
    assert_eq!(tr(Language::Russian, "Free", "Своб."), "Своб.");
}

#[test]
fn icon_labels() {
    let label = IconLabel::new("N", "Text:");
    assert_eq!(label.get(IconMode::Nerd), "N");
    assert_eq!(label.get(IconMode::Text), "Text:");
    assert_eq!(icon_label(InfoItem::Cpu).get(IconMode::Text), "CPU:");
    assert_eq!(icon_label(InfoItem::Pkg).get(IconMode::Text), "Pkgs:");
    assert_eq!(icon_label(InfoItem::Cpu).get(IconMode::Nerd), "\u{f0ee0}");
}
