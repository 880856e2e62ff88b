use rtop::text::Language;
use rtop::layout::Area;
use rtop::title::{overview_areas, system_areas, system_title_line, tab_label, Region, SystemTab, TitleStyle};

#[test]
fn tab_labels() {
    assert_eq!(tab_label(SystemTab::Overview, Language::English), "Main");
    assert_eq!(tab_label(SystemTab::Memory, Language::Russian), "Пам");
    assert_eq!(tab_label(SystemTab::Temps, Language::English), "Temp");
}

#[test]
fn title_bar_with_all_tabs_and_update() {
    let bar = system_title_line(0, 0, 80, SystemTab::Cpu, Language::English);
    let texts: Vec<&str> = bar.spans.iter().map(|s| s.text.as_str()).collect();
    assert_eq!(
        texts,
        vec![
            " System ", " | ", " Main ", " CPU ", " Mem ", " Disk ", " Net ", " Temp ",
            &" ".repeat(26)[..], " Update "
        ]
    );
    assert_eq!(bar.spans[0].style, TitleStyle::Title);
    assert_eq!(bar.spans[1].style, TitleStyle::Separator);
    assert_eq!(bar.spans[2].style, TitleStyle::InactiveTab);
    assert_eq!(bar.spans[3].style, TitleStyle::ActiveTab);
    assert_eq!(bar.spans[8].style, TitleStyle::Plain);
    assert_eq!(bar.spans[9].style, TitleStyle::Update);
    let xs: Vec<(SystemTab, u16, u16)> = bar.tab_regions.iter().map(|(t, r)| (*t, r.x, r.width)).collect();
    assert_eq!(
        xs,
        vec![
            (SystemTab::Overview, 12, 6),
            (SystemTab::Cpu, 18, 5),
            (SystemTab::Memory, 23, 5),
            (SystemTab::Disks, 28, 6),
            (SystemTab::Network, 34, 5),
            (SystemTab::Temps, 39, 6),
        ]
    );
    assert_eq!(bar.update_region, Some(Region { x: 71, y: 0, width: 8 }));
}

#[test]
fn title_bar_offset_area() {
    let bar = system_title_line(5, 3, 80, SystemTab::Overview, Language::English);
    assert_eq!(bar.tab_regions[0].1, Region { x: 17, y: 3, width: 6 });
    assert_eq!(bar.update_region, Some(Region { x: 76, y: 3, width: 8 }));
}

#[test]
fn title_bar_drops_tabs_that_do_not_fit() {
    let bar = system_title_line(0, 0, 25, SystemTab::Overview, Language::English);
    let texts: Vec<&str> = bar.spans.iter().map(|s| s.text.as_str()).collect();
    assert_eq!(texts, vec![" System ", " | ", " Main ", " CPU "]);
    assert_eq!(bar.tab_regions.len(), 2);
    assert_eq!(bar.update_region, None);
}

#[test]
fn title_bar_narrow() {
    let bar = system_title_line(0, 0, 10, SystemTab::Overview, Language::English);
    assert_eq!(bar.spans.len(), 1);
    assert_eq!(bar.spans[0].text, " System ");
    assert!(bar.tab_regions.is_empty());
    let bar = system_title_line(0, 0, 2, SystemTab::Overview, Language::English);
    assert_eq!(bar.spans.len(), 1);
    assert_eq!(bar.spans[0].text, "");
    assert_eq!(bar.spans[0].style, TitleStyle::Plain);
}

#[test]
fn system_panel_areas() {
    let area = Area { x: 0, y: 0, width: 80, height: 20 };
    assert_eq!(
        system_areas(area, SystemTab::Overview),
        Some((Some(Area { x: 1, y: 2, width: 39, height: 17 }), Area { x: 41, y: 3, width: 38, height: 16 }))
    );
    assert_eq!(system_areas(area, SystemTab::Cpu), Some((None, Area { x: 1, y: 2, width: 78, height: 17 })));
    assert_eq!(system_areas(Area { x: 0, y: 0, width: 80, height: 3 }, SystemTab::Cpu), None);
}

#[test]
fn overview_logo_left_info_right() {
    let left = Area { x: 1, y: 2, width: 20, height: 10 };
    let right = Area { x: 21, y: 2, width: 20, height: 10 };
    let (logo, info) = overview_areas(&vec![left, right]);
    assert_eq!(logo, Some(left));
    assert_eq!(info, Area { x: 22, y: 3, width: 19, height: 9 });
}
