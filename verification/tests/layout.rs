use rtop::gauges::{cpu_panel_areas, memory_metric_places, panels_from, stats_panels};
use rtop::layout::{band_middle, centered_rect, panel_inner, split_columns, split_rows, Area, Extent};
use rtop::tables::{gpu_process_header_regions, process_header_regions, sort_header_text, gpu_sort_header_text, GpuSortKey, SortKey};
use rtop::widgets::SortDir;

fn area(x: u16, y: u16, width: u16, height: u16) -> Area {
    Area { x, y, width, height }
}

#[test]
fn inside_of_a_bordered_panel() {
    assert_eq!(panel_inner(area(0, 0, 10, 5)), area(1, 1, 8, 3));
    assert_eq!(panel_inner(area(3, 4, 1, 1)), area(4, 5, 0, 0));
    assert_eq!(panel_inner(area(0, 0, 0, 0)), area(0, 0, 0, 0));
    assert_eq!(panel_inner(area(u16::MAX, 0, 0, 4)), area(u16::MAX, 1, 0, 2));
}

#[test]
fn solver_splits() {
    let cols = split_columns(&vec![Extent::Length(3), Extent::Min(2)], area(0, 2, 10, 1));
    assert_eq!(cols.len(), 2);
    assert_eq!(cols[0], area(0, 2, 3, 1));
    let rows = split_rows(&vec![Extent::Percentage(50), Extent::Percentage(50)], area(5, 0, 4, 10));
    assert_eq!(rows, vec![area(5, 0, 4, 5), area(5, 5, 4, 5)]);
    assert_eq!(centered_rect(50, 50, area(0, 0, 100, 40)), area(25, 10, 50, 20));
}

#[test]
fn process_header_cells() {
    let r = process_header_regions(area(0, 0, 80, 10)).expect("regions");
    let keys: Vec<SortKey> = r.iter().map(|(k, _)| *k).collect();
    assert_eq!(
        keys,
        vec![SortKey::Pid, SortKey::User, SortKey::Cpu, SortKey::Mem, SortKey::Uptime, SortKey::Status, SortKey::Name]
    );
    let xs: Vec<u16> = r.iter().map(|(_, a)| a.x).collect();
    assert_eq!(&xs[..6], &[1, 9, 18, 25, 35, 43]);
    assert!(r.iter().all(|(_, a)| a.y == 1 && a.height == 1));
    assert_eq!(process_header_regions(area(0, 0, 2, 10)), Some(vec![]));
}

#[test]
fn gpu_header_cells() {
    let r = gpu_process_header_regions(area(10, 5, 90, 10)).expect("regions");
    assert_eq!(r.len(), 8);
    assert_eq!(r[0].0, GpuSortKey::Pid);
    assert_eq!(r[7].0, GpuSortKey::Name);
    assert_eq!(r[0].1, area(11, 6, 7, 1));
    assert_eq!(r[1].1.x, 19);
    assert_eq!(gpu_process_header_regions(area(0, 0, 5, 2)), Some(vec![]));
}

#[test]
fn header_labels() {
    assert_eq!(sort_header_text("PID", SortKey::Pid, SortKey::Pid, SortDir::Asc), "PID^");
    assert_eq!(sort_header_text("PID", SortKey::Pid, SortKey::Pid, SortDir::Desc), "PIDv");
    assert_eq!(sort_header_text("CPU%", SortKey::Cpu, SortKey::Pid, SortDir::Desc), "CPU% ");
    assert_eq!(gpu_sort_header_text("SM", GpuSortKey::Sm, GpuSortKey::Sm, SortDir::Asc), "SM^");
}

#[test]
fn cpu_gauge_rows() {
    assert_eq!(cpu_panel_areas(area(0, 0, 20, 6)), Some((area(1, 2, 18, 1), Some(area(1, 3, 18, 1)))));
    assert_eq!(cpu_panel_areas(area(0, 0, 20, 3)), Some((area(1, 1, 18, 1), None)));
    assert_eq!(cpu_panel_areas(area(0, 0, 2, 6)), None);
}

#[test]
fn memory_gauge_rows() {
    let p = memory_metric_places(area(0, 0, 30, 6), &vec!["RAM", "SWAP", "GPU"]);
    assert_eq!(p.len(), 3);
    assert_eq!(p[0].label_area, area(0, 0, 4, 1));
    assert_eq!(p[0].label.as_deref(), Some("RAM"));
    assert_eq!(p[1].gauge, Some(area(4, 2, 26, 1)));
    assert_eq!(p[2].figure, Some(area(4, 5, 26, 1)));

    let p = memory_metric_places(area(0, 0, 30, 5), &vec!["RAM", "SWAP", "GPU"]);
    assert_eq!(p.len(), 2);
    assert_eq!(p[0].label_area.y, 0);
    assert_eq!(p[1].figure, Some(area(4, 3, 26, 1)));

    let p = memory_metric_places(area(0, 65533, 30, 6), &vec!["RAM", "SWAP", "GPU"]);
    assert_eq!(p.len(), 1);

    let p = memory_metric_places(area(0, 0, 3, 2), &vec!["SWAP"]);
    assert_eq!(p[0].label.as_deref(), Some("SWA"));
    assert_eq!(p[0].gauge, None);
    assert_eq!(p[0].figure, None);

    assert!(memory_metric_places(area(0, 0, 30, 1), &vec!["RAM"]).is_empty());
    assert!(memory_metric_places(area(0, 0, 30, 6), &vec![]).is_empty());
}

#[test]
fn gauge_panels_side_by_side() {
    let (cpu, mem) = stats_panels(area(0, 5, 80, 9));
    assert_eq!(cpu, area(0, 5, 40, 9));
    assert_eq!(mem, area(40, 5, 40, 9));
}

#[test]
fn centred_popup_inside_screen() {
    let outer = area(3, 4, 80, 30);
    let r = centered_rect(60, 70, outer);
    assert!(r.x >= outer.x && r.x + r.width <= outer.x + outer.width);
    assert!(r.y >= outer.y && r.y + r.height <= outer.y + outer.height);
}

#[test]
fn pieces_to_panels() {
    let a = area(0, 0, 5, 3);
    let b = area(5, 0, 7, 3);
    let c = area(12, 0, 2, 3);
    assert_eq!(band_middle(&vec![a, b, c]), b);
    assert_eq!(panels_from(&vec![a, b]), (a, b));
}
