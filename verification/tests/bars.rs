use rtop::bars::{
    gpu_view_areas, gpu_view_from, panels_from_parts, screen_areas, stats_rows, too_small_text, Screen,
    confirm_dialog, footer, header, BarSpan, BarStyle, ConfirmProcess, FooterState, HeaderState, HighlightMode,
    ViewMode,
};
use rtop::layout::Area;
use rtop::process_table::{container_table, ContainerRow, ContainerTable};
use rtop::text::Language;

fn texts(line: &[BarSpan]) -> Vec<&str> {
    line.iter().map(|s| s.text.as_str()).collect()
}

fn state(view: ViewMode) -> FooterState {
    FooterState { view, processes_expanded: false, gpu_panel_expanded: false, container_filter: false, status: None }
}

#[test]
fn footer_hints_by_view() {
    let l = footer(&state(ViewMode::Overview), Language::English);
    assert_eq!(texts(&l[0]), vec!["q/й", " quit  ", "r/к", " refresh  ", "F2", " setup  ", "F12", " help"]);
    assert_eq!(
        texts(&l[1]),
        vec!["up/down", " move  ", "left/right", " column  ", "space", " order  ", "enter", " expand  ", "t/е", " tree  ", "tab", " select"]
    );
    let l = footer(&state(ViewMode::Processes), Language::English);
    assert_eq!(texts(&l[1])[7], " terminate  ");
    assert_eq!(&texts(&l[1])[10..], &["  ", "esc", " back"]);
    let l = footer(&state(ViewMode::Container), Language::Russian);
    assert_eq!(texts(&l[1])[7], " внутрь  ");
    let l = footer(&state(ViewMode::GpuFocus), Language::English);
    assert_eq!(&texts(&l[1])[10..], &["tab", " panel", "  ", "esc", " back"]);
    let mut expanded = state(ViewMode::Overview);
    expanded.processes_expanded = true;
    let l = footer(&expanded, Language::English);
    assert_eq!(&texts(&l[1])[7..], &[" terminate  ", "t/е", " tree  ", "  ", "esc", " back"]);
    let mut status = state(ViewMode::Overview);
    status.status = Some("Saved".to_string());
    let l = footer(&status, Language::English);
    assert_eq!(l.len(), 1);
    assert_eq!(texts(&l[0]), vec!["Saved"]);
    assert_eq!(l[0][0].style, BarStyle::Status);
}

#[test]
fn summary_bar() {
    let h = HeaderState {
        view: ViewMode::Processes,
        highlight: HighlightMode::NonRoot,
        sort_text: "CPU desc".to_string(),
        tree_view: true,
        container: Some("web".to_string()),
        process_filter: "fire".to_string(),
        cpu_pct: " 12.5".to_string(),
        uptime_secs: 3661,
        used_mem: 1 << 30,
        total_mem: 2 << 30,
        mem_pct: "50.0".to_string(),
        used_swap: 0,
        total_swap: 0,
        swap_pct: " 0.0".to_string(),
        process_count: 321,
    };
    let l = header(&h, Language::English);
    assert_eq!(
        texts(&l[0]),
        vec![
            "rtop", "  ", "system monitor", "  ", "sort ", "CPU desc", "  ", "view ", "Processes", "  ", "highlight ",
            "non-root", "  ", "tree ", "on", "  ", "container ", "web", "  ", "filter ", "fire"
        ]
    );
    assert_eq!(l[0][14].style, BarStyle::Toggle(true));
    assert_eq!(texts(&l[1]), vec!["CPU", "  12.5%  ", "Uptime", " 1h 01m"]);
    assert_eq!(
        texts(&l[2]),
        vec!["Mem", " 1.0 GiB / 2.0 GiB (50.0%)  ", "Swap", " 0 B / 0 B ( 0.0%)  ", "Procs", " 321"]
    );
    let mut quiet = h.clone();
    quiet.view = ViewMode::Overview;
    quiet.container = None;
    quiet.process_filter = String::new();
    let l = header(&quiet, Language::Russian);
    assert_eq!(l[0].len(), 12);
    assert_eq!(texts(&l[0])[8], "Обзор");
}

#[test]
fn termination_dialog() {
    let c = ConfirmProcess {
        pid: 42,
        cpu: " 12.5".to_string(),
        mem_bytes: 2048,
        name: "rtop".to_string(),
        status: "R".to_string(),
    };
    let l = confirm_dialog(&c, Language::English);
    assert_eq!(l.len(), 7);
    assert_eq!(texts(&l[0]), vec!["Terminate process?"]);
    assert!(l[1].is_empty());
    assert_eq!(texts(&l[2]), vec!["PID ", "42", "  ", "CPU ", " 12.5%", "  ", "MEM ", "2.0 KiB"]);
    assert_eq!(texts(&l[3]), vec!["Name ", "rtop"]);
    assert_eq!(texts(&l[6]), vec!["Enter", " terminate  ", "Esc", " cancel"]);
}

fn container(label: &str) -> ContainerRow {
    ContainerRow { label: label.to_string(), cpu: "  1.5".to_string(), mem_bytes: 1 << 20, proc_count: 3, net: Some(1536) }
}

#[test]
fn container_rows_window() {
    let rows = vec![container("a"), container("b"), container("web"), container("db")];
    match container_table(Area { x: 0, y: 0, width: 40, height: 6 }, &rows, 2, Some(3)) {
        ContainerTable::Rows { start, end, cells, selected } => {
            assert_eq!((start, end), (2, 4));
            assert_eq!(cells[0], vec!["web", "  1.5", "1.0 MiB", "3", "1.5K/s"]);
            assert_eq!(selected, Some(1));
        }
        _ => panic!("expected rows"),
    }
    assert!(matches!(container_table(Area { x: 0, y: 0, width: 40, height: 6 }, &vec![], 0, None), ContainerTable::NoContainers));
    assert!(matches!(container_table(Area { x: 0, y: 0, width: 0, height: 6 }, &rows, 0, None), ContainerTable::Nothing));
    match container_table(Area { x: 0, y: 0, width: 40, height: 2 }, &rows, 0, Some(0)) {
        ContainerTable::Rows { start, end, selected, .. } => {
            assert_eq!((start, end), (0, 0));
            assert_eq!(selected, None);
        }
        _ => panic!("expected rows"),
    }
}

#[test]
fn screen_layout() {
    assert_eq!(screen_areas(Area { x: 0, y: 0, width: 59, height: 30 }, ViewMode::Overview, false), Screen::TooSmall);
    assert_eq!(screen_areas(Area { x: 0, y: 0, width: 80, height: 21 }, ViewMode::Processes, false), Screen::TooSmall);
    match screen_areas(Area { x: 0, y: 0, width: 80, height: 30 }, ViewMode::Overview, false) {
        Screen::Panels { header, stats, main, footer } => {
            assert_eq!(header, Area { x: 0, y: 0, width: 80, height: 5 });
            assert_eq!(stats, Some(Area { x: 0, y: 5, width: 80, height: 9 }));
            assert_eq!((main.y, main.width), (14, 80));
            assert!(main.height >= 8);
            assert_eq!(footer.height, 4);
        }
        Screen::TooSmall => panic!("expected panels"),
    }
    match screen_areas(Area { x: 0, y: 0, width: 80, height: 30 }, ViewMode::Overview, true) {
        Screen::Panels { stats, main, .. } => {
            assert_eq!(stats, None);
            assert_eq!((main.y, main.width), (5, 80));
        }
        Screen::TooSmall => panic!("expected panels"),
    }
    assert_eq!(stats_rows(22), 5);
    assert_eq!(stats_rows(24), 7);
    assert_eq!(stats_rows(60), 9);
    let (detail, table) = gpu_view_areas(Area { x: 0, y: 0, width: 80, height: 20 }).expect("areas");
    assert_eq!(detail, Area { x: 0, y: 0, width: 80, height: 7 });
    assert_eq!(table.map(|t| (t.y, t.width)), Some((7, 80)));
    assert_eq!(gpu_view_areas(Area { x: 0, y: 0, width: 80, height: 0 }), None);
}

#[test]
fn too_small_message() {
    assert_eq!(too_small_text(Language::English), "Terminal too small. Resize to at least 60x22.");
    assert_eq!(too_small_text(Language::Russian), "Терминал слишком мал. Увеличьте до 60x22 минимум.");
}

#[test]
fn screen_pieces_top_to_bottom() {
    let p = |y: u16, h: u16| Area { x: 0, y, width: 80, height: h };
    let parts = vec![p(0, 5), p(5, 7), p(12, 20), p(32, 4)];
    match panels_from_parts(&parts, true) {
        Screen::Panels { header, stats, main, footer } => {
            assert_eq!((header, stats, main, footer), (parts[0], Some(parts[1]), parts[2], parts[3]));
        }
        Screen::TooSmall => panic!("expected panels"),
    }
    let three = vec![p(0, 5), p(5, 20), p(25, 4)];
    match panels_from_parts(&three, false) {
        Screen::Panels { header, stats, main, footer } => {
            assert_eq!((header, stats, main, footer), (three[0], None, three[1], three[2]));
        }
        Screen::TooSmall => panic!("expected panels"),
    }
    assert_eq!(gpu_view_from(&vec![p(0, 7), p(7, 10)]), (p(0, 7), Some(p(7, 10))));
    assert_eq!(gpu_view_from(&vec![p(0, 7), p(7, 0)]), (p(0, 7), None));
}
