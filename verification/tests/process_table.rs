use rtop::layout::Area;
use rtop::process_table::{process_table, search_line, ProcessFilterType, ProcessRow};
use rtop::tables::SortKey;
use rtop::text::Language;

fn rows() -> Vec<ProcessRow> {
    vec![
        ProcessRow {
            pid: 1,
            user: Some("root".to_string()),
            cpu: "  0.0".to_string(),
            mem_bytes: 1024,
            uptime_secs: 75,
            status: "S".to_string(),
            name: "systemd".to_string(),
            tree_label: Some("systemd".to_string()),
            highlight: false,
        },
        ProcessRow {
            pid: 42,
            user: None,
            cpu: " 12.5".to_string(),
            mem_bytes: 2048,
            uptime_secs: 3661,
            status: "R".to_string(),
            name: "rtop".to_string(),
            tree_label: Some("\\-- rtop (x)".to_string()),
            highlight: true,
        },
    ]
}

fn regions() -> Vec<(SortKey, Area)> {
    vec![
        (SortKey::Pid, Area { x: 1, y: 1, width: 7, height: 1 }),
        (SortKey::Name, Area { x: 51, y: 1, width: 6, height: 1 }),
    ]
}

#[test]
fn process_rows_in_a_window() {
    let area = Area { x: 0, y: 0, width: 80, height: 5 };
    let t = process_table(area, &rows(), &regions(), true, 0, Some(1), Language::English);
    assert_eq!(t.title, "Processes (Tree)");
    assert_eq!(t.body, Some(Area { x: 1, y: 2, width: 78, height: 2 }));
    assert_eq!((t.start, t.end), (0, 2));
    assert_eq!(t.cells[0], vec!["1", "root", "  0.0", "1.0 KiB", "1m 15s", "S", "sys..."]);
    assert_eq!(t.cells[1], vec!["42", "-", " 12.5", "2.0 KiB", "1h 01m", "R", "\\--..."]);
    assert_eq!(t.highlights, vec![false, true]);
    assert_eq!(t.selected, Some(1));

    let t = process_table(area, &rows(), &regions(), false, 1, Some(0), Language::Russian);
    assert_eq!(t.title, "Процессы");
    assert_eq!((t.start, t.end), (1, 2));
    assert_eq!(t.cells[0][6], "rtop");
    assert_eq!(t.selected, None);

    let t = process_table(area, &rows(), &regions(), false, 5, None, Language::English);
    assert_eq!((t.start, t.end), (2, 2));
    assert!(t.cells.is_empty());
}

#[test]
fn process_table_without_room() {
    let t = process_table(Area { x: 0, y: 0, width: 80, height: 3 }, &rows(), &vec![], true, 0, Some(0), Language::English);
    assert_eq!(t.body, None);
    assert_eq!((t.start, t.end), (0, 0));
    assert_eq!(t.selected, None);
}

#[test]
fn search_panel_line() {
    let area = Area { x: 0, y: 0, width: 40, height: 3 };
    assert_eq!(
        search_line(area, "Name", "", false, ProcessFilterType::Name, Language::English),
        Some(("press / to search".to_string(), false))
    );
    assert_eq!(
        search_line(area, "Name", "fire", true, ProcessFilterType::Name, Language::English),
        Some(("fire|".to_string(), true))
    );
    assert_eq!(
        search_line(area, "PID", "", false, ProcessFilterType::Pid, Language::Russian),
        Some(("введите PID".to_string(), false))
    );
    let narrow = Area { x: 0, y: 0, width: 16, height: 3 };
    assert_eq!(
        search_line(narrow, "Name", "firefox", false, ProcessFilterType::Name, Language::English),
        Some(("f...".to_string(), true))
    );
    let tight = Area { x: 0, y: 0, width: 12, height: 3 };
    assert_eq!(search_line(tight, "Name", "x", false, ProcessFilterType::Name, Language::English), Some((String::new(), true)));
    assert_eq!(search_line(Area { x: 0, y: 0, width: 2, height: 2 }, "Name", "", false, ProcessFilterType::User, Language::English), None);
}
