use rtop::gpu_procs::{gpu_process_rows, gpu_process_table, row_ordering, GpuProcEntry, GpuProcessTable};
use rtop::layout::Area;
use rtop::tables::GpuSortKey;
use rtop::widgets::SortDir;

fn entry(pid: u32, gpu: &str, kind: Option<char>, sm: Option<(i64, &str)>, fb: Option<u64>) -> GpuProcEntry {
    GpuProcEntry {
        pid,
        gpu_id: gpu.to_string(),
        kind,
        sm: sm.map(|(k, t)| (k, t.to_string())),
        mem: None,
        enc: None,
        dec: None,
        fb_mb: fb,
    }
}

fn entries() -> Vec<GpuProcEntry> {
    vec![
        entry(10, "g0", Some('C'), Some((500, " 50.0")), Some(100)),
        entry(20, "g0", Some('G'), Some((900, " 90.0")), Some(10)),
        entry(30, "g1", None, None, None),
        entry(5, "g0", None, None, None),
    ]
}

fn names() -> Vec<(u32, String)> {
    vec![(10, "ffmpeg".to_string()), (20, "game".to_string()), (20, "game2".to_string())]
}

fn order(key: GpuSortKey, dir: SortDir) -> Vec<u32> {
    match gpu_process_table(Area { x: 0, y: 0, width: 80, height: 10 }, Some("g0"), &entries(), &names(), key, dir, 0, None) {
        GpuProcessTable::Table { order, .. } => order,
        _ => panic!("expected a table"),
    }
}

#[test]
fn rows_of_the_selected_gpu() {
    let rows = gpu_process_rows(&entries(), "g0", &names());
    let pids: Vec<u32> = rows.iter().map(|r| r.pid).collect();
    assert_eq!(pids, vec![10, 20, 5]);
    assert_eq!(rows[1].name, "game2");
    assert_eq!(rows[2].name, "<exited>");
}

#[test]
fn table_orders() {
    assert_eq!(order(GpuSortKey::Sm, SortDir::Desc), vec![20, 10, 5]);
    assert_eq!(order(GpuSortKey::Sm, SortDir::Asc), vec![10, 20, 5]);
    assert_eq!(order(GpuSortKey::Pid, SortDir::Asc), vec![5, 10, 20]);
    assert_eq!(order(GpuSortKey::Pid, SortDir::Desc), vec![20, 10, 5]);
    assert_eq!(order(GpuSortKey::Name, SortDir::Asc), vec![5, 10, 20]);
    assert_eq!(order(GpuSortKey::Vram, SortDir::Desc), vec![10, 20, 5]);
    assert_eq!(order(GpuSortKey::Kind, SortDir::Asc), vec![10, 20, 5]);
    assert_eq!(order(GpuSortKey::Mem, SortDir::Desc), vec![5, 10, 20]);
}

#[test]
fn equal_keys_order_by_pid() {
    let rows = gpu_process_rows(&entries(), "g0", &names());
    assert_eq!(row_ordering(&rows[0], &rows[2], GpuSortKey::Enc, SortDir::Desc), std::cmp::Ordering::Greater);
    assert_eq!(row_ordering(&rows[2], &rows[0], GpuSortKey::Enc, SortDir::Desc), std::cmp::Ordering::Less);
}

#[test]
fn table_window_and_cells() {
    let t = gpu_process_table(
        Area { x: 0, y: 0, width: 80, height: 10 },
        Some("g0"),
        &entries(),
        &names(),
        GpuSortKey::Sm,
        SortDir::Desc,
        0,
        Some(10),
    );
    match t {
        GpuProcessTable::Table { order, body, start, end, cells, selected } => {
            assert_eq!(order, vec![20, 10, 5]);
            assert_eq!(body, Some(Area { x: 1, y: 2, width: 78, height: 7 }));
            assert_eq!((start, end), (0, 3));
            assert_eq!(cells[0], vec!["20", "G", " 90.0", "  -  ", "  -  ", "  -  ", "10.0 MiB", "game2"]);
            assert_eq!(cells[2], vec!["5", "-", "  -  ", "  -  ", "  -  ", "  -  ", "-", "<exited>"]);
            assert_eq!(selected, Some(1));
        }
        _ => panic!("expected a table"),
    }
    let t = gpu_process_table(
        Area { x: 0, y: 0, width: 80, height: 4 },
        Some("g0"),
        &entries(),
        &names(),
        GpuSortKey::Sm,
        SortDir::Desc,
        2,
        Some(10),
    );
    match t {
        GpuProcessTable::Table { start, end, cells, selected, .. } => {
            assert_eq!((start, end), (2, 3));
            assert_eq!(cells.len(), 1);
            assert_eq!(selected, None);
        }
        _ => panic!("expected a table"),
    }
}

#[test]
fn table_notes() {
    let area = Area { x: 0, y: 0, width: 80, height: 10 };
    let k = GpuSortKey::Pid;
    let d = SortDir::Asc;
    assert!(matches!(gpu_process_table(area, None, &entries(), &names(), k, d, 0, None), GpuProcessTable::NoGpu));
    assert!(matches!(gpu_process_table(area, Some("g9"), &entries(), &names(), k, d, 0, None), GpuProcessTable::NoProcesses));
    let empty = Area { x: 0, y: 0, width: 0, height: 10 };
    assert!(matches!(gpu_process_table(empty, Some("g0"), &entries(), &names(), k, d, 0, None), GpuProcessTable::Nothing));
    let thin = Area { x: 0, y: 0, width: 2, height: 10 };
    match gpu_process_table(thin, Some("g0"), &entries(), &names(), k, d, 0, None) {
        GpuProcessTable::Hidden { order } => assert_eq!(order, vec![5, 10, 20]),
        _ => panic!("expected hidden rows"),
    }
}
