use rtop::icons::IconMode;
use rtop::info_panel::{info_body_lines, InfoInputs, InfoLine};
use rtop::info_tabs::{
    cpu_tab_lines, disk_tab_lines, memory_tab_lines, network_tab_lines, temp_tab_lines,
    DiskTabRow, MemoryFigures, NetRow, TabLine, TempRow,
};
use rtop::text::Language;
use rtop::title::SystemTab;

fn texts(lines: &[TabLine]) -> Vec<(String, String)> {
    lines
        .iter()
        .map(|l| match l {
            TabLine::Header(t) => ("#".to_string(), t.clone()),
            TabLine::Field { label, value } => (label.clone(), value.clone()),
        })
        .collect()
}

fn pair(a: &str, b: &str) -> (String, String) {
    (a.to_string(), b.to_string())
}

const GIB: u64 = 1 << 30;

fn memory() -> MemoryFigures {
    MemoryFigures {
        used: GIB,
        total: 2 * GIB,
        available: GIB,
        free: 512,
        used_pct: "50".to_string(),
        used_swap: 0,
        total_swap: 0,
        swap_pct: "0".to_string(),
    }
}

#[test]
fn cpu_tab() {
    let l = cpu_tab_lines(Language::English, 30, 8, Some("Ryzen 7"), Some(8), &vec![0, 2000, 3000], "12.5%", "0.50 0.40 0.30");
    assert_eq!(
        texts(&l),
        vec![
            pair("#", "CPU"),
            pair("Model   ", "Ryzen 7"),
            pair("Cores   ", "8P / 3L"),
            pair("Freq    ", "2.50 GHz"),
            pair("Usage   ", "12.5%"),
            pair("Load    ", "0.50 0.40 0.30"),
        ]
    );
}

#[test]
fn cpu_tab_fallbacks() {
    let l = cpu_tab_lines(Language::English, 30, 8, Some("  "), None, &vec![0, 0], "0.0%", "0.00 0.00 0.00");
    assert_eq!(texts(&l)[1], pair("Model   ", "unknown"));
    assert_eq!(texts(&l)[2], pair("Cores   ", "2L"));
    assert_eq!(texts(&l)[3], pair("Freq    ", "n/a"));
    let l = cpu_tab_lines(Language::Russian, 30, 8, None, None, &vec![], "0.0%", "0");
    assert_eq!(texts(&l)[1], pair("Модель  ", "неизвестно"));
    assert_eq!(texts(&l)[3], pair("Част.   ", "н/д"));
}

#[test]
fn narrow_tab_cuts_values() {
    let l = cpu_tab_lines(Language::English, 10, 6, Some("Ryzen 7"), None, &vec![], "1%", "1");
    assert_eq!(texts(&l)[1], pair("Model ", "R..."));
    let l = cpu_tab_lines(Language::English, 2, 6, Some("Ryzen 7"), None, &vec![], "1%", "1");
    assert_eq!(texts(&l)[0], pair("#", "CP"));
    assert_eq!(texts(&l)[1], pair("Model ", "R"));
}

#[test]
fn memory_tab() {
    let l = memory_tab_lines(Language::English, 40, 8, &memory());
    assert_eq!(
        texts(&l),
        vec![
            pair("#", "Memory"),
            pair("RAM     ", "1.0 GiB / 2.0 GiB (50%)"),
            pair("Avail   ", "1.0 GiB"),
            pair("Free    ", "512 B"),
            pair("Swap    ", "0 B / 0 B (0%)"),
        ]
    );
}

#[test]
fn disks_tab() {
    let disks = vec![DiskTabRow {
        mount: "/".to_string(),
        total: 2 * GIB,
        available: GIB,
        file_system: "ext4".to_string(),
        used_pct: "50".to_string(),
    }];
    let l = disk_tab_lines(Language::English, 60, 12, &disks, "n/a");
    assert_eq!(texts(&l), vec![pair("#", "Disks"), pair("/           ", "1.0 GiB / 2.0 GiB (50%) ext4")]);
    let l = disk_tab_lines(Language::English, 60, 12, &vec![], "n/a");
    assert_eq!(texts(&l), vec![pair("#", "Disks"), pair("Disk        ", "n/a")]);
}

#[test]
fn network_tab_sorted_by_name() {
    let nets = vec![
        NetRow { name: "wlan0".to_string(), rx: 1024, tx: 512 },
        NetRow { name: "eth0".to_string(), rx: 0, tx: 0 },
        NetRow { name: "lo".to_string(), rx: 2048, tx: 2048 },
    ];
    let l = network_tab_lines(Language::English, 60, 8, &nets, true, "n/a");
    assert_eq!(
        texts(&l),
        vec![
            pair("#", "Network"),
            pair("eth0    ", "rx 0 B/s tx 0 B/s"),
            pair("lo      ", "rx 2.0 KiB/s tx 2.0 KiB/s"),
            pair("wlan0   ", "rx 1.0 KiB/s tx 512 B/s"),
        ]
    );
    let l = network_tab_lines(Language::English, 60, 8, &nets, false, "n/a");
    assert_eq!(texts(&l)[3], pair("wlan0   ", "rx 1.0 KiB tx 512 B"));
    let l = network_tab_lines(Language::Russian, 60, 8, &vec![], false, "н/д");
    assert_eq!(texts(&l), vec![pair("#", "Сеть"), pair("Сеть    ", "н/д")]);
}

#[test]
fn temps_tab_hottest_first() {
    let temps = vec![
        TempRow { label: "cpu".to_string(), reading: Some((450, "45.0°C".to_string())) },
        TempRow { label: "nvme".to_string(), reading: None },
        TempRow { label: "gpu".to_string(), reading: Some((600, "60.0°C".to_string())) },
        TempRow { label: "acpi".to_string(), reading: None },
        TempRow { label: "wifi".to_string(), reading: Some((450, "45.0°C".to_string())) },
    ];
    let l = temp_tab_lines(Language::English, 40, 8, &temps, "n/a");
    assert_eq!(
        texts(&l),
        vec![
            pair("#", "Temps"),
            pair("gpu     ", "60.0°C"),
            pair("cpu     ", "45.0°C"),
            pair("wifi    ", "45.0°C"),
            pair("acpi    ", "n/a"),
            pair("nvme    ", "n/a"),
        ]
    );
}

fn inputs() -> InfoInputs {
    InfoInputs {
        snapshot: None,
        cpu_brand: Some("Ryzen".to_string()),
        physical_cores: None,
        cpu_freqs: vec![1000],
        cpu_usage: "1.0%".to_string(),
        load: "0.00 0.00 0.00".to_string(),
        memory: memory(),
        disks: vec![],
        nets: vec![],
        per_second: false,
        temps: vec![],
    }
}

#[test]
fn panel_body_cut_to_height() {
    let l = info_body_lines(SystemTab::Memory, &inputs(), 30, 3, Language::English, IconMode::Text);
    assert_eq!(l.len(), 3);
    match &l[1] {
        InfoLine::Tab(TabLine::Field { label, value }) => {
            assert_eq!(label, "RAM         ");
            assert_eq!(value, "1.0 GiB / 2.0 G...");
        }
        _ => panic!("expected a field"),
    }
    assert!(info_body_lines(SystemTab::Cpu, &inputs(), 0, 10, Language::English, IconMode::Text).is_empty());
    assert!(info_body_lines(SystemTab::Cpu, &inputs(), 10, 0, Language::English, IconMode::Text).is_empty());
    assert!(info_body_lines(SystemTab::Overview, &inputs(), 30, 10, Language::English, IconMode::Text).is_empty());
    assert_eq!(info_body_lines(SystemTab::Cpu, &inputs(), 30, 20, Language::English, IconMode::Text).len(), 6);
    assert_eq!(info_body_lines(SystemTab::Temps, &inputs(), 30, 20, Language::English, IconMode::Text).len(), 2);
}
