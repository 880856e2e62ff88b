use rtop::disks::{disk_summary_lines, DiskUsage};

fn disk(total: u64, available: u64, fs: &str, pct: u64) -> DiskUsage {
    DiskUsage { total, available, file_system: fs.to_string(), used_pct: pct }
}

#[test]
fn disks_largest_first_without_duplicates() {
    let gib = 1024u64 * 1024 * 1024;
    let disks = vec![
        disk(512 * gib, 256 * gib, "ext4", 50),
        disk(8 * gib, 8 * gib, "tmpfs", 0),
        disk(0, 0, "ext4", 0),
        disk(1024 * gib, 0, "btrfs", 100),
        disk(512 * gib, 256 * gib, "ext4", 50),
    ];
    assert_eq!(
        disk_summary_lines(&disks),
        vec!["1.0 TiB / 1.0 TiB (100%) - btrfs".to_string(), "256.0 GiB / 512.0 GiB (50%) - ext4".to_string()]
    );
}

#[test]
fn disk_line_file_system_name() {
    let disks = vec![disk(2048, 1024, " xfs ", 50), disk(4096, 5000, "", 0)];
    assert_eq!(disk_summary_lines(&disks), vec!["0 B / 4.0 KiB (0%)".to_string(), "1.0 KiB / 2.0 KiB (50%) - xfs".to_string()]);
}

#[test]
fn equal_sizes_keep_their_order() {
    let disks = vec![disk(1024, 0, "a", 100), disk(1024, 1024, "b", 0)];
    assert_eq!(disk_summary_lines(&disks), vec!["1.0 KiB / 1.0 KiB (100%) - a".to_string(), "0 B / 1.0 KiB (0%) - b".to_string()]);
}
