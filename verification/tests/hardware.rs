use rtop::hardware::{
    cpu_overview_line, format_freq, gpu_device_name, gpu_summary, max_cpu_freq,
    motherboard_summary, parse_khz, passport_freq_range, should_skip_fs, summarize_cpu_freq,
    GpuKind, PolicyFreqs,
};
use rtop::text::Language;

#[test]
fn freq_units() {
    assert_eq!(format_freq(999), "999 MHz");
    assert_eq!(format_freq(1000), "1.00 GHz");
    assert_eq!(format_freq(3600), "3.60 GHz");
    assert_eq!(format_freq(2345), "2.35 GHz");
    assert_eq!(format_freq(1005), "1.00 GHz");
    assert_eq!(format_freq(4999), "5.00 GHz");
}

#[test]
fn freq_matches_double_formatting() {
    for mhz in [1000u64, 1001, 1005, 1234, 2345, 2999, 3333, 4095, 65535, 123456789] {
        assert_eq!(format_freq(mhz), format!("{:.2} GHz", mhz as f64 / 1000.0));
    }
}

#[test]
fn cpu_frequency_summaries() {
    assert_eq!(summarize_cpu_freq(&vec![0, 2000, 3000]).as_deref(), Some("2.50 GHz"));
    assert_eq!(summarize_cpu_freq(&vec![]), None);
    assert_eq!(summarize_cpu_freq(&vec![0, 0]), None);
    assert_eq!(max_cpu_freq(&vec![800, 0, 3400]).as_deref(), Some("3.40 GHz"));
    assert_eq!(max_cpu_freq(&vec![0]), None);
}

#[test]
fn cpu_line() {
    assert_eq!(cpu_overview_line("Ryzen", 16, Some((400, 4500)), &vec![800]), "Ryzen (16) @ 4.50 GHz");
    assert_eq!(cpu_overview_line("Ryzen", 16, None, &vec![800, 3400]), "Ryzen (16) @ 3.40 GHz");
    assert_eq!(cpu_overview_line("Ryzen", 16, None, &vec![]), "Ryzen (16)");
}

#[test]
fn passport_range() {
    let p = |min, max, base| PolicyFreqs { min_khz: min, max_khz: max, base_khz: base };
    assert_eq!(
        passport_freq_range(&vec![p(Some(400_000), Some(4_500_000), None), p(Some(800_000), Some(4_200_000), None)]),
        Some((400, 4500))
    );
    assert_eq!(
        passport_freq_range(&vec![p(Some(400_000), Some(4_500_000), Some(2_000_000)), p(None, None, Some(1_800_000))]),
        Some((1800, 4500))
    );
    assert_eq!(passport_freq_range(&vec![p(None, Some(4_500_000), None)]), Some((4500, 4500)));
    assert_eq!(passport_freq_range(&vec![p(Some(400_000), None, None)]), None);
    assert_eq!(passport_freq_range(&vec![]), None);
}

#[test]
fn khz_files() {
    assert_eq!(parse_khz("3600000\n"), Some(3_600_000));
    assert_eq!(parse_khz("  42 extra"), Some(42));
    assert_eq!(parse_khz("0"), None);
    assert_eq!(parse_khz("abc"), None);
    assert_eq!(parse_khz(""), None);
}

#[test]
fn board_line() {
    assert_eq!(motherboard_summary(Some("B550"), Some("ASUS"), Some("Rev 1.xx")).as_deref(), Some("B550 (Rev 1.xx)"));
    assert_eq!(motherboard_summary(Some("  "), Some("ASUS"), None).as_deref(), Some("ASUS"));
    assert_eq!(motherboard_summary(Some("X570 Rev 1.0"), None, Some("Rev 1.0")).as_deref(), Some("X570 Rev 1.0"));
    assert_eq!(motherboard_summary(None, None, Some("1.0")), None);
}

#[test]
fn gpu_line() {
    assert_eq!(gpu_summary("NVIDIA", "RTX 4070", GpuKind::Discrete, Language::English), "NVIDIA RTX 4070 [Discrete]");
    assert_eq!(gpu_summary("AMD", "", GpuKind::Integrated, Language::Russian), "AMD [Встроенная]");
    assert_eq!(gpu_summary("Intel", "Arc", GpuKind::Unknown, Language::English), "Intel Arc");
    assert_eq!(gpu_device_name(Some("  "), "Fallback"), "Fallback");
    assert_eq!(gpu_device_name(Some("Dev"), "x"), "Dev");
    assert_eq!(gpu_device_name(None, "x"), "x");
}

#[test]
fn pseudo_file_systems() {
    assert!(should_skip_fs("tmpfs"));
    assert!(should_skip_fs("binfmt_misc"));
    assert!(!should_skip_fs("ext4"));
    assert!(!should_skip_fs(" tmpfs"));
}
