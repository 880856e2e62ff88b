use rtop::format::{
    format_net,
    fit_text, format_bytes, format_duration, format_duration_short, mib_to_bytes, take_width,
    text_width,
};

#[test]
fn format_duration_minutes_seconds() {
    assert_eq!(format_duration(75), "1m 15s");
}

#[test]
fn format_duration_hours_minutes() {
    assert_eq!(format_duration(3661), "1h 01m");
    assert_eq!(format_duration(7200), "2h 00m");
}

#[test]
fn format_duration_days_hours_minutes() {
    assert_eq!(format_duration(90061), "1d 01h 01m");
    assert_eq!(format_duration(172800), "2d 00h 00m");
}

#[test]
fn format_duration_zero() {
    assert_eq!(format_duration(0), "0m 00s");
}

#[test]
fn format_duration_short_minutes_seconds() {
    assert_eq!(format_duration_short(75), "1m 15s");
}

#[test]
fn format_duration_short_hours_minutes() {
    assert_eq!(format_duration_short(3661), "1h 01m");
}

#[test]
fn format_duration_short_days_hours() {
    assert_eq!(format_duration_short(90061), "1d 01h");
}

#[test]
fn format_bytes_units() {
    assert_eq!(format_bytes(0), "0 B");
    assert_eq!(format_bytes(1024), "1.0 KiB");
    assert_eq!(format_bytes(1024 * 1024), "1.0 MiB");
    assert_eq!(format_bytes(1024 * 1024 * 1024), "1.0 GiB");
}

#[test]
fn format_bytes_fractional() {
    assert_eq!(format_bytes(512), "512 B");
    assert_eq!(format_bytes(1536), "1.5 KiB");
    assert_eq!(format_bytes(1536 * 1024), "1.5 MiB");
}

#[test]
fn format_bytes_large() {
    assert_eq!(format_bytes(1024 * 1024 * 1024 * 1024), "1.0 TiB");
    assert_eq!(format_bytes(2 * 1024 * 1024 * 1024 * 1024), "2.0 TiB");
}

#[test]
fn mib_to_bytes_conversion() {
    assert_eq!(mib_to_bytes(0), 0);
    assert_eq!(mib_to_bytes(1), 1024 * 1024);
    assert_eq!(mib_to_bytes(1024), 1024 * 1024 * 1024);
}

#[test]
fn mib_to_bytes_overflow() {
    let result = mib_to_bytes(u64::MAX / (1024 * 1024) + 1);
    assert_eq!(result, u64::MAX);
}

#[test]
fn text_width_ascii() {
    assert_eq!(text_width("hello"), 5);
    assert_eq!(text_width(""), 0);
}

#[test]
fn text_width_counts_display_cells() {
    assert_eq!(text_width("Не найдено"), 10);
    assert_eq!(text_width("表"), 2);
    assert_eq!(text_width("a表b"), 4);
}

#[test]
fn take_width_ascii() {
    assert_eq!(take_width("hello", 3), "hel");
    assert_eq!(take_width("hello", 10), "hello");
}

#[test]
fn take_width_wide_chars() {
    assert_eq!(take_width("表表表", 3), "表");
    assert_eq!(take_width("表表表", 4), "表表");
}

#[test]
fn take_width_empty() {
    assert_eq!(take_width("", 5), "");
}

#[test]
fn fit_text_no_trim() {
    assert_eq!(fit_text("hello", 10), "hello");
    assert_eq!(fit_text("", 5), "");
}

#[test]
fn fit_text_trim() {
    assert_eq!(fit_text("hello world", 8), "hello...");
}

#[test]
fn fit_text_trims_by_display_width() {
    assert_eq!(fit_text("表表表", 5), "表...");
}

#[test]
fn fit_text_zero_max_len() {
    assert_eq!(fit_text("hello", 0), "");
}

#[test]
fn fit_text_small_max_len() {
    assert_eq!(fit_text("hello", 2), "he");
    assert_eq!(fit_text("hello", 3), "hel");
}

/// The binary-unit text agrees with formatting the same value as a double.
fn bytes_by_float(bytes: u64) -> String {
    const UNIT: f64 = 1024.0;
    let b = bytes as f64;
    if b < UNIT {
        return format!("{b:.0} B");
    }
    let kb = b / UNIT;
    if kb < UNIT {
        return format!("{kb:.1} KiB");
    }
    let mb = kb / UNIT;
    if mb < UNIT {
        return format!("{mb:.1} MiB");
    }
    let gb = mb / UNIT;
    if gb < UNIT {
        return format!("{gb:.1} GiB");
    }
    format!("{:.1} TiB", gb / UNIT)
}

#[test]
fn format_bytes_matches_double_formatting() {
    let mut samples: Vec<u64> = vec![
        0,
        1,
        1023,
        1024,
        1075,
        1076,
        1126,
        1280,
        1331,
        1382,
        1433,
        1434,
        1536,
        1740,
        1741,
        1024 * 1024 - 1,
        1024 * 1024,
        u64::MAX,
        u64::MAX - 1,
        (1u64 << 53) + 1,
        (1u64 << 54) + 3,
        (1u64 << 63) + (1u64 << 10) + 1,
    ];
    let mut x: u64 = 0x9E37_79B9_7F4A_7C15;
    for _ in 0..20000 {
        x ^= x << 13;
        x ^= x >> 7;
        x ^= x << 17;
        samples.push(x >> (x % 60));
        samples.push(1024 + (x % (1 << 20)));
    }
    for k in 0u64..4000 {
        samples.push(1024 * 1024 * k / 10 + 512);
        samples.push(1024 * k / 20);
    }
    for b in samples {
        assert_eq!(format_bytes(b), bytes_by_float(b), "bytes {b}");
    }
}

#[test]
fn net_rates() {
    assert_eq!(format_net(None), "-");
    assert_eq!(format_net(Some(0)), "0B/s");
    assert_eq!(format_net(Some(512)), "512B/s");
    assert_eq!(format_net(Some(1536)), "1.5K/s");
    assert_eq!(format_net(Some(1 << 20)), "1.0M/s");
    assert_eq!(format_net(Some(3 << 30)), "3.0G/s");
    assert_eq!(format_net(Some(5 << 40)), "5.0T/s");
}

#[test]
fn net_rates_match_double_formatting() {
    fn reference(v: u64) -> String {
        let value = v as f64;
        if value < 1024.0 {
            return format!("{value:.0}B/s");
        }
        let kb = value / 1024.0;
        if kb < 1024.0 {
            return format!("{kb:.1}K/s");
        }
        let mb = kb / 1024.0;
        if mb < 1024.0 {
            return format!("{mb:.1}M/s");
        }
        let gb = mb / 1024.0;
        if gb < 1024.0 {
            return format!("{gb:.1}G/s");
        }
        format!("{:.1}T/s", gb / 1024.0)
    }
    for v in [1023u64, 1024, 1075, 1126, 10_000, 1_048_575, 1_048_576, 123_456_789, 1 << 40, u64::MAX, (1 << 53) + 1] {
        assert_eq!(format_net(Some(v)), reference(v));
    }
}

#[test]
fn fit_text_twice_is_fit_once() {
    let once = fit_text("hello world", 8);
    assert_eq!(once, "hello...");
    assert_eq!(fit_text(&once, 8), once);
    let short = fit_text("hello world", 3);
    assert_eq!(fit_text(&short, 3), short);
}
