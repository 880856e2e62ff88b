use std::cmp::Ordering;

use rtop::format::format_bytes;
use rtop::widgets::{
    calc_bar_width, cmp_option_char, cmp_option_u64, cmp_str, cmp_u32, cpu_cores_text,
    format_fb_mb, label_width, make_row, render_bar_cells, SortDir,
};

#[test]
fn bar_and_label_widths() {
    assert_eq!(calc_bar_width(50, 10), 24);
    assert_eq!(calc_bar_width(25, 10), 15);
    assert_eq!(calc_bar_width(5, 10), 10);
    assert_eq!(label_width(3), 6);
    assert_eq!(label_width(8), 8);
    assert_eq!(label_width(20), 12);
}

#[test]
fn core_counts() {
    assert_eq!(cpu_cores_text(Some(8), 16), "8P / 16L");
    assert_eq!(cpu_cores_text(None, 4), "4L");
    assert_eq!(cpu_cores_text(Some(0), 4), "4L");
}

#[test]
fn gpu_memory_column() {
    assert_eq!(format_fb_mb(None), "-");
    assert_eq!(format_fb_mb(Some(1)), "1.0 MiB");
    assert_eq!(format_fb_mb(Some(0)), "0 B");
    assert_eq!(format_fb_mb(Some(u64::MAX)), format_bytes(u64::MAX));
}

#[test]
fn help_rows() {
    let (a, b, c, d) = make_row("q", "Quit", "h", "Help", 4, 6);
    assert_eq!(a, "q   ");
    assert_eq!(b, "Quit  ");
    assert_eq!(c, "h   ");
    assert_eq!(d, "Help");
    let (a, _, _, _) = make_row("long", "x", "y", "z", 2, 2);
    assert_eq!(a, "long");
}

#[test]
fn table_orderings() {
    assert_eq!(cmp_u32(1, 2, SortDir::Asc), Ordering::Less);
    assert_eq!(cmp_u32(1, 2, SortDir::Desc), Ordering::Greater);
    assert_eq!(cmp_u32(3, 3, SortDir::Desc), Ordering::Equal);
    assert_eq!(cmp_option_u64(Some(1), None, SortDir::Desc), Ordering::Less);
    assert_eq!(cmp_option_u64(None, Some(1), SortDir::Asc), Ordering::Greater);
    assert_eq!(cmp_option_u64(Some(5), Some(7), SortDir::Desc), Ordering::Greater);
    assert_eq!(cmp_option_char(Some('a'), Some('b'), SortDir::Desc), Ordering::Greater);
    assert_eq!(cmp_option_char(None, None, SortDir::Asc), Ordering::Equal);
    assert_eq!(cmp_str("abc", "abd", SortDir::Asc), Ordering::Less);
    assert_eq!(cmp_str("ab", "abc", SortDir::Asc), Ordering::Less);
    assert_eq!(cmp_str("b", "a", SortDir::Desc), Ordering::Less);
    assert_eq!(cmp_str("a", "a", SortDir::Asc), Ordering::Equal);
}

#[test]
fn gauge_cells() {
    assert_eq!(render_bar_cells(5, 10), "█████░░░░░");
    assert_eq!(render_bar_cells(20, 10), "██████████");
    assert_eq!(render_bar_cells(0, 0), "░");
    assert_eq!(render_bar_cells(3, 0), "█");
}
