//! Small pieces of the panels: bar widths, padded help rows, the GPU
//! memory column, the core count line, and the orderings of the process
//! tables.
use std::cmp::Ordering;
use vstd::prelude::*;
use crate::format::{bytes_text, format_bytes};
use crate::proc_tree::seq_less;
use crate::strings::{chars_of, decimal, push_decimal, push_str, string_of};

verus! {

/// `v` clamped to `lo..=hi`.
pub open spec fn clamp(v: int, lo: int, hi: int) -> int {
    if v < lo {
        lo
    } else if v > hi {
        hi
    } else {
        v
    }
}

/// The width of a gauge bar: what is left after the tail, kept between 10
/// and 24 columns.
pub fn calc_bar_width(total_width: usize, min_tail: usize) -> (w: usize)
    ensures
        w == clamp(if total_width >= min_tail { total_width - min_tail } else { 0 }, 10, 24),
{
    let rest = total_width.saturating_sub(min_tail);
    if rest < 10 {
        10
    } else if rest > 24 {
        24
    } else {
        rest
    }
}

/// The width of the labels in the detail tabs: the panel width kept
/// between 6 and 12 columns.
pub fn label_width(width: usize) -> (w: usize)
    ensures
        w == clamp(width as int, 6, 12),
{
    if width < 6 {
        6
    } else if width > 12 {
        12
    } else {
        width
    }
}

/// The core count: `<physical>P / <logical>L`, or `<logical>L` when the
/// number of physical cores is unknown or zero.
pub open spec fn cores_text(physical: Option<usize>, logical: usize) -> Seq<char> {
    match physical {
        Some(p) => if p > 0 {
            decimal(p as nat) + "P / "@ + decimal(logical as nat) + "L"@
        } else {
            decimal(logical as nat) + "L"@
        },
        None => decimal(logical as nat) + "L"@,
    }
}

/// The core count line of the CPU tab.
pub fn cpu_cores_text(physical: Option<usize>, logical: usize) -> (s: String)
    ensures
        s@ == cores_text(physical, logical),
{
    let mut out: Vec<char> = Vec::new();
    match physical {
        Some(p) => {
            if p > 0 {
                push_decimal(&mut out, p as u64);
                push_str(&mut out, "P / ");
            }
        },
        None => {},
    }
    push_decimal(&mut out, logical as u64);
    push_str(&mut out, "L");
    string_of(&out)
}

/// The GPU memory of a process given in MiB: its size in bytes
/// (`u64::MAX` when that does not fit) formatted, or `-` when unknown.
pub open spec fn fb_text(value: Option<u64>) -> Seq<char> {
    match value {
        Some(mb) => bytes_text(
            if mb * 1048576 > u64::MAX {
                u64::MAX as nat
            } else {
                (mb * 1048576) as nat
            },
        ),
        None => "-"@,
    }
}

/// The GPU memory column of a process.
pub fn format_fb_mb(value: Option<u64>) -> (s: String)
    ensures
        s@ == fb_text(value),
{
    match value {
        Some(mb) => {
            let bytes = match mb.checked_mul(1024 * 1024) {
                Some(b) => b,
                None => u64::MAX,
            };
            format_bytes(bytes)
        },
        None => string_of(&chars_of("-")),
    }
}

/// `s` padded with spaces to `width` characters (`{:<width$}`).
pub open spec fn pad_right(s: Seq<char>, width: nat) -> Seq<char> {
    if s.len() < width {
        s + Seq::new((width - s.len()) as nat, |_i: int| ' ')
    } else {
        s
    }
}

/// `s` padded with spaces to `width` characters.
pub(crate) fn pad_right_string(s: &str, width: usize) -> (r: String)
    ensures
        r@ == pad_right(s@, width as nat),
{
    let mut out = chars_of(s);
    let ghost base = out@;
    if out.len() < width {
        assert(out@ =~= base + Seq::new(0, |_i: int| ' '));
        while out.len() < width
            invariant
                base == s@,
                out@.len() >= base.len(),
                out@.len() <= width,
                out@ == base + Seq::new((out@.len() - base.len()) as nat, |_i: int| ' '),
            decreases width - out.len(),
        {
            out.push(' ');
            assert(out@ =~= base + Seq::new((out@.len() - base.len()) as nat, |_i: int| ' '));
        }
    }
    string_of(&out)
}

/// A row of the help screen: two key and description pairs, the keys
/// padded to `col1` characters and the first description to `col2`.
pub fn make_row(key1: &str, desc1: &str, key2: &str, desc2: &str, col1: usize, col2: usize) -> (r: (
    String,
    String,
    String,
    String,
))
    ensures
        r.0@ == pad_right(key1@, col1 as nat),
        r.1@ == pad_right(desc1@, col2 as nat),
        r.2@ == pad_right(key2@, col1 as nat),
        r.3@ == desc2@,
{
    (
        pad_right_string(key1, col1),
        pad_right_string(desc1, col2),
        pad_right_string(key2, col1),
        string_of(&chars_of(desc2)),
    )
}

/// The direction of a table's ordering.
#[derive(Clone, Copy, Debug, PartialEq, Eq)]
pub enum SortDir {
    Asc,
    Desc,
}

/// The order of two values given by whether each is below the other.
pub open spec fn order_of(less: bool, greater: bool) -> Ordering {
    if less {
        Ordering::Less
    } else if greater {
        Ordering::Greater
    } else {
        Ordering::Equal
    }
}

/// Compares two numbers in the direction `dir`.
pub fn cmp_u32(a: u32, b: u32, dir: SortDir) -> (o: Ordering)
    ensures
        o == (match dir {
            SortDir::Asc => order_of(a < b, a > b),
            SortDir::Desc => order_of(b < a, b > a),
        }),
{
    let (x, y) = match dir {
        SortDir::Asc => (a, b),
        SortDir::Desc => (b, a),
    };
    if x < y {
        Ordering::Less
    } else if x > y {
        Ordering::Greater
    } else {
        Ordering::Equal
    }
}

/// Compares two optional numbers: present values in the direction `dir`,
/// and any present value before a missing one.
pub open spec fn option_order(a: Option<u64>, b: Option<u64>, dir: SortDir) -> Ordering {
    match (a, b) {
        (Some(x), Some(y)) => match dir {
            SortDir::Asc => order_of(x < y, x > y),
            SortDir::Desc => order_of(y < x, y > x),
        },
        (Some(_), None) => Ordering::Less,
        (None, Some(_)) => Ordering::Greater,
        (None, None) => Ordering::Equal,
    }
}

/// Compares two optional numbers.
pub fn cmp_option_u64(a: Option<u64>, b: Option<u64>, dir: SortDir) -> (o: Ordering)
    ensures
        o == option_order(a, b, dir),
{
    match (a, b) {
        (Some(x), Some(y)) => {
            let (p, q) = match dir {
                SortDir::Asc => (x, y),
                SortDir::Desc => (y, x),
            };
            if p < q {
                Ordering::Less
            } else if p > q {
                Ordering::Greater
            } else {
                Ordering::Equal
            }
        },
        (Some(_), None) => Ordering::Less,
        (None, Some(_)) => Ordering::Greater,
        (None, None) => Ordering::Equal,
    }
}

/// The code point of an optional character.
pub open spec fn char_key(c: Option<char>) -> Option<u64> {
    match c {
        Some(c) => Some(c as u64),
        None => None,
    }
}

/// Compares two optional characters: present ones by code point in the
/// direction `dir`, and any present one before a missing one.
pub fn cmp_option_char(a: Option<char>, b: Option<char>, dir: SortDir) -> (o: Ordering)
    ensures
        o == option_order(char_key(a), char_key(b), dir),
{
    cmp_option_u64(code_point(a), code_point(b), dir)
}

/// The code point of an optional character.
fn code_point(c: Option<char>) -> (r: Option<u64>)
    ensures
        r == char_key(c),
{
    match c {
        Some(ch) => Some(ch as u64),
        None => None,
    }
}

/// Compares two names as `str` orders them, in the direction `dir`.
pub fn cmp_str(a: &str, b: &str, dir: SortDir) -> (o: Ordering)
    ensures
        o == (match dir {
            SortDir::Asc => order_of(seq_less(a@, b@), seq_less(b@, a@)),
            SortDir::Desc => order_of(seq_less(b@, a@), seq_less(a@, b@)),
        }),
{
    let va = chars_of(a);
    let vb = chars_of(b);
    let (x, y) = match dir {
        SortDir::Asc => (va, vb),
        SortDir::Desc => (vb, va),
    };
    if crate::proc_tree::str_less(&x, &y) {
        Ordering::Less
    } else if crate::proc_tree::str_less(&y, &x) {
        Ordering::Greater
    } else {
        Ordering::Equal
    }
}

/// The cells of a gauge `width` columns wide with `filled` of them filled
/// (at least one column; at most all of them filled).
pub open spec fn bar_cells(filled: nat, width: nat) -> Seq<char> {
    let w = if width > 1 { width } else { 1 };
    let f = if filled < w { filled } else { w };
    Seq::new(f, |_i: int| '\u{2588}') + Seq::new((w - f) as nat, |_i: int| '\u{2591}')
}

/// The cells of a gauge with `filled` of `width` columns filled.
pub fn render_bar_cells(filled: usize, width: usize) -> (s: String)
    ensures
        s@ == bar_cells(filled as nat, width as nat),
{
    let w = if width > 1 { width } else { 1 };
    let f = if filled < w { filled } else { w };
    let mut out: Vec<char> = Vec::new();
    let mut i: usize = 0;
    while i < f
        invariant
            i <= f,
            out@ == Seq::new(i as nat, |_k: int| '\u{2588}'),
        decreases f - i,
    {
        out.push('\u{2588}');
        i += 1;
        assert(out@ =~= Seq::new(i as nat, |_k: int| '\u{2588}'));
    }
    let ghost head = out@;
    let mut j: usize = 0;
    while j < w - f
        invariant
            j <= w - f,
            out@ == head + Seq::new(j as nat, |_k: int| '\u{2591}'),
        decreases w - f - j,
    {
        out.push('\u{2591}');
        j += 1;
        assert(out@ =~= head + Seq::new(j as nat, |_k: int| '\u{2591}'));
    }
    string_of(&out)
}

} // verus!
