//! Byte sizes, durations and text fitted to a display width.
use vstd::prelude::*;

use crate::fixed::{lemma_p2_units, f64_of, f64_parts, fixed_text, p2, push_fixed, scaled_round};
use crate::strings::{chars_of, decimal, pad2, push_decimal, push_pad2, push_str, slice_of, string_of};

verus! {

/// Days, hours, minutes and seconds of `secs`.
pub open spec fn split_secs(secs: nat) -> (nat, nat, nat, nat) {
    let days = secs / 86_400;
    let rem = secs % 86_400;
    let hours = rem / 3_600;
    let rem2 = rem % 3_600;
    (days, hours, rem2 / 60, rem2 % 60)
}

/// `"{d}d {hh}h {mm}m"`, `"{h}h {mm}m"` or `"{m}m {ss}s"`, by the largest
/// non-zero unit among days and hours.
pub open spec fn duration_text(secs: nat) -> Seq<char> {
    let (d, h, m, s) = split_secs(secs);
    if d > 0 {
        decimal(d) + "d "@ + pad2(h) + "h "@ + pad2(m) + "m"@
    } else if h > 0 {
        decimal(h) + "h "@ + pad2(m) + "m"@
    } else {
        decimal(m) + "m "@ + pad2(s) + "s"@
    }
}

/// Like [`duration_text`], but with days the minutes are left out:
/// `"{d}d {hh}h"`.
pub open spec fn duration_short_text(secs: nat) -> Seq<char> {
    let (d, h, m, s) = split_secs(secs);
    if d > 0 {
        decimal(d) + "d "@ + pad2(h) + "h"@
    } else {
        duration_text(secs)
    }
}

/// Formats an uptime such as `1d 01h 01m`, `1h 01m` or `1m 15s`.
pub fn format_duration(secs: u64) -> (s: String)
    ensures
        s@ == duration_text(secs as nat),
{
    let days = secs / 86_400;
    let rem = secs % 86_400;
    let hours = rem / 3_600;
    let rem2 = rem % 3_600;
    let minutes = rem2 / 60;
    let seconds = rem2 % 60;
    let mut out: Vec<char> = Vec::new();
    if days > 0 {
        push_decimal(&mut out, days);
        push_str(&mut out, "d ");
        push_pad2(&mut out, hours);
        push_str(&mut out, "h ");
        push_pad2(&mut out, minutes);
        push_str(&mut out, "m");
    } else if hours > 0 {
        push_decimal(&mut out, hours);
        push_str(&mut out, "h ");
        push_pad2(&mut out, minutes);
        push_str(&mut out, "m");
    } else {
        push_decimal(&mut out, minutes);
        push_str(&mut out, "m ");
        push_pad2(&mut out, seconds);
        push_str(&mut out, "s");
    }
    string_of(&out)
}

/// Formats a duration compactly: `1d 01h`, `1h 01m` or `1m 15s`.
pub fn format_duration_short(secs: u64) -> (s: String)
    ensures
        s@ == duration_short_text(secs as nat),
{
    let days = secs / 86_400;
    let rem = secs % 86_400;
    let hours = rem / 3_600;
    if days > 0 {
        let mut out: Vec<char> = Vec::new();
        push_decimal(&mut out, days);
        push_str(&mut out, "d ");
        push_pad2(&mut out, hours);
        push_str(&mut out, "h");
        string_of(&out)
    } else {
        format_duration(secs)
    }
}

/// Below one day, the short and the long duration texts are the same.
pub proof fn lemma_short_duration_agrees_below_a_day(secs: nat)
    requires
        secs < 86_400,
    ensures
        duration_short_text(secs) == duration_text(secs),
{
}

/// Converts mebibytes to bytes, saturating at `u64::MAX`.
pub fn mib_to_bytes(mib: u64) -> (b: u64)
    ensures
        b == if mib * 1_048_576 <= u64::MAX {
            mib * 1_048_576
        } else {
            u64::MAX as int
        },
{
    match mib.checked_mul(1024 * 1024) {
        Some(b) => b,
        None => u64::MAX,
    }
}


/// What `unicode_width::UnicodeWidthChar::width` gives for a character:
/// its display width in columns, or `None` for a control character.
pub uninterp spec fn unicode_char_width(c: char) -> Option<usize>;

/// What `unicode_width::UnicodeWidthStr::width` gives for a string: its
/// display width in columns.
pub uninterp spec fn unicode_str_width(s: Seq<char>) -> usize;

/// Calls `unicode_width::UnicodeWidthChar::width`. The contract names its
/// result and states what the crate's source shows for ASCII and the C1
/// range: U+0020 to U+007E are one column wide; U+0000 to U+001F and U+007F
/// to U+009F are control characters (`None`). The widths of the other
/// characters come from the crate's Unicode tables and are not stated.
#[verifier::external_body]
fn char_width(c: char) -> (w: Option<usize>)
    ensures
        w == unicode_char_width(c),
        0x20 <= c as u32 <= 0x7E ==> w == Some(1usize),
        (c as u32) < 0x20 || (0x7F <= c as u32 && (c as u32) < 0xA0) ==> w is None,
{
    unicode_width::UnicodeWidthChar::width(c)
}

/// Whether every character of `a` is printable ASCII (U+0020 to U+007E).
pub open spec fn printable_ascii(a: Seq<char>) -> bool {
    forall|i: int| 0 <= i < a.len() ==> 0x20 <= #[trigger] a[i] as u32 <= 0x7E
}

/// Display width of `value` in terminal columns
/// (`unicode_width::UnicodeWidthStr::width`). The contract names the result;
/// it states, as the crate's source shows, that the empty string has width
/// 0, that a string of printable ASCII characters (U+0020 to U+007E) is as
/// wide as it is long, and that printable ASCII appended to `value` adds
/// its length (the crate sums from the right, and such characters count
/// one each and leave no state for the characters before them; the sum
/// wraps, so only where it does not overflow). How the width of other
/// strings follows from their characters (the crate's ligature and emoji
/// rules) is not stated.
#[verifier::external_body]
pub fn text_width(value: &str) -> (w: usize)
    ensures
        w == unicode_str_width(value@),
        value@.len() == 0 ==> w == 0,
        printable_ascii(value@) ==> w == value@.len(),
        forall|a: Seq<char>|
            printable_ascii(a) && w + a.len() <= usize::MAX ==> #[trigger] unicode_str_width(value@ + a) == w
                + a.len(),
{
    unicode_width::UnicodeWidthStr::width(value)
}

/// Columns a character takes when text is cut to a width: one for a
/// printable ASCII character, zero for a control character, else its
/// Unicode width.
pub open spec fn cell_width(c: char) -> nat {
    if 0x20 <= c as u32 <= 0x7E {
        1
    } else {
        match unicode_char_width(c) {
            Some(w) => w as nat,
            None => 0,
        }
    }
}

/// Total `cell_width` of the first `n` characters of `s`.
pub open spec fn prefix_width(s: Seq<char>, n: int) -> nat
    decreases n,
{
    if n <= 0 || s.len() == 0 {
        0
    } else if n > s.len() {
        prefix_width(s, s.len() as int)
    } else {
        prefix_width(s, n - 1) + cell_width(s[n - 1])
    }
}

/// How many leading characters of `s` are kept when cutting to `max`
/// columns: characters are taken while each still fits in what is left.
pub open spec fn fit_count(s: Seq<char>, max: nat) -> nat
    decreases s.len(),
{
    if s.len() == 0 || cell_width(s[0]) > max {
        0
    } else {
        1 + fit_count(s.drop_first(), (max - cell_width(s[0])) as nat)
    }
}

/// The longest prefix of `s` that is at most `max` columns wide.
pub open spec fn take_width_text(s: Seq<char>, max: nat) -> Seq<char> {
    s.take(fit_count(s, max) as int)
}

/// `value` fitted to `max_len` columns: unchanged when it fits, otherwise
/// cut, with `...` at the end when there is room for more than three
/// columns.
pub open spec fn fit_text_spec(value: Seq<char>, max_len: nat) -> Seq<char> {
    if max_len == 0 {
        Seq::<char>::empty()
    } else if unicode_str_width(value) <= max_len {
        value
    } else if max_len <= 3 {
        take_width_text(value, max_len)
    } else {
        take_width_text(value, (max_len - 3) as nat) + "..."@
    }
}

proof fn lemma_fit_count_bound(s: Seq<char>, max: nat)
    ensures
        fit_count(s, max) <= s.len(),
    decreases s.len(),
{
    if s.len() > 0 && cell_width(s[0]) <= max {
        lemma_fit_count_bound(s.drop_first(), (max - cell_width(s[0])) as nat);
    }
}

/// Number of leading characters of `v` that fit in `max_len` columns.
fn fit_count_exec(v: &Vec<char>, max_len: usize) -> (n: usize)
    ensures
        n == fit_count(v@, max_len as nat),
        n <= v.len(),
{
    let mut i: usize = 0;
    let mut left: usize = max_len;
    assert(v@.skip(0) == v@);
    while i < v.len()
        invariant
            i <= v.len(),
            left <= max_len,
            fit_count(v@, max_len as nat) == i + fit_count(v@.skip(i as int), left as nat),
        decreases v.len() - i,
    {
        let w: usize = match char_width(v[i]) {
            Some(w) => w,
            None => 0,
        };
        let ghost t = v@.skip(i as int);
        assert(t[0] == v@[i as int]);
        if w > left {
            return i;
        }
        assert(t.drop_first() == v@.skip(i + 1));
        left = left - w;
        i += 1;
    }
    assert(v@.skip(i as int).len() == 0);
    i
}

/// The longest prefix of `value` that is at most `max_len` columns wide.
pub fn take_width(value: &str, max_len: usize) -> (s: String)
    ensures
        s@ == take_width_text(value@, max_len as nat),
{
    let v = chars_of(value);
    let n = fit_count_exec(&v, max_len);
    let r = slice_of(&v, 0, n);
    assert(r@ == v@.take(n as int));
    string_of(&r)
}

/// Fits `value` into `max_len` display columns, ending with `...` when it
/// had to be cut and there is room for more than three columns.
pub fn fit_text(value: &str, max_len: usize) -> (s: String)
    ensures
        s@ == fit_text_spec(value@, max_len as nat),
{
    if max_len == 0 {
        let e: Vec<char> = Vec::new();
        assert(e@ =~= Seq::<char>::empty());
        return string_of(&e);
    }
    if text_width(value) <= max_len {
        let v = chars_of(value);
        return string_of(&v);
    }
    let v = chars_of(value);
    if max_len <= 3 {
        let n = fit_count_exec(&v, max_len);
        let r = slice_of(&v, 0, n);
        assert(r@ == v@.take(n as int));
        return string_of(&r);
    }
    let n = fit_count_exec(&v, max_len - 3);
    let mut r = slice_of(&v, 0, n);
    assert(r@ == v@.take(n as int));
    push_str(&mut r, "...");
    string_of(&r)
}

/// The kept prefix is at most `max` columns wide, and the next character
/// (if any) would not have fit.
pub proof fn lemma_take_width_is_longest_fit(s: Seq<char>, max: nat)
    ensures
        fit_count(s, max) <= s.len(),
        prefix_width(s, fit_count(s, max) as int) <= max,
        fit_count(s, max) < s.len() ==> prefix_width(s, fit_count(s, max) + 1int) > max,
    decreases s.len(),
{
    lemma_fit_count_bound(s, max);
    if s.len() > 0 && cell_width(s[0]) <= max {
        let rest = s.drop_first();
        let m = (max - cell_width(s[0])) as nat;
        lemma_take_width_is_longest_fit(rest, m);
        let k = fit_count(rest, m) as int;
        lemma_prefix_width_shift(s, k);
        if k < rest.len() {
            lemma_prefix_width_shift(s, k + 1);
        }
    } else if s.len() > 0 {
        assert(prefix_width(s, 1) == prefix_width(s, 0) + cell_width(s[0]));
    }
}

/// Width of a prefix of `s` = width of its first character + width of the
/// rest's prefix.
proof fn lemma_prefix_width_shift(s: Seq<char>, k: int)
    requires
        s.len() > 0,
        0 <= k < s.len(),
    ensures
        prefix_width(s, k + 1) == cell_width(s[0]) + prefix_width(s.drop_first(), k),
    decreases k,
{
    let d = s.drop_first();
    if k > 0 {
        lemma_prefix_width_shift(s, k - 1);
        assert(d[k - 1] == s[k]);
        assert(prefix_width(s, k + 1) == prefix_width(s, k) + cell_width(s[k]));
        assert(prefix_width(d, k) == prefix_width(d, k - 1) + cell_width(d[k - 1]));
    } else {
        assert(prefix_width(s, 0) == 0);
        assert(prefix_width(d, 0) == 0);
        assert(prefix_width(s, 1) == prefix_width(s, 0) + cell_width(s[0]));
    }
}


/// `format_bytes`: below 1024 the byte count itself (`512 B`); otherwise the
/// count converted to a double and divided by 1024 per unit, with one
/// decimal (`1.5 KiB`), in the largest unit of KiB, MiB, GiB and TiB that
/// leaves a value of at least 1.
pub open spec fn bytes_text(b: nat) -> Seq<char> {
    let (m, g) = f64_of(b, 1);
    if b < 1024 {
        decimal(b) + " B"@
    } else if b < p2(20) {
        fixed_text(scaled_round(m, g + 10, 1), 1) + " KiB"@
    } else if b < p2(30) {
        fixed_text(scaled_round(m, g + 20, 1), 1) + " MiB"@
    } else if b < p2(40) {
        fixed_text(scaled_round(m, g + 30, 1), 1) + " GiB"@
    } else {
        fixed_text(scaled_round(m, g + 40, 1), 1) + " TiB"@
    }
}

/// Formats a byte count with binary units: `512 B`, `1.5 KiB`, `2.0 TiB`.
pub fn format_bytes(bytes: u64) -> (s: String)
    ensures
        s@ == bytes_text(bytes as nat),
{
    let mut out: Vec<char> = Vec::new();
    if bytes < 1024 {
        push_decimal(&mut out, bytes);
        push_str(&mut out, " B");
        return string_of(&out);
    }
    let (m, g) = f64_parts(bytes as u128, 1);
    proof {
        lemma_p2_units();
    }
    if bytes < 0x10_0000 {
        push_fixed(&mut out, m, g + 10, 1);
        push_str(&mut out, " KiB");
    } else if bytes < 0x4000_0000 {
        push_fixed(&mut out, m, g + 20, 1);
        push_str(&mut out, " MiB");
    } else if bytes < 0x100_0000_0000 {
        push_fixed(&mut out, m, g + 30, 1);
        push_str(&mut out, " GiB");
    } else {
        push_fixed(&mut out, m, g + 40, 1);
        push_str(&mut out, " TiB");
    }
    string_of(&out)
}


/// `format_net`: a transfer rate in bytes per second converted to a
/// double: below 1024 the whole number (`512B/s`); otherwise divided by 1024
/// per unit, with one decimal (`1.5K/s`), in the largest unit of K, M, G
/// and T that leaves a value of at least 1; `-` when there is no rate.
pub open spec fn net_text(rate: Option<u64>) -> Seq<char> {
    match rate {
        None => "-"@,
        Some(v) => {
            let b = v as nat;
            let (m, g) = f64_of(b, 1);
            if b < 1024 {
                decimal(b) + "B/s"@
            } else if b < p2(20) {
                fixed_text(scaled_round(m, g + 10, 1), 1) + "K/s"@
            } else if b < p2(30) {
                fixed_text(scaled_round(m, g + 20, 1), 1) + "M/s"@
            } else if b < p2(40) {
                fixed_text(scaled_round(m, g + 30, 1), 1) + "G/s"@
            } else {
                fixed_text(scaled_round(m, g + 40, 1), 1) + "T/s"@
            }
        },
    }
}

/// Formats a transfer rate: `512B/s`, `1.5K/s`, `2.0G/s`, or `-`.
pub fn format_net(value: Option<u64>) -> (s: String)
    ensures
        s@ == net_text(value),
{
    let rate = match value {
        None => {
            return string_of(&chars_of("-"));
        },
        Some(v) => v,
    };
    let mut out: Vec<char> = Vec::new();
    if rate < 1024 {
        push_decimal(&mut out, rate);
        push_str(&mut out, "B/s");
        return string_of(&out);
    }
    let (m, g) = f64_parts(rate as u128, 1);
    proof {
        lemma_p2_units();
    }
    if rate < 0x10_0000 {
        push_fixed(&mut out, m, g + 10, 1);
        push_str(&mut out, "K/s");
    } else if rate < 0x4000_0000 {
        push_fixed(&mut out, m, g + 20, 1);
        push_str(&mut out, "M/s");
    } else if rate < 0x100_0000_0000 {
        push_fixed(&mut out, m, g + 30, 1);
        push_str(&mut out, "G/s");
    } else {
        push_fixed(&mut out, m, g + 40, 1);
        push_str(&mut out, "T/s");
    }
    string_of(&out)
}

/// `fit_text` leaves a value that fits in the columns unchanged.
pub proof fn lemma_fit_text_keeps_fitting_text(value: Seq<char>, max_len: nat)
    requires
        max_len > 0,
        unicode_str_width(value) <= max_len,
    ensures
        fit_text_spec(value, max_len) == value,
{
}

proof fn lemma_prefix_width_take(s: Seq<char>, k: int, n: int)
    requires
        0 <= n <= k <= s.len(),
    ensures
        prefix_width(s.take(k), n) == prefix_width(s, n),
    decreases n,
{
    if n > 0 {
        lemma_prefix_width_take(s, k, n - 1);
    }
}

/// The cut part of a fitted value is at most `max` columns wide.
proof fn lemma_take_width_text_width(s: Seq<char>, max: nat)
    ensures
        prefix_width(take_width_text(s, max), take_width_text(s, max).len() as int) <= max,
{
    lemma_take_width_is_longest_fit(s, max);
    let k = fit_count(s, max) as int;
    lemma_prefix_width_take(s, k, k);
}

/// Whether the display width of each prefix of `value` is the sum of its
/// characters' widths (true unless `value` holds control characters or
/// character sequences that the Unicode width rules join).
pub open spec fn widths_add_up(value: Seq<char>) -> bool {
    forall|k: int| 0 <= k <= value.len() ==> #[trigger] unicode_str_width(value.take(k)) == prefix_width(value, k)
}

/// Whether `...` appended to each prefix of `value` adds three columns, as
/// `text_width` states for printable ASCII appended to what it measures.
pub open spec fn dots_add_three(value: Seq<char>) -> bool {
    forall|k: int|
        0 <= k <= value.len() ==> #[trigger] unicode_str_width(value.take(k) + "..."@) == unicode_str_width(
            value.take(k),
        ) + 3
}

/// Fitted text is no wider than the columns it was fitted to, where the
/// widths of the value add up over its characters.
pub proof fn lemma_fit_text_fits(value: Seq<char>, max_len: nat)
    requires
        widths_add_up(value),
        dots_add_three(value),
    ensures
        unicode_str_width(fit_text_spec(value, max_len)) <= max_len,
{
    if max_len == 0 {
        assert(value.take(0) =~= Seq::<char>::empty());
        assert(unicode_str_width(value.take(0)) == prefix_width(value, 0));
        assert(fit_text_spec(value, max_len) =~= value.take(0));
    } else if unicode_str_width(value) <= max_len {
    } else if max_len <= 3 {
        let k = fit_count(value, max_len) as int;
        lemma_take_width_text_width(value, max_len);
        lemma_fit_count_bound(value, max_len);
        assert(unicode_str_width(value.take(k)) == prefix_width(value, k));
        lemma_prefix_width_take(value, k, k);
    } else {
        let m = (max_len - 3) as nat;
        let k = fit_count(value, m) as int;
        lemma_take_width_text_width(value, m);
        lemma_fit_count_bound(value, m);
        assert(unicode_str_width(value.take(k)) == prefix_width(value, k));
        lemma_prefix_width_take(value, k, k);
        assert(unicode_str_width(value.take(k) + "..."@) == unicode_str_width(value.take(k)) + 3);
    }
}

/// Fitting a value a second time to the same columns changes nothing,
/// where the widths of the value add up over its characters.
pub proof fn lemma_fit_text_twice(value: Seq<char>, max_len: nat)
    requires
        widths_add_up(value),
        dots_add_three(value),
    ensures
        fit_text_spec(fit_text_spec(value, max_len), max_len) == fit_text_spec(value, max_len),
{
    lemma_fit_text_fits(value, max_len);
}

} // verus!
