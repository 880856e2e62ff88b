//! CPU, board, GPU, disk, display and mouse lines of the system overview.
use vstd::prelude::*;

use crate::fixed::{
    f64_of, f64_parts, fixed_text, int_value, lemma_f64_of_int, p2, pow2_u128, push_fixed,
    scaled_round,
};
use crate::text::{tr, Language};
use crate::strings::{
    blank, chars_of, contains, contains_seq, decimal, is_blank, opt_view, parse_uint,
    parse_uint_chars, push_decimal, push_str, string_of, trim, trim_chars, words, words_of, seqs,
};

verus! {

/// `format_freq`: below 1000 MHz the megahertz (`800 MHz`); otherwise the
/// megahertz converted to a double, divided by 1000 in double precision and
/// written with two decimals (`3.60 GHz`).
pub open spec fn freq_text(mhz: nat) -> Seq<char> {
    if mhz >= 1000 {
        let (m1, g1) = f64_of(mhz, 1);
        let (m, g) = f64_of(int_value(m1, g1), 1000);
        fixed_text(scaled_round(m, g, 2), 2) + " GHz"@
    } else {
        decimal(mhz) + " MHz"@
    }
}

/// Formats a frequency given in MHz.
pub fn format_freq(mhz: u64) -> (s: String)
    ensures
        s@ == freq_text(mhz as nat),
{
    let mut out: Vec<char> = Vec::new();
    if mhz < 1000 {
        push_decimal(&mut out, mhz);
        push_str(&mut out, " MHz");
        return string_of(&out);
    }
    let (m1, g1) = f64_parts(mhz as u128, 1);
    proof {
        crate::fixed::lemma_p2_units();
        lemma_p2_64_value();
        lemma_f64_of_int(mhz as nat);
    }
    let b: u128 = if g1 >= 0 {
        let d = pow2_u128(g1 as u32);
        proof {
            crate::fixed::lemma_p2_pos_pub(g1 as nat);
        }
        m1 / d
    } else {
        let f = pow2_u128((-g1) as u32);
        proof {
            lemma_p2_le_2048((-g1) as nat);
            lemma_p2_53_value();
            assert(m1 * f <= 0x20_0000_0000_0000 * 2048) by (nonlinear_arith)
                requires m1 <= 0x20_0000_0000_0000, f <= 2048;
            assert(m1 * f >= 1000) by (nonlinear_arith)
                requires m1 >= 0x10_0000_0000_0000, f >= 1;
        }
        m1 * f
    };
    assert(b as nat == int_value(m1 as nat, g1 as int));
    let (m, g) = f64_parts(b, 1000);
    push_fixed(&mut out, m, g, 2);
    push_str(&mut out, " GHz");
    string_of(&out)
}

proof fn lemma_p2_64_value()
    ensures
        p2(64) == 0x1_0000_0000_0000_0000,
{
    crate::fixed::lemma_p2_consts();
}

proof fn lemma_p2_53_value()
    ensures
        p2(52) == 0x10_0000_0000_0000,
        p2(53) == 0x20_0000_0000_0000,
{
    crate::fixed::lemma_p2_consts();
}

proof fn lemma_p2_le_2048(e: nat)
    requires
        e <= 11,
    ensures
        1 <= p2(e) <= 2048,
{
    crate::fixed::lemma_p2_consts();
    crate::fixed::lemma_p2_mono_pub(e, 11);
    crate::fixed::lemma_p2_pos_pub(e);
}


/// The positive entries of `s`, in order.
pub open spec fn positives(s: Seq<u64>) -> Seq<u64>
    decreases s.len(),
{
    if s.len() == 0 {
        Seq::<u64>::empty()
    } else if s.last() > 0 {
        positives(s.drop_last()).push(s.last())
    } else {
        positives(s.drop_last())
    }
}

/// Sum of `s`.
pub open spec fn total(s: Seq<u64>) -> nat
    decreases s.len(),
{
    if s.len() == 0 {
        0
    } else {
        total(s.drop_last()) + (s.last() as nat)
    }
}

/// Largest entry of a non-empty `s`.
pub open spec fn largest(s: Seq<u64>) -> u64
    decreases s.len(),
{
    if s.len() <= 1 {
        s[0]
    } else if s.last() > largest(s.drop_last()) {
        s.last()
    } else {
        largest(s.drop_last())
    }
}

/// The average of the non-zero frequencies (MHz), rounded down.
pub open spec fn avg_freq(freqs: Seq<u64>) -> Option<nat> {
    let p = positives(freqs);
    if p.len() == 0 {
        None
    } else {
        Some(total(p) / p.len())
    }
}

/// The highest non-zero frequency (MHz).
pub open spec fn max_freq(freqs: Seq<u64>) -> Option<nat> {
    let p = positives(freqs);
    if p.len() == 0 {
        None
    } else {
        Some(largest(p) as nat)
    }
}

proof fn lemma_push_stats(p: Seq<u64>, x: u64)
    ensures
        total(p.push(x)) == total(p) + x,
        largest(p.push(x)) == (if p.len() == 0 || x > largest(p) {
            x
        } else {
            largest(p)
        }),
{
    assert(p.push(x).drop_last() == p);
    assert(p.push(x).last() == x);
    if p.len() == 0 {
        assert(p.push(x)[0] == x);
    }
}

proof fn lemma_positives_step(s: Seq<u64>, i: int)
    requires
        0 <= i < s.len(),
    ensures
        positives(s.take(i + 1)) == (if s[i] > 0 {
            positives(s.take(i)).push(s[i])
        } else {
            positives(s.take(i))
        }),
{
    assert(s.take(i + 1).drop_last() == s.take(i));
    assert(s.take(i + 1).last() == s[i]);
}

proof fn lemma_total_positives_mono(s: Seq<u64>, i: int)
    requires
        0 <= i <= s.len(),
    ensures
        total(positives(s.take(i))) <= total(positives(s)),
    decreases s.len() - i,
{
    if i < s.len() {
        lemma_total_positives_mono(s.drop_last(), i);
        assert(s.drop_last().take(i) == s.take(i));
        lemma_push_stats(positives(s.drop_last()), s.last());
    } else {
        assert(s.take(i) == s);
    }
}

/// Positive entries, their count and their sum.
fn positive_stats(freqs: &Vec<u64>) -> (r: (u64, u64, u64))
    requires
        total(positives(freqs@)) <= u64::MAX,
    ensures
        r.0 as nat == positives(freqs@).len(),
        r.1 as nat == total(positives(freqs@)),
        r.0 > 0 ==> r.2 == largest(positives(freqs@)),
{
    let mut count: u64 = 0;
    let mut sum: u64 = 0;
    let mut best: u64 = 0;
    let mut i: usize = 0;
    while i < freqs.len()
        invariant
            i <= freqs.len(),
            total(positives(freqs@)) <= u64::MAX,
            count as nat == positives(freqs@.take(i as int)).len(),
            count <= i,
            sum as nat == total(positives(freqs@.take(i as int))),
            count > 0 ==> best == largest(positives(freqs@.take(i as int))),
        decreases freqs.len() - i,
    {
        let f = freqs[i];
        let ghost pre = freqs@.take(i as int);
        assert(freqs@.take(i + 1).drop_last() == pre);
        proof {
            lemma_total_positives_mono(freqs@, i + 1);
            lemma_positives_step(freqs@, i as int);
            lemma_push_stats(positives(pre), f);
        }
        if f > 0 {
            if count == 0 || f > best {
                best = f;
            }
            sum = sum + f;
            count = count + 1;
        }
        i += 1;
    }
    assert(freqs@.take(freqs.len() as int) == freqs@);
    (count, sum, best)
}

/// The average non-zero frequency, formatted; `None` when no CPU reports a
/// frequency.
pub fn summarize_cpu_freq(freqs: &Vec<u64>) -> (r: Option<String>)
    requires
        total(positives(freqs@)) <= u64::MAX,
    ensures
        match avg_freq(freqs@) {
            Some(f) => r is Some && r->0@ == freq_text(f),
            None => r is None,
        },
{
    let (count, sum, _best) = positive_stats(freqs);
    if count == 0 {
        return None;
    }
    Some(format_freq(sum / count))
}

/// The highest non-zero frequency, formatted.
pub fn max_cpu_freq(freqs: &Vec<u64>) -> (r: Option<String>)
    ensures
        match max_freq(freqs@) {
            Some(f) => r is Some && r->0@ == freq_text(f),
            None => r is None,
        },
{
    let mut best: Option<u64> = None;
    let mut i: usize = 0;
    while i < freqs.len()
        invariant
            i <= freqs.len(),
            match max_freq(freqs@.take(i as int)) {
                Some(f) => best == Some(f as u64),
                None => best is None,
            },
        decreases freqs.len() - i,
    {
        let f = freqs[i];
        proof {
            lemma_positives_step(freqs@, i as int);
            lemma_push_stats(positives(freqs@.take(i as int)), f);
        }
        if f > 0 {
            best = match best {
                Some(b) => if f > b {
                    Some(f)
                } else {
                    Some(b)
                },
                None => Some(f),
            };
        }
        i += 1;
    }
    assert(freqs@.take(freqs.len() as int) == freqs@);
    match best {
        Some(b) => Some(format_freq(b)),
        None => None,
    }
}

/// The CPU line: `brand (count)`, then ` @ ` and the highest rated
/// frequency when the cpufreq range is known, or else the highest current
/// frequency when one is reported.
pub open spec fn cpu_line_spec(
    brand: Seq<char>,
    count: nat,
    passport: Option<(u64, u64)>,
    freqs: Seq<u64>,
) -> Seq<char> {
    let head = brand + " ("@ + decimal(count) + ")"@;
    match passport {
        Some((_min, max)) => head + " @ "@ + freq_text(max as nat),
        None => match max_freq(freqs) {
            Some(f) => head + " @ "@ + freq_text(f),
            None => head,
        },
    }
}

/// The CPU line of the overview; `passport` is the (min, max) rated range
/// in MHz (see [`passport_freq_range`]) and `freqs` the current per-CPU
/// frequencies in MHz.
pub fn cpu_overview_line(
    cpu_brand: &str,
    cpu_count: usize,
    passport: Option<(u64, u64)>,
    freqs: &Vec<u64>,
) -> (r: String)
    ensures
        r@ == cpu_line_spec(cpu_brand@, cpu_count as nat, passport, freqs@),
{
    let mut out = chars_of(cpu_brand);
    push_str(&mut out, " (");
    push_decimal(&mut out, cpu_count as u64);
    push_str(&mut out, ")");
    match passport {
        Some((_min, max)) => {
            push_str(&mut out, " @ ");
            push_str(&mut out, format_freq(max).as_str());
        },
        None => match max_cpu_freq(freqs) {
            Some(f) => {
                push_str(&mut out, " @ ");
                push_str(&mut out, f.as_str());
            },
            None => {},
        },
    }
    string_of(&out)
}

/// The cpufreq values of one policy directory, in kHz.
#[derive(Clone, Copy, Debug)]
pub struct PolicyFreqs {
    pub min_khz: Option<u64>,
    pub max_khz: Option<u64>,
    pub base_khz: Option<u64>,
}

/// Smallest of the present values.
pub open spec fn opt_min(s: Seq<Option<u64>>) -> Option<u64>
    decreases s.len(),
{
    if s.len() == 0 {
        None
    } else {
        let acc = opt_min(s.drop_last());
        match s.last() {
            None => acc,
            Some(x) => match acc {
                Some(c) => Some(if x < c {
                    x
                } else {
                    c
                }),
                None => Some(x),
            },
        }
    }
}

/// Largest of the present values.
pub open spec fn opt_max(s: Seq<Option<u64>>) -> Option<u64>
    decreases s.len(),
{
    if s.len() == 0 {
        None
    } else {
        let acc = opt_max(s.drop_last());
        match s.last() {
            None => acc,
            Some(x) => match acc {
                Some(c) => Some(if x > c {
                    x
                } else {
                    c
                }),
                None => Some(x),
            },
        }
    }
}

/// The rated frequency range in MHz over all policies: the largest maximum,
/// and the smallest base frequency (or, without one, the smallest minimum,
/// or else the maximum); `None` without any maximum.
pub open spec fn passport_spec(ps: Seq<PolicyFreqs>) -> Option<(u64, u64)> {
    let mins = ps.map_values(|p: PolicyFreqs| p.min_khz);
    let maxs = ps.map_values(|p: PolicyFreqs| p.max_khz);
    let bases = ps.map_values(|p: PolicyFreqs| p.base_khz);
    match opt_max(maxs) {
        None => None,
        Some(mx) => {
            let mn = match opt_min(bases) {
                Some(b) => b,
                None => match opt_min(mins) {
                    Some(m) => m,
                    None => mx,
                },
            };
            Some(((mn / 1000) as u64, (mx / 1000) as u64))
        },
    }
}

/// The CPU's rated frequency range from its cpufreq policies.
pub fn passport_freq_range(policies: &Vec<PolicyFreqs>) -> (r: Option<(u64, u64)>)
    ensures
        r == passport_spec(policies@),
{
    let ghost ps = policies@;
    let mut mn: Option<u64> = None;
    let mut mx: Option<u64> = None;
    let mut base: Option<u64> = None;
    let mut i: usize = 0;
    while i < policies.len()
        invariant
            i <= policies.len(),
            ps == policies@,
            mn == opt_min(ps.take(i as int).map_values(|p: PolicyFreqs| p.min_khz)),
            mx == opt_max(ps.take(i as int).map_values(|p: PolicyFreqs| p.max_khz)),
            base == opt_min(ps.take(i as int).map_values(|p: PolicyFreqs| p.base_khz)),
        decreases policies.len() - i,
    {
        let p = policies[i];
        let ghost pre = ps.take(i as int);
        let ghost cur = ps.take(i + 1);
        assert(cur.map_values(|p: PolicyFreqs| p.min_khz).drop_last() =~= pre.map_values(|p: PolicyFreqs| p.min_khz));
        assert(cur.map_values(|p: PolicyFreqs| p.max_khz).drop_last() =~= pre.map_values(|p: PolicyFreqs| p.max_khz));
        assert(cur.map_values(|p: PolicyFreqs| p.base_khz).drop_last() =~= pre.map_values(|p: PolicyFreqs| p.base_khz));
        match p.min_khz {
            Some(v) => {
                mn = Some(match mn {
                    Some(c) => if v < c {
                        v
                    } else {
                        c
                    },
                    None => v,
                });
            },
            None => {},
        }
        match p.max_khz {
            Some(v) => {
                mx = Some(match mx {
                    Some(c) => if v > c {
                        v
                    } else {
                        c
                    },
                    None => v,
                });
            },
            None => {},
        }
        match p.base_khz {
            Some(v) => {
                base = Some(match base {
                    Some(c) => if v < c {
                        v
                    } else {
                        c
                    },
                    None => v,
                });
            },
            None => {},
        }
        i += 1;
    }
    assert(ps.take(policies.len() as int) == ps);
    let max_khz = match mx {
        Some(v) => v,
        None => {
            return None;
        },
    };
    let min_khz = match base {
        Some(b) => b,
        None => match mn {
            Some(m) => m,
            None => max_khz,
        },
    };
    Some((min_khz / 1000, max_khz / 1000))
}

/// A cpufreq value in kHz: the first word of the file, as a non-zero
/// decimal number.
pub open spec fn khz_spec(content: Seq<char>) -> Option<u64> {
    let ws = words(content);
    if ws.len() == 0 {
        None
    } else {
        match parse_uint(ws[0], u64::MAX as nat) {
            Some(n) => if n == 0 {
                None
            } else {
                Some(n as u64)
            },
            None => None,
        }
    }
}

/// Reads a cpufreq value from the text of its file.
pub fn parse_khz(content: &str) -> (r: Option<u64>)
    ensures
        r == khz_spec(content@),
{
    let v = chars_of(content);
    let ws = words_of(&v);
    if ws.len() == 0 {
        return None;
    }
    assert(seqs(ws@)[0] == ws@[0]@);
    match parse_uint_chars(&ws[0], u64::MAX) {
        Some(n) => if n == 0 {
            None
        } else {
            Some(n)
        },
        None => None,
    }
}

/// Keeps a value that is not blank.
pub open spec fn non_blank(v: Option<Seq<char>>) -> Option<Seq<char>> {
    match v {
        Some(s) => if blank(s) {
            None
        } else {
            Some(s)
        },
        None => None,
    }
}

/// The board line: the board name (or else the vendor), with the version in
/// brackets unless the line already contains it; blank values count as
/// missing.
pub open spec fn board_spec(
    name: Option<Seq<char>>,
    vendor: Option<Seq<char>>,
    version: Option<Seq<char>>,
) -> Option<Seq<char>> {
    let line = if non_blank(name) is Some {
        non_blank(name)
    } else {
        non_blank(vendor)
    };
    match line {
        None => None,
        Some(l) => match non_blank(version) {
            Some(v) => if !contains_seq(l, v) {
                Some(l + " ("@ + v + ")"@)
            } else {
                Some(l)
            },
            None => Some(l),
        },
    }
}

/// The view of an optional `&str`.
pub open spec fn opt_str(o: Option<&str>) -> Option<Seq<char>> {
    match o {
        Some(s) => Some(s@),
        None => None,
    }
}

/// Keeps a value that is not blank.
fn non_blank_exec(v: Option<&str>) -> (r: Option<Vec<char>>)
    ensures
        match non_blank(opt_str(v)) {
            Some(s) => r is Some && r->0@ == s,
            None => r is None,
        },
{
    match v {
        Some(s) => {
            let c = chars_of(s);
            if is_blank(&c) {
                None
            } else {
                Some(c)
            }
        },
        None => None,
    }
}

/// The motherboard line from the board's name, vendor and version.
pub fn motherboard_summary(
    name: Option<&str>,
    vendor: Option<&str>,
    version: Option<&str>,
) -> (r: Option<String>)
    ensures
        opt_view(r) == board_spec(opt_str(name), opt_str(vendor), opt_str(version)),
{
    let mut line = match non_blank_exec(name) {
        Some(n) => n,
        None => match non_blank_exec(vendor) {
            Some(v) => v,
            None => {
                return None;
            },
        },
    };
    match non_blank_exec(version) {
        Some(ver) => {
            let ver_s = string_of(&ver);
            if !contains(&line, ver_s.as_str()) {
                push_str(&mut line, " (");
                push_str(&mut line, ver_s.as_str());
                push_str(&mut line, ")");
            }
        },
        None => {},
    }
    Some(string_of(&line))
}

/// Discrete or integrated graphics.
#[derive(Clone, Copy, Debug, PartialEq, Eq)]
pub enum GpuKind {
    Discrete,
    Integrated,
    Unknown,
}

/// The GPU line: vendor and short device name, then the kind in brackets
/// when known.
pub open spec fn gpu_spec(vendor: Seq<char>, short_name: Seq<char>, kind: GpuKind, language: Language) -> Seq<char> {
    let label = if short_name.len() == 0 {
        vendor
    } else {
        vendor + " "@ + short_name
    };
    match kind {
        GpuKind::Discrete => label + " ["@ + (match language {
            Language::English => "Discrete"@,
            Language::Russian => "Дискретная"@,
        }) + "]"@,
        GpuKind::Integrated => label + " ["@ + (match language {
            Language::English => "Integrated"@,
            Language::Russian => "Встроенная"@,
        }) + "]"@,
        GpuKind::Unknown => label,
    }
}

/// The GPU line of the overview, from the vendor label and the shortened
/// device name of the selected GPU.
pub fn gpu_summary(vendor: &str, short_name: &str, kind: GpuKind, language: Language) -> (r: String)
    ensures
        r@ == gpu_spec(vendor@, short_name@, kind, language),
{
    let mut out = chars_of(vendor);
    if short_name.unicode_len() > 0 {
        push_str(&mut out, " ");
        push_str(&mut out, short_name);
    }
    match kind {
        GpuKind::Discrete => {
            push_str(&mut out, " [");
            push_str(&mut out, tr(language, "Discrete", "Дискретная"));
            push_str(&mut out, "]");
        },
        GpuKind::Integrated => {
            push_str(&mut out, " [");
            push_str(&mut out, tr(language, "Integrated", "Встроенная"));
            push_str(&mut out, "]");
        },
        GpuKind::Unknown => {},
    }
    string_of(&out)
}

/// Which name of a GPU to shorten for display: its device name unless that
/// is missing or blank, else its name.
pub fn gpu_device_name<'a>(device: Option<&'a str>, name: &'a str) -> (r: &'a str)
    ensures
        r@ == (match non_blank(opt_str(device)) {
            Some(d) => d,
            None => name@,
        }),
{
    match device {
        Some(d) => {
            let c = chars_of(d);
            if is_blank(&c) {
                name
            } else {
                d
            }
        },
        None => name,
    }
}

/// Pseudo and virtual file systems left out of the disk lines.
pub open spec fn skipped_fs(fs: Seq<char>) -> bool {
    fs == "tmpfs"@
    || fs == "devtmpfs"@
    || fs == "overlay"@
    || fs == "squashfs"@
    || fs == "proc"@
    || fs == "sysfs"@
    || fs == "cgroup2"@
    || fs == "debugfs"@
    || fs == "tracefs"@
    || fs == "configfs"@
    || fs == "mqueue"@
    || fs == "hugetlbfs"@
    || fs == "ramfs"@
    || fs == "autofs"@
    || fs == "fusectl"@
    || fs == "pstore"@
    || fs == "securityfs"@
    || fs == "selinuxfs"@
    || fs == "binfmt_misc"@
}

/// Whether a file system is pseudo or virtual, not a disk.
pub fn should_skip_fs(fs: &str) -> (r: bool)
    ensures
        r == skipped_fs(fs@),
{
    let v = chars_of(fs);
    crate::strings::eq_str(&v, "tmpfs")
    || crate::strings::eq_str(&v, "devtmpfs")
    || crate::strings::eq_str(&v, "overlay")
    || crate::strings::eq_str(&v, "squashfs")
    || crate::strings::eq_str(&v, "proc")
    || crate::strings::eq_str(&v, "sysfs")
    || crate::strings::eq_str(&v, "cgroup2")
    || crate::strings::eq_str(&v, "debugfs")
    || crate::strings::eq_str(&v, "tracefs")
    || crate::strings::eq_str(&v, "configfs")
    || crate::strings::eq_str(&v, "mqueue")
    || crate::strings::eq_str(&v, "hugetlbfs")
    || crate::strings::eq_str(&v, "ramfs")
    || crate::strings::eq_str(&v, "autofs")
    || crate::strings::eq_str(&v, "fusectl")
    || crate::strings::eq_str(&v, "pstore")
    || crate::strings::eq_str(&v, "securityfs")
    || crate::strings::eq_str(&v, "selinuxfs")
    || crate::strings::eq_str(&v, "binfmt_misc")
}

} // verus!
