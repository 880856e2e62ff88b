//! The display line (resolution, refresh rate, size, connector) read from
//! `xrandr --query` or the DRM connector files, and the mouse name read
//! from the kernel's input device list.
use vstd::prelude::*;
use crate::strings::{
    before_char, before_char_chars, chars_of, contains, contains_char, contains_seq, has_prefix,
    has_suffix, ends_with, lower_chars, lower_seq, parse_uint, parse_uint_chars, split_once,
    split_once_chars, strip_suffixes, strip_suffixes_chars, trim, trim_chars, words, words_of,
    seqs, eq_str, lines, lines_of, push_str, push_decimal, decimal, string_of, opt_view,
    starts_with, slice_of, strip_both, strip_both_chars, index_of, lemma_index_of,
    lemma_decimal_digits, lemma_parse_decimal, all_digits, is_ws, trim_start, trim_end,
};
use crate::text::{Language, tr};
use crate::software::{is_digit, first_digit, version_run, lemma_first_digit, lemma_version_run};

verus! {

/// A connector that is not built into the machine: its name does not
/// mention `edp`, `lvds` or `dsi`, in any case.
pub open spec fn external_connector(connector: Seq<char>) -> bool {
    let l = lower_seq(connector);
    !(contains_seq(l, "edp"@) || contains_seq(l, "lvds"@) || contains_seq(l, "dsi"@))
}

/// Whether a display connector (such as `HDMI-1` or `eDP-1`) is external.
pub fn is_external_connector(connector: &str) -> (r: bool)
    ensures
        r == external_connector(connector@),
{
    let v = chars_of(connector);
    let lower = lower_chars(&v);
    !(contains(&lower, "edp") || contains(&lower, "lvds") || contains(&lower, "dsi"))
}

/// `s.parse::<u32>()`.
pub open spec fn parse_u32(s: Seq<char>) -> Option<u32> {
    match parse_uint(s, u32::MAX as nat) {
        Some(n) => Some(n as u32),
        None => None,
    }
}

/// `"<w>x<h>"` read as two `u32`s.
pub open spec fn parse_dims(s: Seq<char>) -> Option<(u32, u32)> {
    match split_once(s, 'x') {
        Some((a, b)) => match (parse_u32(a), parse_u32(b)) {
            (Some(w), Some(h)) => Some((w, h)),
            _ => None,
        },
        None => None,
    }
}

/// `"<w>x<h>"` read as two `u32`s.
fn parse_dims_chars(v: &Vec<char>) -> (r: Option<(u32, u32)>)
    ensures
        r == parse_dims(v@),
{
    match split_once_chars(v, 'x') {
        Some((a, b)) => {
            let w = parse_uint_chars(&a, 0xffff_ffff);
            let h = parse_uint_chars(&b, 0xffff_ffff);
            match (w, h) {
                (Some(w), Some(h)) => Some((w as u32, h as u32)),
                _ => None,
            }
        },
        None => None,
    }
}

/// A token that looks like a resolution: it holds an `x` and starts with
/// a digit.
pub open spec fn resolution_token(t: Seq<char>) -> bool {
    t.contains('x') && t.len() > 0 && is_digit(t[0])
}

/// The resolution in the first resolution-like token of `tokens`; the
/// token is cut at its first `+` (where the position follows), and a token
/// that does not then read as `<w>x<h>` gives `None`.
pub open spec fn resolution_in(tokens: Seq<Seq<char>>) -> Option<(u32, u32)>
    decreases tokens.len(),
{
    if tokens.len() == 0 {
        None
    } else if resolution_token(tokens[0]) {
        parse_dims(before_char(tokens[0], '+'))
    } else {
        resolution_in(tokens.drop_first())
    }
}

/// The resolution on an `xrandr` output line, such as `1920x1080` from
/// `HDMI-1 connected primary 1920x1080+0+0 ...`.
pub fn parse_xrandr_resolution(line: &str) -> (r: Option<(u32, u32)>)
    ensures
        r == resolution_in(words(line@)),
{
    let v = chars_of(line);
    let tokens = words_of(&v);
    let ghost ts = seqs(tokens@);
    let mut i: usize = 0;
    assert(ts.skip(0) =~= ts);
    while i < tokens.len()
        invariant
            i <= tokens.len(),
            ts == seqs(tokens@),
            ts == words(line@),
            resolution_in(ts) == resolution_in(ts.skip(i as int)),
        decreases tokens.len() - i,
    {
        let t = &tokens[i];
        assert(t@ == ts[i as int]);
        assert(ts.skip(i as int).drop_first() =~= ts.skip(i + 1));
        if contains_char(t, 'x') && t.len() > 0 && '0' <= t[0] && t[0] <= '9' {
            let head = before_char_chars(t, '+');
            return parse_dims_chars(&head);
        }
        i += 1;
    }
    None
}

/// A physical size token such as `527mm`.
pub open spec fn mm_token(t: Seq<char>) -> bool {
    has_suffix(t, "mm"@)
}

/// The size in the first `<w>mm x <h>mm` of `tokens` (from index 0 on); a
/// size whose numbers do not read as `u32` gives `None`.
pub open spec fn size_in(tokens: Seq<Seq<char>>) -> Option<(u32, u32)>
    decreases tokens.len(),
{
    if tokens.len() < 3 {
        None
    } else if tokens[1] == "x"@ && mm_token(tokens[0]) && mm_token(tokens[2]) {
        match (
            parse_u32(strip_suffixes(tokens[0], "mm"@)),
            parse_u32(strip_suffixes(tokens[2], "mm"@)),
        ) {
            (Some(w), Some(h)) => Some((w, h)),
            _ => None,
        }
    } else {
        size_in(tokens.drop_first())
    }
}

/// The physical size in millimetres on an `xrandr` output line, such as
/// `(527, 296)` from `... 527mm x 296mm`.
pub fn parse_xrandr_size(line: &str) -> (r: Option<(u32, u32)>)
    ensures
        r == size_in(words(line@)),
{
    let v = chars_of(line);
    let tokens = words_of(&v);
    let ghost ts = seqs(tokens@);
    let mut i: usize = 0;
    assert(ts.skip(0) =~= ts);
    while tokens.len() >= 3 && i < tokens.len() - 2
        invariant
            i <= tokens.len(),
            ts == seqs(tokens@),
            ts == words(line@),
            size_in(ts) == size_in(ts.skip(i as int)),
        decreases tokens.len() - i,
    {
        let ghost rest = ts.skip(i as int);
        assert(rest[0] == tokens@[i as int]@);
        assert(rest[1] == tokens@[i + 1]@);
        assert(rest[2] == tokens@[i + 2]@);
        assert(rest.drop_first() =~= ts.skip(i + 1));
        if eq_str(&tokens[i + 1], "x") && ends_with(&tokens[i], "mm") && ends_with(&tokens[i + 2], "mm") {
            let a = strip_suffixes_chars(&tokens[i], "mm");
            let b = strip_suffixes_chars(&tokens[i + 2], "mm");
            let w = parse_uint_chars(&a, 0xffff_ffff);
            let h = parse_uint_chars(&b, 0xffff_ffff);
            return match (w, h) {
                (Some(w), Some(h)) => Some((w as u32, h as u32)),
                _ => None,
            };
        }
        i += 1;
    }
    None
}

/// The resolution of a DRM `modes` line such as `1920x1080`.
pub fn parse_mode_resolution(mode: &str) -> (r: Option<(u32, u32)>)
    ensures
        r == parse_dims(trim(mode@)),
{
    let v = chars_of(mode);
    let t = trim_chars(&v);
    parse_dims_chars(&t)
}

/// The number of dots in `s`.
pub open spec fn dots(s: Seq<char>) -> nat
    decreases s.len(),
{
    if s.len() == 0 {
        0
    } else {
        dots(s.drop_last()) + if s.last() == '.' {
            1nat
        } else {
            0nat
        }
    }
}

/// The number in a token: from its first digit, the run of digits and
/// dots; empty when the token has no digit.
pub open spec fn number_in(t: Seq<char>) -> Seq<char> {
    match first_digit(t) {
        Some(j) => version_run(t.skip(j as int)),
        None => Seq::empty(),
    }
}

/// The refresh rate among `tokens`: the number in the first token that
/// holds a `*` (the current mode) and a digit. It is kept as text; a number
/// with more than one dot is no decimal number and gives `None`.
pub open spec fn refresh_in(tokens: Seq<Seq<char>>) -> Option<Seq<char>>
    decreases tokens.len(),
{
    if tokens.len() == 0 {
        None
    } else if tokens[0].contains('*') && number_in(tokens[0]).len() > 0 {
        if dots(number_in(tokens[0])) <= 1 {
            Some(number_in(tokens[0]))
        } else {
            None
        }
    } else {
        refresh_in(tokens.drop_first())
    }
}

/// The number in one token.
fn number_in_chars(t: &Vec<char>) -> (r: Vec<char>)
    ensures
        r@ == number_in(t@),
{
    let mut i: usize = 0;
    while i < t.len() && !('0' <= t[i] && t[i] <= '9')
        invariant
            i <= t.len(),
            forall|j: int| 0 <= j < i ==> !is_digit(#[trigger] t@[j]),
        decreases t.len() - i,
    {
        i += 1;
    }
    proof {
        lemma_first_digit(t@, i as int);
    }
    let mut out: Vec<char> = Vec::new();
    if i == t.len() {
        return out;
    }
    let mut k: usize = i;
    while k < t.len() && (('0' <= t[k] && t[k] <= '9') || t[k] == '.')
        invariant
            i <= k <= t.len(),
            out@ == t@.subrange(i as int, k as int),
            forall|j: int| i <= j < k ==> is_digit(#[trigger] t@[j]) || t@[j] == '.',
        decreases t.len() - k,
    {
        out.push(t[k]);
        k += 1;
        assert(out@ =~= t@.subrange(i as int, k as int));
    }
    proof {
        let s = t@.skip(i as int);
        assert forall|j: int| 0 <= j < k - i implies is_digit(#[trigger] s[j]) || s[j] == '.' by {
            assert(s[j] == t@[i + j]);
        }
        lemma_version_run(s, k - i);
        assert(s.take(k - i) =~= out@);
    }
    out
}

/// The number of dots in `v`.
fn count_dots(v: &Vec<char>) -> (n: usize)
    ensures
        n == dots(v@),
{
    let mut n: usize = 0;
    let mut i: usize = 0;
    while i < v.len()
        invariant
            i <= v.len(),
            n <= i,
            n == dots(v@.take(i as int)),
        decreases v.len() - i,
    {
        assert(v@.take(i + 1).drop_last() =~= v@.take(i as int));
        if v[i] == '.' {
            n += 1;
        }
        i += 1;
    }
    assert(v@.take(i as int) =~= v@);
    n
}

/// The refresh rate on an `xrandr` mode line, such as `60.00` from
/// `   1920x1080     60.00*+  59.94`, as decimal text.
pub fn parse_refresh_token(line: &str) -> (r: Option<Vec<char>>)
    ensures
        match refresh_in(words(line@)) {
            Some(t) => r matches Some(v) && v@ == t,
            None => r is None,
        },
{
    let v = chars_of(line);
    let tokens = words_of(&v);
    let ghost ts = seqs(tokens@);
    let mut i: usize = 0;
    assert(ts.skip(0) =~= ts);
    while i < tokens.len()
        invariant
            i <= tokens.len(),
            ts == seqs(tokens@),
            ts == words(line@),
            refresh_in(ts) == refresh_in(ts.skip(i as int)),
        decreases tokens.len() - i,
    {
        let t = &tokens[i];
        assert(t@ == ts[i as int]);
        assert(ts.skip(i as int)[0] == t@);
        assert(ts.skip(i as int).drop_first() =~= ts.skip(i + 1));
        if contains_char(t, '*') {
            let value = number_in_chars(t);
            if value.len() > 0 {
                if count_dots(&value) <= 1 {
                    return Some(value);
                } else {
                    return None;
                }
            }
        }
        i += 1;
    }
    None
}


/// A line that starts with a space (a mode line under an output in
/// `xrandr --query`).
pub open spec fn indented(l: Seq<char>) -> bool {
    l.len() > 0 && l[0] == ' '
}

/// The index of the first line at or after `i` that is not indented.
pub open spec fn run_end(ls: Seq<Seq<char>>, i: int) -> int
    decreases ls.len() - i,
{
    if 0 <= i < ls.len() && indented(ls[i]) {
        run_end(ls, i + 1)
    } else {
        i
    }
}

pub proof fn lemma_run_end(ls: Seq<Seq<char>>, i: int)
    requires
        0 <= i,
    ensures
        i <= run_end(ls, i),
        i <= ls.len() ==> run_end(ls, i) <= ls.len(),
    decreases ls.len() - i,
{
    if 0 <= i < ls.len() && indented(ls[i]) {
        lemma_run_end(ls, i + 1);
    }
}

/// The last refresh rate found on lines `i..j`.
pub open spec fn last_refresh(ls: Seq<Seq<char>>, i: int, j: int) -> Option<Seq<char>>
    decreases j - i,
{
    if j <= i {
        None
    } else {
        match refresh_in(words(ls[j - 1])) {
            Some(v) => Some(v),
            None => last_refresh(ls, i, j - 1),
        }
    }
}

/// The first word of a line, or nothing.
pub open spec fn first_word(l: Seq<char>) -> Seq<char> {
    if words(l).len() > 0 {
        words(l)[0]
    } else {
        Seq::empty()
    }
}

/// What `xrandr` says of one display: width and height in pixels, the
/// physical size in millimetres, the refresh rate as decimal text, and
/// whether the connector is external.
pub type XrandrSpec = (u32, u32, Option<(u32, u32)>, Option<Seq<char>>, bool);

/// What `xrandr` says of one display.
#[derive(Clone, Debug)]
pub struct XrandrDisplay {
    pub width: u32,
    pub height: u32,
    pub size_mm: Option<(u32, u32)>,
    pub refresh: Option<String>,
    pub is_external: bool,
}

impl XrandrDisplay {
    /// The display as plain values.
    pub open spec fn view_spec(&self) -> XrandrSpec {
        (self.width, self.height, self.size_mm, opt_view(self.refresh), self.is_external)
    }
}

/// A line of `xrandr --query` that describes a connected output.
pub open spec fn connected_line(l: Seq<char>) -> bool {
    &&& trim(l).len() > 0
    &&& !indented(l)
    &&& contains_seq(l, " connected"@)
}

/// The display chosen from the lines of `xrandr --query`, read from line
/// `i` on with `fallback` the first display seen so far: the first
/// connected output marked primary, else the first connected output. A
/// connected output line without a resolution ends the search with `None`.
pub open spec fn xrandr_scan(ls: Seq<Seq<char>>, i: int, fallback: Option<XrandrSpec>) -> Option<
    XrandrSpec,
>
    decreases ls.len() - i,
{
    if i < 0 || i >= ls.len() {
        fallback
    } else if !connected_line(ls[i]) {
        xrandr_scan(ls, i + 1, fallback)
    } else {
        match resolution_in(words(ls[i])) {
            None => None,
            Some((w, h)) => {
                let j = run_end(ls, i + 1);
                proof {
                    lemma_run_end(ls, i + 1);
                }
                let info = (
                    w,
                    h,
                    size_in(words(ls[i])),
                    last_refresh(ls, i + 1, j),
                    external_connector(first_word(ls[i])),
                );
                if contains_seq(ls[i], " primary "@) {
                    Some(info)
                } else {
                    xrandr_scan(
                        ls,
                        j,
                        if fallback is None {
                            Some(info)
                        } else {
                            fallback
                        },
                    )
                }
            },
        }
    }
}

/// The display described by the output of `xrandr --query`.
pub fn display_from_xrandr(output: &str) -> (r: Option<XrandrDisplay>)
    ensures
        match xrandr_scan(lines(output@), 0, None) {
            Some(d) => r matches Some(x) && x.view_spec() == d,
            None => r is None,
        },
{
    let text = chars_of(output);
    let ls = lines_of(&text);
    let ghost lv = seqs(ls@);
    let mut fallback: Option<XrandrDisplay> = None;
    let mut i: usize = 0;
    while i < ls.len()
        invariant
            i <= ls.len(),
            lv == seqs(ls@),
            lv == lines(output@),
            xrandr_scan(lv, 0, None) == xrandr_scan(
                lv,
                i as int,
                match fallback {
                    Some(f) => Some(f.view_spec()),
                    None => None,
                },
            ),
        decreases ls.len() - i,
    {
        let line = &ls[i];
        assert(line@ == lv[i as int]);
        let t = trim_chars(line);
        let ind = line.len() > 0 && line[0] == ' ';
        if t.len() == 0 || ind || !contains(line, " connected") {
            i += 1;
            continue;
        }
        let is_primary = contains(line, " primary ");
        let tokens = words_of(line);
        let connector: Vec<char> = if tokens.len() > 0 {
            tokens[0].clone()
        } else {
            Vec::new()
        };
        assert(connector@ == first_word(lv[i as int]));
        let line_str = string_of(line);
        let res = parse_xrandr_resolution(line_str.as_str());
        let (width, height) = match res {
            Some(d) => d,
            None => {
                return None;
            },
        };
        let size_mm = parse_xrandr_size(line_str.as_str());
        let mut refresh: Option<Vec<char>> = None;
        let mut k: usize = i + 1;
        proof {
            lemma_run_end(lv, i + 1);
        }
        while k < ls.len() && ls[k].len() > 0 && ls[k][0] == ' '
            invariant
                i < k <= ls.len(),
                lv == seqs(ls@),
                run_end(lv, i + 1) == run_end(lv, k as int),
                match last_refresh(lv, i + 1, k as int) {
                    Some(v) => refresh matches Some(x) && x@ == v,
                    None => refresh is None,
                },
            decreases ls.len() - k,
        {
            assert(ls@[k as int]@ == lv[k as int]);
            let l = string_of(&ls[k]);
            match parse_refresh_token(l.as_str()) {
                Some(v) => {
                    refresh = Some(v);
                },
                None => {},
            }
            k += 1;
        }
        assert(k < ls.len() ==> ls@[k as int]@ == lv[k as int]);
        assert(run_end(lv, k as int) == k);
        let ext = is_external_connector(string_of(&connector).as_str());
        let info = XrandrDisplay {
            width,
            height,
            size_mm,
            refresh: match refresh {
                Some(v) => Some(string_of(&v)),
                None => None,
            },
            is_external: ext,
        };
        if is_primary {
            return Some(info);
        }
        if fallback.is_none() {
            fallback = Some(info);
        }
        i = k;
    }
    fallback
}

/// A display as the system line shows it; the refresh rate and the
/// diagonal in inches are already rounded to whole numbers.
#[derive(Clone, Copy, Debug, PartialEq, Eq)]
pub struct DisplayInfo {
    pub width: u32,
    pub height: u32,
    pub refresh_hz: Option<u64>,
    pub size_in: Option<u64>,
    pub is_external: Option<bool>,
}

/// The display line: `<w>x<h>`, then ` @ <r> Hz`, ` in <s>"` and
/// ` [External]` or ` [Internal]` (translated) for what is known.
pub open spec fn display_text(info: DisplayInfo, language: Language) -> Seq<char> {
    decimal(info.width as nat) + "x"@ + decimal(info.height as nat) + match info.refresh_hz {
        Some(r) => " @ "@ + decimal(r as nat) + " Hz"@,
        None => Seq::empty(),
    } + match info.size_in {
        Some(d) => " in "@ + decimal(d as nat) + "\""@,
        None => Seq::empty(),
    } + match info.is_external {
        Some(e) => " ["@ + (if e {
            match language {
                Language::English => "External"@,
                Language::Russian => "Внешний"@,
            }
        } else {
            match language {
                Language::English => "Internal"@,
                Language::Russian => "Встроенный"@,
            }
        }) + "]"@,
        None => Seq::empty(),
    }
}

/// The display line.
pub fn format_display_info(info: &DisplayInfo, language: Language) -> (s: String)
    ensures
        s@ == display_text(*info, language),
{
    let mut out: Vec<char> = Vec::new();
    push_decimal(&mut out, info.width as u64);
    push_str(&mut out, "x");
    push_decimal(&mut out, info.height as u64);
    let ghost head = out@;
    match info.refresh_hz {
        Some(r) => {
            push_str(&mut out, " @ ");
            push_decimal(&mut out, r);
            push_str(&mut out, " Hz");
        },
        None => {},
    }
    let ghost with_refresh = out@;
    match info.size_in {
        Some(d) => {
            push_str(&mut out, " in ");
            push_decimal(&mut out, d);
            push_str(&mut out, "\"");
        },
        None => {},
    }
    let ghost with_size = out@;
    match info.is_external {
        Some(e) => {
            let label = if e {
                tr(language, "External", "Внешний")
            } else {
                tr(language, "Internal", "Встроенный")
            };
            push_str(&mut out, " [");
            push_str(&mut out, label);
            push_str(&mut out, "]");
        },
        None => {},
    }
    assert(out@ =~= display_text(*info, language));
    string_of(&out)
}

/// The display line, when a display was found.
pub fn display_summary(info: Option<&DisplayInfo>, language: Language) -> (r: Option<String>)
    ensures
        match info {
            Some(d) => r matches Some(s) && s@ == display_text(*d, language),
            None => r is None,
        },
{
    match info {
        Some(d) => Some(format_display_info(d, language)),
        None => None,
    }
}


/// The pieces of `s` between the blank-line separators `"\n\n"`, scanning
/// from index `k` with the current piece started at `start`; a separator
/// is looked for from the left, and the search goes on after it
/// (`str::split("\n\n")`).
pub open spec fn split_paragraphs(s: Seq<char>, start: int, k: int) -> Seq<Seq<char>>
    decreases s.len() - k,
{
    if k < 0 || k + 1 >= s.len() {
        seq![s.subrange(start, s.len() as int)]
    } else if s[k] == '\n' && s[k + 1] == '\n' {
        seq![s.subrange(start, k)] + split_paragraphs(s, k + 2, k + 2)
    } else {
        split_paragraphs(s, start, k + 1)
    }
}

/// The blocks of `/proc/bus/input/devices`, one per device.
pub open spec fn device_blocks(s: Seq<char>) -> Seq<Seq<char>> {
    split_paragraphs(s, 0, 0)
}

/// The rest of the last line of `ls` that starts with `prefix`.
pub open spec fn last_field(ls: Seq<Seq<char>>, prefix: Seq<char>) -> Option<Seq<char>>
    decreases ls.len(),
{
    if ls.len() == 0 {
        None
    } else if has_prefix(ls.last(), prefix) {
        Some(ls.last().skip(prefix.len() as int))
    } else {
        last_field(ls.drop_last(), prefix)
    }
}

/// The mouse name a device block offers: its `N: Name=` value, trimmed and
/// without surrounding quotes, when its `H: Handlers=` value mentions
/// `mouse`.
pub open spec fn block_mouse(block: Seq<char>) -> Option<Seq<char>> {
    let ls = lines(block);
    match (last_field(ls, "N: Name="@), last_field(ls, "H: Handlers="@)) {
        (Some(n), Some(h)) => if contains_seq(h, "mouse"@) {
            Some(strip_both(trim(n), '"'))
        } else {
            None
        },
        _ => None,
    }
}

/// The mouse names offered by the blocks, in order.
pub open spec fn mouse_candidates(blocks: Seq<Seq<char>>) -> Seq<Seq<char>>
    decreases blocks.len(),
{
    if blocks.len() == 0 {
        Seq::empty()
    } else {
        mouse_candidates(blocks.drop_last()) + match block_mouse(blocks.last()) {
            Some(n) => seq![n],
            None => Seq::empty(),
        }
    }
}

/// A name that belongs to a touchpad or a pointing stick.
pub open spec fn touchpad_name(name: Seq<char>) -> bool {
    let l = lower_seq(name);
    contains_seq(l, "touchpad"@) || contains_seq(l, "trackpad"@) || contains_seq(l, "trackpoint"@)
}

/// Whether a device name belongs to a touchpad or a pointing stick.
pub fn is_touchpad_name(name: &str) -> (r: bool)
    ensures
        r == touchpad_name(name@),
{
    let v = chars_of(name);
    let lower = lower_chars(&v);
    contains(&lower, "touchpad") || contains(&lower, "trackpad") || contains(&lower, "trackpoint")
}

/// The index of the first name that is no touchpad.
pub open spec fn first_pointer(names: Seq<Seq<char>>) -> Option<nat>
    decreases names.len(),
{
    if names.len() == 0 {
        None
    } else if !touchpad_name(names[0]) {
        Some(0)
    } else {
        match first_pointer(names.drop_first()) {
            Some(i) => Some(i + 1),
            None => None,
        }
    }
}

/// The mouse to show: the first candidate that is no touchpad, else the
/// first candidate, else none.
pub open spec fn chosen_mouse(names: Seq<Seq<char>>) -> Option<Seq<char>> {
    match first_pointer(names) {
        Some(i) => Some(names[i as int]),
        None => if names.len() > 0 {
            Some(names[0])
        } else {
            None
        },
    }
}

/// The mouse to show among the candidates.
pub fn choose_mouse(candidates: Vec<String>) -> (r: Option<String>)
    ensures
        match chosen_mouse(candidates@.map_values(|c: String| c@)) {
            Some(n) => r matches Some(s) && s@ == n,
            None => r is None,
        },
{
    let ghost names = candidates@.map_values(|c: String| c@);
    let mut i: usize = 0;
    assert(names.skip(0) =~= names);
    while i < candidates.len()
        invariant
            i <= candidates.len(),
            names == candidates@.map_values(|c: String| c@),
            first_pointer(names) == (match first_pointer(names.skip(i as int)) {
                Some(j) => Some((j + i) as nat),
                None => None,
            }),
        decreases candidates.len() - i,
    {
        let c = &candidates[i];
        assert(names.skip(i as int)[0] == c@);
        assert(names.skip(i as int).drop_first() =~= names.skip(i + 1));
        if !is_touchpad_name(c.as_str()) {
            return Some(c.clone());
        }
        i += 1;
    }
    assert(names.skip(i as int).len() == 0);
    if candidates.len() > 0 {
        Some(candidates[0].clone())
    } else {
        None
    }
}

/// The blocks of the device list, one per device.
fn paragraphs(v: &Vec<char>) -> (r: Vec<Vec<char>>)
    ensures
        seqs(r@) == device_blocks(v@),
{
    let mut done: Vec<Vec<char>> = Vec::new();
    let mut start: usize = 0;
    let mut k: usize = 0;
    while v.len() > 0 && k < v.len() - 1
        invariant
            start <= k <= v.len(),
            seqs(done@) + split_paragraphs(v@, start as int, k as int) == device_blocks(v@),
        decreases v.len() - k,
    {
        if v[k] == '\n' && v[k + 1] == '\n' {
            let piece = slice_of(v, start, k);
            let ghost before = seqs(done@);
            done.push(piece);
            assert(seqs(done@) =~= before.push(piece@));
            assert(before + split_paragraphs(v@, start as int, k as int) =~= seqs(done@)
                + split_paragraphs(v@, k + 2, k + 2));
            k += 2;
            start = k;
        } else {
            k += 1;
        }
    }
    let piece = slice_of(v, start, v.len());
    let ghost before = seqs(done@);
    done.push(piece);
    assert(seqs(done@) =~= before + split_paragraphs(v@, start as int, k as int));
    done
}

/// The rest of the last line that starts with `prefix`.
fn last_field_chars(ls: &Vec<Vec<char>>, prefix: &str) -> (r: Option<Vec<char>>)
    ensures
        match last_field(seqs(ls@), prefix@) {
            Some(f) => r matches Some(v) && v@ == f,
            None => r is None,
        },
{
    let p = chars_of(prefix);
    let mut i: usize = ls.len();
    assert(seqs(ls@).take(ls.len() as int) =~= seqs(ls@));
    while i > 0
        invariant
            i <= ls.len(),
            p@ == prefix@,
            last_field(seqs(ls@), prefix@) == last_field(seqs(ls@).take(i as int), prefix@),
        decreases i,
    {
        let l = &ls[i - 1];
        let ghost pre = seqs(ls@).take(i as int);
        assert(pre.last() == l@);
        assert(pre.drop_last() =~= seqs(ls@).take(i - 1));
        if starts_with(l, prefix) {
            let rest = slice_of(l, p.len(), l.len());
            assert(rest@ =~= l@.skip(prefix@.len() as int));
            return Some(rest);
        }
        i -= 1;
    }
    None
}

/// The mouse name a device block offers.
fn block_mouse_chars(block: &Vec<char>) -> (r: Option<Vec<char>>)
    ensures
        match block_mouse(block@) {
            Some(n) => r matches Some(v) && v@ == n,
            None => r is None,
        },
{
    let ls = lines_of(block);
    let name = last_field_chars(&ls, "N: Name=");
    let handlers = last_field_chars(&ls, "H: Handlers=");
    match (name, handlers) {
        (Some(n), Some(h)) => {
            if contains(&h, "mouse") {
                let t = trim_chars(&n);
                Some(strip_both_chars(&t, '"'))
            } else {
                None
            }
        },
        _ => None,
    }
}

/// The mouse name from the kernel's input device list (the contents of
/// `/proc/bus/input/devices`): among the devices with a `mouse` handler,
/// the first that is no touchpad, else the first.
pub fn mouse_name(devices: &str) -> (r: Option<String>)
    ensures
        match chosen_mouse(mouse_candidates(device_blocks(devices@))) {
            Some(n) => r matches Some(s) && s@ == n,
            None => r is None,
        },
{
    let v = chars_of(devices);
    let blocks = paragraphs(&v);
    let ghost bv = seqs(blocks@);
    let mut candidates: Vec<String> = Vec::new();
    let mut i: usize = 0;
    while i < blocks.len()
        invariant
            i <= blocks.len(),
            bv == seqs(blocks@),
            bv == device_blocks(devices@),
            candidates@.map_values(|c: String| c@) == mouse_candidates(bv.take(i as int)),
        decreases blocks.len() - i,
    {
        assert(bv.take(i + 1).drop_last() =~= bv.take(i as int));
        assert(bv.take(i + 1).last() == blocks@[i as int]@);
        let ghost before = candidates@.map_values(|c: String| c@);
        match block_mouse_chars(&blocks[i]) {
            Some(n) => {
                let s = string_of(&n);
                candidates.push(s);
                assert(candidates@.map_values(|c: String| c@) =~= before.push(n@));
            },
            None => {},
        }
        assert(candidates@.map_values(|c: String| c@) =~= mouse_candidates(bv.take(i + 1)));
        i += 1;
    }
    assert(bv.take(i as int) =~= bv);
    choose_mouse(candidates)
}


/// What a DRM connector directory (`/sys/class/drm/<name>`) holds: its
/// name, and the contents of its `status` and `modes` files where they
/// could be read.
#[derive(Clone, Debug)]
pub struct DrmConnector {
    pub name: String,
    pub status: Option<String>,
    pub modes: Option<String>,
}

/// The first line of `s` that is not blank.
pub open spec fn first_filled_line(ls: Seq<Seq<char>>) -> Option<Seq<char>>
    decreases ls.len(),
{
    if ls.len() == 0 {
        None
    } else if trim(ls[0]).len() > 0 {
        Some(ls[0])
    } else {
        first_filled_line(ls.drop_first())
    }
}

/// The part of a connector name after its first `-` (`card0-HDMI-A-1`
/// gives `HDMI-A-1`), or the whole name.
pub open spec fn connector_of(name: Seq<char>) -> Seq<char> {
    match split_once(name, '-') {
        Some((_a, b)) => b,
        None => name,
    }
}

/// A connected display among DRM connectors, from index `i` on: the first
/// connector whose name holds a `-` and whose status reads `connected`,
/// with the resolution of its first mode line, as (index, width, height,
/// external). A connector reached whose status or modes cannot be read,
/// or whose mode does not read as `<w>x<h>`, ends the search with `None`.
pub open spec fn drm_scan(cs: Seq<DrmConnector>, i: int) -> Option<(int, u32, u32, bool)>
    decreases cs.len() - i,
{
    if i < 0 || i >= cs.len() {
        None
    } else if !cs[i].name@.contains('-') {
        drm_scan(cs, i + 1)
    } else {
        match cs[i].status {
            None => None,
            Some(st) => if trim(st@) != "connected"@ {
                drm_scan(cs, i + 1)
            } else {
                match cs[i].modes {
                    None => None,
                    Some(md) => match first_filled_line(lines(md@)) {
                        None => None,
                        Some(mode) => match parse_dims(trim(mode)) {
                            None => None,
                            Some((w, h)) => Some((i, w, h, external_connector(connector_of(cs[i].name@)))),
                        },
                    },
                }
            },
        }
    }
}

/// The first line that is not blank.
fn first_filled(ls: &Vec<Vec<char>>) -> (r: Option<Vec<char>>)
    ensures
        match first_filled_line(seqs(ls@)) {
            Some(l) => r matches Some(v) && v@ == l,
            None => r is None,
        },
{
    let ghost lv = seqs(ls@);
    let mut i: usize = 0;
    assert(lv.skip(0) =~= lv);
    while i < ls.len()
        invariant
            i <= ls.len(),
            lv == seqs(ls@),
            first_filled_line(lv) == first_filled_line(lv.skip(i as int)),
        decreases ls.len() - i,
    {
        assert(lv.skip(i as int)[0] == ls@[i as int]@);
        assert(lv.skip(i as int).drop_first() =~= lv.skip(i + 1));
        let t = trim_chars(&ls[i]);
        if t.len() > 0 {
            return Some(slice_of(&ls[i], 0, ls[i].len()));
        }
        i += 1;
    }
    None
}

/// The connected display among the DRM connectors, as the index of its
/// connector, its resolution and whether it is external.
pub fn display_from_drm(connectors: &Vec<DrmConnector>) -> (r: Option<(usize, u32, u32, bool)>)
    ensures
        match drm_scan(connectors@, 0) {
            Some((i, w, h, e)) => r == Some((i as usize, w, h, e)),
            None => r is None,
        },
{
    let ghost cv = connectors@;
    let mut i: usize = 0;
    while i < connectors.len()
        invariant
            i <= connectors.len(),
            cv == connectors@,
            drm_scan(cv, 0) == drm_scan(cv, i as int),
        decreases connectors.len() - i,
    {
        let c = &connectors[i];
        let name = chars_of(c.name.as_str());
        if !contains_char(&name, '-') {
            i += 1;
            continue;
        }
        let status = match &c.status {
            None => {
                return None;
            },
            Some(s) => s,
        };
        let st = trim_chars(&chars_of(status.as_str()));
        if !eq_str(&st, "connected") {
            i += 1;
            continue;
        }
        let modes = match &c.modes {
            None => {
                return None;
            },
            Some(m) => m,
        };
        let ls = lines_of(&chars_of(modes.as_str()));
        let mode = match first_filled(&ls) {
            None => {
                return None;
            },
            Some(m) => m,
        };
        let dims = parse_dims_chars(&trim_chars(&mode));
        let (w, h) = match dims {
            None => {
                return None;
            },
            Some(d) => d,
        };
        let connector = match split_once_chars(&name, '-') {
            Some((_a, b)) => b,
            None => name,
        };
        let ext = is_external_connector(string_of(&connector).as_str());
        return Some((i, w, h, ext));
    }
    None
}


/// The resolution the display line starts with reads back as the same
/// resolution, as a DRM mode line: `parse_mode_resolution` of
/// `<width>x<height>` gives `(width, height)`.
pub proof fn lemma_resolution_round_trip(info: DisplayInfo, language: Language)
    ensures
        ({
            let res = decimal(info.width as nat) + "x"@ + decimal(info.height as nat);
            &&& display_text(info, language).take(res.len() as int) == res
            &&& parse_dims(trim(res)) == Some((info.width, info.height))
        }),
{
    reveal_strlit("x");
    let a = decimal(info.width as nat);
    let b = decimal(info.height as nat);
    let res = a + "x"@ + b;
    lemma_decimal_digits(info.width as nat);
    lemma_decimal_digits(info.height as nat);
    assert(display_text(info, language).take(res.len() as int) =~= res);
    assert(res[0] == a[0]);
    assert(!is_ws(res[0]));
    assert(trim_start(res) == res);
    assert(res.last() == b.last());
    assert(!is_ws(res.last()));
    assert(trim_end(res) == res);
    assert(trim(res) == res);
    assert forall|j: int| 0 <= j < a.len() implies res[j] != 'x' by {
        assert(res[j] == a[j]);
    }
    lemma_index_of(res, 'x', a.len() as int);
    assert(res.take(a.len() as int) =~= a);
    assert(res.skip(a.len() + 1int) =~= b);
    lemma_parse_decimal(info.width as nat, u32::MAX as nat);
    lemma_parse_decimal(info.height as nat, u32::MAX as nat);
}

proof fn lemma_ends_with_append(p: Seq<char>, t: Seq<char>)
    ensures
        has_suffix(p + t, t),
{
    assert((p + t).skip((p + t).len() - t.len()) =~= t);
}

/// The display line ends with what is known of the connector: `[Internal]`
/// for a built-in panel and `[External]` for a plugged-in display (in
/// Russian `[Встроенный]` and `[Внешний]`), so the two never read alike.
pub proof fn lemma_display_connector_label(info: DisplayInfo)
    ensures
        info.is_external == Some(false) ==> has_suffix(display_text(info, Language::English), " [Internal]"@),
        info.is_external == Some(true) ==> has_suffix(display_text(info, Language::English), " [External]"@),
        info.is_external == Some(false) ==> has_suffix(display_text(info, Language::Russian), " [Встроенный]"@),
        info.is_external == Some(true) ==> has_suffix(display_text(info, Language::Russian), " [Внешний]"@),
        forall|l: Language|
            display_text(DisplayInfo { is_external: Some(true), ..info }, l) != display_text(
                DisplayInfo { is_external: Some(false), ..info },
                l,
            ),
{
    reveal_strlit(" [Internal]");
    reveal_strlit(" [External]");
    reveal_strlit(" [Встроенный]");
    reveal_strlit(" [Внешний]");
    reveal_strlit(" [");
    reveal_strlit("]");
    reveal_strlit("Internal");
    reveal_strlit("External");
    reveal_strlit("Встроенный");
    reveal_strlit("Внешний");
    let head = decimal(info.width as nat) + "x"@ + decimal(info.height as nat) + match info.refresh_hz {
        Some(r) => " @ "@ + decimal(r as nat) + " Hz"@,
        None => Seq::empty(),
    } + match info.size_in {
        Some(d) => " in "@ + decimal(d as nat) + "\""@,
        None => Seq::empty(),
    };
    assert(" ["@ + "Internal"@ + "]"@ =~= " [Internal]"@);
    assert(" ["@ + "External"@ + "]"@ =~= " [External]"@);
    assert(" ["@ + "Встроенный"@ + "]"@ =~= " [Встроенный]"@);
    assert(" ["@ + "Внешний"@ + "]"@ =~= " [Внешний]"@);
    lemma_ends_with_append(head, " [Internal]"@);
    lemma_ends_with_append(head, " [External]"@);
    lemma_ends_with_append(head, " [Встроенный]"@);
    lemma_ends_with_append(head, " [Внешний]"@);
    let t = DisplayInfo { is_external: Some(true), ..info };
    let f = DisplayInfo { is_external: Some(false), ..info };
    assert(display_text(t, Language::English) =~= head + " [External]"@);
    assert(display_text(f, Language::English) =~= head + " [Internal]"@);
    assert(display_text(t, Language::Russian) =~= head + " [Внешний]"@);
    assert(display_text(f, Language::Russian) =~= head + " [Встроенный]"@);
    assert((head + " [External]"@)[head.len() + 2int] != (head + " [Internal]"@)[head.len() + 2int]);
    assert((head + " [Внешний]"@).len() != (head + " [Встроенный]"@).len());
    assert forall|l: Language| display_text(t, l) != display_text(f, l) by {
        match l {
            Language::English => {},
            Language::Russian => {},
        }
    }
    if info.is_external == Some(false) {
        assert(display_text(info, Language::English) =~= head + " [Internal]"@);
        assert(display_text(info, Language::Russian) =~= head + " [Встроенный]"@);
    }
    if info.is_external == Some(true) {
        assert(display_text(info, Language::English) =~= head + " [External]"@);
        assert(display_text(info, Language::Russian) =~= head + " [Внешний]"@);
    }
}

} // verus!
