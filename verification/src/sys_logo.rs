//! The built-in distribution logos of the system panel: which one to show,
//! the colour segments of a logo line, and the width the logo column gets.
use vstd::prelude::*;
use crate::logo::{digit_value, is_digit};
use crate::strings::{
    chars_of, contains, contains_seq, has_prefix, lines, lines_of, lower_chars, lower_seq, seqs,
    slice_of, starts_with, string_of, strip_both, strip_both_chars,
};

verus! {

/// The built-in logos.
#[derive(Clone, Copy, Debug, PartialEq, Eq)]
pub enum LogoKind {
    Rtop,
    Arch,
    Fedora,
    Debian,
    Windows,
    MacOs,
}

/// The rest of the first line of `ls` that starts with `prefix`.
pub open spec fn first_field(ls: Seq<Seq<char>>, prefix: Seq<char>) -> Option<Seq<char>>
    decreases ls.len(),
{
    if ls.len() == 0 {
        None
    } else if has_prefix(ls[0], prefix) {
        Some(ls[0].skip(prefix.len() as int))
    } else {
        first_field(ls.drop_first(), prefix)
    }
}

/// The distribution id in an os-release file: the first `ID=` value, else
/// the first `NAME=` value, without surrounding quotes, in lower case.
pub open spec fn os_id_of(content: Seq<char>) -> Option<Seq<char>> {
    match first_field(lines(content), "ID="@) {
        Some(v) => Some(lower_seq(strip_both(v, '"'))),
        None => match first_field(lines(content), "NAME="@) {
            Some(v) => Some(lower_seq(strip_both(v, '"'))),
            None => None,
        },
    }
}

/// The rest of the first line that starts with `prefix`.
fn first_field_chars(ls: &Vec<Vec<char>>, prefix: &str) -> (r: Option<Vec<char>>)
    ensures
        match first_field(seqs(ls@), prefix@) {
            Some(f) => r matches Some(v) && v@ == f,
            None => r is None,
        },
{
    let p = chars_of(prefix);
    let ghost lv = seqs(ls@);
    let mut i: usize = 0;
    assert(lv.skip(0) =~= lv);
    while i < ls.len()
        invariant
            i <= ls.len(),
            lv == seqs(ls@),
            p@ == prefix@,
            first_field(lv, prefix@) == first_field(lv.skip(i as int), prefix@),
        decreases ls.len() - i,
    {
        let l = &ls[i];
        assert(lv.skip(i as int)[0] == l@);
        assert(lv.skip(i as int).drop_first() =~= lv.skip(i + 1));
        if starts_with(l, prefix) {
            let rest = slice_of(l, p.len(), l.len());
            assert(rest@ =~= l@.skip(prefix@.len() as int));
            return Some(rest);
        }
        i += 1;
    }
    None
}

/// The distribution id in an os-release file.
pub fn linux_os_id(content: &str) -> (r: Option<String>)
    ensures
        match os_id_of(content@) {
            Some(id) => r matches Some(s) && s@ == id,
            None => r is None,
        },
{
    let text = chars_of(content);
    let ls = lines_of(&text);
    let field = match first_field_chars(&ls, "ID=") {
        Some(v) => Some(v),
        None => first_field_chars(&ls, "NAME="),
    };
    match field {
        Some(v) => {
            let unquoted = strip_both_chars(&v, '"');
            Some(string_of(&lower_chars(&unquoted)))
        },
        None => None,
    }
}

/// The logo for an OS id: the first of Arch, Fedora, Debian, Windows and
/// macOS (`macos`, `darwin`, `os x` or `mac`) whose name it contains, else
/// the program's own logo.
pub open spec fn logo_for_id(id: Seq<char>) -> LogoKind {
    if contains_seq(id, "arch"@) {
        LogoKind::Arch
    } else if contains_seq(id, "fedora"@) {
        LogoKind::Fedora
    } else if contains_seq(id, "debian"@) {
        LogoKind::Debian
    } else if contains_seq(id, "windows"@) {
        LogoKind::Windows
    } else if contains_seq(id, "macos"@) || contains_seq(id, "darwin"@) || contains_seq(id, "os x"@)
        || contains_seq(id, "mac"@) {
        LogoKind::MacOs
    } else {
        LogoKind::Rtop
    }
}

/// The id the logo is chosen by: the OS name in lower case (`unknown` when
/// it is missing); for Linux, the os-release id when there is one.
pub open spec fn os_id_for(os_name: Option<Seq<char>>, os_release: Option<Seq<char>>) -> Seq<char> {
    let id = lower_seq(
        match os_name {
            Some(n) => n,
            None => "unknown"@,
        },
    );
    if contains_seq(id, "linux"@) {
        match os_release {
            Some(c) => match os_id_of(c) {
                Some(l) => l,
                None => id,
            },
            None => id,
        }
    } else {
        id
    }
}

/// The logo to show for the OS named `os_name`, with the contents of
/// `/etc/os-release` when they could be read.
pub fn select_logo(os_name: Option<&str>, os_release: Option<&str>) -> (r: LogoKind)
    ensures
        r == logo_for_id(
            os_id_for(
                match os_name {
                    Some(n) => Some(n@),
                    None => None,
                },
                match os_release {
                    Some(c) => Some(c@),
                    None => None,
                },
            ),
        ),
{
    let name = match os_name {
        Some(n) => chars_of(n),
        None => chars_of("unknown"),
    };
    let mut id = lower_chars(&name);
    if contains(&id, "linux") {
        match os_release {
            Some(c) => match linux_os_id(c) {
                Some(l) => {
                    id = chars_of(l.as_str());
                },
                None => {},
            },
            None => {},
        }
    }
    if contains(&id, "arch") {
        LogoKind::Arch
    } else if contains(&id, "fedora") {
        LogoKind::Fedora
    } else if contains(&id, "debian") {
        LogoKind::Debian
    } else if contains(&id, "windows") {
        LogoKind::Windows
    } else if contains(&id, "macos") || contains(&id, "darwin") || contains(&id, "os x") || contains(
        &id,
        "mac",
    ) {
        LogoKind::MacOs
    } else {
        LogoKind::Rtop
    }
}

/// The visible width of a logo line: its characters, without the colour
/// markers (`$` and a digit).
pub open spec fn stripped_width(s: Seq<char>) -> nat
    decreases s.len(),
{
    if s.len() == 0 {
        0
    } else if s[0] == '$' && s.len() >= 2 && is_digit(s[1]) {
        stripped_width(s.skip(2))
    } else {
        1 + stripped_width(s.skip(1))
    }
}

/// The visible width of a logo line.
pub fn stripped_logo_width(line: &str) -> (w: usize)
    ensures
        w == stripped_width(line@),
{
    let v = chars_of(line);
    let mut w: usize = 0;
    let mut i: usize = 0;
    assert(v@.skip(0) =~= v@);
    while i < v.len()
        invariant
            i <= v.len(),
            w <= i,
            w + stripped_width(v@.skip(i as int)) == stripped_width(v@),
        decreases v.len() - i,
    {
        let ghost rest = v@.skip(i as int);
        assert(rest[0] == v@[i as int]);
        if v[i] == '$' && i + 1 < v.len() && '0' <= v[i + 1] && v[i + 1] <= '9' {
            assert(rest[1] == v@[i + 1]);
            assert(rest.skip(2) =~= v@.skip(i + 2));
            i += 2;
        } else {
            assert(rest.skip(1) =~= v@.skip(i + 1));
            w += 1;
            i += 1;
        }
    }
    w
}

/// The widest of the logo's lines.
pub open spec fn widest(ls: Seq<Seq<char>>) -> nat
    decreases ls.len(),
{
    if ls.len() == 0 {
        0
    } else {
        let m = widest(ls.drop_last());
        let w = stripped_width(ls.last());
        if w > m {
            w
        } else {
            m
        }
    }
}

/// The widest of the logo's lines.
pub fn logo_max_width(lines: &Vec<&str>) -> (w: usize)
    ensures
        w == widest(lines@.map_values(|l: &str| l@)),
{
    let ghost lv = lines@.map_values(|l: &str| l@);
    let mut m: usize = 0;
    let mut i: usize = 0;
    while i < lines.len()
        invariant
            i <= lines.len(),
            lv == lines@.map_values(|l: &str| l@),
            m == widest(lv.take(i as int)),
        decreases lines.len() - i,
    {
        assert(lv.take(i + 1).drop_last() =~= lv.take(i as int));
        assert(lv.take(i + 1).last() == lines@[i as int]@);
        let w = stripped_logo_width(lines[i]);
        if w > m {
            m = w;
        }
        i += 1;
    }
    assert(lv.take(i as int) =~= lv);
    m
}

/// The width of the logo column in a panel `inner_width` columns wide: the
/// widest logo line, kept to what leaves 24 columns for the text (but at
/// least 10), then at least 8, and never wider than the panel.
pub open spec fn logo_column(inner_width: int, widest: int) -> int {
    let max_logo = {
        let m = if inner_width >= 24 { inner_width - 24 } else { 0 };
        let m = if m < 10 { 10 } else { m };
        if m < inner_width { m } else { inner_width }
    };
    let w = if widest < max_logo { widest } else { max_logo };
    let w = if w < 8 { 8 } else { w };
    if w < inner_width { w } else { inner_width }
}

/// The width of the logo column.
pub fn logo_column_width(inner_width: u16, widest: usize) -> (w: u16)
    ensures
        w == logo_column(inner_width as int, widest as int),
{
    let m = inner_width.saturating_sub(24);
    let m = if m < 10 { 10 } else { m };
    let max_logo = if m < inner_width { m } else { inner_width };
    let w: u16 = if widest < max_logo as usize { widest as u16 } else { max_logo };
    let w = if w < 8 { 8 } else { w };
    if w < inner_width { w } else { inner_width }
}

/// The colour of a piece of a logo line.
#[derive(Clone, Copy, Debug, PartialEq, Eq)]
pub enum SegmentColor {
    /// No colour of its own (an empty line).
    Default,
    /// The accent colour.
    Accent,
    /// Entry `i` of the logo's palette (the accent colour where the palette
    /// has no such entry).
    Palette(u8),
}

/// The colour a marker digit selects: `0` the accent colour, `d` palette
/// entry `d - 1`.
pub open spec fn marker_color(d: char) -> SegmentColor {
    if d == '0' {
        SegmentColor::Accent
    } else {
        SegmentColor::Palette((digit_value(d) - 1) as u8)
    }
}

/// A piece of a logo line as plain values.
pub type Segment = (Seq<char>, SegmentColor);

/// The pieces of the rest `s` of a logo line, with `buf` read so far in
/// colour `color`: text runs between colour markers, each in its colour;
/// empty runs are left out.
pub open spec fn segments(s: Seq<char>, buf: Seq<char>, color: SegmentColor) -> Seq<Segment>
    decreases s.len(),
{
    if s.len() == 0 {
        if buf.len() > 0 {
            seq![(buf, color)]
        } else {
            Seq::empty()
        }
    } else if s[0] == '$' && s.len() >= 2 && is_digit(s[1]) {
        (if buf.len() > 0 {
            seq![(buf, color)]
        } else {
            Seq::empty()
        }) + segments(s.skip(2), Seq::empty(), marker_color(s[1]))
    } else {
        segments(s.skip(1), buf.push(s[0]), color)
    }
}

/// The pieces of a logo line: its runs, starting in the accent colour; a
/// line with no text is one empty piece.
pub open spec fn line_segments(line: Seq<char>) -> Seq<Segment> {
    let r = segments(line, Seq::empty(), SegmentColor::Accent);
    if r.len() == 0 {
        seq![(Seq::<char>::empty(), SegmentColor::Default)]
    } else {
        r
    }
}

/// A piece of a logo line.
#[derive(Clone, Debug)]
pub struct LogoSegment {
    pub text: String,
    pub color: SegmentColor,
}

/// The pieces as plain values.
pub open spec fn segment_texts(v: Seq<LogoSegment>) -> Seq<Segment> {
    v.map_values(|g: LogoSegment| (g.text@, g.color))
}

/// The colour a marker digit selects.
fn marker_color_exec(d: char) -> (c: SegmentColor)
    requires
        is_digit(d),
    ensures
        c == marker_color(d),
{
    if d == '0' {
        SegmentColor::Accent
    } else {
        SegmentColor::Palette(((d as u32 - 48) as u8) - 1)
    }
}

/// The pieces of a logo line.
pub fn parse_logo_line(line: &str) -> (r: Vec<LogoSegment>)
    ensures
        segment_texts(r@) == line_segments(line@),
{
    let v = chars_of(line);
    let mut out: Vec<LogoSegment> = Vec::new();
    let mut buf: Vec<char> = Vec::new();
    let mut color = SegmentColor::Accent;
    let mut i: usize = 0;
    assert(v@.skip(0) =~= v@);
    assert(segment_texts(out@) + segments(v@, buf@, color) =~= segments(v@, Seq::empty(), SegmentColor::Accent));
    while i < v.len()
        invariant
            i <= v.len(),
            segment_texts(out@) + segments(v@.skip(i as int), buf@, color) == segments(
                v@,
                Seq::empty(),
                SegmentColor::Accent,
            ),
        decreases v.len() - i,
    {
        let ghost rest = v@.skip(i as int);
        assert(rest[0] == v@[i as int]);
        if v[i] == '$' && i + 1 < v.len() && '0' <= v[i + 1] && v[i + 1] <= '9' {
            assert(rest[1] == v@[i + 1]);
            assert(rest.skip(2) =~= v@.skip(i + 2));
            let ghost before = segment_texts(out@);
            let ghost bv = buf@;
            let ghost c0 = color;
            if buf.len() > 0 {
                out.push(LogoSegment { text: string_of(&buf), color });
                assert(segment_texts(out@) =~= before.push((bv, c0)));
            }
            let d = v[i + 1];
            color = marker_color_exec(d);
            buf = Vec::new();
            let ghost flushed = if bv.len() > 0 {
                seq![(bv, c0)]
            } else {
                Seq::<Segment>::empty()
            };
            assert(segment_texts(out@) =~= before + flushed);
            assert(segments(rest, bv, c0) == flushed + segments(rest.skip(2), Seq::empty(), marker_color(d)));
            assert(buf@ =~= Seq::<char>::empty());
            assert(segment_texts(out@) + segments(v@.skip(i + 2), buf@, color) =~= before + segments(rest, bv, c0));
            i += 2;
        } else {
            assert(rest.skip(1) =~= v@.skip(i + 1));
            let ghost bv = buf@;
            buf.push(v[i]);
            assert(buf@ =~= bv.push(rest[0]));
            i += 1;
        }
    }
    let ghost before = segment_texts(out@);
    if buf.len() > 0 {
        let ghost bv = buf@;
        out.push(LogoSegment { text: string_of(&buf), color });
        assert(segment_texts(out@) =~= before.push((bv, color)));
    }
    assert(v@.skip(i as int) =~= Seq::<char>::empty());
    if out.len() == 0 {
        out.push(LogoSegment { text: string_of(&Vec::new()), color: SegmentColor::Default });
        assert(segment_texts(out@) =~= seq![(Seq::<char>::empty(), SegmentColor::Default)]);
    }
    out
}

} // verus!
