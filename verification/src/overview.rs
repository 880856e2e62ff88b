//! The system overview: the snapshot of what is shown, built from what was
//! found on the machine, and its lines, each a label and a value cut to
//! the panel's width.
use vstd::prelude::*;
use crate::format::{fit_text, fit_text_spec, text_width, unicode_str_width};
use crate::hardware::{cpu_line_spec, cpu_overview_line};
use crate::icons::{icon_label, icon_strs, IconLabel, IconMode, InfoItem, ICON_SEP_NERD};
use crate::os::{distro_line_spec, distro_variant_line, uptime_parts, format_uptime_long, OsRelease};
use crate::strings::{
    blank, chars_of, is_blank, join, opt_view, push_str, string_of, trim,
};
use crate::text::{tr, Language};

verus! {

/// `a + b` wrapped around the range of `usize` (what an unchecked `+`
/// gives in an optimised build).
pub open spec fn wrap_add(a: int, b: int) -> int {
    if a + b <= usize::MAX {
        a + b
    } else {
        a + b - usize::MAX - 1
    }
}

/// `a + b` wrapped around the range of `usize`.
fn add_wrapping(a: usize, b: usize) -> (r: usize)
    ensures
        r == wrap_add(a as int, b as int),
{
    match a.checked_add(b) {
        Some(s) => s,
        None => a - (usize::MAX - b) - 1,
    }
}

/// `a - b`, or 0 when `b` is larger (`usize::saturating_sub`).
pub open spec fn sub_or_zero(a: int, b: int) -> int {
    if a >= b {
        a - b
    } else {
        0
    }
}

/// The larger of `a` and 1.
pub open spec fn one_or_more(a: int) -> int {
    if a >= 1 {
        a
    } else {
        1
    }
}

/// One line of the system overview.
#[derive(Clone, Debug)]
pub enum OverviewLine {
    /// An empty line between groups.
    Blank,
    /// A labelled line: the label with a trailing space, the separator
    /// (empty in text mode), and the value cut to the width left.
    Item { icon: String, sep: String, value: String },
}

/// A labelled line as plain text: label, separator and value.
pub type ItemText = (Seq<char>, Seq<char>, Seq<char>);

/// An overview line as plain text; `None` for an empty line.
pub open spec fn line_view(l: OverviewLine) -> Option<ItemText> {
    match l {
        OverviewLine::Blank => None,
        OverviewLine::Item { icon, sep, value } => Some((icon@, sep@, value@)),
    }
}

/// The label of `item` in `mode`.
pub open spec fn label_of(item: InfoItem, mode: IconMode) -> Seq<char> {
    match mode {
        IconMode::Nerd => icon_strs(item).0,
        IconMode::Text => icon_strs(item).1,
    }
}

/// The labelled line for `item` with `value` in a panel `width` columns
/// wide: the label and a space, in Nerd mode the separator and a space,
/// and the value cut to the columns left (at least one).
pub open spec fn item_text(item: InfoItem, value: Seq<char>, width: nat, mode: IconMode) -> ItemText {
    let icon = label_of(item, mode) + " "@;
    let sep = match mode {
        IconMode::Nerd => ICON_SEP_NERD@ + " "@,
        IconMode::Text => Seq::<char>::empty(),
    };
    let used = wrap_add(unicode_str_width(icon) as int, unicode_str_width(sep) as int);
    let max_value = one_or_more(sub_or_zero(width as int, used));
    (icon, sep, fit_text_spec(value, max_value as nat))
}

/// The labelled line for `item` with `value`.
pub fn icon_line(item: InfoItem, value: &str, width: usize, icon_mode: IconMode) -> (r: OverviewLine)
    ensures
        line_view(r) == Some(item_text(item, value@, width as nat, icon_mode)),
{
    let label: IconLabel = icon_label(item);
    let mut icon_chars = chars_of(label.get(icon_mode));
    push_str(&mut icon_chars, " ");
    let icon = string_of(&icon_chars);
    let sep = match icon_mode {
        IconMode::Nerd => {
            let mut s = chars_of(ICON_SEP_NERD);
            push_str(&mut s, " ");
            string_of(&s)
        },
        IconMode::Text => {
            let e: Vec<char> = Vec::new();
            string_of(&e)
        },
    };
    let used = add_wrapping(text_width(icon.as_str()), text_width(sep.as_str()));
    let rest = width.saturating_sub(used);
    let max_value = if rest >= 1 { rest } else { 1 };
    let v = fit_text(value, max_value);
    assert(sep@ == item_text(item, value@, width as nat, icon_mode).1);
    OverviewLine::Item { icon, sep, value: v }
}

/// A label cut to `width` columns and padded with spaces to that width.
pub open spec fn padded_label(label: Seq<char>, width: nat) -> Seq<char> {
    let trimmed = fit_text_spec(label, width);
    let pad = sub_or_zero(width as int, unicode_str_width(trimmed) as int);
    trimmed + Seq::new(pad as nat, |_i: int| ' ')
}

/// A label cut to `width` columns and padded with spaces to that width.
pub fn pad_label(label: &str, width: usize) -> (s: String)
    ensures
        s@ == padded_label(label@, width as nat),
{
    let trimmed = fit_text(label, width);
    let pad = width.saturating_sub(text_width(trimmed.as_str()));
    let mut out = chars_of(trimmed.as_str());
    let ghost base = out@;
    let mut i: usize = 0;
    while i < pad
        invariant
            i <= pad,
            out@ == base + Seq::new(i as nat, |_k: int| ' '),
        decreases pad - i,
    {
        out.push(' ');
        i += 1;
        assert(out@ =~= base + Seq::new(i as nat, |_k: int| ' '));
    }
    string_of(&out)
}

/// A detail line: the label padded to `label_width` columns and the value
/// cut to the columns left of `width` (at least one).
pub open spec fn label_line_text(label: Seq<char>, value: Seq<char>, width: nat, label_width: nat) -> (
    Seq<char>,
    Seq<char>,
) {
    let l = padded_label(label, label_width);
    let max_value = one_or_more(sub_or_zero(width as int, unicode_str_width(l) as int));
    (l, fit_text_spec(value, max_value as nat))
}

/// A detail line: the padded label and the cut value.
pub fn label_line(label: &str, value: &str, width: usize, label_width: usize) -> (r: (String, String))
    ensures
        (r.0@, r.1@) == label_line_text(label@, value@, width as nat, label_width as nat),
{
    let l = pad_label(label, label_width);
    let rest = width.saturating_sub(text_width(l.as_str()));
    let max_value = if rest >= 1 { rest } else { 1 };
    let v = fit_text(value, max_value);
    (l, v)
}

/// What the overview shows, line by line.
#[derive(Clone, Debug)]
pub struct SystemOverviewSnapshot {
    pub user_host: String,
    pub distro_line: String,
    pub os_name: String,
    pub kernel_line: String,
    pub uptime_line: String,
    pub board_line: String,
    pub cpu_line: String,
    pub gpu_line: String,
    pub mem_line: String,
    pub disk_lines: Vec<String>,
    pub display_line: String,
    pub mouse_line: String,
    pub de_line: String,
    pub wm_line: String,
    pub shell_line: String,
    pub terminal_line: String,
    pub package_line: String,
}

/// The strings held by a vector of strings.
pub open spec fn strs(v: Seq<String>) -> Seq<Seq<char>> {
    v.map_values(|s: String| s@)
}

/// A row of the overview: a labelled value, or `None` for an empty line.
pub type Row = Option<(InfoItem, Seq<char>)>;

/// The disk rows: one per disk line, or one with `na` when there is none.
pub open spec fn disk_rows(disks: Seq<Seq<char>>, na: Seq<char>) -> Seq<Row> {
    if disks.len() == 0 {
        seq![Some((InfoItem::Disk, na))]
    } else {
        disks.map_values(|d: Seq<char>| Some((InfoItem::Disk, d)))
    }
}

/// The rows before the disks: user, then the system group
/// (distribution, OS, kernel, uptime), then the hardware group up to
/// memory, with empty lines between.
pub open spec fn head_rows(s: SystemOverviewSnapshot) -> Seq<Row> {
    seq![
        Some((InfoItem::User, s.user_host@)),
        None,
        Some((InfoItem::Distro, s.distro_line@)),
        Some((InfoItem::Os, s.os_name@)),
        Some((InfoItem::Kernel, s.kernel_line@)),
        Some((InfoItem::Uptime, s.uptime_line@)),
        None,
        Some((InfoItem::Board, s.board_line@)),
        Some((InfoItem::Cpu, s.cpu_line@)),
        Some((InfoItem::Gpu, s.gpu_line@)),
        Some((InfoItem::Mem, s.mem_line@)),
    ]
}

/// The rows after the disks: an empty line, then the desktop group
/// (display, mouse, desktop, window manager, shell, terminal, packages).
pub open spec fn tail_rows(s: SystemOverviewSnapshot) -> Seq<Row> {
    seq![
        None,
        Some((InfoItem::Display, s.display_line@)),
        Some((InfoItem::Mouse, s.mouse_line@)),
        Some((InfoItem::De, s.de_line@)),
        Some((InfoItem::Wm, s.wm_line@)),
        Some((InfoItem::Shell, s.shell_line@)),
        Some((InfoItem::Term, s.terminal_line@)),
        Some((InfoItem::Pkg, s.package_line@)),
    ]
}

/// The rows of the overview, in order: the head rows, the disk rows and
/// the tail rows.
pub open spec fn overview_rows(s: SystemOverviewSnapshot, na: Seq<char>) -> Seq<Row> {
    head_rows(s) + disk_rows(strs(s.disk_lines@), na) + tail_rows(s)
}

/// The line shown for a row.
pub open spec fn row_text(row: Row, width: nat, mode: IconMode) -> Option<ItemText> {
    match row {
        Some((item, value)) => Some(item_text(item, value, width, mode)),
        None => None,
    }
}

/// The overview lines as plain text.
pub open spec fn line_texts(lines: Seq<OverviewLine>) -> Seq<Option<ItemText>> {
    lines.map_values(|l: OverviewLine| line_view(l))
}

/// Appends the line for a row.
fn push_row(lines: &mut Vec<OverviewLine>, row_item: Option<InfoItem>, value: &str, width: usize, icon_mode: IconMode)
    ensures
        line_texts(final(lines)@) == line_texts(old(lines)@).push(
            match row_item {
                Some(item) => row_text(Some((item, value@)), width as nat, icon_mode),
                None => None,
            },
        ),
{
    let l = match row_item {
        Some(item) => icon_line(item, value, width, icon_mode),
        None => OverviewLine::Blank,
    };
    let ghost before = lines@;
    lines.push(l);
    assert(line_texts(lines@) =~= line_texts(before).push(line_view(l)));
}

/// The lines of the rows of `rows`.
pub open spec fn rows_text(rows: Seq<Row>, width: nat, mode: IconMode) -> Seq<Option<ItemText>> {
    rows.map_values(|row: Row| row_text(row, width, mode))
}

fn push_head(lines: &mut Vec<OverviewLine>, s: &SystemOverviewSnapshot, width: usize, icon_mode: IconMode)
    ensures
        line_texts(final(lines)@) == line_texts(old(lines)@) + rows_text(head_rows(*s), width as nat, icon_mode),
{
    let ghost start = line_texts(lines@);
    push_row(lines, Some(InfoItem::User), s.user_host.as_str(), width, icon_mode);
    push_row(lines, None, "", width, icon_mode);
    push_row(lines, Some(InfoItem::Distro), s.distro_line.as_str(), width, icon_mode);
    push_row(lines, Some(InfoItem::Os), s.os_name.as_str(), width, icon_mode);
    push_row(lines, Some(InfoItem::Kernel), s.kernel_line.as_str(), width, icon_mode);
    push_row(lines, Some(InfoItem::Uptime), s.uptime_line.as_str(), width, icon_mode);
    push_row(lines, None, "", width, icon_mode);
    push_row(lines, Some(InfoItem::Board), s.board_line.as_str(), width, icon_mode);
    push_row(lines, Some(InfoItem::Cpu), s.cpu_line.as_str(), width, icon_mode);
    push_row(lines, Some(InfoItem::Gpu), s.gpu_line.as_str(), width, icon_mode);
    push_row(lines, Some(InfoItem::Mem), s.mem_line.as_str(), width, icon_mode);
    assert(line_texts(lines@) =~= start + rows_text(head_rows(*s), width as nat, icon_mode));
}

fn push_tail(lines: &mut Vec<OverviewLine>, s: &SystemOverviewSnapshot, width: usize, icon_mode: IconMode)
    ensures
        line_texts(final(lines)@) == line_texts(old(lines)@) + rows_text(tail_rows(*s), width as nat, icon_mode),
{
    let ghost start = line_texts(lines@);
    push_row(lines, None, "", width, icon_mode);
    push_row(lines, Some(InfoItem::Display), s.display_line.as_str(), width, icon_mode);
    push_row(lines, Some(InfoItem::Mouse), s.mouse_line.as_str(), width, icon_mode);
    push_row(lines, Some(InfoItem::De), s.de_line.as_str(), width, icon_mode);
    push_row(lines, Some(InfoItem::Wm), s.wm_line.as_str(), width, icon_mode);
    push_row(lines, Some(InfoItem::Shell), s.shell_line.as_str(), width, icon_mode);
    push_row(lines, Some(InfoItem::Term), s.terminal_line.as_str(), width, icon_mode);
    push_row(lines, Some(InfoItem::Pkg), s.package_line.as_str(), width, icon_mode);
    assert(line_texts(lines@) =~= start + rows_text(tail_rows(*s), width as nat, icon_mode));
}

fn push_disks(lines: &mut Vec<OverviewLine>, disks: &Vec<String>, width: usize, icon_mode: IconMode, na: &str)
    ensures
        line_texts(final(lines)@) == line_texts(old(lines)@) + rows_text(
            disk_rows(strs(disks@), na@),
            width as nat,
            icon_mode,
        ),
{
    let ghost start = line_texts(lines@);
    let ghost dr = disk_rows(strs(disks@), na@);
    if disks.len() == 0 {
        push_row(lines, Some(InfoItem::Disk), na, width, icon_mode);
        assert(line_texts(lines@) =~= start + rows_text(dr, width as nat, icon_mode));
        return;
    }
    let mut i: usize = 0;
    while i < disks.len()
        invariant
            i <= disks.len(),
            disks.len() > 0,
            dr == disk_rows(strs(disks@), na@),
            line_texts(lines@) == start + rows_text(dr.take(i as int), width as nat, icon_mode),
        decreases disks.len() - i,
    {
        push_row(lines, Some(InfoItem::Disk), disks[i].as_str(), width, icon_mode);
        assert(dr[i as int] == Some((InfoItem::Disk, disks@[i as int]@)));
        assert(dr.take(i + 1) =~= dr.take(i as int).push(dr[i as int]));
        assert(line_texts(lines@) =~= start + rows_text(dr.take(i + 1), width as nat, icon_mode));
        i += 1;
    }
    assert(dr.take(i as int) =~= dr);
}

/// The lines of the overview for a panel `width` columns wide; `na` stands
/// for a missing disk list.
pub fn push_overview_lines(
    snapshot: &SystemOverviewSnapshot,
    width: usize,
    icon_mode: IconMode,
    na: &str,
) -> (r: Vec<OverviewLine>)
    ensures
        line_texts(r@) == rows_text(overview_rows(*snapshot, na@), width as nat, icon_mode),
{
    let mut lines: Vec<OverviewLine> = Vec::new();
    assert(line_texts(lines@) =~= Seq::<Option<ItemText>>::empty());
    push_head(&mut lines, snapshot, width, icon_mode);
    push_disks(&mut lines, &snapshot.disk_lines, width, icon_mode, na);
    push_tail(&mut lines, snapshot, width, icon_mode);
    let ghost h = head_rows(*snapshot);
    let ghost d = disk_rows(strs(snapshot.disk_lines@), na@);
    let ghost t = tail_rows(*snapshot);
    assert(rows_text(h + d + t, width as nat, icon_mode) =~= rows_text(h, width as nat, icon_mode)
        + rows_text(d, width as nat, icon_mode) + rows_text(t, width as nat, icon_mode));
    assert(line_texts(lines@) =~= rows_text(overview_rows(*snapshot, na@), width as nat, icon_mode));
    lines
}


/// What was found on the machine for the overview. A value that could not
/// be found is `None`; `mem_line` is the memory line, already formatted.
#[derive(Clone, Debug)]
pub struct OverviewInputs {
    pub host_name: Option<String>,
    pub user_name: Option<String>,
    pub os_release: OsRelease,
    pub immutable: bool,
    pub system_name: Option<String>,
    pub kernel_version: Option<String>,
    pub uptime_secs: u64,
    pub board: Option<String>,
    pub cpu_brand: Option<String>,
    pub cpu_count: usize,
    pub cpu_passport: Option<(u64, u64)>,
    pub cpu_freqs: Vec<u64>,
    pub gpu: Option<String>,
    pub mem_line: String,
    pub disk_lines: Vec<String>,
    pub display: Option<String>,
    pub mouse: Option<String>,
    pub desktop: Option<String>,
    pub window_manager: Option<String>,
    pub shell: Option<String>,
    pub terminal: Option<String>,
    pub packages: Option<String>,
}

/// "unknown", translated.
pub open spec fn unknown_text(language: Language) -> Seq<char> {
    match language {
        Language::English => "unknown"@,
        Language::Russian => "неизвестно"@,
    }
}

/// "n/a", translated.
pub open spec fn na_text(language: Language) -> Seq<char> {
    match language {
        Language::English => "n/a"@,
        Language::Russian => "н/д"@,
    }
}

/// The value, or `fallback` when there is none.
pub open spec fn or_text(o: Option<String>, fallback: Seq<char>) -> Seq<char> {
    match o {
        Some(s) => s@,
        None => fallback,
    }
}

/// The value, or `fallback` when there is none.
fn text_or(o: &Option<String>, fallback: &str) -> (r: String)
    ensures
        r@ == or_text(*o, fallback@),
{
    match o {
        Some(s) => string_of(&chars_of(s.as_str())),
        None => string_of(&chars_of(fallback)),
    }
}

/// The OS name: the os-release `NAME`, else its `PRETTY_NAME`, else the
/// name the system reports, else "unknown".
pub open spec fn os_name_text(i: OverviewInputs, language: Language) -> Seq<char> {
    match i.os_release.name {
        Some(n) => n@,
        None => match i.os_release.pretty_name {
            Some(n) => n@,
            None => or_text(i.system_name, unknown_text(language)),
        },
    }
}

/// The CPU brand, or "unknown" when it is missing or blank.
pub open spec fn brand_text(i: OverviewInputs, language: Language) -> Seq<char> {
    match i.cpu_brand {
        Some(b) => if trim(b@).len() > 0 {
            b@
        } else {
            unknown_text(language)
        },
        None => unknown_text(language),
    }
}

/// Builds what the overview shows from what was found; what is missing is
/// shown as "unknown" (user, host, OS name, kernel, CPU brand) or "n/a"
/// (the other lines).
pub fn build_system_overview_snapshot(i: &OverviewInputs, language: Language) -> (r: SystemOverviewSnapshot)
    ensures
        r.user_host@ == or_text(i.user_name, unknown_text(language)) + "@"@ + or_text(
            i.host_name,
            unknown_text(language),
        ),
        r.distro_line@ == (match distro_line_spec(i.os_release, i.immutable) {
            Some(l) => l,
            None => na_text(language),
        }),
        r.os_name@ == os_name_text(*i, language),
        r.kernel_line@ == "Linux "@ + or_text(i.kernel_version, unknown_text(language)),
        r.uptime_line@ == join(uptime_parts(i.uptime_secs as nat, language), ", "@),
        r.board_line@ == or_text(i.board, na_text(language)),
        r.cpu_line@ == cpu_line_spec(
            brand_text(*i, language),
            i.cpu_count as nat,
            i.cpu_passport,
            i.cpu_freqs@,
        ),
        r.gpu_line@ == or_text(i.gpu, na_text(language)),
        r.mem_line@ == i.mem_line@,
        strs(r.disk_lines@) == (if i.disk_lines.len() == 0 {
            seq![na_text(language)]
        } else {
            strs(i.disk_lines@)
        }),
        r.display_line@ == or_text(i.display, na_text(language)),
        r.mouse_line@ == or_text(i.mouse, na_text(language)),
        r.de_line@ == or_text(i.desktop, na_text(language)),
        r.wm_line@ == or_text(i.window_manager, na_text(language)),
        r.shell_line@ == or_text(i.shell, na_text(language)),
        r.terminal_line@ == or_text(i.terminal, na_text(language)),
        r.package_line@ == or_text(i.packages, na_text(language)),
{
    let unknown = tr(language, "unknown", "неизвестно");
    let na = tr(language, "n/a", "н/д");
    let mut uh = chars_of(text_or(&i.user_name, unknown).as_str());
    push_str(&mut uh, "@");
    push_str(&mut uh, text_or(&i.host_name, unknown).as_str());
    let user_host = string_of(&uh);
    let distro_line = match distro_variant_line(&i.os_release, i.immutable) {
        Some(l) => l,
        None => string_of(&chars_of(na)),
    };
    let os_name = match &i.os_release.name {
        Some(n) => string_of(&chars_of(n.as_str())),
        None => match &i.os_release.pretty_name {
            Some(n) => string_of(&chars_of(n.as_str())),
            None => text_or(&i.system_name, unknown),
        },
    };
    let mut kl = chars_of("Linux ");
    push_str(&mut kl, text_or(&i.kernel_version, unknown).as_str());
    let kernel_line = string_of(&kl);
    let uptime_line = format_uptime_long(i.uptime_secs, language);
    let board_line = text_or(&i.board, na);
    let brand = match &i.cpu_brand {
        Some(b) => {
            let bv = chars_of(b.as_str());
            if is_blank(&bv) {
                proof {
                    crate::strings::lemma_blank_trim(b@);
                }
                string_of(&chars_of(unknown))
            } else {
                proof {
                    crate::strings::lemma_blank_trim(b@);
                }
                string_of(&bv)
            }
        },
        None => string_of(&chars_of(unknown)),
    };
    let cpu_line = cpu_overview_line(brand.as_str(), i.cpu_count, i.cpu_passport, &i.cpu_freqs);
    let gpu_line = text_or(&i.gpu, na);
    let mem_line = string_of(&chars_of(i.mem_line.as_str()));
    let mut disk_lines: Vec<String> = Vec::new();
    if i.disk_lines.len() == 0 {
        disk_lines.push(string_of(&chars_of(na)));
        assert(strs(disk_lines@) =~= seq![na_text(language)]);
    } else {
        let mut k: usize = 0;
        while k < i.disk_lines.len()
            invariant
                k <= i.disk_lines.len(),
                strs(disk_lines@) == strs(i.disk_lines@).take(k as int),
            decreases i.disk_lines.len() - k,
        {
            let ghost before = strs(disk_lines@);
            let copy = string_of(&chars_of(i.disk_lines[k].as_str()));
            assert(copy@ == i.disk_lines@[k as int]@);
            disk_lines.push(copy);
            assert(strs(disk_lines@) =~= before.push(copy@));
            assert(strs(i.disk_lines@).take(k + 1) =~= strs(i.disk_lines@).take(k as int).push(i.disk_lines@[k as int]@));
            assert(strs(disk_lines@) =~= strs(i.disk_lines@).take(k + 1));
            k += 1;
        }
        assert(strs(i.disk_lines@).take(k as int) =~= strs(i.disk_lines@));
    }
    SystemOverviewSnapshot {
        user_host,
        distro_line,
        os_name,
        kernel_line,
        uptime_line,
        board_line,
        cpu_line,
        gpu_line,
        mem_line,
        disk_lines,
        display_line: text_or(&i.display, na),
        mouse_line: text_or(&i.mouse, na),
        de_line: text_or(&i.desktop, na),
        wm_line: text_or(&i.window_manager, na),
        shell_line: text_or(&i.shell, na),
        terminal_line: text_or(&i.terminal, na),
        package_line: text_or(&i.packages, na),
    }
}

} // verus!
