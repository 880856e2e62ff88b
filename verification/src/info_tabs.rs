//! The detail tabs of the system panel (CPU, memory, disks, network,
//! temperatures): a section title and labelled values, each cut to the
//! panel's width.
use vstd::prelude::*;
use crate::format::{bytes_text, fit_text, fit_text_spec, format_bytes};
use crate::hardware::{avg_freq, freq_text, positives, summarize_cpu_freq, total};
use crate::overview::{label_line, label_line_text};
use crate::strings::{blank, chars_of, is_blank, push_str, string_of};
use crate::text::{tr, Language};
use crate::widgets::{cores_text, cpu_cores_text};

verus! {

/// One line of a detail tab: a section title, or a label padded to the
/// label column followed by its value.
#[derive(Clone, Debug)]
pub enum TabLine {
    Header(String),
    Field { label: String, value: String },
}

/// A tab line as plain text.
pub enum TabLineView {
    Header(Seq<char>),
    Field(Seq<char>, Seq<char>),
}

/// A tab line as plain text.
pub open spec fn tab_line_view(l: TabLine) -> TabLineView {
    match l {
        TabLine::Header(t) => TabLineView::Header(t@),
        TabLine::Field { label, value } => TabLineView::Field(label@, value@),
    }
}

/// Tab lines as plain text.
pub open spec fn tab_views(v: Seq<TabLine>) -> Seq<TabLineView> {
    v.map_values(|l: TabLine| tab_line_view(l))
}

/// What a tab shows before it is fitted to the panel: a title, or a label
/// and its value.
pub enum TabRow {
    Title(Seq<char>),
    Pair(Seq<char>, Seq<char>),
}

/// A row as shown in a panel `width` columns wide whose labels take
/// `label_width` columns: the title cut to the width; the label padded or
/// cut to its column and the value cut to what is left (see
/// `label_line_text`).
pub open spec fn shown_row(r: TabRow, width: nat, label_width: nat) -> TabLineView {
    match r {
        TabRow::Title(t) => TabLineView::Header(fit_text_spec(t, width)),
        TabRow::Pair(l, v) => {
            let (a, b) = label_line_text(l, v, width, label_width);
            TabLineView::Field(a, b)
        },
    }
}

/// Rows as shown.
pub open spec fn shown_rows(rows: Seq<TabRow>, width: nat, label_width: nat) -> Seq<TabLineView> {
    rows.map_values(|r: TabRow| shown_row(r, width, label_width))
}

/// The English or the Russian text.
pub open spec fn lang_text(language: Language, en: Seq<char>, ru: Seq<char>) -> Seq<char> {
    match language {
        Language::English => en,
        Language::Russian => ru,
    }
}

/// Appends a section title.
fn push_title(lines: &mut Vec<TabLine>, title: &str, width: usize)
    ensures
        tab_views(final(lines)@) == tab_views(old(lines)@).push(
            shown_row(TabRow::Title(title@), width as nat, 0),
        ),
{
    let ghost before = tab_views(lines@);
    lines.push(TabLine::Header(fit_text(title, width)));
    assert(tab_views(lines@) =~= before.push(shown_row(TabRow::Title(title@), width as nat, 0)));
}

/// Appends a labelled value.
fn push_pair(lines: &mut Vec<TabLine>, label: &str, value: &str, width: usize, label_width: usize)
    ensures
        tab_views(final(lines)@) == tab_views(old(lines)@).push(
            shown_row(TabRow::Pair(label@, value@), width as nat, label_width as nat),
        ),
{
    let ghost before = tab_views(lines@);
    let (l, v) = label_line(label, value, width, label_width);
    lines.push(TabLine::Field { label: l, value: v });
    assert(tab_views(lines@) =~= before.push(
        shown_row(TabRow::Pair(label@, value@), width as nat, label_width as nat),
    ));
}

/// A title is shown the same whatever the label column.
proof fn lemma_title_any_label(t: Seq<char>, width: nat, lw: nat)
    ensures
        shown_row(TabRow::Title(t), width, lw) == shown_row(TabRow::Title(t), width, 0),
{
}

/// The rows of the CPU tab: the model, the core count, the frequency, the
/// usage and the load averages.
pub open spec fn cpu_rows(
    language: Language,
    brand: Seq<char>,
    cores: Seq<char>,
    freq: Seq<char>,
    usage: Seq<char>,
    load: Seq<char>,
) -> Seq<TabRow> {
    seq![
        TabRow::Title("CPU"@),
        TabRow::Pair(lang_text(language, "Model"@, "Модель"@), brand),
        TabRow::Pair(lang_text(language, "Cores"@, "Ядра"@), cores),
        TabRow::Pair(lang_text(language, "Freq"@, "Част."@), freq),
        TabRow::Pair(lang_text(language, "Usage"@, "Загр."@), usage),
        TabRow::Pair(lang_text(language, "Load"@, "Нагрузка"@), load),
    ]
}

/// The CPU model shown: the brand of the first CPU, or "unknown" when
/// there is none or it is blank.
pub open spec fn brand_shown(brand: Option<Seq<char>>, language: Language) -> Seq<char> {
    match brand {
        Some(b) => if !blank(b) {
            b
        } else {
            lang_text(language, "unknown"@, "неизвестно"@)
        },
        None => lang_text(language, "unknown"@, "неизвестно"@),
    }
}

/// The frequency shown: the average of the CPUs that report one, or "n/a".
pub open spec fn freq_shown(freqs: Seq<u64>, language: Language) -> Seq<char> {
    match avg_freq(freqs) {
        Some(f) => freq_text(f),
        None => lang_text(language, "n/a"@, "н/д"@),
    }
}

/// The lines of the CPU tab. `brand` is the brand of the first CPU,
/// `physical` the number of physical cores, `freqs` the frequency of each
/// logical CPU in MHz (0 when unknown); `usage` and `load` are the usage
/// and the load averages, already formatted.
pub fn cpu_tab_lines(
    language: Language,
    width: usize,
    label_width: usize,
    brand: Option<&str>,
    physical: Option<usize>,
    freqs: &Vec<u64>,
    usage: &str,
    load: &str,
) -> (r: Vec<TabLine>)
    requires
        total(positives(freqs@)) <= u64::MAX,
    ensures
        tab_views(r@) == shown_rows(
            cpu_rows(
                language,
                brand_shown(
                    match brand {
                        Some(b) => Some(b@),
                        None => None,
                    },
                    language,
                ),
                cores_text(physical, freqs.len()),
                freq_shown(freqs@, language),
                usage@,
                load@,
            ),
            width as nat,
            label_width as nat,
        ),
{
    let unknown = tr(language, "unknown", "неизвестно");
    let brand_s = match brand {
        Some(b) => {
            let v = chars_of(b);
            if is_blank(&v) {
                string_of(&chars_of(unknown))
            } else {
                string_of(&v)
            }
        },
        None => string_of(&chars_of(unknown)),
    };
    let cores = cpu_cores_text(physical, freqs.len());
    let freq = match summarize_cpu_freq(freqs) {
        Some(f) => f,
        None => string_of(&chars_of(tr(language, "n/a", "н/д"))),
    };
    let mut lines: Vec<TabLine> = Vec::new();
    push_title(&mut lines, tr(language, "CPU", "CPU"), width);
    push_pair(&mut lines, tr(language, "Model", "Модель"), brand_s.as_str(), width, label_width);
    push_pair(&mut lines, tr(language, "Cores", "Ядра"), cores.as_str(), width, label_width);
    push_pair(&mut lines, tr(language, "Freq", "Част."), freq.as_str(), width, label_width);
    push_pair(&mut lines, tr(language, "Usage", "Загр."), usage, width, label_width);
    push_pair(&mut lines, tr(language, "Load", "Нагрузка"), load, width, label_width);
    let ghost rows = cpu_rows(
        language,
        brand_s@,
        cores@,
        freq@,
        usage@,
        load@,
    );
    proof {
        lemma_title_any_label("CPU"@, width as nat, label_width as nat);
    }
    assert(tab_views(lines@) =~= shown_rows(rows, width as nat, label_width as nat));
    lines
}

/// `<used> / <total> (<pct>%)`.
pub open spec fn usage_text(used: u64, total: u64, pct: Seq<char>) -> Seq<char> {
    bytes_text(used as nat) + " / "@ + bytes_text(total as nat) + " ("@ + pct + "%)"@
}

/// `<used> / <total> (<pct>%)`.
fn usage_string(used: u64, total: u64, pct: &str) -> (r: String)
    ensures
        r@ == usage_text(used, total, pct@),
{
    let mut v = chars_of(format_bytes(used).as_str());
    push_str(&mut v, " / ");
    push_str(&mut v, format_bytes(total).as_str());
    push_str(&mut v, " (");
    push_str(&mut v, pct);
    push_str(&mut v, "%)");
    string_of(&v)
}

/// The memory figures of the memory tab; the percentages are the used
/// shares, already formatted.
#[derive(Clone, Debug)]
pub struct MemoryFigures {
    pub used: u64,
    pub total: u64,
    pub available: u64,
    pub free: u64,
    pub used_pct: String,
    pub used_swap: u64,
    pub total_swap: u64,
    pub swap_pct: String,
}

/// The rows of the memory tab: RAM in use, available and free memory, and
/// swap in use.
pub open spec fn memory_rows(language: Language, m: MemoryFigures) -> Seq<TabRow> {
    seq![
        TabRow::Title(lang_text(language, "Memory"@, "Память"@)),
        TabRow::Pair(lang_text(language, "RAM"@, "ОЗУ"@), usage_text(m.used, m.total, m.used_pct@)),
        TabRow::Pair(lang_text(language, "Avail"@, "Дост."@), bytes_text(m.available as nat)),
        TabRow::Pair(lang_text(language, "Free"@, "Своб."@), bytes_text(m.free as nat)),
        TabRow::Pair("Swap"@, usage_text(m.used_swap, m.total_swap, m.swap_pct@)),
    ]
}

/// The lines of the memory tab.
pub fn memory_tab_lines(language: Language, width: usize, label_width: usize, m: &MemoryFigures) -> (r: Vec<TabLine>)
    ensures
        tab_views(r@) == shown_rows(memory_rows(language, *m), width as nat, label_width as nat),
{
    let ram = usage_string(m.used, m.total, m.used_pct.as_str());
    let avail = format_bytes(m.available);
    let free = format_bytes(m.free);
    let swap = usage_string(m.used_swap, m.total_swap, m.swap_pct.as_str());
    let mut lines: Vec<TabLine> = Vec::new();
    let title = tr(language, "Memory", "Память");
    push_title(&mut lines, title, width);
    push_pair(&mut lines, tr(language, "RAM", "ОЗУ"), ram.as_str(), width, label_width);
    push_pair(&mut lines, tr(language, "Avail", "Дост."), avail.as_str(), width, label_width);
    push_pair(&mut lines, tr(language, "Free", "Своб."), free.as_str(), width, label_width);
    push_pair(&mut lines, tr(language, "Swap", "Swap"), swap.as_str(), width, label_width);
    proof {
        lemma_title_any_label(title@, width as nat, label_width as nat);
    }
    assert(tab_views(lines@) =~= shown_rows(memory_rows(language, *m), width as nat, label_width as nat));
    lines
}

/// A mounted disk as the disks tab shows it; `used_pct` is its used share
/// in percent, already formatted.
#[derive(Clone, Debug)]
pub struct DiskTabRow {
    pub mount: String,
    pub total: u64,
    pub available: u64,
    pub file_system: String,
    pub used_pct: String,
}

/// The space in use: the total less the available space, or 0.
pub open spec fn disk_used(d: DiskTabRow) -> u64 {
    if d.available <= d.total {
        (d.total - d.available) as u64
    } else {
        0
    }
}

/// The value shown for a disk: `<used> / <total> (<pct>%) <fs>`.
pub open spec fn disk_value(d: DiskTabRow) -> Seq<char> {
    usage_text(disk_used(d), d.total, d.used_pct@) + " "@ + d.file_system@
}

/// The rows of the disks tab: a line per disk under its mount point, or a
/// single `n/a` line when there is none.
pub open spec fn disk_tab_rows(language: Language, disks: Seq<DiskTabRow>, na: Seq<char>) -> Seq<TabRow> {
    seq![TabRow::Title(lang_text(language, "Disks"@, "Диски"@))] + if disks.len() == 0 {
        seq![TabRow::Pair(lang_text(language, "Disk"@, "Диск"@), na)]
    } else {
        disks.map_values(|d: DiskTabRow| TabRow::Pair(d.mount@, disk_value(d)))
    }
}

/// The lines of the disks tab; `na` stands for a missing disk list.
pub fn disk_tab_lines(language: Language, width: usize, label_width: usize, disks: &Vec<DiskTabRow>, na: &str) -> (r: Vec<TabLine>)
    ensures
        tab_views(r@) == shown_rows(disk_tab_rows(language, disks@, na@), width as nat, label_width as nat),
{
    let mut lines: Vec<TabLine> = Vec::new();
    let title = tr(language, "Disks", "Диски");
    push_title(&mut lines, title, width);
    proof {
        lemma_title_any_label(title@, width as nat, label_width as nat);
    }
    let ghost rows = disk_tab_rows(language, disks@, na@);
    let ghost w = width as nat;
    let ghost lw = label_width as nat;
    if disks.len() == 0 {
        push_pair(&mut lines, tr(language, "Disk", "Диск"), na, width, label_width);
        assert(tab_views(lines@) =~= shown_rows(rows, w, lw));
        return lines;
    }
    let mut i: usize = 0;
    assert(tab_views(lines@) =~= shown_rows(rows.take(1), w, lw));
    while i < disks.len()
        invariant
            i <= disks.len(),
            rows == disk_tab_rows(language, disks@, na@),
            disks.len() > 0,
            rows.len() == disks.len() + 1,
            tab_views(lines@) == shown_rows(rows.take(i + 1), w, lw),
            w == width as nat,
            lw == label_width as nat,
        decreases disks.len() - i,
    {
        let d = &disks[i];
        let used = if d.available <= d.total {
            d.total - d.available
        } else {
            0
        };
        let mut v = chars_of(usage_string(used, d.total, d.used_pct.as_str()).as_str());
        push_str(&mut v, " ");
        push_str(&mut v, d.file_system.as_str());
        let value = string_of(&v);
        let ghost before = tab_views(lines@);
        push_pair(&mut lines, d.mount.as_str(), value.as_str(), width, label_width);
        assert(rows[i + 1] == TabRow::Pair(d.mount@, disk_value(*d)));
        assert(shown_rows(rows.take(i + 2), w, lw) =~= shown_rows(rows.take(i + 1), w, lw).push(
            shown_row(rows[i + 1], w, lw),
        ));
        i += 1;
    }
    assert(rows.take(i + 1) =~= rows);
    lines
}

/// `x` placed into the ordered positions `s`: after every position it does
/// not come before (by `before`), so that equal ones keep their order.
pub open spec fn insert_pos(s: Seq<int>, x: int, before: spec_fn(int, int) -> bool) -> Seq<int>
    decreases s.len(),
{
    if s.len() == 0 {
        seq![x]
    } else if !before(x, s.last()) {
        s.push(x)
    } else {
        insert_pos(s.drop_last(), x, before).push(s.last())
    }
}

/// The positions `0..n` in the order `before` gives them, equal ones in
/// the order they were given in (a stable insertion sort).
pub open spec fn sort_positions(n: nat, before: spec_fn(int, int) -> bool) -> Seq<int>
    decreases n,
{
    if n == 0 {
        Seq::empty()
    } else {
        insert_pos(sort_positions((n - 1) as nat, before), n - 1, before)
    }
}

pub(crate) proof fn lemma_insert_pos(s: Seq<int>, x: int, before: spec_fn(int, int) -> bool, j: int)
    requires
        0 <= j <= s.len(),
        forall|k: int| j <= k < s.len() ==> before(x, #[trigger] s[k]),
        j == 0 || !before(x, s[j - 1]),
    ensures
        insert_pos(s, x, before) == s.take(j) + seq![x] + s.skip(j),
    decreases s.len(),
{
    if j == s.len() {
        assert(s.take(j) =~= s);
        assert(s.skip(j) =~= Seq::<int>::empty());
        if s.len() == 0 {
            assert(s.take(j) + seq![x] + s.skip(j) =~= seq![x]);
        } else {
            assert(s.take(j) + seq![x] + s.skip(j) =~= s.push(x));
        }
    } else {
        let t = s.drop_last();
        assert(before(x, s[s.len() - 1]));
        assert forall|k: int| j <= k < t.len() implies before(x, #[trigger] t[k]) by {
            assert(t[k] == s[k]);
        }
        lemma_insert_pos(t, x, before, j);
        assert(t.take(j) =~= s.take(j));
        assert(t.skip(j).push(s.last()) =~= s.skip(j));
        assert((t.take(j) + seq![x] + t.skip(j)).push(s.last()) =~= s.take(j) + seq![x] + s.skip(j));
    }
}

/// The positions of a vector as integers.
pub open spec fn ints(v: Seq<usize>) -> Seq<int> {
    v.map_values(|x: usize| x as int)
}

/// The traffic of a network interface: bytes received and sent, either
/// per second or in all, as the tab is asked to show them.
#[derive(Clone, Debug)]
pub struct NetRow {
    pub name: String,
    pub rx: u64,
    pub tx: u64,
}

/// Interface `i` comes before interface `j`: by name.
pub open spec fn name_before(rows: Seq<NetRow>) -> spec_fn(int, int) -> bool {
    |i: int, j: int| crate::proc_tree::seq_less(rows[i].name@, rows[j].name@)
}

/// The value shown for an interface: `rx <r>/s tx <t>/s` for rates, else
/// `rx <r> tx <t>`.
pub open spec fn net_value(r: NetRow, per_second: bool) -> Seq<char> {
    if per_second {
        "rx "@ + bytes_text(r.rx as nat) + "/s tx "@ + bytes_text(r.tx as nat) + "/s"@
    } else {
        "rx "@ + bytes_text(r.rx as nat) + " tx "@ + bytes_text(r.tx as nat)
    }
}

/// The rows of the network tab: a line per interface, ordered by name, or
/// a single `n/a` line when there is none.
pub open spec fn network_rows(language: Language, nets: Seq<NetRow>, per_second: bool, na: Seq<char>) -> Seq<TabRow> {
    seq![TabRow::Title(lang_text(language, "Network"@, "Сеть"@))] + if nets.len() == 0 {
        seq![TabRow::Pair(lang_text(language, "Net"@, "Сеть"@), na)]
    } else {
        sort_positions(nets.len(), name_before(nets)).map_values(
            |p: int| TabRow::Pair(nets[p].name@, net_value(nets[p], per_second)),
        )
    }
}

/// The value shown for an interface.
fn net_value_string(r: &NetRow, per_second: bool) -> (s: String)
    ensures
        s@ == net_value(*r, per_second),
{
    let mut v = chars_of("rx ");
    push_str(&mut v, format_bytes(r.rx).as_str());
    if per_second {
        push_str(&mut v, "/s tx ");
        push_str(&mut v, format_bytes(r.tx).as_str());
        push_str(&mut v, "/s");
    } else {
        push_str(&mut v, " tx ");
        push_str(&mut v, format_bytes(r.tx).as_str());
    }
    string_of(&v)
}

/// Whether interface `a` comes before interface `b`.
fn net_first(a: &NetRow, b: &NetRow) -> (r: bool)
    ensures
        r == crate::proc_tree::seq_less(a.name@, b.name@),
{
    crate::proc_tree::str_less(&chars_of(a.name.as_str()), &chars_of(b.name.as_str()))
}

/// The positions of the interfaces ordered by name.
fn net_order(nets: &Vec<NetRow>) -> (o: Vec<usize>)
    ensures
        ints(o@) == sort_positions(nets@.len(), name_before(nets@)),
        forall|k: int| 0 <= k < o@.len() ==> (#[trigger] o@[k]) < nets@.len(),
{
    let ghost b = name_before(nets@);
    let mut o: Vec<usize> = Vec::new();
    let mut n: usize = 0;
    while n < nets.len()
        invariant
            n <= nets.len(),
            b == name_before(nets@),
            ints(o@) == sort_positions(n as nat, b),
            forall|k: int| 0 <= k < o@.len() ==> (#[trigger] o@[k]) < n,
        decreases nets.len() - n,
    {
        let ghost s = ints(o@);
        let mut j: usize = o.len();
        while j > 0 && net_first(&nets[n], &nets[o[j - 1]])
            invariant
                j <= o.len(),
                n < nets.len(),
                s == ints(o@),
                s.len() == o.len(),
                b == name_before(nets@),
                forall|k: int| 0 <= k < o@.len() ==> (#[trigger] o@[k]) < n,
                forall|k: int| j <= k < s.len() ==> b(n as int, #[trigger] s[k]),
            decreases j,
        {
            assert(s[j - 1] == o@[j - 1] as int);
            j -= 1;
        }
        assert(j == 0 || !b(n as int, s[j - 1])) by {
            if j > 0 {
                assert(s[j - 1] == o@[j - 1] as int);
            }
        }
        proof {
            lemma_insert_pos(s, n as int, b, j as int);
        }
        let ghost old_o = o@;
        o.insert(j, n);
        assert(ints(o@) =~= s.take(j as int) + seq![n as int] + s.skip(j as int)) by {
            assert forall|k: int| 0 <= k < o@.len() implies #[trigger] ints(o@)[k] == (s.take(j as int)
                + seq![n as int] + s.skip(j as int))[k] by {
                if k < j {
                    assert(o@[k] == old_o[k]);
                } else if k > j {
                    assert(o@[k] == old_o[k - 1]);
                }
            }
        }
        assert forall|k: int| 0 <= k < o@.len() implies (#[trigger] o@[k]) < n + 1 by {
            if k < j {
                assert(o@[k] == old_o[k]);
            } else if k > j {
                assert(o@[k] == old_o[k - 1]);
            }
        }
        n += 1;
    }
    o
}

/// The lines of the network tab; `per_second` tells whether the figures
/// are rates; `na` stands for a missing interface list.
pub fn network_tab_lines(
    language: Language,
    width: usize,
    label_width: usize,
    nets: &Vec<NetRow>,
    per_second: bool,
    na: &str,
) -> (r: Vec<TabLine>)
    ensures
        tab_views(r@) == shown_rows(
            network_rows(language, nets@, per_second, na@),
            width as nat,
            label_width as nat,
        ),
{
    let mut lines: Vec<TabLine> = Vec::new();
    let title = tr(language, "Network", "Сеть");
    push_title(&mut lines, title, width);
    proof {
        lemma_title_any_label(title@, width as nat, label_width as nat);
    }
    let ghost rows = network_rows(language, nets@, per_second, na@);
    let ghost w = width as nat;
    let ghost lw = label_width as nat;
    if nets.len() == 0 {
        push_pair(&mut lines, tr(language, "Net", "Сеть"), na, width, label_width);
        assert(tab_views(lines@) =~= shown_rows(rows, w, lw));
        return lines;
    }
    let order = net_order(nets);
    let ghost o = sort_positions(nets@.len(), name_before(nets@));
    let mut i: usize = 0;
    assert(tab_views(lines@) =~= shown_rows(rows.take(1), w, lw));
    while i < order.len()
        invariant
            i <= order.len(),
            ints(order@) == o,
            o == sort_positions(nets@.len(), name_before(nets@)),
            forall|k: int| 0 <= k < order@.len() ==> (#[trigger] order@[k]) < nets@.len(),
            rows == network_rows(language, nets@, per_second, na@),
            nets.len() > 0,
            rows.len() == order.len() + 1,
            tab_views(lines@) == shown_rows(rows.take(i + 1), w, lw),
            w == width as nat,
            lw == label_width as nat,
        decreases order.len() - i,
    {
        let p = order[i];
        let r = &nets[p];
        let value = net_value_string(r, per_second);
        push_pair(&mut lines, r.name.as_str(), value.as_str(), width, label_width);
        assert(o[i as int] == p as int);
        assert(rows[i + 1] == TabRow::Pair(nets@[p as int].name@, net_value(nets@[p as int], per_second)));
        assert(shown_rows(rows.take(i + 2), w, lw) =~= shown_rows(rows.take(i + 1), w, lw).push(
            shown_row(rows[i + 1], w, lw),
        ));
        i += 1;
    }
    assert(rows.take(i + 1) =~= rows);
    lines
}

/// A temperature sensor: its label and, when it gives a reading, a number
/// that orders the readings (a higher one for a higher temperature) with
/// the reading formatted.
#[derive(Clone, Debug)]
pub struct TempRow {
    pub label: String,
    pub reading: Option<(i64, String)>,
}

/// Sensor `i` comes before sensor `j`: the hotter first, sensors with a
/// reading before those without, and these by label.
pub open spec fn temp_before(rows: Seq<TempRow>) -> spec_fn(int, int) -> bool {
    |i: int, j: int|
        match (rows[i].reading, rows[j].reading) {
            (Some(a), Some(b)) => a.0 > b.0,
            (Some(_), None) => true,
            (None, Some(_)) => false,
            (None, None) => crate::proc_tree::seq_less(rows[i].label@, rows[j].label@),
        }
}

/// The value shown for a sensor: its reading, or `na`.
pub open spec fn temp_value(r: TempRow, na: Seq<char>) -> Seq<char> {
    match r.reading {
        Some(x) => x.1@,
        None => na,
    }
}

/// The rows of the temperatures tab: a line per sensor, hottest first, or a
/// single `n/a` line when there is none.
pub open spec fn temp_rows(language: Language, temps: Seq<TempRow>, na: Seq<char>) -> Seq<TabRow> {
    seq![TabRow::Title(lang_text(language, "Temps"@, "Темп."@))] + if temps.len() == 0 {
        seq![TabRow::Pair(lang_text(language, "Temp"@, "Темп."@), na)]
    } else {
        sort_positions(temps.len(), temp_before(temps)).map_values(
            |p: int| TabRow::Pair(temps[p].label@, temp_value(temps[p], na)),
        )
    }
}

/// Whether sensor `a` comes before sensor `b`.
fn temp_first(a: &TempRow, b: &TempRow) -> (r: bool)
    ensures
        r == (match (a.reading, b.reading) {
            (Some(x), Some(y)) => x.0 > y.0,
            (Some(_), None) => true,
            (None, Some(_)) => false,
            (None, None) => crate::proc_tree::seq_less(a.label@, b.label@),
        }),
{
    match (&a.reading, &b.reading) {
        (Some(x), Some(y)) => x.0 > y.0,
        (Some(_), None) => true,
        (None, Some(_)) => false,
        (None, None) => crate::proc_tree::str_less(&chars_of(a.label.as_str()), &chars_of(b.label.as_str())),
    }
}

/// The positions of the sensors, hottest first.
fn temp_order(temps: &Vec<TempRow>) -> (o: Vec<usize>)
    ensures
        ints(o@) == sort_positions(temps@.len(), temp_before(temps@)),
        forall|k: int| 0 <= k < o@.len() ==> (#[trigger] o@[k]) < temps@.len(),
{
    let ghost b = temp_before(temps@);
    let mut o: Vec<usize> = Vec::new();
    let mut n: usize = 0;
    while n < temps.len()
        invariant
            n <= temps.len(),
            b == temp_before(temps@),
            ints(o@) == sort_positions(n as nat, b),
            forall|k: int| 0 <= k < o@.len() ==> (#[trigger] o@[k]) < n,
        decreases temps.len() - n,
    {
        let ghost s = ints(o@);
        let mut j: usize = o.len();
        while j > 0 && temp_first(&temps[n], &temps[o[j - 1]])
            invariant
                j <= o.len(),
                n < temps.len(),
                s == ints(o@),
                s.len() == o.len(),
                b == temp_before(temps@),
                forall|k: int| 0 <= k < o@.len() ==> (#[trigger] o@[k]) < n,
                forall|k: int| j <= k < s.len() ==> b(n as int, #[trigger] s[k]),
            decreases j,
        {
            assert(s[j - 1] == o@[j - 1] as int);
            j -= 1;
        }
        assert(j == 0 || !b(n as int, s[j - 1])) by {
            if j > 0 {
                assert(s[j - 1] == o@[j - 1] as int);
            }
        }
        proof {
            lemma_insert_pos(s, n as int, b, j as int);
        }
        let ghost old_o = o@;
        o.insert(j, n);
        assert(ints(o@) =~= s.take(j as int) + seq![n as int] + s.skip(j as int)) by {
            assert forall|k: int| 0 <= k < o@.len() implies #[trigger] ints(o@)[k] == (s.take(j as int)
                + seq![n as int] + s.skip(j as int))[k] by {
                if k < j {
                    assert(o@[k] == old_o[k]);
                } else if k > j {
                    assert(o@[k] == old_o[k - 1]);
                }
            }
        }
        assert forall|k: int| 0 <= k < o@.len() implies (#[trigger] o@[k]) < n + 1 by {
            if k < j {
                assert(o@[k] == old_o[k]);
            } else if k > j {
                assert(o@[k] == old_o[k - 1]);
            }
        }
        n += 1;
    }
    o
}

/// The lines of the temperatures tab; `na` stands for a missing reading
/// or sensor list.
pub fn temp_tab_lines(language: Language, width: usize, label_width: usize, temps: &Vec<TempRow>, na: &str) -> (r: Vec<TabLine>)
    ensures
        tab_views(r@) == shown_rows(temp_rows(language, temps@, na@), width as nat, label_width as nat),
{
    let mut lines: Vec<TabLine> = Vec::new();
    let title = tr(language, "Temps", "Темп.");
    push_title(&mut lines, title, width);
    proof {
        lemma_title_any_label(title@, width as nat, label_width as nat);
    }
    let ghost rows = temp_rows(language, temps@, na@);
    let ghost w = width as nat;
    let ghost lw = label_width as nat;
    if temps.len() == 0 {
        push_pair(&mut lines, tr(language, "Temp", "Темп."), na, width, label_width);
        assert(tab_views(lines@) =~= shown_rows(rows, w, lw));
        return lines;
    }
    let order = temp_order(temps);
    let ghost o = sort_positions(temps@.len(), temp_before(temps@));
    let mut i: usize = 0;
    assert(tab_views(lines@) =~= shown_rows(rows.take(1), w, lw));
    while i < order.len()
        invariant
            i <= order.len(),
            ints(order@) == o,
            o == sort_positions(temps@.len(), temp_before(temps@)),
            forall|k: int| 0 <= k < order@.len() ==> (#[trigger] order@[k]) < temps@.len(),
            rows == temp_rows(language, temps@, na@),
            temps.len() > 0,
            rows.len() == order.len() + 1,
            tab_views(lines@) == shown_rows(rows.take(i + 1), w, lw),
            w == width as nat,
            lw == label_width as nat,
        decreases order.len() - i,
    {
        let p = order[i];
        let r = &temps[p];
        let value = match &r.reading {
            Some(x) => string_of(&chars_of(x.1.as_str())),
            None => string_of(&chars_of(na)),
        };
        push_pair(&mut lines, r.label.as_str(), value.as_str(), width, label_width);
        assert(o[i as int] == p as int);
        assert(rows[i + 1] == TabRow::Pair(temps@[p as int].label@, temp_value(temps@[p as int], na@)));
        assert(shown_rows(rows.take(i + 2), w, lw) =~= shown_rows(rows.take(i + 1), w, lw).push(
            shown_row(rows[i + 1], w, lw),
        ));
        i += 1;
    }
    assert(rows.take(i + 1) =~= rows);
    lines
}

/// `before` orders the positions `0..n` as a strict weak order: nothing
/// comes before itself, two positions are never each before the other, and
/// not coming before is transitive.
pub open spec fn weak_order(before: spec_fn(int, int) -> bool, n: int) -> bool {
    &&& forall|a: int, b: int| 0 <= a < n && 0 <= b < n && #[trigger] before(a, b) ==> !before(b, a)
    &&& forall|a: int, b: int, c: int|
        0 <= a < n && 0 <= b < n && 0 <= c < n && !#[trigger] before(a, b) && !#[trigger] before(b, c)
            ==> !before(a, c)
}

/// No later position comes before an earlier one.
pub open spec fn ordered_by(s: Seq<int>, before: spec_fn(int, int) -> bool) -> bool {
    forall|i: int, j: int| 0 <= i < j < s.len() ==> !before(#[trigger] s[j], #[trigger] s[i])
}

/// The positions `0..n`.
pub open spec fn positions(n: nat) -> Seq<int> {
    Seq::new(n, |i: int| i)
}

proof fn lemma_insert_pos_ordered(s: Seq<int>, x: int, before: spec_fn(int, int) -> bool, n: int)
    requires
        weak_order(before, n),
        0 <= x < n,
        forall|k: int| 0 <= k < s.len() ==> 0 <= #[trigger] s[k] < n,
        ordered_by(s, before),
    ensures
        ordered_by(insert_pos(s, x, before), before),
        insert_pos(s, x, before).to_multiset() == s.to_multiset().insert(x),
        forall|k: int| 0 <= k < insert_pos(s, x, before).len() ==> 0 <= #[trigger] insert_pos(s, x, before)[k] < n,
    decreases s.len(),
{
    broadcast use vstd::seq_lib::group_to_multiset_ensures;

    if s.len() == 0 {
        assert(seq![x] =~= Seq::<int>::empty().push(x));
    } else if !before(x, s.last()) {
        let u = s.push(x);
        assert forall|i: int, j: int| 0 <= i < j < u.len() implies !before(#[trigger] u[j], #[trigger] u[i]) by {
            if j == s.len() {
                if i < s.len() - 1 {
                    assert(!before(s[s.len() - 1], s[i]));
                }
            } else {
                assert(u[i] == s[i] && u[j] == s[j]);
            }
        }
    } else {
        let t = s.drop_last();
        let l = s.last();
        assert forall|i: int, j: int| 0 <= i < j < t.len() implies !before(#[trigger] t[j], #[trigger] t[i]) by {
            assert(t[i] == s[i] && t[j] == s[j]);
        }
        lemma_insert_pos_ordered(t, x, before, n);
        let u = insert_pos(t, x, before);
        assert(s =~= t.push(l));
        let w = u.push(l);
        assert forall|i: int, j: int| 0 <= i < j < w.len() implies !before(#[trigger] w[j], #[trigger] w[i]) by {
            if j == u.len() {
                let e = u[i];
                assert(u.to_multiset().contains(e));
                assert(t.to_multiset().insert(x).contains(e));
                if e != x {
                    assert(t.to_multiset().contains(e));
                    let k = choose|k: int| 0 <= k < t.len() && t[k] == e;
                    assert(s[k] == e);
                    assert(!before(s[s.len() - 1], s[k]));
                }
            } else {
                assert(w[i] == u[i] && w[j] == u[j]);
            }
        }
    }
}

proof fn lemma_insert_pos_len(s: Seq<int>, x: int, before: spec_fn(int, int) -> bool)
    ensures
        insert_pos(s, x, before).len() == s.len() + 1,
    decreases s.len(),
{
    if s.len() > 0 && before(x, s.last()) {
        lemma_insert_pos_len(s.drop_last(), x, before);
    }
}

pub(crate) proof fn lemma_sort_positions_len(n: nat, before: spec_fn(int, int) -> bool)
    ensures
        sort_positions(n, before).len() == n,
    decreases n,
{
    if n > 0 {
        lemma_sort_positions_len((n - 1) as nat, before);
        lemma_insert_pos_len(sort_positions((n - 1) as nat, before), n - 1, before);
    }
}

/// Sorting the positions `0..n` by a strict weak order lists each position
/// once, and no position comes after one it is before.
pub proof fn lemma_sort_positions(n: nat, before: spec_fn(int, int) -> bool)
    requires
        weak_order(before, n as int),
    ensures
        sort_positions(n, before).to_multiset() == positions(n).to_multiset(),
        ordered_by(sort_positions(n, before), before),
        forall|k: int| 0 <= k < sort_positions(n, before).len() ==> 0 <= #[trigger] sort_positions(n, before)[k] < n,
    decreases n,
{
    broadcast use vstd::seq_lib::group_to_multiset_ensures;

    if n > 0 {
        let m = (n - 1) as nat;
        assert(weak_order(before, m as int));
        lemma_sort_positions(m, before);
        lemma_insert_pos_ordered(sort_positions(m, before), m as int, before, n as int);
        assert(positions(n) =~= positions(m).push(m as int));
    } else {
        assert(positions(0) =~= Seq::<int>::empty());
    }
}

proof fn lemma_name_weak_order(nets: Seq<NetRow>)
    ensures
        weak_order(name_before(nets), nets.len() as int),
{
    let b = name_before(nets);
    let n = nets.len() as int;
    assert forall|x: int, y: int| 0 <= x < n && 0 <= y < n && #[trigger] b(x, y) implies !b(y, x) by {
        crate::proc_tree::lemma_seq_less_total(nets[x].name@, nets[y].name@);
    }
    assert forall|x: int, y: int, z: int|
        0 <= x < n && 0 <= y < n && 0 <= z < n && !#[trigger] b(x, y) && !#[trigger] b(y, z) implies !b(x, z) by {
        let (p, q, r) = (nets[x].name@, nets[y].name@, nets[z].name@);
        crate::proc_tree::lemma_seq_less_total(p, q);
        crate::proc_tree::lemma_seq_less_total(q, r);
        crate::proc_tree::lemma_seq_less_total(p, r);
        if crate::proc_tree::seq_less(p, r) {
            if q != p && r != q {
                crate::proc_tree::lemma_seq_less_transitive(r, q, p);
            }
        }
    }
}

/// The network tab lists every interface once, ordered by name.
pub proof fn lemma_network_order(nets: Seq<NetRow>)
    ensures
        sort_positions(nets.len(), name_before(nets)).to_multiset() == positions(nets.len()).to_multiset(),
        forall|i: int, j: int|
            0 <= i < j < nets.len() ==> !crate::proc_tree::seq_less(
                nets[#[trigger] sort_positions(nets.len(), name_before(nets))[j]].name@,
                nets[#[trigger] sort_positions(nets.len(), name_before(nets))[i]].name@,
            ),
{
    lemma_name_weak_order(nets);
    lemma_sort_positions(nets.len(), name_before(nets));
    lemma_sort_positions_len(nets.len(), name_before(nets));
}

proof fn lemma_temp_weak_order(temps: Seq<TempRow>)
    ensures
        weak_order(temp_before(temps), temps.len() as int),
{
    let b = temp_before(temps);
    let n = temps.len() as int;
    assert forall|x: int, y: int| 0 <= x < n && 0 <= y < n && #[trigger] b(x, y) implies !b(y, x) by {
        crate::proc_tree::lemma_seq_less_total(temps[x].label@, temps[y].label@);
    }
    assert forall|x: int, y: int, z: int|
        0 <= x < n && 0 <= y < n && 0 <= z < n && !#[trigger] b(x, y) && !#[trigger] b(y, z) implies !b(x, z) by {
        let (p, q, r) = (temps[x].label@, temps[y].label@, temps[z].label@);
        crate::proc_tree::lemma_seq_less_total(p, q);
        crate::proc_tree::lemma_seq_less_total(q, r);
        crate::proc_tree::lemma_seq_less_total(p, r);
        if temps[x].reading is None && temps[y].reading is None && temps[z].reading is None
            && crate::proc_tree::seq_less(p, r) {
            if q != p && r != q {
                crate::proc_tree::lemma_seq_less_transitive(r, q, p);
            }
        }
    }
}

/// The temperatures tab lists every sensor once: sensors with a reading
/// first, the hottest first, then those without one, by label.
pub proof fn lemma_temps_hottest_first(temps: Seq<TempRow>)
    ensures
        sort_positions(temps.len(), temp_before(temps)).to_multiset() == positions(temps.len()).to_multiset(),
        forall|i: int, j: int|
            0 <= i < j < temps.len() ==> {
                let a = temps[#[trigger] sort_positions(temps.len(), temp_before(temps))[i]];
                let b = temps[#[trigger] sort_positions(temps.len(), temp_before(temps))[j]];
                &&& (a.reading is None ==> b.reading is None)
                &&& (a.reading is Some && b.reading is Some ==> (a.reading->0).0 >= (b.reading->0).0)
                &&& (a.reading is None ==> !crate::proc_tree::seq_less(b.label@, a.label@))
            },
{
    lemma_temp_weak_order(temps);
    lemma_sort_positions(temps.len(), temp_before(temps));
    lemma_sort_positions_len(temps.len(), temp_before(temps));
    let o = sort_positions(temps.len(), temp_before(temps));
    assert forall|i: int, j: int| 0 <= i < j < temps.len() implies {
        let a = temps[#[trigger] o[i]];
        let b = temps[#[trigger] o[j]];
        &&& (a.reading is None ==> b.reading is None)
        &&& (a.reading is Some && b.reading is Some ==> (a.reading->0).0 >= (b.reading->0).0)
        &&& (a.reading is None ==> !crate::proc_tree::seq_less(b.label@, a.label@))
    } by {
        assert(!temp_before(temps)(o[j], o[i]));
    }
}

} // verus!
