//! The GPU process table: the processes of the selected GPU with their
//! names, ordered by the chosen column, and the window of rows that fits
//! the panel.
use std::cmp::Ordering;
use vstd::prelude::*;
use crate::info_tabs::{ints, lemma_insert_pos, lemma_sort_positions_len, sort_positions};
use crate::layout::{inner_area, min_of, panel_inner, sat_add, Area};
use crate::proc_tree::seq_less;
use crate::strings::{chars_of, decimal, push_decimal, string_of};
use crate::tables::GpuSortKey;
use crate::widgets::{
    char_key, cmp_option_char, cmp_option_u64, cmp_str, cmp_u32, fb_text, format_fb_mb, option_order,
    order_of, SortDir,
};

verus! {

/// A share of a GPU engine used by a process: a number that orders the
/// shares, and the share as the table shows it.
pub type Share = (i64, String);

/// A process's use of a GPU, as the GPU reports it.
#[derive(Clone, Debug)]
pub struct GpuProcEntry {
    pub pid: u32,
    pub gpu_id: String,
    pub kind: Option<char>,
    pub sm: Option<Share>,
    pub mem: Option<Share>,
    pub enc: Option<Share>,
    pub dec: Option<Share>,
    pub fb_mb: Option<u64>,
}

/// A row of the GPU process table.
#[derive(Clone, Debug)]
pub struct GpuProcRow {
    pub pid: u32,
    pub name: String,
    pub kind: Option<char>,
    pub sm: Option<Share>,
    pub mem: Option<Share>,
    pub enc: Option<Share>,
    pub dec: Option<Share>,
    pub fb_mb: Option<u64>,
}

/// The name of process `pid` in the process list `names` (the last entry
/// for it), or `<exited>` when it is not there.
pub open spec fn name_in(names: Seq<(u32, String)>, pid: u32) -> Seq<char>
    decreases names.len(),
{
    if names.len() == 0 {
        "<exited>"@
    } else if names.last().0 == pid {
        names.last().1@
    } else {
        name_in(names.drop_last(), pid)
    }
}

/// The name of process `pid`.
fn name_of(names: &Vec<(u32, String)>, pid: u32) -> (r: String)
    ensures
        r@ == name_in(names@, pid),
{
    let mut i: usize = names.len();
    assert(names@.take(i as int) =~= names@);
    while i > 0
        invariant
            i <= names.len(),
            name_in(names@, pid) == name_in(names@.take(i as int), pid),
        decreases i,
    {
        assert(names@.take(i as int).drop_last() =~= names@.take(i - 1));
        assert(names@.take(i as int).last() == names@[i - 1]);
        if names[i - 1].0 == pid {
            return string_of(&chars_of(names[i - 1].1.as_str()));
        }
        i -= 1;
    }
    string_of(&chars_of("<exited>"))
}

/// A row as plain values: pid, name, kind, the four shares' order numbers
/// and texts, and the video memory.
pub type RowView = (u32, Seq<char>, Option<char>, Seq<Option<(i64, Seq<char>)>>, Option<u64>);

/// A share as plain values.
pub open spec fn share_view(s: Option<Share>) -> Option<(i64, Seq<char>)> {
    match s {
        Some(x) => Some((x.0, x.1@)),
        None => None,
    }
}

/// A row as plain values.
pub open spec fn row_view(r: GpuProcRow) -> RowView {
    (r.pid, r.name@, r.kind, seq![share_view(r.sm), share_view(r.mem), share_view(r.enc), share_view(r.dec)], r.fb_mb)
}

/// The row of an entry, named from `names`.
pub open spec fn entry_row(e: GpuProcEntry, names: Seq<(u32, String)>) -> RowView {
    (
        e.pid,
        name_in(names, e.pid),
        e.kind,
        seq![share_view(e.sm), share_view(e.mem), share_view(e.enc), share_view(e.dec)],
        e.fb_mb,
    )
}

/// The rows of the entries of the GPU `gpu_id`, in order.
pub open spec fn rows_for(entries: Seq<GpuProcEntry>, gpu_id: Seq<char>, names: Seq<(u32, String)>) -> Seq<RowView>
    decreases entries.len(),
{
    if entries.len() == 0 {
        Seq::empty()
    } else {
        let rest = rows_for(entries.drop_last(), gpu_id, names);
        if entries.last().gpu_id@ == gpu_id {
            rest.push(entry_row(entries.last(), names))
        } else {
            rest
        }
    }
}

/// A copy of a share.
fn copy_share(s: &Option<Share>) -> (r: Option<Share>)
    ensures
        share_view(r) == share_view(*s),
{
    match s {
        Some(x) => Some((x.0, string_of(&chars_of(x.1.as_str())))),
        None => None,
    }
}

/// The rows of the processes of the GPU `gpu_id`, each named from the
/// process list `names`.
pub fn gpu_process_rows(entries: &Vec<GpuProcEntry>, gpu_id: &str, names: &Vec<(u32, String)>) -> (r: Vec<GpuProcRow>)
    ensures
        r@.map_values(|x: GpuProcRow| row_view(x)) == rows_for(entries@, gpu_id@, names@),
{
    let id = chars_of(gpu_id);
    let mut r: Vec<GpuProcRow> = Vec::new();
    let mut i: usize = 0;
    while i < entries.len()
        invariant
            i <= entries.len(),
            id@ == gpu_id@,
            r@.map_values(|x: GpuProcRow| row_view(x)) == rows_for(entries@.take(i as int), gpu_id@, names@),
        decreases entries.len() - i,
    {
        let e = &entries[i];
        assert(entries@.take(i + 1).drop_last() =~= entries@.take(i as int));
        assert(entries@.take(i + 1).last() == entries@[i as int]);
        if crate::strings::eq_chars(&chars_of(e.gpu_id.as_str()), &id) {
            let ghost before = r@.map_values(|x: GpuProcRow| row_view(x));
            let row = GpuProcRow {
                pid: e.pid,
                name: name_of(names, e.pid),
                kind: e.kind,
                sm: copy_share(&e.sm),
                mem: copy_share(&e.mem),
                enc: copy_share(&e.enc),
                dec: copy_share(&e.dec),
                fb_mb: e.fb_mb,
            };
            r.push(row);
            assert(r@.map_values(|x: GpuProcRow| row_view(x)) =~= before.push(entry_row(*e, names@)));
        }
        i += 1;
    }
    assert(entries@.take(i as int) =~= entries@);
    r
}

/// Compares two optional shares: present ones by their order number in
/// the direction `dir`, and any present one before a missing one.
pub open spec fn share_order(a: Option<(i64, Seq<char>)>, b: Option<(i64, Seq<char>)>, dir: SortDir) -> Ordering {
    match (a, b) {
        (Some(x), Some(y)) => match dir {
            SortDir::Asc => order_of(x.0 < y.0, x.0 > y.0),
            SortDir::Desc => order_of(y.0 < x.0, y.0 > x.0),
        },
        (Some(_), None) => Ordering::Less,
        (None, Some(_)) => Ordering::Greater,
        (None, None) => Ordering::Equal,
    }
}

/// The order of two rows by the column `key` in the direction `dir`; rows
/// that are equal there are ordered by pid, lowest first.
pub open spec fn row_order(a: RowView, b: RowView, key: GpuSortKey, dir: SortDir) -> Ordering {
    match key_order(a, b, key, dir) {
        Ordering::Equal => order_of(a.0 < b.0, a.0 > b.0),
        other => other,
    }
}

/// The order of two rows by the column `key` alone.
pub open spec fn key_order(a: RowView, b: RowView, key: GpuSortKey, dir: SortDir) -> Ordering {
    match key {
        GpuSortKey::Pid => match dir {
            SortDir::Asc => order_of(a.0 < b.0, a.0 > b.0),
            SortDir::Desc => order_of(b.0 < a.0, b.0 > a.0),
        },
        GpuSortKey::Kind => option_order(char_key(a.2), char_key(b.2), dir),
        GpuSortKey::Sm => share_order(a.3[0], b.3[0], dir),
        GpuSortKey::Mem => share_order(a.3[1], b.3[1], dir),
        GpuSortKey::Enc => share_order(a.3[2], b.3[2], dir),
        GpuSortKey::Dec => share_order(a.3[3], b.3[3], dir),
        GpuSortKey::Vram => option_order(a.4, b.4, dir),
        GpuSortKey::Name => match dir {
            SortDir::Asc => order_of(seq_less(a.1, b.1), seq_less(b.1, a.1)),
            SortDir::Desc => order_of(seq_less(b.1, a.1), seq_less(a.1, b.1)),
        },
    }
}

/// Row `a` comes before row `b`.
pub open spec fn row_precedes(a: RowView, b: RowView, key: GpuSortKey, dir: SortDir) -> bool {
    row_order(a, b, key, dir) == Ordering::Less
}

/// Row `i` comes before row `j`.
pub open spec fn row_before(rows: Seq<RowView>, key: GpuSortKey, dir: SortDir) -> spec_fn(int, int) -> bool {
    |i: int, j: int| row_precedes(rows[i], rows[j], key, dir)
}

/// Compares two optional shares.
fn share_ordering(a: &Option<Share>, b: &Option<Share>, dir: SortDir) -> (o: Ordering)
    ensures
        o == share_order(share_view(*a), share_view(*b), dir),
{
    match (a, b) {
        (Some(x), Some(y)) => {
            let (p, q) = match dir {
                SortDir::Asc => (x.0, y.0),
                SortDir::Desc => (y.0, x.0),
            };
            if p < q {
                Ordering::Less
            } else if p > q {
                Ordering::Greater
            } else {
                Ordering::Equal
            }
        },
        (Some(_), None) => Ordering::Less,
        (None, Some(_)) => Ordering::Greater,
        (None, None) => Ordering::Equal,
    }
}

/// The order of two rows.
pub fn row_ordering(a: &GpuProcRow, b: &GpuProcRow, key: GpuSortKey, dir: SortDir) -> (o: Ordering)
    ensures
        o == row_order(row_view(*a), row_view(*b), key, dir),
{
    let by_key = match key {
        GpuSortKey::Pid => cmp_u32(a.pid, b.pid, dir),
        GpuSortKey::Kind => cmp_option_char(a.kind, b.kind, dir),
        GpuSortKey::Sm => share_ordering(&a.sm, &b.sm, dir),
        GpuSortKey::Mem => share_ordering(&a.mem, &b.mem, dir),
        GpuSortKey::Enc => share_ordering(&a.enc, &b.enc, dir),
        GpuSortKey::Dec => share_ordering(&a.dec, &b.dec, dir),
        GpuSortKey::Vram => cmp_option_u64(a.fb_mb, b.fb_mb, dir),
        GpuSortKey::Name => cmp_str(a.name.as_str(), b.name.as_str(), dir),
    };
    match by_key {
        Ordering::Equal => cmp_u32(a.pid, b.pid, SortDir::Asc),
        _ => by_key,
    }
}

/// Whether row `a` comes before row `b`.
fn row_first(a: &GpuProcRow, b: &GpuProcRow, key: GpuSortKey, dir: SortDir) -> (r: bool)
    ensures
        r == row_precedes(row_view(*a), row_view(*b), key, dir),
{
    match row_ordering(a, b, key, dir) {
        Ordering::Less => true,
        _ => false,
    }
}

/// The positions of the rows in table order.
pub fn gpu_row_order(rows: &Vec<GpuProcRow>, key: GpuSortKey, dir: SortDir) -> (o: Vec<usize>)
    ensures
        ints(o@) == sort_positions(
            rows@.len(),
            row_before(rows@.map_values(|x: GpuProcRow| row_view(x)), key, dir),
        ),
        forall|k: int| 0 <= k < o@.len() ==> (#[trigger] o@[k]) < rows@.len(),
{
    let ghost rv = rows@.map_values(|x: GpuProcRow| row_view(x));
    let ghost b = row_before(rv, key, dir);
    let mut o: Vec<usize> = Vec::new();
    let mut n: usize = 0;
    while n < rows.len()
        invariant
            n <= rows.len(),
            rv == rows@.map_values(|x: GpuProcRow| row_view(x)),
            b == row_before(rv, key, dir),
            ints(o@) == sort_positions(n as nat, b),
            forall|k: int| 0 <= k < o@.len() ==> (#[trigger] o@[k]) < n,
        decreases rows.len() - n,
    {
        let ghost s = ints(o@);
        let mut j: usize = o.len();
        while j > 0 && row_first(&rows[n], &rows[o[j - 1]], key, dir)
            invariant
                j <= o.len(),
                n < rows.len(),
                s == ints(o@),
                s.len() == o.len(),
                rv == rows@.map_values(|x: GpuProcRow| row_view(x)),
                b == row_before(rv, key, dir),
                forall|k: int| 0 <= k < o@.len() ==> (#[trigger] o@[k]) < n,
                forall|k: int| j <= k < s.len() ==> b(n as int, #[trigger] s[k]),
            decreases j,
        {
            assert(s[j - 1] == o@[j - 1] as int);
            j -= 1;
        }
        assert(j == 0 || !b(n as int, s[j - 1])) by {
            if j > 0 {
                assert(s[j - 1] == o@[j - 1] as int);
            }
        }
        proof {
            lemma_insert_pos(s, n as int, b, j as int);
        }
        let ghost old_o = o@;
        o.insert(j, n);
        assert(ints(o@) =~= s.take(j as int) + seq![n as int] + s.skip(j as int)) by {
            assert forall|k: int| 0 <= k < o@.len() implies #[trigger] ints(o@)[k] == (s.take(j as int)
                + seq![n as int] + s.skip(j as int))[k] by {
                if k < j {
                    assert(o@[k] == old_o[k]);
                } else if k > j {
                    assert(o@[k] == old_o[k - 1]);
                }
            }
        }
        assert forall|k: int| 0 <= k < o@.len() implies (#[trigger] o@[k]) < n + 1 by {
            if k < j {
                assert(o@[k] == old_o[k]);
            } else if k > j {
                assert(o@[k] == old_o[k - 1]);
            }
        }
        n += 1;
    }
    o
}


/// The cell of a share: its text, or `  -  `.
pub open spec fn share_cell(s: Option<(i64, Seq<char>)>) -> Seq<char> {
    match s {
        Some(x) => x.1,
        None => "  -  "@,
    }
}

/// The cells of a row: pid, kind (or `-`), the four shares, the video
/// memory and the name.
pub open spec fn row_cells(r: RowView) -> Seq<Seq<char>> {
    seq![
        decimal(r.0 as nat),
        match r.2 {
            Some(c) => seq![c],
            None => "-"@,
        },
        share_cell(r.3[0]),
        share_cell(r.3[1]),
        share_cell(r.3[2]),
        share_cell(r.3[3]),
        fb_text(r.4),
        r.1,
    ]
}

/// Where `p` first occurs in `s`.
pub open spec fn first_pos(s: Seq<u32>, p: u32) -> Option<int>
    decreases s.len(),
{
    if s.len() == 0 {
        None
    } else if s[0] == p {
        Some(0)
    } else {
        match first_pos(s.drop_first(), p) {
            Some(i) => Some(i + 1),
            None => None,
        }
    }
}

/// What the GPU process panel shows.
#[derive(Clone, Debug)]
pub enum GpuProcessTable {
    /// The panel has no room at all.
    Nothing,
    /// No GPU is selected (`No GPU selected`).
    NoGpu,
    /// The selected GPU runs no process (`No GPU processes`).
    NoProcesses,
    /// The processes in table order, with no room inside the border.
    Hidden { order: Vec<u32> },
    /// The processes in table order; the rows' area below the header (when
    /// there is a row for it); the window `start..end` of rows shown, and
    /// their cells; the selected process's row in the window.
    Table { order: Vec<u32>, body: Option<Area>, start: usize, end: usize, cells: Vec<Vec<String>>, selected: Option<usize> },
}

/// What the panel shows, as plain values.
pub enum TableView {
    Nothing,
    NoGpu,
    NoProcesses,
    Hidden(Seq<u32>),
    Table(Seq<u32>, Option<Area>, int, int, Seq<Seq<Seq<char>>>, Option<int>),
}

/// The panel as plain values.
pub open spec fn table_view(t: GpuProcessTable) -> TableView {
    match t {
        GpuProcessTable::Nothing => TableView::Nothing,
        GpuProcessTable::NoGpu => TableView::NoGpu,
        GpuProcessTable::NoProcesses => TableView::NoProcesses,
        GpuProcessTable::Hidden { order } => TableView::Hidden(order@),
        GpuProcessTable::Table { order, body, start, end, cells, selected } => TableView::Table(
            order@,
            body,
            start as int,
            end as int,
            cells@.map_values(|c: Vec<String>| c@.map_values(|x: String| x@)),
            match selected {
                Some(i) => Some(i as int),
                None => None,
            },
        ),
    }
}

/// The GPU process panel in `area` for the GPU `gpu` (none selected when
/// `None`), from the GPU's process entries and the process list `names`,
/// ordered by `key` in direction `dir`, scrolled to row `scroll`, with the
/// process `selected` highlighted when its row is shown.
pub open spec fn gpu_table(
    area: Area,
    gpu: Option<Seq<char>>,
    entries: Seq<GpuProcEntry>,
    names: Seq<(u32, String)>,
    key: GpuSortKey,
    dir: SortDir,
    scroll: int,
    selected: Option<u32>,
) -> TableView {
    if area.width == 0 || area.height == 0 {
        TableView::Nothing
    } else {
        match gpu {
            None => TableView::NoGpu,
            Some(id) => {
                let rows = rows_for(entries, id, names);
                if rows.len() == 0 {
                    TableView::NoProcesses
                } else {
                    let o = sort_positions(rows.len(), row_before(rows, key, dir));
                    let pids = o.map_values(|p: int| rows[p].0);
                    let inner = inner_area(area);
                    if inner.width == 0 || inner.height == 0 {
                        TableView::Hidden(pids)
                    } else {
                        let body = if inner.height > 1 {
                            Some(
                                Area {
                                    x: inner.x,
                                    y: sat_add(inner.y as int, 1) as u16,
                                    width: inner.width,
                                    height: (inner.height - 1) as u16,
                                },
                            )
                        } else {
                            None
                        };
                        let max_rows: int = match body {
                            Some(b) => b.height as int,
                            None => 0,
                        };
                        let start = min_of(scroll, rows.len() as int);
                        let end = min_of(start + max_rows, rows.len() as int);
                        let cells = Seq::new((end - start) as nat, |k: int| row_cells(rows[o[start + k]]));
                        let sel = match selected {
                            Some(p) => match first_pos(pids, p) {
                                Some(i) => if start <= i < end {
                                    Some(i - start)
                                } else {
                                    None
                                },
                                None => None,
                            },
                            None => None,
                        };
                        TableView::Table(pids, body, start, end, cells, sel)
                    }
                }
            },
        }
    }
}

/// The cells of a row.
fn cells_of(r: &GpuProcRow) -> (c: Vec<String>)
    ensures
        c@.map_values(|x: String| x@) == row_cells(row_view(*r)),
{
    let mut pid: Vec<char> = Vec::new();
    push_decimal(&mut pid, r.pid as u64);
    let kind = match r.kind {
        Some(ch) => {
            let mut v: Vec<char> = Vec::new();
            v.push(ch);
            string_of(&v)
        },
        None => string_of(&chars_of("-")),
    };
    let c = vec![
        string_of(&pid),
        kind,
        share_text(&r.sm),
        share_text(&r.mem),
        share_text(&r.enc),
        share_text(&r.dec),
        format_fb_mb(r.fb_mb),
        string_of(&chars_of(r.name.as_str())),
    ];
    assert(c@.map_values(|x: String| x@) =~= row_cells(row_view(*r)));
    c
}

/// The cell of a share.
fn share_text(s: &Option<Share>) -> (t: String)
    ensures
        t@ == share_cell(share_view(*s)),
{
    match s {
        Some(x) => string_of(&chars_of(x.1.as_str())),
        None => string_of(&chars_of("  -  ")),
    }
}

/// Where `p` first occurs in `s`.
fn find_pid(s: &Vec<u32>, p: u32) -> (r: Option<usize>)
    ensures
        match r {
            Some(i) => first_pos(s@, p) == Some(i as int),
            None => first_pos(s@, p) is None,
        },
{
    let mut i: usize = 0;
    assert(s@.skip(0) =~= s@);
    while i < s.len()
        invariant
            i <= s.len(),
            forall|j: int| 0 <= j < i ==> s@[j] != p,
            match first_pos(s@, p) {
                Some(k) => match first_pos(s@.skip(i as int), p) {
                    Some(m) => k == m + i,
                    None => false,
                },
                None => first_pos(s@.skip(i as int), p) is None,
            },
        decreases s.len() - i,
    {
        assert(s@.skip(i as int)[0] == s@[i as int]);
        assert(s@.skip(i as int).drop_first() =~= s@.skip(i + 1));
        if s[i] == p {
            return Some(i);
        }
        i += 1;
    }
    None
}

/// The GPU process panel.
pub fn gpu_process_table(
    area: Area,
    gpu: Option<&str>,
    entries: &Vec<GpuProcEntry>,
    names: &Vec<(u32, String)>,
    key: GpuSortKey,
    dir: SortDir,
    scroll: usize,
    selected: Option<u32>,
) -> (r: GpuProcessTable)
    ensures
        table_view(r) == gpu_table(
            area,
            match gpu {
                Some(g) => Some(g@),
                None => None,
            },
            entries@,
            names@,
            key,
            dir,
            scroll as int,
            selected,
        ),
{
    if area.width == 0 || area.height == 0 {
        return GpuProcessTable::Nothing;
    }
    let id = match gpu {
        Some(g) => g,
        None => {
            return GpuProcessTable::NoGpu;
        },
    };
    let rows = gpu_process_rows(entries, id, names);
    if rows.len() == 0 {
        return GpuProcessTable::NoProcesses;
    }
    let ghost rv = rows@.map_values(|x: GpuProcRow| row_view(x));
    let o = gpu_row_order(&rows, key, dir);
    let ghost os = sort_positions(rv.len(), row_before(rv, key, dir));
    proof {
        lemma_sort_positions_len(rv.len(), row_before(rv, key, dir));
    }
    let mut pids: Vec<u32> = Vec::new();
    let mut k: usize = 0;
    while k < o.len()
        invariant
            k <= o.len(),
            ints(o@) == os,
            forall|j: int| 0 <= j < o@.len() ==> (#[trigger] o@[j]) < rows@.len(),
            rv == rows@.map_values(|x: GpuProcRow| row_view(x)),
            pids@ == os.take(k as int).map_values(|p: int| rv[p].0),
        decreases o.len() - k,
    {
        pids.push(rows[o[k]].pid);
        assert(os[k as int] == o@[k as int] as int);
        assert(pids@ =~= os.take(k + 1).map_values(|p: int| rv[p].0));
        k += 1;
    }
    assert(os.take(k as int) =~= os);
    let inner = panel_inner(area);
    if inner.width == 0 || inner.height == 0 {
        return GpuProcessTable::Hidden { order: pids };
    }
    let body = if inner.height > 1 {
        Some(Area { x: inner.x, y: inner.y.saturating_add(1), width: inner.width, height: inner.height - 1 })
    } else {
        None
    };
    let max_rows: usize = match body {
        Some(b) => b.height as usize,
        None => 0,
    };
    let start = if scroll < rows.len() {
        scroll
    } else {
        rows.len()
    };
    let end = if max_rows <= rows.len() - start {
        start + max_rows
    } else {
        rows.len()
    };
    let mut cells: Vec<Vec<String>> = Vec::new();
    let mut j: usize = start;
    while j < end
        invariant
            start <= j <= end <= rows.len(),
            ints(o@) == os,
            o@.len() == rows@.len(),
            forall|m: int| 0 <= m < o@.len() ==> (#[trigger] o@[m]) < rows@.len(),
            rv == rows@.map_values(|x: GpuProcRow| row_view(x)),
            cells@.map_values(|c: Vec<String>| c@.map_values(|x: String| x@)) == Seq::new(
                (j - start) as nat,
                |m: int| row_cells(rv[os[start + m]]),
            ),
        decreases end - j,
    {
        let ghost before = cells@.map_values(|c: Vec<String>| c@.map_values(|x: String| x@));
        let c = cells_of(&rows[o[j]]);
        let ghost cv = c@.map_values(|x: String| x@);
        cells.push(c);
        assert(os[j as int] == o@[j as int] as int);
        assert(rv[os[j as int]] == row_view(rows@[o@[j as int] as int]));
        assert(cells@.map_values(|c: Vec<String>| c@.map_values(|x: String| x@)) =~= before.push(cv));
        assert(cells@.map_values(|c: Vec<String>| c@.map_values(|x: String| x@)) =~= Seq::new(
            (j + 1 - start) as nat,
            |m: int| row_cells(rv[os[start + m]]),
        ));
        j += 1;
    }
    let sel = match selected {
        Some(p) => match find_pid(&pids, p) {
            Some(i) => if start <= i && i < end {
                Some(i - start)
            } else {
                None
            },
            None => None,
        },
        None => None,
    };
    let r = GpuProcessTable::Table { order: pids, body, start, end, cells, selected: sel };
    proof {
        let ghost g = gpu_table(area, Some(id@), entries@, names@, key, dir, scroll as int, selected);
        assert(rv == rows_for(entries@, id@, names@));
        assert(os.map_values(|p: int| rv[p].0) =~= pids@);
        let ghost spec_cells = Seq::new((end - start) as nat, |m: int| row_cells(rv[os[start + m]]));
        assert(cells@.map_values(|c: Vec<String>| c@.map_values(|x: String| x@)) == spec_cells);
        assert(g == TableView::Table(pids@, body, start as int, end as int, spec_cells, match sel {
            Some(i) => Some(i as int),
            None => None,
        }));
    }
    r
}


/// `o` seen from the other side: `Less` and `Greater` swapped.
pub open spec fn flipped(o: Ordering) -> Ordering {
    match o {
        Ordering::Less => Ordering::Greater,
        Ordering::Greater => Ordering::Less,
        Ordering::Equal => Ordering::Equal,
    }
}

proof fn lemma_names_order(x: Seq<char>, y: Seq<char>, z: Seq<char>)
    ensures
        !(seq_less(x, y) && seq_less(y, x)),
        !seq_less(x, y) && !seq_less(y, x) ==> x == y,
        seq_less(x, y) && seq_less(y, z) ==> seq_less(x, z),
{
    crate::proc_tree::lemma_seq_less_total(x, y);
    if seq_less(x, y) && seq_less(y, z) {
        crate::proc_tree::lemma_seq_less_transitive(x, y, z);
    }
}

proof fn lemma_key_order_flip(a: RowView, b: RowView, key: GpuSortKey, dir: SortDir)
    ensures
        key_order(b, a, key, dir) == flipped(key_order(a, b, key, dir)),
{
    lemma_names_order(a.1, b.1, b.1);
}

proof fn lemma_key_order_trans(a: RowView, b: RowView, c: RowView, key: GpuSortKey, dir: SortDir)
    requires
        key_order(a, b, key, dir) != Ordering::Greater,
        key_order(b, c, key, dir) != Ordering::Greater,
    ensures
        key_order(a, c, key, dir) != Ordering::Greater,
        key_order(a, b, key, dir) == Ordering::Less || key_order(b, c, key, dir) == Ordering::Less
            ==> key_order(a, c, key, dir) == Ordering::Less,
{
    lemma_names_order(a.1, b.1, c.1);
    lemma_names_order(b.1, c.1, a.1);
    lemma_names_order(a.1, c.1, b.1);
    lemma_names_order(c.1, b.1, a.1);
    lemma_names_order(b.1, a.1, c.1);
    lemma_names_order(c.1, a.1, b.1);
}

proof fn lemma_row_order_flip(a: RowView, b: RowView, key: GpuSortKey, dir: SortDir)
    ensures
        row_order(b, a, key, dir) == flipped(row_order(a, b, key, dir)),
{
    lemma_key_order_flip(a, b, key, dir);
}

proof fn lemma_row_order_trans(a: RowView, b: RowView, c: RowView, key: GpuSortKey, dir: SortDir)
    requires
        row_order(a, b, key, dir) != Ordering::Greater,
        row_order(b, c, key, dir) != Ordering::Greater,
    ensures
        row_order(a, c, key, dir) != Ordering::Greater,
{
    lemma_key_order_flip(a, b, key, dir);
    lemma_key_order_flip(b, c, key, dir);
    lemma_key_order_flip(a, c, key, dir);
    lemma_key_order_trans(a, b, c, key, dir);
}

/// How many rows there are, as an integer.
spec fn row_count(rows: Seq<RowView>) -> int {
    rows.len() as int
}

proof fn lemma_row_before_weak_order(rows: Seq<RowView>, key: GpuSortKey, dir: SortDir)
    ensures
        crate::info_tabs::weak_order(row_before(rows, key, dir), row_count(rows)),
{
    let b = row_before(rows, key, dir);
    let n = rows.len();
    assert forall|x: int, y: int| 0 <= x < n && 0 <= y < n && #[trigger] b(x, y) implies !b(y, x) by {
        lemma_row_order_flip(rows[x], rows[y], key, dir);
    }
    assert forall|x: int, y: int, z: int|
        0 <= x < n && 0 <= y < n && 0 <= z < n && !#[trigger] b(x, y) && !#[trigger] b(y, z) implies !b(x, z) by {
        lemma_row_order_flip(rows[x], rows[y], key, dir);
        lemma_row_order_flip(rows[y], rows[z], key, dir);
        lemma_row_order_flip(rows[x], rows[z], key, dir);
        lemma_row_order_trans(rows[z], rows[y], rows[x], key, dir);
    }
}

/// The GPU process table lists each process of the GPU once, and no row
/// comes after a row it is ordered before: by the chosen column in the
/// chosen direction, then by pid.
pub proof fn lemma_gpu_rows_ordered(rows: Seq<RowView>, key: GpuSortKey, dir: SortDir)
    ensures
        sort_positions(rows.len(), row_before(rows, key, dir)).to_multiset()
            == crate::info_tabs::positions(rows.len()).to_multiset(),
        forall|i: int, j: int|
            0 <= i < j < rows.len() ==> row_order(
                rows[#[trigger] sort_positions(rows.len(), row_before(rows, key, dir))[i]],
                rows[#[trigger] sort_positions(rows.len(), row_before(rows, key, dir))[j]],
                key,
                dir,
            ) != Ordering::Greater,
{
    let b = row_before(rows, key, dir);
    lemma_row_before_weak_order(rows, key, dir);
    crate::info_tabs::lemma_sort_positions(rows.len(), b);
    lemma_sort_positions_len(rows.len(), b);
    let o = sort_positions(rows.len(), b);
    assert forall|i: int, j: int| 0 <= i < j < rows.len() implies row_order(
        rows[#[trigger] o[i]],
        rows[#[trigger] o[j]],
        key,
        dir,
    ) != Ordering::Greater by {
        assert(!b(o[j], o[i]));
        lemma_row_order_flip(rows[o[i]], rows[o[j]], key, dir);
    }
}

/// The share a process shows in the column `key`, for the four engine
/// columns: SM, memory, encoder, decoder.
pub open spec fn share_column(r: GpuProcRow, key: GpuSortKey) -> Option<Share> {
    match key {
        GpuSortKey::Sm => r.sm,
        GpuSortKey::Mem => r.mem,
        GpuSortKey::Enc => r.enc,
        GpuSortKey::Dec => r.dec,
        _ => None,
    }
}

/// Sorting by an engine column (SM, memory, encoder or decoder) orders the
/// rows by that column's share of each process, whatever the other columns
/// hold: the larger share comes first in the descending order and last in
/// the ascending one, a process with a share comes before one without in
/// either direction, and equal shares fall back to the lower pid first.
pub proof fn lemma_share_column_order(a: GpuProcRow, b: GpuProcRow, key: GpuSortKey)
    requires
        key == GpuSortKey::Sm || key == GpuSortKey::Mem || key == GpuSortKey::Enc || key == GpuSortKey::Dec,
    ensures
        forall|x: Share, y: Share|
            share_column(a, key) == Some(x) && share_column(b, key) == Some(y) && x.0 > y.0 ==> {
                &&& row_order(row_view(a), row_view(b), key, SortDir::Desc) == Ordering::Less
                &&& row_order(row_view(a), row_view(b), key, SortDir::Asc) == Ordering::Greater
            },
        forall|x: Share, y: Share|
            share_column(a, key) == Some(x) && share_column(b, key) == Some(y) && x.0 == y.0 && a.pid < b.pid ==> {
                &&& row_order(row_view(a), row_view(b), key, SortDir::Desc) == Ordering::Less
                &&& row_order(row_view(a), row_view(b), key, SortDir::Asc) == Ordering::Less
            },
        share_column(a, key) is Some && share_column(b, key) is None ==> {
            &&& row_order(row_view(a), row_view(b), key, SortDir::Desc) == Ordering::Less
            &&& row_order(row_view(a), row_view(b), key, SortDir::Asc) == Ordering::Less
        },
{
}

/// Sorting by the pid, video-memory or name column orders the rows by
/// that column: the lower pid, the larger video memory (a process with a
/// figure before one without), the name that comes first, in the
/// direction asked for.
pub proof fn lemma_other_column_order(a: GpuProcRow, b: GpuProcRow)
    ensures
        a.pid < b.pid ==> {
            &&& row_order(row_view(a), row_view(b), GpuSortKey::Pid, SortDir::Asc) == Ordering::Less
            &&& row_order(row_view(a), row_view(b), GpuSortKey::Pid, SortDir::Desc) == Ordering::Greater
        },
        forall|x: u64, y: u64|
            a.fb_mb == Some(x) && b.fb_mb == Some(y) && x > y ==> {
                &&& row_order(row_view(a), row_view(b), GpuSortKey::Vram, SortDir::Desc) == Ordering::Less
                &&& row_order(row_view(a), row_view(b), GpuSortKey::Vram, SortDir::Asc) == Ordering::Greater
            },
        a.fb_mb is Some && b.fb_mb is None ==> {
            &&& row_order(row_view(a), row_view(b), GpuSortKey::Vram, SortDir::Desc) == Ordering::Less
            &&& row_order(row_view(a), row_view(b), GpuSortKey::Vram, SortDir::Asc) == Ordering::Less
        },
        seq_less(a.name@, b.name@) ==> {
            &&& row_order(row_view(a), row_view(b), GpuSortKey::Name, SortDir::Asc) == Ordering::Less
            &&& row_order(row_view(a), row_view(b), GpuSortKey::Name, SortDir::Desc) == Ordering::Greater
        },
{
    lemma_names_order(a.name@, b.name@, b.name@);
}

} // verus!
