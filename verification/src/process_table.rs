//! The process table: its title, the rows' area below the header, the
//! window of rows that fits, and the cells of each shown row.
use vstd::prelude::*;
use crate::format::{bytes_text, duration_short_text, fit_text, fit_text_spec, format_bytes, format_duration_short};
use crate::info_tabs::lang_text;
use crate::layout::{inner_area, min_of, panel_inner, sat_add, Area};
use crate::strings::{chars_of, decimal, push_decimal, string_of};
use crate::tables::SortKey;
use crate::text::{tr, Language};

verus! {

/// A process as the table shows it; `cpu` is its CPU share, already
/// formatted, `tree_label` its line in the process tree when the tree is
/// known, and `highlight` whether the highlight mode marks it.
#[derive(Clone, Debug)]
pub struct ProcessRow {
    pub pid: u32,
    pub user: Option<String>,
    pub cpu: String,
    pub mem_bytes: u64,
    pub uptime_secs: u64,
    pub status: String,
    pub name: String,
    pub tree_label: Option<String>,
    pub highlight: bool,
}

/// What the process table shows: its title, the rows' area below the
/// header when there is room for rows, the window `start..end` of rows,
/// their cells and highlight marks, and the selected row in the window.
#[derive(Clone, Debug)]
pub struct ProcessTableView {
    pub title: String,
    pub body: Option<Area>,
    pub start: usize,
    pub end: usize,
    pub cells: Vec<Vec<String>>,
    pub highlights: Vec<bool>,
    pub selected: Option<usize>,
}

/// The width of the name column: the width of the first header cell of the
/// name column, or 0, and at least 1.
pub open spec fn name_width(regions: Seq<(SortKey, Area)>) -> int
    decreases regions.len(),
{
    if regions.len() == 0 {
        1
    } else if regions[0].0 == SortKey::Name {
        if regions[0].1.width >= 1 {
            regions[0].1.width as int
        } else {
            1
        }
    } else {
        name_width(regions.drop_first())
    }
}

/// The name cell: in the tree view the process's tree line cut to the
/// name column, else its name.
pub open spec fn name_cell(r: ProcessRow, tree: bool, width: int) -> Seq<char> {
    if tree {
        match r.tree_label {
            Some(l) => fit_text_spec(l@, width as nat),
            None => r.name@,
        }
    } else {
        r.name@
    }
}

/// The cells of a row: pid, user (or `-`), CPU share, memory, uptime,
/// status and name.
pub open spec fn process_cells(r: ProcessRow, tree: bool, width: int) -> Seq<Seq<char>> {
    seq![
        decimal(r.pid as nat),
        match r.user {
            Some(u) => u@,
            None => "-"@,
        },
        r.cpu@,
        bytes_text(r.mem_bytes as nat),
        duration_short_text(r.uptime_secs as nat),
        r.status@,
        name_cell(r, tree, width),
    ]
}

/// The table in `area` for `rows`, with the header cells `regions`, in the
/// tree view when `tree`, scrolled to row `scroll`, with row `selected`
/// marked when it is shown: the title (`Processes`, `(Tree)` added in the
/// tree view); the rows' area below the header when the inside is at least
/// one column wide and two rows high; the rows from `scroll` (at most the
/// number of rows) as far as the area has room.
pub open spec fn process_view(
    area: Area,
    rows: Seq<ProcessRow>,
    regions: Seq<(SortKey, Area)>,
    tree: bool,
    scroll: int,
    selected: Option<int>,
    language: Language,
) -> (Seq<char>, Option<Area>, int, int, Seq<Seq<Seq<char>>>, Seq<bool>, Option<int>) {
    let title = if tree {
        lang_text(language, "Processes (Tree)"@, "Процессы (дерево)"@)
    } else {
        lang_text(language, "Processes"@, "Процессы"@)
    };
    let inner = inner_area(area);
    let body = if inner.width > 0 && inner.height > 1 {
        Some(
            Area {
                x: inner.x,
                y: sat_add(inner.y as int, 1) as u16,
                width: inner.width,
                height: (inner.height - 1) as u16,
            },
        )
    } else {
        None
    };
    let max_rows: int = match body {
        Some(b) => b.height as int,
        None => 0,
    };
    let start = min_of(scroll, rows.len() as int);
    let end = min_of(start + max_rows, rows.len() as int);
    let w = name_width(regions);
    (
        title,
        body,
        start,
        end,
        Seq::new((end - start) as nat, |k: int| process_cells(rows[start + k], tree, w)),
        Seq::new((end - start) as nat, |k: int| rows[start + k].highlight),
        match selected {
            Some(s) => if start <= s < end {
                Some(s - start)
            } else {
                None
            },
            None => None,
        },
    )
}

/// The width of the name column.
fn name_column(regions: &Vec<(SortKey, Area)>) -> (w: usize)
    ensures
        w as int == name_width(regions@),
{
    let mut i: usize = 0;
    assert(regions@.skip(0) =~= regions@);
    while i < regions.len()
        invariant
            i <= regions.len(),
            name_width(regions@) == name_width(regions@.skip(i as int)),
        decreases regions.len() - i,
    {
        assert(regions@.skip(i as int)[0] == regions@[i as int]);
        assert(regions@.skip(i as int).drop_first() =~= regions@.skip(i + 1));
        if regions[i].0 == SortKey::Name {
            let w = regions[i].1.width as usize;
            return if w >= 1 {
                w
            } else {
                1
            };
        }
        i += 1;
    }
    1
}

/// The cells of a shown row.
fn cells_of(r: &ProcessRow, tree: bool, width: usize) -> (c: Vec<String>)
    ensures
        c@.map_values(|x: String| x@) == process_cells(*r, tree, width as int),
{
    let mut pid: Vec<char> = Vec::new();
    push_decimal(&mut pid, r.pid as u64);
    let user = match &r.user {
        Some(u) => string_of(&chars_of(u.as_str())),
        None => string_of(&chars_of("-")),
    };
    let name = if tree {
        match &r.tree_label {
            Some(l) => fit_text(l.as_str(), width),
            None => string_of(&chars_of(r.name.as_str())),
        }
    } else {
        string_of(&chars_of(r.name.as_str()))
    };
    let c = vec![
        string_of(&pid),
        user,
        string_of(&chars_of(r.cpu.as_str())),
        format_bytes(r.mem_bytes),
        format_duration_short(r.uptime_secs),
        string_of(&chars_of(r.status.as_str())),
        name,
    ];
    assert(c@.map_values(|x: String| x@) =~= process_cells(*r, tree, width as int));
    c
}

/// The process table in `area`.
pub fn process_table(
    area: Area,
    rows: &Vec<ProcessRow>,
    regions: &Vec<(SortKey, Area)>,
    tree: bool,
    scroll: usize,
    selected: Option<usize>,
    language: Language,
) -> (r: ProcessTableView)
    ensures
        (
            r.title@,
            r.body,
            r.start as int,
            r.end as int,
            r.cells@.map_values(|c: Vec<String>| c@.map_values(|x: String| x@)),
            r.highlights@,
            match r.selected {
                Some(s) => Some(s as int),
                None => None,
            },
        ) == process_view(
            area,
            rows@,
            regions@,
            tree,
            scroll as int,
            match selected {
                Some(s) => Some(s as int),
                None => None,
            },
            language,
        ),
{
    let title = if tree {
        tr(language, "Processes (Tree)", "Процессы (дерево)")
    } else {
        tr(language, "Processes", "Процессы")
    };
    let inner = panel_inner(area);
    let body = if inner.width > 0 && inner.height > 1 {
        Some(Area { x: inner.x, y: inner.y.saturating_add(1), width: inner.width, height: inner.height - 1 })
    } else {
        None
    };
    let max_rows: usize = match body {
        Some(b) => b.height as usize,
        None => 0,
    };
    let start = if scroll < rows.len() {
        scroll
    } else {
        rows.len()
    };
    let end = if max_rows <= rows.len() - start {
        start + max_rows
    } else {
        rows.len()
    };
    let w = name_column(regions);
    let mut cells: Vec<Vec<String>> = Vec::new();
    let mut marks: Vec<bool> = Vec::new();
    let mut j: usize = start;
    while j < end
        invariant
            start <= j <= end <= rows.len(),
            cells@.map_values(|c: Vec<String>| c@.map_values(|x: String| x@)) == Seq::new(
                (j - start) as nat,
                |k: int| process_cells(rows@[start + k], tree, w as int),
            ),
            marks@ == Seq::new((j - start) as nat, |k: int| rows@[start + k].highlight),
        decreases end - j,
    {
        let ghost before = cells@.map_values(|c: Vec<String>| c@.map_values(|x: String| x@));
        let c = cells_of(&rows[j], tree, w);
        let ghost cv = c@.map_values(|x: String| x@);
        cells.push(c);
        marks.push(rows[j].highlight);
        assert(cells@.map_values(|c: Vec<String>| c@.map_values(|x: String| x@)) =~= before.push(cv));
        assert(cells@.map_values(|c: Vec<String>| c@.map_values(|x: String| x@)) =~= Seq::new(
            (j + 1 - start) as nat,
            |k: int| process_cells(rows@[start + k], tree, w as int),
        ));
        assert(marks@ =~= Seq::new((j + 1 - start) as nat, |k: int| rows@[start + k].highlight));
        j += 1;
    }
    let sel = match selected {
        Some(s) => if start <= s && s < end {
            Some(s - start)
        } else {
            None
        },
        None => None,
    };
    ProcessTableView {
        title: string_of(&chars_of(title)),
        body,
        start,
        end,
        cells,
        highlights: marks,
        selected: sel,
    }
}


/// What the process search looks in.
#[derive(Clone, Copy, Debug, PartialEq, Eq)]
pub enum ProcessFilterType {
    Name,
    Pid,
    User,
}

/// The hint shown while the search is empty and not being typed.
pub open spec fn search_hint(t: ProcessFilterType, language: Language) -> Seq<char> {
    match t {
        ProcessFilterType::Name => lang_text(language, "press / to search"@, "нажмите / для поиска"@),
        ProcessFilterType::Pid => lang_text(language, "enter PID"@, "введите PID"@),
        ProcessFilterType::User => lang_text(language, "enter username"@, "введите имя"@),
    }
}

/// The text after the search prefix: the filter with a cursor while it is
/// typed, else the filter, or the hint when it is empty.
pub open spec fn search_value(filter: Seq<char>, active: bool, t: ProcessFilterType, language: Language) -> Seq<char> {
    if active {
        filter + "|"@
    } else if filter.len() == 0 {
        search_hint(t, language)
    } else {
        filter
    }
}

/// The search prefix: `[<type> ▼]: `.
pub open spec fn search_prefix(label: Seq<char>) -> Seq<char> {
    "["@ + label + " \u{25bc}"@ + "]: "@
}

/// The search line of a panel whose inside is `width` columns wide: the
/// value cut to what the prefix leaves, or nothing when the prefix takes
/// the whole width.
pub open spec fn search_text(width: nat, label: Seq<char>, filter: Seq<char>, active: bool, t: ProcessFilterType, language: Language) -> Seq<char> {
    let pw = crate::format::unicode_str_width(search_prefix(label));
    if pw < width {
        fit_text_spec(search_value(filter, active, t, language), (width - pw) as nat)
    } else {
        Seq::empty()
    }
}

/// The value of the search line in the panel `area` (none when the panel
/// has no room inside its border), with `label` the search type's name,
/// `filter` the text searched for and `active` whether it is being typed;
/// and whether the value is drawn bright (while typed, or when not empty).
pub fn search_line(
    area: Area,
    label: &str,
    filter: &str,
    active: bool,
    t: ProcessFilterType,
    language: Language,
) -> (r: Option<(String, bool)>)
    ensures
        ({
            let inner = inner_area(area);
            if inner.width == 0 || inner.height == 0 {
                r is None
            } else {
                r matches Some((v, bright)) && v@ == search_text(inner.width as nat, label@, filter@, active, t, language)
                    && bright == (active || filter@.len() > 0)
            }
        }),
{
    let inner = panel_inner(area);
    if inner.width == 0 || inner.height == 0 {
        return None;
    }
    let filter_chars = chars_of(filter);
    let value = if active {
        let mut v = chars_of(filter);
        crate::strings::push_str(&mut v, "|");
        string_of(&v)
    } else if filter_chars.len() == 0 {
        let hint = match t {
            ProcessFilterType::Name => tr(language, "press / to search", "нажмите / для поиска"),
            ProcessFilterType::Pid => tr(language, "enter PID", "введите PID"),
            ProcessFilterType::User => tr(language, "enter username", "введите имя"),
        };
        string_of(&chars_of(hint))
    } else {
        string_of(&chars_of(filter))
    };
    let mut prefix = chars_of("[");
    crate::strings::push_str(&mut prefix, label);
    crate::strings::push_str(&mut prefix, " \u{25bc}");
    crate::strings::push_str(&mut prefix, "]: ");
    let pw = crate::format::text_width(string_of(&prefix).as_str());
    let max_width = inner.width as usize;
    let shown = if pw < max_width {
        fit_text(value.as_str(), max_width - pw)
    } else {
        string_of(&Vec::new())
    };
    Some((shown, active || filter_chars.len() > 0))
}


/// A container as its table shows it; `cpu` is its CPU share, already
/// formatted, and `net` its network rate in bytes per second when known.
#[derive(Clone, Debug)]
pub struct ContainerRow {
    pub label: String,
    pub cpu: String,
    pub mem_bytes: u64,
    pub proc_count: usize,
    pub net: Option<u64>,
}

/// What the container panel shows.
#[derive(Clone, Debug)]
pub enum ContainerTable {
    /// The panel has no room.
    Nothing,
    /// No container was found (`No containers detected`).
    NoContainers,
    /// The window `start..end` of rows shown, their cells, and the
    /// selected row in the window.
    Rows { start: usize, end: usize, cells: Vec<Vec<String>>, selected: Option<usize> },
}

/// The cells of a container row: label, CPU share, memory, number of
/// processes and network rate.
pub open spec fn container_cells(r: ContainerRow) -> Seq<Seq<char>> {
    seq![r.label@, r.cpu@, bytes_text(r.mem_bytes as nat), decimal(r.proc_count as nat), crate::format::net_text(r.net)]
}

/// The container panel in `area`, scrolled to row `scroll`, with row
/// `selected` marked when it is shown: the rows from `scroll` (at most the
/// number of rows) as far as the height less three rows (the border and
/// the header) allows.
pub open spec fn container_view(area: Area, rows: Seq<ContainerRow>, scroll: int, selected: Option<int>) -> (
    bool,
    bool,
    int,
    int,
    Seq<Seq<Seq<char>>>,
    Option<int>,
) {
    let max_rows = if area.height >= 3 {
        area.height - 3
    } else {
        0
    };
    let start = min_of(scroll, rows.len() as int);
    let end = min_of(start + max_rows, rows.len() as int);
    (
        area.width == 0 || area.height == 0,
        rows.len() == 0,
        start,
        end,
        Seq::new((end - start) as nat, |k: int| container_cells(rows[start + k])),
        match selected {
            Some(s) => if start <= s < end {
                Some(s - start)
            } else {
                None
            },
            None => None,
        },
    )
}

/// The cells of a container row.
fn container_cells_of(r: &ContainerRow) -> (c: Vec<String>)
    ensures
        c@.map_values(|x: String| x@) == container_cells(*r),
{
    let mut count: Vec<char> = Vec::new();
    push_decimal(&mut count, r.proc_count as u64);
    let c = vec![
        string_of(&chars_of(r.label.as_str())),
        string_of(&chars_of(r.cpu.as_str())),
        format_bytes(r.mem_bytes),
        string_of(&count),
        crate::format::format_net(r.net),
    ];
    assert(c@.map_values(|x: String| x@) =~= container_cells(*r));
    c
}

/// The container panel.
pub fn container_table(area: Area, rows: &Vec<ContainerRow>, scroll: usize, selected: Option<usize>) -> (r: ContainerTable)
    ensures
        ({
            let (nothing, empty, start, end, cells, sel) = container_view(
                area,
                rows@,
                scroll as int,
                match selected {
                    Some(s) => Some(s as int),
                    None => None,
                },
            );
            if nothing {
                r is Nothing
            } else if empty {
                r is NoContainers
            } else {
                r matches ContainerTable::Rows { start: s, end: e, cells: c, selected: x } && s == start && e == end
                    && c@.map_values(|v: Vec<String>| v@.map_values(|t: String| t@)) == cells && match x {
                    Some(i) => sel == Some(i as int),
                    None => sel is None,
                }
            }
        }),
{
    if area.width == 0 || area.height == 0 {
        return ContainerTable::Nothing;
    }
    if rows.len() == 0 {
        return ContainerTable::NoContainers;
    }
    let max_rows = area.height.saturating_sub(3) as usize;
    let start = if scroll < rows.len() {
        scroll
    } else {
        rows.len()
    };
    let end = if max_rows <= rows.len() - start {
        start + max_rows
    } else {
        rows.len()
    };
    let mut cells: Vec<Vec<String>> = Vec::new();
    let mut j: usize = start;
    while j < end
        invariant
            start <= j <= end <= rows.len(),
            cells@.map_values(|c: Vec<String>| c@.map_values(|x: String| x@)) == Seq::new(
                (j - start) as nat,
                |k: int| container_cells(rows@[start + k]),
            ),
        decreases end - j,
    {
        let ghost before = cells@.map_values(|c: Vec<String>| c@.map_values(|x: String| x@));
        let c = container_cells_of(&rows[j]);
        let ghost cv = c@.map_values(|x: String| x@);
        cells.push(c);
        assert(cells@.map_values(|c: Vec<String>| c@.map_values(|x: String| x@)) =~= before.push(cv));
        assert(cells@.map_values(|c: Vec<String>| c@.map_values(|x: String| x@)) =~= Seq::new(
            (j + 1 - start) as nat,
            |k: int| container_cells(rows@[start + k]),
        ));
        j += 1;
    }
    let sel = match selected {
        Some(s) => if start <= s && s < end {
            Some(s - start)
        } else {
            None
        },
        None => None,
    };
    ContainerTable::Rows { start, end, cells, selected: sel }
}

} // verus!
