//! The column headers of the process tables: their labels, with the sort
//! marker on the column the table is ordered by, and the screen cells a
//! click on a header hits.
use vstd::prelude::*;
use crate::layout::{inner_area, panel_inner, piece_within, sat_add, sat_sub, split_answer, split_columns, Area, Extent};
use crate::strings::{chars_of, push_str, string_of};
use crate::widgets::SortDir;

verus! {

/// The columns the process table can be ordered by.
#[derive(Clone, Copy, Debug, PartialEq, Eq, Structural)]
pub enum SortKey {
    Pid,
    User,
    Cpu,
    Mem,
    Uptime,
    Status,
    Name,
}

/// The columns the GPU process table can be ordered by.
#[derive(Clone, Copy, Debug, PartialEq, Eq, Structural)]
pub enum GpuSortKey {
    Pid,
    Kind,
    Sm,
    Mem,
    Enc,
    Dec,
    Vram,
    Name,
}

/// A header label: the label, then `^` or `v` on the column the table is
/// ordered by (ascending or descending), else a space.
pub open spec fn header_text(label: Seq<char>, active: bool, dir: SortDir) -> Seq<char> {
    label + if active {
        match dir {
            SortDir::Asc => "^"@,
            SortDir::Desc => "v"@,
        }
    } else {
        " "@
    }
}

/// A header label.
fn header_label(label: &str, active: bool, dir: SortDir) -> (s: String)
    ensures
        s@ == header_text(label@, active, dir),
{
    let mut v = chars_of(label);
    if active {
        match dir {
            SortDir::Asc => push_str(&mut v, "^"),
            SortDir::Desc => push_str(&mut v, "v"),
        }
    } else {
        push_str(&mut v, " ");
    }
    string_of(&v)
}

/// The label of the process-table column `key` when the table is ordered
/// by `current` in direction `dir`.
pub fn sort_header_text(label: &str, key: SortKey, current: SortKey, dir: SortDir) -> (s: String)
    ensures
        s@ == header_text(label@, key == current, dir),
{
    header_label(label, key == current, dir)
}

/// The label of the GPU-table column `key` when the table is ordered by
/// `current` in direction `dir`.
pub fn gpu_sort_header_text(label: &str, key: GpuSortKey, current: GpuSortKey, dir: SortDir) -> (s: String)
    ensures
        s@ == header_text(label@, key == current, dir),
{
    header_label(label, key == current, dir)
}

/// Where column `k` of a header starts: the first at `x0`, each next one
/// `spacing` cells after the end of the one before (never past the last
/// screen column).
pub open spec fn column_x(x0: int, widths: Seq<u16>, spacing: int, k: int) -> int
    decreases k,
{
    if k <= 0 {
        x0
    } else {
        sat_add(column_x(x0, widths, spacing, k - 1), widths[k - 1] + spacing)
    }
}

proof fn lemma_column_x_range(x0: int, widths: Seq<u16>, spacing: int, k: int)
    requires
        0 <= x0 <= u16::MAX,
        spacing >= 0,
        k <= widths.len(),
    ensures
        0 <= column_x(x0, widths, spacing, k) <= u16::MAX,
    decreases k,
{
    if k > 0 {
        lemma_column_x_range(x0, widths, spacing, k - 1);
    }
}

/// The cells of the header columns of widths `widths` on the first row of
/// `inner`, `spacing` cells apart.
pub open spec fn header_cells(inner: Area, widths: Seq<u16>, spacing: int) -> Seq<Area> {
    Seq::new(
        widths.len(),
        |k: int|
            Area {
                x: column_x(inner.x as int, widths, spacing, k) as u16,
                y: inner.y,
                width: widths[k],
                height: 1,
            },
    )
}

/// The cells of the header columns of widths `widths`.
pub fn column_cells(inner: Area, widths: &Vec<u16>, spacing: u16) -> (r: Vec<Area>)
    requires
        forall|k: int| 0 <= k < widths.len() ==> widths@[k] + spacing <= u16::MAX,
    ensures
        r@ == header_cells(inner, widths@, spacing as int),
{
    let mut r: Vec<Area> = Vec::new();
    let mut x = inner.x;
    let mut k: usize = 0;
    while k < widths.len()
        invariant
            k <= widths.len(),
            forall|j: int| 0 <= j < widths.len() ==> widths@[j] + spacing <= u16::MAX,
            x == column_x(inner.x as int, widths@, spacing as int, k as int),
            r@ == header_cells(inner, widths@, spacing as int).take(k as int),
        decreases widths.len() - k,
    {
        let w = widths[k];
        r.push(Area { x, y: inner.y, width: w, height: 1 });
        assert(r@ =~= header_cells(inner, widths@, spacing as int).take(k + 1));
        x = x.saturating_add(w + spacing);
        k += 1;
    }
    assert(header_cells(inner, widths@, spacing as int).take(k as int) =~= header_cells(
        inner,
        widths@,
        spacing as int,
    ));
    r
}

/// The keys of the process-table columns, in order.
pub open spec fn process_keys() -> Seq<SortKey> {
    seq![
        SortKey::Pid,
        SortKey::User,
        SortKey::Cpu,
        SortKey::Mem,
        SortKey::Uptime,
        SortKey::Status,
        SortKey::Name,
    ]
}

/// The keys of the GPU-table columns, in order.
pub open spec fn gpu_keys() -> Seq<GpuSortKey> {
    seq![
        GpuSortKey::Pid,
        GpuSortKey::Kind,
        GpuSortKey::Sm,
        GpuSortKey::Mem,
        GpuSortKey::Enc,
        GpuSortKey::Dec,
        GpuSortKey::Vram,
        GpuSortKey::Name,
    ]
}

/// The widths of the pieces.
fn widths_of(pieces: &Vec<Area>) -> (w: Vec<u16>)
    ensures
        w@.len() == pieces@.len(),
        forall|k: int| 0 <= k < w@.len() ==> w@[k] == pieces@[k].width,
{
    let mut w: Vec<u16> = Vec::new();
    let mut k: usize = 0;
    while k < pieces.len()
        invariant
            k <= pieces.len(),
            w@.len() == k,
            forall|j: int| 0 <= j < k ==> w@[j] == pieces@[j].width,
        decreases pieces.len() - k,
    {
        w.push(pieces[k].width);
        k += 1;
    }
    w
}

/// The row the header columns are laid out in: as wide as the inside of
/// the panel less one cell between each two of the `n` columns.
pub open spec fn header_row(inner: Area, n: nat) -> Area {
    Area { x: 0, y: 0, width: sat_sub(inner.width as int, n - 1) as u16, height: 1 }
}

/// The widths of the pieces.
pub open spec fn piece_widths(pieces: Seq<Area>) -> Seq<u16> {
    pieces.map_values(|a: Area| a.width)
}

/// The header cells of a table with the given column extents in the panel
/// `area`: none when the panel has no room inside its border; else the
/// layout solver splits the header row for the extents, and the columns
/// get the widths of its pieces and are placed one cell apart on the first
/// inside row. The pieces lie inside the row, so the spacing always fits.
fn header_layout(area: Area, extents: &Vec<Extent>) -> (r: Option<Vec<Area>>)
    requires
        1 <= extents.len() <= 8,
    ensures
        r is Some,
        ({
            let inner = inner_area(area);
            if inner.width == 0 || inner.height == 0 {
                r->0@.len() == 0
            } else {
                exists|p: Seq<Area>|
                    #[trigger] split_answer(true, extents@, header_row(inner, extents@.len()), p)
                        && r->0@ == header_cells(inner, piece_widths(p), 1)
            }
        }),
{
    let inner = panel_inner(area);
    if inner.width == 0 || inner.height == 0 {
        return Some(Vec::new());
    }
    let spacing: u16 = 1;
    let total_spacing: u16 = (extents.len() - 1) as u16;
    let row = Area { x: 0, y: 0, width: inner.width.saturating_sub(total_spacing), height: 1 };
    assert(row == header_row(inner, extents@.len()));
    let pieces = split_columns(extents, row);
    let widths = widths_of(&pieces);
    assert(widths@ =~= piece_widths(pieces@));
    assert forall|k: int| 0 <= k < widths.len() implies widths@[k] + spacing <= u16::MAX by {
        assert(piece_within(true, row, pieces@[k]));
    }
    let cells = column_cells(inner, &widths, spacing);
    assert(split_answer(true, extents@, header_row(inner, extents@.len()), pieces@));
    Some(cells)
}

/// What holds of header cells laid out by `header_cells`: one per width,
/// on the first inside row, the first at the left edge and each next one
/// a cell after the end of the one before.
proof fn lemma_header_cells_placed(inner: Area, widths: Seq<u16>)
    ensures
        ({
            let v = header_cells(inner, widths, 1);
            &&& v.len() == widths.len()
            &&& forall|k: int| 0 <= k < v.len() ==> (#[trigger] v[k]).y == inner.y && v[k].height == 1 && v[k].width == widths[k]
            &&& v.len() > 0 ==> v[0].x == inner.x
            &&& forall|k: int| 0 <= k < v.len() - 1 ==> (#[trigger] v[k + 1]).x == sat_add(v[k].x as int, v[k].width + 1)
        }),
{
    let v = header_cells(inner, widths, 1);
    assert forall|k: int| 0 <= k < v.len() - 1 implies (#[trigger] v[k + 1]).x == sat_add(
        v[k].x as int,
        v[k].width + 1,
    ) by {
        lemma_column_x_range(inner.x as int, widths, 1, k);
        lemma_column_x_range(inner.x as int, widths, 1, k + 1);
    }
}

/// Each cell paired with the key of its column.
pub open spec fn keyed_cells<K>(keys: Seq<K>, cells: Seq<Area>) -> Seq<(K, Area)> {
    Seq::new(cells.len(), |k: int| (keys[k], cells[k]))
}

/// Pairs each cell with the key of its column.
fn keyed<K: Copy>(keys: &Vec<K>, cells: Vec<Area>) -> (r: Vec<(K, Area)>)
    requires
        cells.len() <= keys.len(),
    ensures
        r@.len() == cells@.len(),
        forall|k: int| 0 <= k < r@.len() ==> (#[trigger] r@[k]) == (keys@[k], cells@[k]),
{
    let mut r: Vec<(K, Area)> = Vec::new();
    let mut k: usize = 0;
    while k < cells.len()
        invariant
            k <= cells.len() <= keys.len(),
            r@.len() == k,
            forall|j: int| 0 <= j < k ==> (#[trigger] r@[j]) == (keys@[j], cells@[j]),
        decreases cells.len() - k,
    {
        r.push((keys[k], cells[k]));
        k += 1;
    }
    r
}

/// What holds of the header cells of a table with the column keys `keys`
/// in a panel whose inside is `inner`: none when there is no room; else
/// one per column, each with its key, on the first inside row, the first
/// at the left edge and each next one a cell after the end of the one
/// before.
pub open spec fn header_regions_ok<K>(r: Seq<(K, Area)>, keys: Seq<K>, inner: Area) -> bool {
    if inner.width == 0 || inner.height == 0 {
        r.len() == 0
    } else {
        &&& r.len() == keys.len()
        &&& forall|k: int|
            0 <= k < r.len() ==> (#[trigger] r[k]).0 == keys[k] && r[k].1.y == inner.y && r[k].1.height == 1
        &&& r[0].1.x == inner.x
        &&& forall|k: int| 0 <= k < r.len() - 1 ==> (#[trigger] r[k + 1]).1.x == sat_add(r[k].1.x as int, r[k].1.width + 1)
    }
}

/// The column extents of the process table.
pub open spec fn process_extents() -> Seq<Extent> {
    seq![
        Extent::Length(7),
        Extent::Length(8),
        Extent::Length(6),
        Extent::Length(9),
        Extent::Length(7),
        Extent::Length(7),
        Extent::Min(10),
    ]
}

/// The column extents of the GPU process table.
pub open spec fn gpu_extents() -> Seq<Extent> {
    seq![
        Extent::Length(7),
        Extent::Length(4),
        Extent::Length(6),
        Extent::Length(6),
        Extent::Length(6),
        Extent::Length(6),
        Extent::Length(10),
        Extent::Min(10),
    ]
}

/// The header cells of a table with column keys `keys` whose columns the
/// layout solver gave the pieces `pieces`: each key with its cell, the
/// cells as wide as the pieces and one cell apart on the first row inside
/// the panel.
pub open spec fn regions_from<K>(keys: Seq<K>, inner: Area, pieces: Seq<Area>) -> Seq<(K, Area)> {
    keyed_cells(keys, header_cells(inner, piece_widths(pieces), 1))
}

/// Whether `r` holds the header cells of a table with column keys `keys`
/// and column extents `extents` in a panel whose inside is `inner`: none
/// when there is no room; else those of some answer of the layout solver
/// for the extents in the header row.
pub open spec fn regions_for<K>(r: Seq<(K, Area)>, keys: Seq<K>, extents: Seq<Extent>, inner: Area) -> bool {
    if inner.width == 0 || inner.height == 0 {
        r.len() == 0
    } else {
        exists|p: Seq<Area>|
            #[trigger] split_answer(true, extents, header_row(inner, extents.len()), p) && r == regions_from(
                keys,
                inner,
                p,
            )
    }
}

proof fn lemma_keyed_regions<K>(
    keys: Seq<K>,
    extents: Seq<Extent>,
    inner: Area,
    cells: Seq<Area>,
    r: Seq<(K, Area)>,
)
    requires
        1 <= keys.len() == extents.len(),
        r == keyed_cells(keys, cells),
        inner.width == 0 || inner.height == 0 ==> cells.len() == 0,
        !(inner.width == 0 || inner.height == 0) ==> exists|p: Seq<Area>|
            #[trigger] split_answer(true, extents, header_row(inner, extents.len()), p) && cells
                == header_cells(inner, piece_widths(p), 1),
    ensures
        regions_for(r, keys, extents, inner),
        header_regions_ok(r, keys, inner),
{
    if !(inner.width == 0 || inner.height == 0) {
        let p = choose|p: Seq<Area>|
            #[trigger] split_answer(true, extents, header_row(inner, extents.len()), p) && cells
                == header_cells(inner, piece_widths(p), 1);
        lemma_header_cells_placed(inner, piece_widths(p));
        assert(r == regions_from(keys, inner, p));
        assert(piece_widths(p).len() == keys.len());
        assert(r.len() == keys.len());
        assert(r[0].1 == cells[0]);
        assert forall|k: int| 0 <= k < r.len() implies (#[trigger] r[k]).0 == keys[k] && r[k].1.y == inner.y
            && r[k].1.height == 1 by {
            assert(r[k].1 == cells[k]);
        }
        assert forall|k: int| 0 <= k < r.len() - 1 implies (#[trigger] r[k + 1]).1.x == sat_add(
            r[k].1.x as int,
            r[k].1.width + 1,
        ) by {
            assert(cells[k + 1].x == sat_add(cells[k].x as int, cells[k].width + 1));
        }
    }
}

/// The clickable header cells of the process table in the panel `area`:
/// one per column, with its sort key, as wide as the column the layout
/// solver gives it and one cell apart on the first inside row. The result
/// is always `Some`.
pub fn process_header_regions(area: Area) -> (r: Option<Vec<(SortKey, Area)>>)
    ensures
        r is Some,
        r matches Some(v) ==> regions_for(v@, process_keys(), process_extents(), inner_area(area)),
        r matches Some(v) ==> header_regions_ok(v@, process_keys(), inner_area(area)),
{
    let keys = vec![
        SortKey::Pid,
        SortKey::User,
        SortKey::Cpu,
        SortKey::Mem,
        SortKey::Uptime,
        SortKey::Status,
        SortKey::Name,
    ];
    let extents = vec![
        Extent::Length(7),
        Extent::Length(8),
        Extent::Length(6),
        Extent::Length(9),
        Extent::Length(7),
        Extent::Length(7),
        Extent::Min(10),
    ];
    assert(keys@ == process_keys());
    assert(extents@ == process_extents());
    match header_layout(area, &extents) {
        Some(cells) => {
            let ghost cs = cells@;
            let r = keyed(&keys, cells);
            proof {
                assert(r@ =~= keyed_cells(process_keys(), cs));
                lemma_keyed_regions(process_keys(), process_extents(), inner_area(area), cs, r@);
            }
            Some(r)
        },
        None => None,
    }
}

/// The clickable header cells of the GPU process table in the panel
/// `area`: one per column, with its sort key, as wide as the column the
/// layout solver gives it and one cell apart on the first inside row. The
/// result is always `Some`.
pub fn gpu_process_header_regions(area: Area) -> (r: Option<Vec<(GpuSortKey, Area)>>)
    ensures
        r is Some,
        r matches Some(v) ==> regions_for(v@, gpu_keys(), gpu_extents(), inner_area(area)),
        r matches Some(v) ==> header_regions_ok(v@, gpu_keys(), inner_area(area)),
{
    let keys = vec![
        GpuSortKey::Pid,
        GpuSortKey::Kind,
        GpuSortKey::Sm,
        GpuSortKey::Mem,
        GpuSortKey::Enc,
        GpuSortKey::Dec,
        GpuSortKey::Vram,
        GpuSortKey::Name,
    ];
    let extents = vec![
        Extent::Length(7),
        Extent::Length(4),
        Extent::Length(6),
        Extent::Length(6),
        Extent::Length(6),
        Extent::Length(6),
        Extent::Length(10),
        Extent::Min(10),
    ];
    assert(keys@ == gpu_keys());
    assert(extents@ == gpu_extents());
    match header_layout(area, &extents) {
        Some(cells) => {
            let ghost cs = cells@;
            let r = keyed(&keys, cells);
            proof {
                assert(r@ =~= keyed_cells(gpu_keys(), cs));
                lemma_keyed_regions(gpu_keys(), gpu_extents(), inner_area(area), cs, r@);
            }
            Some(r)
        },
        None => None,
    }
}

} // verus!
