//! Screen areas: the inside of a bordered panel, the splitting of an area
//! by the terminal layout solver, a centred pop-up, and the rows of the
//! usage gauges.
use vstd::prelude::*;
use ratatui::layout::{Constraint, Direction, Layout, Rect};

verus! {

/// A rectangle of screen cells.
#[derive(Clone, Copy, Debug, PartialEq, Eq)]
pub struct Area {
    pub x: u16,
    pub y: u16,
    pub width: u16,
    pub height: u16,
}

/// `a + b` within `u16` (`u16::saturating_add`).
pub open spec fn sat_add(a: int, b: int) -> int {
    if a + b > u16::MAX {
        u16::MAX as int
    } else {
        a + b
    }
}

/// `a - b`, or 0 (`u16::saturating_sub`).
pub open spec fn sat_sub(a: int, b: int) -> int {
    if a >= b {
        a - b
    } else {
        0
    }
}

/// The smaller of two numbers.
pub open spec fn min_of(a: int, b: int) -> int {
    if a <= b {
        a
    } else {
        b
    }
}

/// The inside of a panel with a border on every side and no padding, as
/// `Block::inner` computes it: the left and top edges move in by one cell
/// (never past the right and bottom edges), and the size shrinks by two
/// in each direction (never below 0).
pub open spec fn inner_area(a: Area) -> Area {
    Area {
        x: min_of(sat_add(a.x as int, 1), sat_add(a.x as int, a.width as int)) as u16,
        y: min_of(sat_add(a.y as int, 1), sat_add(a.y as int, a.height as int)) as u16,
        width: sat_sub(sat_sub(a.width as int, 1), 1) as u16,
        height: sat_sub(sat_sub(a.height as int, 1), 1) as u16,
    }
}

/// The inside of a bordered panel.
pub fn panel_inner(a: Area) -> (r: Area)
    ensures
        r == inner_area(a),
{
    let right = a.x.saturating_add(a.width);
    let bottom = a.y.saturating_add(a.height);
    let x1 = a.x.saturating_add(1);
    let y1 = a.y.saturating_add(1);
    Area {
        x: if x1 <= right {
            x1
        } else {
            right
        },
        y: if y1 <= bottom {
            y1
        } else {
            bottom
        },
        width: a.width.saturating_sub(1).saturating_sub(1),
        height: a.height.saturating_sub(1).saturating_sub(1),
    }
}

/// How much of an area a piece asks for.
#[derive(Clone, Copy, Debug, PartialEq, Eq)]
pub enum Extent {
    /// Exactly this many cells.
    Length(u16),
    /// At least this many cells.
    Min(u16),
    /// This share of the area, in percent.
    Percentage(u16),
}

/// Whether `piece` lies inside `area`: across the split it spans the whole
/// area (the area's row and height for pieces side by side, its column
/// and width for pieces one above the other), and along the split it
/// starts inside the area and ends no later than the area's end.
pub open spec fn piece_within(horizontal: bool, area: Area, piece: Area) -> bool {
    if horizontal {
        &&& piece.y == area.y
        &&& piece.height == area.height
        &&& area.x <= piece.x
        &&& piece.x + piece.width <= sat_add(area.x as int, area.width as int)
    } else {
        &&& piece.x == area.x
        &&& piece.width == area.width
        &&& area.y <= piece.y
        &&& piece.y + piece.height <= sat_add(area.y as int, area.height as int)
    }
}

/// What the layout solver's answer for `extents` in `area` is known to be:
/// one piece per extent, each inside the area. How the solver shares the
/// area out among the pieces is not part of it.
pub open spec fn split_answer(horizontal: bool, extents: Seq<Extent>, area: Area, pieces: Seq<Area>) -> bool {
    &&& pieces.len() == extents.len()
    &&& forall|k: int| 0 <= k < pieces.len() ==> piece_within(horizontal, area, #[trigger] pieces[k])
}

/// Splits `area` into one piece per extent, side by side when
/// `horizontal`, else one above the other, with the layout solver
/// (`Layout::split`, default flex and spacing, no margin). The solver's
/// required constraints keep every piece inside the area, and the pieces
/// are cut from it across their full height (or width): that is what the
/// contract states. Where each piece starts and how large it is the
/// solver decides from constraints of lower strength, and is not stated;
/// nor is it stated that two calls with the same arguments agree.
#[verifier::external_body]
fn split_area(horizontal: bool, extents: &Vec<Extent>, area: Area) -> (r: Vec<Area>)
    ensures
        split_answer(horizontal, extents@, area, r@),
{
    let mut cs: Vec<Constraint> = Vec::new();
    for e in extents.iter() {
        cs.push(match e {
            Extent::Length(n) => Constraint::Length(*n),
            Extent::Min(n) => Constraint::Min(*n),
            Extent::Percentage(n) => Constraint::Percentage(*n),
        });
    }
    let dir = if horizontal { Direction::Horizontal } else { Direction::Vertical };
    let rect = Rect { x: area.x, y: area.y, width: area.width, height: area.height };
    let pieces = Layout::default().direction(dir).constraints(cs).split(rect);
    pieces.iter().map(|p| Area { x: p.x, y: p.y, width: p.width, height: p.height }).collect()
}

/// The pieces of an area split side by side.
pub fn split_columns(extents: &Vec<Extent>, area: Area) -> (r: Vec<Area>)
    ensures
        split_answer(true, extents@, area, r@),
{
    split_area(true, extents, area)
}

/// The pieces of an area split one above the other.
pub fn split_rows(extents: &Vec<Extent>, area: Area) -> (r: Vec<Area>)
    ensures
        split_answer(false, extents@, area, r@),
{
    split_area(false, extents, area)
}

/// Two halves, each asking for half of the area.
pub open spec fn halves_extents() -> Seq<Extent> {
    seq![Extent::Percentage(50), Extent::Percentage(50)]
}

/// The extents of a centred band: `percent` in the middle and half of the
/// rest on each side.
pub open spec fn band_extents(percent: u16) -> Seq<Extent> {
    let side = ((100 - percent) / 2) as u16;
    seq![Extent::Percentage(side), Extent::Percentage(percent), Extent::Percentage(side)]
}

/// The extents of a centred band, as a vector.
fn band(percent: u16) -> (r: Vec<Extent>)
    requires
        percent <= 100,
    ensures
        r@ == band_extents(percent),
{
    let side = (100 - percent) / 2;
    let mut r: Vec<Extent> = Vec::new();
    r.push(Extent::Percentage(side));
    r.push(Extent::Percentage(percent));
    r.push(Extent::Percentage(side));
    proof {
        assert(r@ =~= band_extents(percent));
    }
    r
}

/// The middle one of the three pieces of a band.
pub fn band_middle(pieces: &Vec<Area>) -> (r: Area)
    requires
        pieces@.len() == 3,
    ensures
        r == pieces@[1],
{
    pieces[1]
}

/// A pop-up `percent_x` percent wide and `percent_y` percent high in the
/// middle of `rect`: `rect` is split into three rows for the band
/// `percent_y` high, the middle row into three columns for the band
/// `percent_x` wide, and the pop-up is the middle column. So it lies
/// inside `rect`.
pub fn centered_rect(percent_x: u16, percent_y: u16, rect: Area) -> (r: Area)
    requires
        percent_x <= 100,
        percent_y <= 100,
    ensures
        exists|rows: Seq<Area>, cols: Seq<Area>|
            #![trigger split_answer(false, band_extents(percent_y), rect, rows), split_answer(true, band_extents(percent_x), rows[1], cols)]
            split_answer(false, band_extents(percent_y), rect, rows) && split_answer(
                true,
                band_extents(percent_x),
                rows[1],
                cols,
            ) && r == cols[1],
        rect.x <= r.x,
        r.x + r.width <= sat_add(rect.x as int, rect.width as int),
        rect.y <= r.y,
        r.y + r.height <= sat_add(rect.y as int, rect.height as int),
{
    let rows = split_rows(&band(percent_y), rect);
    let middle = band_middle(&rows);
    let cols = split_columns(&band(percent_x), middle);
    proof {
        assert(piece_within(false, rect, rows@[1]));
        assert(piece_within(true, rows@[1], cols@[1]));
    }
    band_middle(&cols)
}

} // verus!
