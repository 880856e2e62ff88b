//! The places of the usage gauges in the CPU and memory panels: a gauge
//! row with its figure on the row below, centred in the panel.
use vstd::prelude::*;
use crate::format::{fit_text, fit_text_spec, text_width, unicode_str_width};
use crate::layout::{inner_area, min_of, panel_inner, sat_add, sat_sub, split_answer, split_columns, halves_extents, Area, Extent};

verus! {

/// The gauge and, when there is a row for it, the figure of the CPU panel
/// whose inside is `inner`: the gauge on the upper of the two middle rows,
/// across the whole width, and the figure on the row below it; nothing
/// when the inside has no room.
pub open spec fn cpu_areas(inner: Area) -> Option<(Area, Option<Area>)> {
    if inner.width == 0 || inner.height == 0 {
        None
    } else {
        let start_y = sat_add(inner.y as int, sat_sub(inner.height as int, 2) / 2);
        let gauge = Area { x: inner.x, y: start_y as u16, width: inner.width, height: 1 };
        let metric_y = sat_add(start_y, 1);
        Some(
            (
                gauge,
                if metric_y < sat_add(inner.y as int, inner.height as int) {
                    Some(Area { x: inner.x, y: metric_y as u16, width: inner.width, height: 1 })
                } else {
                    None
                },
            ),
        )
    }
}

/// The gauge and figure areas of the CPU panel drawn in `area`.
pub fn cpu_panel_areas(area: Area) -> (r: Option<(Area, Option<Area>)>)
    ensures
        r == cpu_areas(inner_area(area)),
{
    let inner = panel_inner(area);
    if inner.width == 0 || inner.height == 0 {
        return None;
    }
    let start_y = inner.y.saturating_add(inner.height.saturating_sub(2) / 2);
    let gauge = Area { x: inner.x, y: start_y, width: inner.width, height: 1 };
    let metric_y = start_y.saturating_add(1);
    let metric = if metric_y < inner.y.saturating_add(inner.height) {
        Some(Area { x: inner.x, y: metric_y, width: inner.width, height: 1 })
    } else {
        None
    };
    Some((gauge, metric))
}

/// Where one memory gauge goes: its label (cut to the label column, none
/// when that column is empty), the gauge when it is wider than one cell,
/// and the figure row below when it is inside the area.
#[derive(Clone, Debug)]
pub struct MetricPlace {
    pub label_area: Area,
    pub label: Option<String>,
    pub gauge: Option<Area>,
    pub figure: Option<Area>,
}

/// How many gauges get their two rows: all of them, or as many as the
/// height has room for.
pub open spec fn visible_count(n: nat, height: nat) -> nat {
    if n <= height / 2 {
        n
    } else {
        height / 2
    }
}

/// The widest label among the first `k`.
pub open spec fn widest_label(labels: Seq<Seq<char>>, k: int) -> nat
    decreases k,
{
    if k <= 0 {
        0
    } else {
        let m = widest_label(labels, k - 1);
        let w = unicode_str_width(labels[k - 1]) as nat;
        if w > m {
            w
        } else {
            m
        }
    }
}

/// A width as `u16` keeps it (`as u16`: the low 16 bits).
pub open spec fn low16(w: nat) -> int {
    (w % 65536) as int
}

/// How many gauges are drawn when the first row is `y0` and the area ends
/// before row `bottom`: the first always, then each whose row is inside,
/// up to `n`.
pub open spec fn drawn_count(n: nat, y0: int, bottom: int) -> nat {
    if n == 0 {
        0
    } else {
        let d = bottom - y0;
        let more: int = if d > 1 {
            (d - 1) / 2
        } else {
            0
        };
        if 1 + more < n {
            (1 + more) as nat
        } else {
            n
        }
    }
}

/// A drawn gauge as plain values: the label area, the label, the gauge
/// area and the figure area.
pub type Place = (Area, Option<Seq<char>>, Option<Area>, Option<Area>);

/// The place of gauge `k` on row `y`, with the label column `lw` wide.
pub open spec fn place_at(area: Area, labels: Seq<Seq<char>>, lw: int, k: int, y: int) -> Place {
    let gauge_x = sat_add(area.x as int, lw);
    let gauge_w = sat_sub(area.width as int, lw);
    let bottom = sat_add(area.y as int, area.height as int);
    (
        Area { x: area.x, y: y as u16, width: lw as u16, height: 1 },
        if lw > 0 {
            Some(fit_text_spec(labels[k], lw as nat))
        } else {
            None
        },
        if gauge_w > 1 {
            Some(Area { x: gauge_x as u16, y: y as u16, width: gauge_w as u16, height: 1 })
        } else {
            None
        },
        if sat_add(y, 1) < bottom && gauge_w > 0 {
            Some(Area { x: gauge_x as u16, y: sat_add(y, 1) as u16, width: gauge_w as u16, height: 1 })
        } else {
            None
        },
    )
}

/// The label column of the gauges: as wide as the widest of the first `n`
/// labels (kept to its low 16 bits), within the area.
pub open spec fn label_column(area: Area, labels: Seq<Seq<char>>, n: nat) -> int {
    min_of(low16(widest_label(labels, n as int)), area.width as int)
}

/// The first row of the block of gauges: the block of two rows per gauge
/// centred in the area.
pub open spec fn first_row(area: Area, n: nat) -> int {
    sat_add(area.y as int, sat_sub(area.height as int, 2 * n as int) / 2)
}

/// The places of the memory gauges with labels `labels` in `area`:
/// nothing when the area or the list is empty or the area is less than two
/// rows high; else, for as many gauges as have two rows each, the label
/// column as wide as the widest shown label (within the area), each gauge
/// right of its label and its figure on the row below, the block of rows
/// centred in the area; a gauge whose row falls outside the area (after
/// the first) is left out.
pub open spec fn metric_places(area: Area, labels: Seq<Seq<char>>) -> Seq<Place> {
    let n = visible_count(labels.len(), area.height as nat);
    if area.width == 0 || area.height == 0 || n == 0 {
        Seq::empty()
    } else {
        let lw = label_column(area, labels, n);
        let y0 = first_row(area, n);
        let bottom = sat_add(area.y as int, area.height as int);
        Seq::new(drawn_count(n, y0, bottom), |k: int| place_at(area, labels, lw, k, y0 + 2 * k))
    }
}

/// A place as plain values.
pub open spec fn place_view(p: MetricPlace) -> Place {
    (
        p.label_area,
        match p.label {
            Some(s) => Some(s@),
            None => None,
        },
        p.gauge,
        p.figure,
    )
}

/// The widest of the first `n` labels.
fn widest_of(labels: &Vec<&str>, n: usize) -> (w: usize)
    requires
        n <= labels.len(),
    ensures
        w == widest_label(labels@.map_values(|l: &str| l@), n as int),
{
    let ghost lv = labels@.map_values(|l: &str| l@);
    let mut m: usize = 0;
    let mut k: usize = 0;
    while k < n
        invariant
            k <= n <= labels.len(),
            lv == labels@.map_values(|l: &str| l@),
            m == widest_label(lv, k as int),
        decreases n - k,
    {
        let w = text_width(labels[k]);
        assert(lv[k as int] == labels@[k as int]@);
        if w > m {
            m = w;
        }
        k += 1;
    }
    m
}

/// The low 16 bits of a width.
fn low_bits(w: usize) -> (r: u16)
    ensures
        r == low16(w as nat),
{
    (w % 65536) as u16
}

/// The places of the memory gauges with labels `labels` in `area`.
pub fn memory_metric_places(area: Area, labels: &Vec<&str>) -> (r: Vec<MetricPlace>)
    ensures
        r@.map_values(|p: MetricPlace| place_view(p)) == metric_places(area, labels@.map_values(|l: &str| l@)),
{
    let ghost lv = labels@.map_values(|l: &str| l@);
    let mut r: Vec<MetricPlace> = Vec::new();
    let half = (area.height / 2) as usize;
    let n = if labels.len() <= half {
        labels.len()
    } else {
        half
    };
    if area.width == 0 || area.height == 0 || n == 0 {
        assert(r@.map_values(|p: MetricPlace| place_view(p)) =~= Seq::<Place>::empty());
        return r;
    }
    let widest = low_bits(widest_of(labels, n));
    let lw = if widest <= area.width {
        widest
    } else {
        area.width
    };
    let gauge_x = area.x.saturating_add(lw);
    let gauge_w = area.width.saturating_sub(lw);
    let total_rows: u16 = (2 * n) as u16;
    let y0 = area.y.saturating_add(area.height.saturating_sub(total_rows) / 2);
    let bottom = area.y.saturating_add(area.height);
    let ghost places = metric_places(area, lv);
    let ghost b = bottom as int;
    let mut y = y0;
    let mut k: usize = 0;
    while k < n
        invariant_except_break
            y as int == y0 + 2 * k,
            k == 0 || y0 + 2 * k < b,
            r@.map_values(|p: MetricPlace| place_view(p)) == Seq::new(
                k as nat,
                |j: int| place_at(area, lv, lw as int, j, y0 + 2 * j),
            ),
        invariant
            k <= n,
            n <= labels.len(),
            n == visible_count(labels.len() as nat, area.height as nat),
            area.width > 0,
            area.height > 0,
            n > 0,
            lv == labels@.map_values(|l: &str| l@),
            lw as int == label_column(area, lv, n as nat),
            gauge_x as int == sat_add(area.x as int, lw as int),
            gauge_w as int == sat_sub(area.width as int, lw as int),
            y0 as int == first_row(area, n as nat),
            b == sat_add(area.y as int, area.height as int),
            bottom as int == b,
        ensures
            r@.map_values(|p: MetricPlace| place_view(p)) == Seq::new(
                drawn_count(n as nat, y0 as int, b),
                |j: int| place_at(area, lv, lw as int, j, y0 + 2 * j),
            ),
        decreases n - k,
    {
        let label = if lw > 0 {
            Some(fit_text(labels[k], lw as usize))
        } else {
            None
        };
        let gauge = if gauge_w > 1 {
            Some(Area { x: gauge_x, y, width: gauge_w, height: 1 })
        } else {
            None
        };
        let fy = y.saturating_add(1);
        let figure = if fy < bottom && gauge_w > 0 {
            Some(Area { x: gauge_x, y: fy, width: gauge_w, height: 1 })
        } else {
            None
        };
        let ghost before = r@.map_values(|p: MetricPlace| place_view(p));
        assert(before.len() == k);
        assert(r@.len() == k);
        r.push(MetricPlace { label_area: Area { x: area.x, y, width: lw, height: 1 }, label, gauge, figure });
        assert(lv[k as int] == labels@[k as int]@);
        let ghost pv = place_view(r@[k as int]);
        let ghost pa = place_at(area, lv, lw as int, k as int, y0 + 2 * k);
        assert(pv == pa);
        assert(r@.map_values(|p: MetricPlace| place_view(p)) =~= before.push(pv));
        assert(Seq::new((k + 1) as nat, |j: int| place_at(area, lv, lw as int, j, y0 + 2 * j)) =~= Seq::new(
            k as nat,
            |j: int| place_at(area, lv, lw as int, j, y0 + 2 * j),
        ).push(pa));
        assert(r@.map_values(|p: MetricPlace| place_view(p)) =~= Seq::new(
            (k + 1) as nat,
            |j: int| place_at(area, lv, lw as int, j, y0 + 2 * j),
        ));
        let ny = y.saturating_add(2);
        k += 1;
        if ny >= bottom {
            assert(drawn_count(n as nat, y0 as int, b) == k);
            break;
        }
        y = ny;
    }
    r
}


/// At most one gauge per two rows of the area, and no more than there are
/// labels; the gauges go down two rows at a time, and a figure row is the
/// row below its gauge, inside the area.
pub proof fn lemma_gauges_fit(area: Area, labels: Seq<Seq<char>>)
    ensures
        metric_places(area, labels).len() <= labels.len(),
        metric_places(area, labels).len() <= area.height / 2,
        forall|k: int|
            0 < k < metric_places(area, labels).len() ==> (#[trigger] metric_places(area, labels)[k]).0.y
                == metric_places(area, labels)[k - 1].0.y + 2,
        forall|k: int|
            0 <= k < metric_places(area, labels).len() ==> match (#[trigger] metric_places(area, labels)[k]).3 {
                Some(f) => f.y == metric_places(area, labels)[k].0.y + 1 && f.y < area.y + area.height,
                None => true,
            },
{
    let n = visible_count(labels.len(), area.height as nat);
    if !(area.width == 0 || area.height == 0 || n == 0) {
        let y0 = first_row(area, n);
        let bottom = sat_add(area.y as int, area.height as int);
        let lw = label_column(area, labels, n);
        let places = metric_places(area, labels);
        assert forall|k: int| 0 <= k < places.len() implies #[trigger] places[k] == place_at(area, labels, lw, k, y0 + 2 * k) && (k == 0 || y0 + 2 * k < bottom) && y0 + 2 * k <= u16::MAX by {
            if k > 0 {
                assert(k <= (bottom - y0 - 1) / 2);
            }
        }
    }
}


/// The CPU panel and the memory panel side by side: the first and the
/// second of the two pieces the layout solver cuts `area` into, each
/// asking for half of it. Both span its height and lie inside it; their
/// columns the solver decides.
pub fn stats_panels(area: Area) -> (r: (Area, Area))
    ensures
        exists|p: Seq<Area>| #[trigger] split_answer(true, halves_extents(), area, p) && r == (p[0], p[1]),
        r.0.y == area.y && r.0.height == area.height,
        r.1.y == area.y && r.1.height == area.height,
{
    let extents = vec![Extent::Percentage(50), Extent::Percentage(50)];
    assert(extents@ == halves_extents());
    let halves = split_columns(&extents, area);
    assert(crate::layout::piece_within(true, area, halves@[0]));
    assert(crate::layout::piece_within(true, area, halves@[1]));
    panels_from(&halves)
}

/// The CPU panel and the memory panel from the two halves of the stats
/// row: the CPU panel in the left one, the memory panel in the right one.
pub fn panels_from(halves: &Vec<Area>) -> (r: (Area, Area))
    requires
        halves@.len() == 2,
    ensures
        r == (halves@[0], halves@[1]),
{
    (halves[0], halves[1])
}

} // verus!
