//! ASCII logos: the text format with colour markers, trimmed to the box
//! around its visible characters, and scaled into a terminal area.
use vstd::prelude::*;
use crate::strings::{chars_of, eq_chars, eq_ignore_case, lines, lines_of, lower_chars, seqs, slice_of};
use crate::proc_tree::{seq_less, str_less};

verus! {

/// One character of an ASCII logo and the palette index it is drawn with.
#[derive(Clone, Copy, Debug, PartialEq, Eq)]
pub struct AsciiCell {
    pub ch: char,
    pub color_index: Option<u8>,
}

/// A parsed ASCII logo: `height` rows of `width` cells each.
#[derive(Clone, Debug)]
pub struct AsciiLogo {
    pub width: usize,
    pub height: usize,
    pub cells: Vec<Vec<AsciiCell>>,
}

/// The cell `ch` drawn in `color`.
pub open spec fn cell(ch: char, color: Option<u8>) -> AsciiCell {
    AsciiCell { ch, color_index: color }
}

/// A space with no colour.
pub open spec fn blank_cell() -> AsciiCell {
    cell(' ', None)
}

impl AsciiCell {
    /// A space with no colour.
    pub fn blank() -> (c: AsciiCell)
        ensures
            c == blank_cell(),
    {
        AsciiCell { ch: ' ', color_index: None }
    }
}

/// An ASCII decimal digit.
pub open spec fn is_digit(c: char) -> bool {
    '0' <= c <= '9'
}

/// The value of the decimal digit `c`.
pub open spec fn digit_value(c: char) -> u8 {
    (c as u32 - 48) as u8
}

/// The colour that the marker `$` and digit `d` switches to: none for `0`
/// (back to the plain colour), else palette index `d`.
pub open spec fn marker_color(d: char) -> Option<u8> {
    if d == '0' {
        None
    } else {
        Some(digit_value(d))
    }
}

/// The cells of a logo line read on in colour `color`: `$$` is a dollar
/// sign, `$0` goes back to no colour, `$` followed by a digit from 1 to 9
/// switches to that palette index, and any other character (a lone `$`
/// too) is drawn in the current colour.
pub open spec fn row_cells(s: Seq<char>, color: Option<u8>) -> Seq<AsciiCell>
    decreases s.len(),
{
    if s.len() == 0 {
        Seq::empty()
    } else if s[0] == '$' && s.len() >= 2 && s[1] == '$' {
        seq![cell('$', color)] + row_cells(s.skip(2), color)
    } else if s[0] == '$' && s.len() >= 2 && is_digit(s[1]) {
        row_cells(s.skip(2), marker_color(s[1]))
    } else {
        seq![cell(s[0], color)] + row_cells(s.skip(1), color)
    }
}

/// The cell rows held by a vector of rows.
pub open spec fn cell_rows(v: Seq<Vec<AsciiCell>>) -> Seq<Seq<AsciiCell>> {
    v.map_values(|r: Vec<AsciiCell>| r@)
}

/// The rows of a logo file, one per line, each starting without colour.
pub open spec fn logo_rows(content: Seq<char>) -> Seq<Seq<AsciiCell>> {
    lines(content).map_values(|l: Seq<char>| row_cells(l, None))
}

/// The length of the longest row.
pub open spec fn max_len(rows: Seq<Seq<AsciiCell>>) -> nat
    decreases rows.len(),
{
    if rows.len() == 0 {
        0
    } else {
        let m = max_len(rows.drop_last());
        if rows.last().len() > m {
            rows.last().len()
        } else {
            m
        }
    }
}

/// `row` filled with blank cells up to length `w`.
pub open spec fn pad_row(row: Seq<AsciiCell>, w: nat) -> Seq<AsciiCell> {
    if row.len() < w {
        row + Seq::new((w - row.len()) as nat, |_i: int| blank_cell())
    } else {
        row
    }
}

/// Every row filled with blank cells up to the longest row's length.
pub open spec fn padded(rows: Seq<Seq<AsciiCell>>) -> Seq<Seq<AsciiCell>> {
    rows.map_values(|r: Seq<AsciiCell>| pad_row(r, max_len(rows)))
}

/// A cell that shows something: anything but a space.
pub open spec fn inked(c: AsciiCell) -> bool {
    c.ch != ' '
}

/// The cell at row `y`, column `x` of `grid` exists and is inked.
pub open spec fn ink_at(grid: Seq<Seq<AsciiCell>>, y: int, x: int) -> bool {
    0 <= y < grid.len() && 0 <= x < grid[y].len() && inked(grid[y][x])
}

/// Rows `top..=bottom` and columns `left..=right` are the smallest box that
/// holds every inked cell of `grid`: each inked cell lies inside it, and
/// each of its four edges touches an inked cell.
pub open spec fn ink_box(
    grid: Seq<Seq<AsciiCell>>,
    top: int,
    bottom: int,
    left: int,
    right: int,
) -> bool {
    &&& forall|y: int, x: int|
        #[trigger] ink_at(grid, y, x) ==> top <= y <= bottom && left <= x <= right
    &&& exists|x: int| #[trigger] ink_at(grid, top, x)
    &&& exists|x: int| #[trigger] ink_at(grid, bottom, x)
    &&& exists|y: int| #[trigger] ink_at(grid, y, left)
    &&& exists|y: int| #[trigger] ink_at(grid, y, right)
}

/// Rows `top..=bottom` of `grid`, each cut to columns `left..=right`.
pub open spec fn crop(
    grid: Seq<Seq<AsciiCell>>,
    top: int,
    bottom: int,
    left: int,
    right: int,
) -> Seq<Seq<AsciiCell>> {
    grid.subrange(top, bottom + 1).map_values(|r: Seq<AsciiCell>| r.subrange(left, right + 1))
}

/// Reads one logo line into cells.
fn parse_row(s: &Vec<char>) -> (r: Vec<AsciiCell>)
    ensures
        r@ == row_cells(s@, None),
{
    let mut out: Vec<AsciiCell> = Vec::new();
    let mut color: Option<u8> = None;
    let mut i: usize = 0;
    assert(s@.skip(0) =~= s@);
    assert(out@ + row_cells(s@, None) =~= row_cells(s@, None));
    while i < s.len()
        invariant
            i <= s.len(),
            out@ + row_cells(s@.skip(i as int), color) == row_cells(s@, None),
        decreases s.len() - i,
    {
        let ghost rest = s@.skip(i as int);
        let ch = s[i];
        assert(rest[0] == ch);
        if ch == '$' && i + 1 < s.len() && s[i + 1] == '$' {
            assert(rest[1] == s@[i + 1]);
            assert(rest.skip(2) =~= s@.skip(i + 2));
            let c = AsciiCell { ch: '$', color_index: color };
            assert(out@.push(c) + row_cells(rest.skip(2), color) =~= out@ + (seq![c]
                + row_cells(rest.skip(2), color)));
            out.push(c);
            i += 2;
        } else if ch == '$' && i + 1 < s.len() && '0' <= s[i + 1] && s[i + 1] <= '9' {
            let d = s[i + 1];
            assert(rest[1] == d);
            assert(rest.skip(2) =~= s@.skip(i + 2));
            color = if d == '0' {
                None
            } else {
                Some((d as u32 - 48) as u8)
            };
            i += 2;
        } else {
            assert(rest.skip(1) =~= s@.skip(i + 1));
            let c = AsciiCell { ch: ch, color_index: color };
            assert(out@.push(c) + row_cells(rest.skip(1), color) =~= out@ + (seq![c]
                + row_cells(rest.skip(1), color)));
            out.push(c);
            i += 1;
        }
    }
    assert(s@.skip(i as int) =~= Seq::<char>::empty());
    assert(out@ + Seq::<AsciiCell>::empty() =~= out@);
    out
}

/// The logo file `content` read into rows, one per line.
fn parse_rows(content: &str) -> (r: Vec<Vec<AsciiCell>>)
    ensures
        cell_rows(r@) == logo_rows(content@),
{
    let text = chars_of(content);
    let ls = lines_of(&text);
    let mut rows: Vec<Vec<AsciiCell>> = Vec::new();
    let mut i: usize = 0;
    while i < ls.len()
        invariant
            i <= ls.len(),
            seqs(ls@) == lines(content@),
            rows.len() == i,
            forall|k: int| 0 <= k < i ==> #[trigger] cell_rows(rows@)[k] == row_cells(lines(content@)[k], None),
        decreases ls.len() - i,
    {
        let row = parse_row(&ls[i]);
        assert(ls@[i as int]@ == seqs(ls@)[i as int]);
        let ghost old_rows = rows@;
        rows.push(row);
        assert(cell_rows(rows@) =~= cell_rows(old_rows).push(rows@[i as int]@));
        i += 1;
    }
    assert(cell_rows(rows@) =~= logo_rows(content@));
    rows
}

proof fn lemma_max_len_bound(rows: Seq<Seq<AsciiCell>>, k: int)
    requires
        0 <= k < rows.len(),
    ensures
        rows[k].len() <= max_len(rows),
    decreases rows.len(),
{
    if k < rows.len() - 1 {
        lemma_max_len_bound(rows.drop_last(), k);
    }
}

/// The length of the longest row.
fn longest(rows: &Vec<Vec<AsciiCell>>) -> (m: usize)
    ensures
        m == max_len(cell_rows(rows@)),
{
    let mut m: usize = 0;
    let mut i: usize = 0;
    while i < rows.len()
        invariant
            i <= rows.len(),
            m == max_len(cell_rows(rows@).take(i as int)),
        decreases rows.len() - i,
    {
        assert(cell_rows(rows@).take(i + 1).drop_last() =~= cell_rows(rows@).take(i as int));
        assert(cell_rows(rows@).take(i + 1).last() == rows@[i as int]@);
        if rows[i].len() > m {
            m = rows[i].len();
        }
        i += 1;
    }
    assert(cell_rows(rows@).take(i as int) =~= cell_rows(rows@));
    m
}

/// `row` filled with blank cells up to length `w`.
fn padded_row(row: &Vec<AsciiCell>, w: usize) -> (r: Vec<AsciiCell>)
    ensures
        r@ == pad_row(row@, w as nat),
{
    let mut out = row.clone();
    assert(out@ == row@);
    if out.len() < w {
        while out.len() < w
            invariant
                row@.len() <= out.len() <= w,
                out@ == row@ + Seq::new((out.len() - row@.len()) as nat, |_i: int| blank_cell()),
            decreases w - out.len(),
        {
            out.push(AsciiCell::blank());
            assert(out@ =~= row@ + Seq::new((out.len() - row@.len()) as nat, |_i: int| blank_cell()));
        }
    }
    out
}

/// Where the inked cells of a row start and end.
fn row_span(row: &Vec<AsciiCell>) -> (r: Option<(usize, usize)>)
    ensures
        match r {
            None => forall|x: int| 0 <= x < row.len() ==> !inked(#[trigger] row@[x]),
            Some((a, b)) => {
                &&& a <= b < row.len()
                &&& inked(row@[a as int])
                &&& inked(row@[b as int])
                &&& forall|x: int| 0 <= x < row.len() && inked(#[trigger] row@[x]) ==> a <= x <= b
            },
        },
{
    let mut first: Option<usize> = None;
    let mut last: usize = 0;
    let mut x: usize = 0;
    while x < row.len()
        invariant
            x <= row.len(),
            match first {
                None => forall|k: int| 0 <= k < x ==> !inked(#[trigger] row@[k]),
                Some(a) => {
                    &&& a <= last < x
                    &&& inked(row@[a as int])
                    &&& inked(row@[last as int])
                    &&& forall|k: int| 0 <= k < x && inked(#[trigger] row@[k]) ==> a <= k <= last
                },
            },
        decreases row.len() - x,
    {
        if row[x].ch != ' ' {
            if first.is_none() {
                first = Some(x);
            }
            last = x;
        }
        x += 1;
    }
    match first {
        None => None,
        Some(a) => Some((a, last)),
    }
}

/// A copy of `row[from..to]`.
fn cells_between(row: &Vec<AsciiCell>, from: usize, to: usize) -> (r: Vec<AsciiCell>)
    requires
        from <= to <= row.len(),
    ensures
        r@ == row@.subrange(from as int, to as int),
{
    let mut out: Vec<AsciiCell> = Vec::new();
    let mut i: usize = from;
    while i < to
        invariant
            from <= i <= to <= row.len(),
            out@ == row@.subrange(from as int, i as int),
        decreases to - i,
    {
        out.push(row[i]);
        i += 1;
        assert(out@ =~= row@.subrange(from as int, i as int));
    }
    out
}


/// Every row of `rows` filled with blank cells up to length `w`.
fn pad_rows(rows: &Vec<Vec<AsciiCell>>, w: usize) -> (r: Vec<Vec<AsciiCell>>)
    requires
        w == max_len(cell_rows(rows@)),
    ensures
        cell_rows(r@) == padded(cell_rows(rows@)),
        forall|k: int| 0 <= k < r.len() ==> #[trigger] r@[k]@.len() == w,
{
    let ghost g0 = cell_rows(rows@);
    let mut grid: Vec<Vec<AsciiCell>> = Vec::new();
    let mut i: usize = 0;
    while i < rows.len()
        invariant
            i <= rows.len(),
            g0 == cell_rows(rows@),
            w == max_len(g0),
            grid.len() == i,
            forall|k: int| 0 <= k < i ==> #[trigger] cell_rows(grid@)[k] == pad_row(g0[k], w as nat),
            forall|k: int| 0 <= k < i ==> #[trigger] grid@[k]@.len() == w,
        decreases rows.len() - i,
    {
        let row = padded_row(&rows[i], w);
        proof {
            lemma_max_len_bound(g0, i as int);
        }
        assert(rows@[i as int]@ == g0[i as int]);
        let ghost old_grid = grid@;
        grid.push(row);
        assert(cell_rows(grid@) =~= cell_rows(old_grid).push(grid@[i as int]@));
        i += 1;
    }
    assert(cell_rows(grid@) =~= padded(g0));
    grid
}

/// Reads an ASCII logo file.
///
/// Each line becomes a row of cells (see `row_cells`), the rows are
/// filled with blanks to the longest row's length, and the result is the
/// part inside the smallest box around the visible (non-space) cells; a
/// file with no visible cell gives `None`.
pub fn parse_ascii_logo(content: &str) -> (r: Option<AsciiLogo>)
    ensures
        match r {
            None => forall|y: int, x: int| !#[trigger] ink_at(padded(logo_rows(content@)), y, x),
            Some(logo) => exists|t: int, b: int, l: int, rt: int|
                {
                    &&& #[trigger] ink_box(padded(logo_rows(content@)), t, b, l, rt)
                    &&& cell_rows(logo.cells@) == crop(padded(logo_rows(content@)), t, b, l, rt)
                    &&& logo.height == b - t + 1
                    &&& logo.width == rt - l + 1
                },
        },
        r matches Some(logo) ==> logo.well_formed(),
{
    let rows = parse_rows(content);
    let w = longest(&rows);
    let grid = pad_rows(&rows, w);
    let ghost gg = cell_rows(grid@);
    assert(gg == padded(logo_rows(content@)));
    let mut found = false;
    let mut top: usize = 0;
    let mut bottom: usize = 0;
    let mut left: usize = 0;
    let mut right: usize = 0;
    let ghost mut wt: int = 0;
    let ghost mut wb: int = 0;
    let ghost mut wl: int = 0;
    let ghost mut wr: int = 0;
    let mut y: usize = 0;
    while y < grid.len()
        invariant
            y <= grid.len(),
            gg == cell_rows(grid@),
            forall|k: int| 0 <= k < grid.len() ==> #[trigger] grid@[k]@.len() == w,
            !found ==> forall|yy: int, x: int| yy < y ==> !#[trigger] ink_at(gg, yy, x),
            found ==> {
                &&& top <= bottom < y
                &&& ink_at(gg, top as int, wt)
                &&& ink_at(gg, bottom as int, wb)
                &&& ink_at(gg, wl, left as int)
                &&& ink_at(gg, wr, right as int)
                &&& forall|yy: int, x: int|
                    yy < y && #[trigger] ink_at(gg, yy, x) ==> top <= yy <= bottom && left <= x
                        <= right
            },
        decreases grid.len() - y,
    {
        let span = row_span(&grid[y]);
        assert(gg[y as int] == grid@[y as int]@);
        assert forall|x: int| #[trigger] ink_at(gg, y as int, x) <==> (0 <= x < grid@[y as int]@.len()
            && inked(grid@[y as int]@[x])) by {}
        match span {
            None => {},
            Some((a, b)) => {
                if !found {
                    found = true;
                    top = y;
                    left = a;
                    right = b;
                    proof {
                        wt = a as int;
                        wl = y as int;
                        wr = y as int;
                    }
                } else {
                    if a < left {
                        left = a;
                        proof {
                            wl = y as int;
                        }
                    }
                    if b > right {
                        right = b;
                        proof {
                            wr = y as int;
                        }
                    }
                }
                bottom = y;
                proof {
                    wb = a as int;
                }
            },
        }
        y += 1;
    }
    if !found {
        return None;
    }
    assert(right < w) by {
        assert(ink_at(gg, wr, right as int));
    }
    let mut cells: Vec<Vec<AsciiCell>> = Vec::new();
    let mut yy: usize = top;
    while yy <= bottom
        invariant
            top <= yy <= bottom + 1,
            bottom < grid.len(),
            left <= right < w,
            gg == cell_rows(grid@),
            forall|k: int| 0 <= k < grid.len() ==> #[trigger] grid@[k]@.len() == w,
            cells.len() == yy - top,
            forall|k: int|
                0 <= k < yy - top ==> #[trigger] cell_rows(cells@)[k] == gg[top + k].subrange(
                    left as int,
                    right + 1,
                ),
        decreases bottom + 1 - yy,
    {
        let row = cells_between(&grid[yy], left, right + 1);
        assert(gg[yy as int] == grid@[yy as int]@);
        let ghost old_cells = cells@;
        cells.push(row);
        assert(cell_rows(cells@) =~= cell_rows(old_cells).push(cells@[yy - top]@));
        yy += 1;
    }
    assert(cell_rows(cells@) =~= crop(gg, top as int, bottom as int, left as int, right as int));
    assert(ink_box(gg, top as int, bottom as int, left as int, right as int));
    assert forall|k: int| 0 <= k < cells.len() implies #[trigger] cells@[k]@.len() == right - left
        + 1 by {
        assert(cells@[k]@ == cell_rows(cells@)[k]);
    }
    Some(AsciiLogo { width: right - left + 1, height: bottom - top + 1, cells })
}


impl AsciiLogo {
    /// `cells` has `height` rows of `width` cells each.
    pub open spec fn well_formed(&self) -> bool {
        &&& self.cells.len() == self.height
        &&& forall|k: int| 0 <= k < self.cells.len() ==> #[trigger] self.cells@[k]@.len() == self.width
    }
}

/// `a * b`, or `max` where the product exceeds it (`saturating_mul` on an
/// unsigned type whose largest value is `max`).
pub open spec fn sat_mul(a: int, b: int, max: int) -> int {
    if a * b > max {
        max
    } else {
        a * b
    }
}

/// The source index that nearest-neighbour scaling reads for target index
/// `i` when `n` source cells are spread over `d` target cells, computed in
/// an unsigned type whose largest value is `max`.
pub open spec fn nearest(i: int, n: int, d: int, max: int) -> int {
    sat_mul(i, n, max) / (if d > 1 { d } else { 1 })
}

/// `grid`, whose rows hold at least `sw` cells and of which at least `sh`
/// rows are used, scaled by nearest neighbour to `dh` rows of `dw` cells.
pub open spec fn scaled(grid: Seq<Seq<AsciiCell>>, sw: int, sh: int, dw: nat, dh: nat) -> Seq<Seq<AsciiCell>> {
    Seq::new(dh, |y: int| Seq::new(dw, |x: int| grid[nearest(y, sh, dh as int, usize::MAX as int)][nearest(x, sw, dw as int, usize::MAX as int)]))
}

/// `usize::saturating_mul`.
pub fn saturating_mul(a: usize, b: usize) -> (r: usize)
    ensures
        r == sat_mul(a as int, b as int, usize::MAX as int),
{
    match a.checked_mul(b) {
        Some(p) => p,
        None => usize::MAX,
    }
}

pub proof fn lemma_nearest_in_range(i: int, n: int, d: int, m: int)
    requires
        0 <= i < d,
        1 <= n,
        0 <= m,
    ensures
        0 <= nearest(i, n, d, m) < n,
{
    assert(0 <= i * n) by (nonlinear_arith)
        requires
            0 <= i,
            1 <= n,
    ;
    assert(i * n < d * n) by (nonlinear_arith)
        requires
            0 <= i < d,
            1 <= n,
    ;
    if i * n > m {
        assert(m / d < n) by (nonlinear_arith)
            requires
                m < d * n,
                d >= 1,
        ;
        assert(0 <= m / d) by (nonlinear_arith)
            requires
                m >= 0,
                d >= 1,
        ;
    } else {
        let p = i * n;
        assert(p / d < n) by (nonlinear_arith)
            requires
                0 <= p < d * n,
                d >= 1,
        ;
        assert(0 <= p / d) by (nonlinear_arith)
            requires
                p >= 0,
                d >= 1,
        ;
    }
}

/// Nearest-neighbour scaling of the first `src_h` rows (of at least
/// `src_w` cells each) to `dst_h` rows of `dst_w` cells.
fn scale_ascii_cells(
    src: &Vec<Vec<AsciiCell>>,
    src_w: usize,
    src_h: usize,
    dst_w: usize,
    dst_h: usize,
) -> (r: Vec<Vec<AsciiCell>>)
    requires
        1 <= src_h <= src.len(),
        1 <= src_w,
        forall|k: int| 0 <= k < src_h ==> src_w <= #[trigger] src@[k]@.len(),
    ensures
        cell_rows(r@) == scaled(cell_rows(src@), src_w as int, src_h as int, dst_w as nat, dst_h as nat),
{
    let ghost target = scaled(cell_rows(src@), src_w as int, src_h as int, dst_w as nat, dst_h as nat);
    let mut rows: Vec<Vec<AsciiCell>> = Vec::new();
    let dh: usize = if dst_h > 1 { dst_h } else { 1 };
    let dw: usize = if dst_w > 1 { dst_w } else { 1 };
    let mut y: usize = 0;
    while y < dst_h
        invariant
            y <= dst_h,
            1 <= src_h <= src.len(),
            1 <= src_w,
            dh == (if dst_h > 1 { dst_h } else { 1 }),
            dw == (if dst_w > 1 { dst_w } else { 1 }),
            forall|k: int| 0 <= k < src_h ==> src_w <= #[trigger] src@[k]@.len(),
            target == scaled(cell_rows(src@), src_w as int, src_h as int, dst_w as nat, dst_h as nat),
            rows.len() == y,
            forall|k: int| 0 <= k < y ==> #[trigger] cell_rows(rows@)[k] == target[k],
        decreases dst_h - y,
    {
        let src_y = saturating_mul(y, src_h) / dh;
        proof {
            lemma_nearest_in_range(y as int, src_h as int, dst_h as int, usize::MAX as int);
        }
        assert(src_y == nearest(y as int, src_h as int, dst_h as int, usize::MAX as int));
        let ghost srow = src@[src_y as int]@;
        let mut row: Vec<AsciiCell> = Vec::new();
        let mut x: usize = 0;
        while x < dst_w
            invariant
                x <= dst_w,
                src_y < src_h <= src.len(),
                1 <= src_w <= src@[src_y as int]@.len(),
                srow == src@[src_y as int]@,
                dw == (if dst_w > 1 { dst_w } else { 1 }),
                row.len() == x,
                forall|k: int| 0 <= k < x ==> #[trigger] row@[k] == srow[nearest(k, src_w as int, dst_w as int, usize::MAX as int)],
            decreases dst_w - x,
        {
            let src_x = saturating_mul(x, src_w) / dw;
            proof {
                lemma_nearest_in_range(x as int, src_w as int, dst_w as int, usize::MAX as int);
            }
            assert(src_x == nearest(x as int, src_w as int, dst_w as int, usize::MAX as int));
            row.push(src[src_y][src_x]);
            x += 1;
        }
        assert(cell_rows(src@)[src_y as int] == srow);
        assert(row@ =~= target[y as int]);
        let ghost old_rows = rows@;
        rows.push(row);
        assert(cell_rows(rows@) =~= cell_rows(old_rows).push(rows@[y as int]@));
        y += 1;
    }
    assert(cell_rows(rows@) =~= target);
    rows
}

/// The `th` rows of `tw` cells of a blank canvas with `grid` (`gh` rows of
/// `gw` cells) drawn at column `ox`, row `oy`.
pub open spec fn placed(grid: Seq<Seq<AsciiCell>>, gw: int, gh: int, ox: int, oy: int, tw: nat, th: nat) -> Seq<Seq<AsciiCell>> {
    Seq::new(th, |y: int| Seq::new(tw, |x: int|
        if oy <= y < oy + gh && ox <= x < ox + gw {
            grid[y - oy][x - ox]
        } else {
            blank_cell()
        }))
}

/// The logo scaled to `fit` (its size once fitted into the area, which
/// keeps its aspect ratio) and centred on a blank `target_w` by `target_h`
/// canvas; a logo or area without cells gives the blank canvas.
pub fn scale_ascii_logo(logo: &AsciiLogo, target_w: usize, target_h: usize, fit: (usize, usize)) -> (r: Vec<Vec<AsciiCell>>)
    requires
        logo.well_formed(),
        fit.0 <= target_w,
        fit.1 <= target_h,
    ensures
        cell_rows(r@) == (if logo.width == 0 || logo.height == 0 || target_w == 0 || target_h == 0 {
            placed(Seq::empty(), 0, 0, 0, 0, target_w as nat, target_h as nat)
        } else {
            placed(
                scaled(cell_rows(logo.cells@), logo.width as int, logo.height as int, fit.0 as nat, fit.1 as nat),
                fit.0 as int,
                fit.1 as int,
                (target_w - fit.0) / 2,
                (target_h - fit.1) / 2,
                target_w as nat,
                target_h as nat,
            )
        }),
{
    let empty = logo.width == 0 || logo.height == 0 || target_w == 0 || target_h == 0;
    let (sw, sh) = fit;
    let ghost grid = if empty {
        Seq::<Seq<AsciiCell>>::empty()
    } else {
        scaled(cell_rows(logo.cells@), logo.width as int, logo.height as int, sw as nat, sh as nat)
    };
    let gw: usize = if empty { 0 } else { sw };
    let gh: usize = if empty { 0 } else { sh };
    let ox: usize = if empty { 0 } else { (target_w - sw) / 2 };
    let oy: usize = if empty { 0 } else { (target_h - sh) / 2 };
    let sc: Vec<Vec<AsciiCell>> = if empty {
        Vec::new()
    } else {
        scale_ascii_cells(&logo.cells, logo.width, logo.height, sw, sh)
    };
    assert(empty ==> cell_rows(sc@) =~= grid);
    assert(cell_rows(sc@).len() == sc@.len());
    assert forall|k: int| 0 <= k < gh implies #[trigger] sc@[k]@.len() == gw by {
        assert(sc@[k]@ == cell_rows(sc@)[k]);
    }
    let ghost target = placed(grid, gw as int, gh as int, ox as int, oy as int, target_w as nat, target_h as nat);
    let mut canvas: Vec<Vec<AsciiCell>> = Vec::new();
    let mut y: usize = 0;
    while y < target_h
        invariant
            y <= target_h,
            gw <= target_w,
            gh <= target_h,
            ox + gw <= target_w,
            oy + gh <= target_h,
            cell_rows(sc@) == grid,
            sc.len() == gh,
            forall|k: int| 0 <= k < gh ==> #[trigger] sc@[k]@.len() == gw,
            target == placed(grid, gw as int, gh as int, ox as int, oy as int, target_w as nat, target_h as nat),
            canvas.len() == y,
            forall|k: int| 0 <= k < y ==> #[trigger] cell_rows(canvas@)[k] == target[k],
        decreases target_h - y,
    {
        let mut row: Vec<AsciiCell> = Vec::new();
        let mut x: usize = 0;
        while x < target_w
            invariant
                x <= target_w,
                y < target_h,
                ox + gw <= target_w,
                oy + gh <= target_h,
                cell_rows(sc@) == grid,
                sc.len() == gh,
                forall|k: int| 0 <= k < gh ==> #[trigger] sc@[k]@.len() == gw,
                target == placed(grid, gw as int, gh as int, ox as int, oy as int, target_w as nat, target_h as nat),
                row.len() == x,
                forall|k: int| 0 <= k < x ==> #[trigger] row@[k] == target[y as int][k],
            decreases target_w - x,
        {
            if oy <= y && y < oy + gh && ox <= x && x < ox + gw {
                let c = sc[y - oy][x - ox];
                assert(grid[y - oy] == sc@[y - oy]@);
                row.push(c);
            } else {
                row.push(AsciiCell::blank());
            }
            x += 1;
        }
        assert(row@ =~= target[y as int]);
        let ghost old_canvas = canvas@;
        canvas.push(row);
        assert(cell_rows(canvas@) =~= cell_rows(old_canvas).push(canvas@[y as int]@));
        y += 1;
    }
    assert(cell_rows(canvas@) =~= target);
    canvas
}


/// The kinds of logo.
#[derive(Clone, Copy, Debug, PartialEq, Eq)]
pub enum LogoMode {
    Ascii,
    Svg,
}

/// The logo kind to draw: the preferred one when that logo was found,
/// else the other one when that was found, else none.
pub open spec fn logo_mode_for(has_ascii: bool, has_svg: bool, preferred: LogoMode) -> Option<LogoMode> {
    match preferred {
        LogoMode::Ascii => if has_ascii {
            Some(LogoMode::Ascii)
        } else if has_svg {
            Some(LogoMode::Svg)
        } else {
            None
        },
        LogoMode::Svg => if has_svg {
            Some(LogoMode::Svg)
        } else if has_ascii {
            Some(LogoMode::Ascii)
        } else {
            None
        },
    }
}

/// The logo kind to draw.
pub fn select_logo_mode(has_ascii: bool, has_svg: bool, preferred: LogoMode) -> (r: Option<LogoMode>)
    ensures
        r == logo_mode_for(has_ascii, has_svg, preferred),
{
    match preferred {
        LogoMode::Ascii => if has_ascii {
            Some(LogoMode::Ascii)
        } else if has_svg {
            Some(LogoMode::Svg)
        } else {
            None
        },
        LogoMode::Svg => if has_svg {
            Some(LogoMode::Svg)
        } else if has_ascii {
            Some(LogoMode::Ascii)
        } else {
            None
        },
    }
}

/// The index of the last `.` of `s`.
pub open spec fn last_dot(s: Seq<char>) -> Option<nat>
    decreases s.len(),
{
    if s.len() == 0 {
        None
    } else if s.last() == '.' {
        Some((s.len() - 1) as nat)
    } else {
        last_dot(s.drop_last())
    }
}

/// The extension of a file name (`Path::extension`): what follows its
/// last `.`, unless there is none or the only one starts the name.
pub open spec fn file_ext(name: Seq<char>) -> Option<Seq<char>> {
    match last_dot(name) {
        Some(j) => if j == 0 {
            None
        } else {
            Some(name.skip(j + 1int))
        },
        None => None,
    }
}

/// A file that can hold the logo: not hidden, and with the extension asked
/// for (in any case) when one is asked for.
pub open spec fn logo_file(name: Seq<char>, extension: Option<Seq<char>>) -> bool {
    &&& !(name.len() > 0 && name[0] == '.')
    &&& match extension {
        Some(e) => match file_ext(name) {
            Some(x) => eq_ignore_case(x, e),
            None => false,
        },
        None => true,
    }
}

/// The extension of a file name.
fn file_ext_chars(name: &Vec<char>) -> (r: Option<Vec<char>>)
    ensures
        match file_ext(name@) {
            Some(x) => r matches Some(v) && v@ == x,
            None => r is None,
        },
{
    let mut j: usize = name.len();
    assert(name@.take(name.len() as int) =~= name@);
    while j > 0 && name[j - 1] != '.'
        invariant
            j <= name.len(),
            last_dot(name@) == last_dot(name@.take(j as int)),
        decreases j,
    {
        assert(name@.take(j as int).drop_last() =~= name@.take(j - 1));
        j -= 1;
    }
    if j == 0 {
        return None;
    }
    assert(name@.take(j as int).last() == '.');
    if j == 1 {
        return None;
    }
    Some(slice_of(name, j, name.len()))
}

/// Whether a file can hold the logo.
fn is_logo_file(name: &Vec<char>, extension: &Option<Vec<char>>) -> (r: bool)
    ensures
        r == logo_file(
            name@,
            match extension {
                Some(e) => Some(e@),
                None => None,
            },
        ),
{
    if name.len() > 0 && name[0] == '.' {
        return false;
    }
    match extension {
        Some(e) => match file_ext_chars(name) {
            Some(x) => eq_chars(&lower_chars(&x), &lower_chars(e)),
            None => false,
        },
        None => true,
    }
}

/// The file a logo is read from, among the files of its directory: the
/// first by name (in `str` order) of those that can hold it. The result is
/// the index of that name.
pub fn first_file(names: &Vec<String>, extension: Option<&str>) -> (r: Option<usize>)
    ensures
        ({
            let ns = names@.map_values(|n: String| n@);
            let ext = match extension {
                Some(e) => Some(e@),
                None => None,
            };
            match r {
                None => forall|k: int| 0 <= k < ns.len() ==> !logo_file(#[trigger] ns[k], ext),
                Some(i) => {
                    &&& i < ns.len()
                    &&& logo_file(ns[i as int], ext)
                    &&& forall|k: int|
                        0 <= k < ns.len() && logo_file(#[trigger] ns[k], ext) ==> !seq_less(ns[k], ns[i as int])
                    &&& forall|k: int|
                        0 <= k < i && logo_file(#[trigger] ns[k], ext) ==> seq_less(ns[i as int], ns[k])
                },
            }
        }),
{
    let ghost ns = names@.map_values(|n: String| n@);
    let ext: Option<Vec<char>> = match extension {
        Some(e) => Some(chars_of(e)),
        None => None,
    };
    let ghost ev = match extension {
        Some(e) => Some(e@),
        None => None,
    };
    assert(ev == match ext {
        Some(e) => Some(e@),
        None => None,
    });
    let mut best: Option<usize> = None;
    let mut i: usize = 0;
    while i < names.len()
        invariant
            i <= names.len(),
            ns == names@.map_values(|n: String| n@),
            ev == match ext {
                Some(e) => Some(e@),
                None => None,
            },
            match best {
                None => forall|k: int| 0 <= k < i ==> !logo_file(#[trigger] ns[k], ev),
                Some(b) => {
                    &&& b < i
                    &&& logo_file(ns[b as int], ev)
                    &&& forall|k: int|
                        0 <= k < i && logo_file(#[trigger] ns[k], ev) ==> !seq_less(ns[k], ns[b as int])
                    &&& forall|k: int|
                        0 <= k < b && logo_file(#[trigger] ns[k], ev) ==> seq_less(ns[b as int], ns[k])
                },
            },
        decreases names.len() - i,
    {
        let name = chars_of(names[i].as_str());
        assert(name@ == ns[i as int]);
        let keep = is_logo_file(&name, &ext);
        assert(keep == logo_file(ns[i as int], ev));
        if keep {
            match best {
                None => {
                    proof {
                        crate::proc_tree::lemma_seq_less_irreflexive(ns[i as int]);
                    }
                    best = Some(i);
                },
                Some(b) => {
                    let cur = chars_of(names[b].as_str());
                    assert(cur@ == ns[b as int]);
                    if str_less(&name, &cur) {
                        proof {
                            assert forall|k: int| 0 <= k < i + 1 && logo_file(#[trigger] ns[k], ev) implies !seq_less(ns[k], ns[i as int]) by {
                                crate::proc_tree::lemma_seq_less_total(ns[k], ns[i as int]);
                                if k < i {
                                    crate::proc_tree::lemma_seq_less_total(ns[k], ns[b as int]);
                                    if seq_less(ns[k], ns[i as int]) {
                                        crate::proc_tree::lemma_seq_less_transitive(ns[k], ns[i as int], ns[b as int]);
                                    }
                                } else {
                                    crate::proc_tree::lemma_seq_less_irreflexive(ns[i as int]);
                                }
                            }
                            assert forall|k: int| 0 <= k < i && logo_file(#[trigger] ns[k], ev) implies seq_less(ns[i as int], ns[k]) by {
                                crate::proc_tree::lemma_seq_less_total(ns[k], ns[b as int]);
                                if ns[k] == ns[b as int] {
                                } else if k < b {
                                    crate::proc_tree::lemma_seq_less_transitive(ns[i as int], ns[b as int], ns[k]);
                                } else {
                                    assert(!seq_less(ns[k], ns[b as int]));
                                    crate::proc_tree::lemma_seq_less_transitive(ns[i as int], ns[b as int], ns[k]);
                                }
                            }
                        }
                        best = Some(i);
                    } else {
                        proof {
                            crate::proc_tree::lemma_seq_less_total(ns[i as int], ns[b as int]);
                        }
                    }
                },
            }
        }
        i += 1;
    }
    best
}


/// The colour markers of the logo format: `$$` is a dollar sign in the
/// current colour, `$0` draws what follows in no colour, `$` and a digit
/// `d` from 1 to 9 draw it in palette index `d`, and other characters keep
/// the current colour.
pub proof fn lemma_logo_markers(s: Seq<char>, color: Option<u8>, d: char, c: char)
    requires
        is_digit(d),
        c != '$',
    ensures
        row_cells(seq!['$', '$'] + s, color) == seq![cell('$', color)] + row_cells(s, color),
        row_cells(seq!['$', d] + s, color) == row_cells(s, marker_color(d)),
        row_cells(seq!['$', '0'] + s, color) == row_cells(s, None),
        row_cells(seq![c] + s, color) == seq![cell(c, color)] + row_cells(s, color),
{
    assert((seq!['$', '$'] + s).skip(2) =~= s);
    assert((seq!['$', d] + s).skip(2) =~= s);
    assert((seq!['$', '0'] + s).skip(2) =~= s);
    assert((seq![c] + s).skip(1) =~= s);
}

} // verus!
