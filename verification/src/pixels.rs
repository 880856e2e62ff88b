//! SVG logos in the terminal: a rendered RGBA image, stored row by row, is
//! cropped to its visible part, fitted into the area, averaged down from
//! the supersampled size, and drawn two pixel rows per character cell with
//! half-block glyphs.
use vstd::prelude::*;
use crate::logo::{sat_mul, nearest, lemma_nearest_in_range, saturating_mul};

verus! {

/// The alpha above which a pixel counts as visible.
pub const ALPHA_THRESHOLD: u8 = 10;

/// The largest width or height, in pixels, an SVG logo is rendered at.
pub const MAX_SVG_DIM: u32 = 2048;

/// A pixel with straight (not premultiplied) alpha.
#[derive(Clone, Copy, Debug, PartialEq, Eq)]
pub struct RgbaColor {
    pub r: u8,
    pub g: u8,
    pub b: u8,
    pub a: u8,
}

/// An opaque colour.
#[derive(Clone, Copy, Debug, PartialEq, Eq)]
pub struct RgbColor {
    pub r: u8,
    pub g: u8,
    pub b: u8,
}

/// One terminal cell of a drawn logo: a glyph with optional foreground and
/// background colours.
#[derive(Clone, Copy, Debug, PartialEq, Eq)]
pub struct LogoCell {
    pub ch: char,
    pub fg: Option<RgbColor>,
    pub bg: Option<RgbColor>,
}

/// The fully transparent black pixel.
pub open spec fn clear() -> RgbaColor {
    RgbaColor { r: 0, g: 0, b: 0, a: 0 }
}

impl Default for RgbaColor {
    fn default() -> (c: RgbaColor)
        ensures
            c == clear(),
    {
        RgbaColor { r: 0, g: 0, b: 0, a: 0 }
    }
}

/// A space with no colours.
pub open spec fn blank_logo_cell() -> LogoCell {
    LogoCell { ch: ' ', fg: None, bg: None }
}

impl LogoCell {
    /// A space with no colours.
    pub fn blank() -> (c: LogoCell)
        ensures
            c == blank_logo_cell(),
    {
        LogoCell { ch: ' ', fg: None, bg: None }
    }
}

/// A pixel that is drawn: its alpha is above the threshold.
pub open spec fn visible(p: RgbaColor) -> bool {
    p.a > ALPHA_THRESHOLD
}

/// The colour of a pixel without its alpha.
pub open spec fn rgb_of(p: RgbaColor) -> RgbColor {
    RgbColor { r: p.r, g: p.g, b: p.b }
}

/// The colour of a pixel without its alpha.
pub fn rgba_to_rgb(color: RgbaColor) -> (c: RgbColor)
    ensures
        c == rgb_of(color),
{
    RgbColor { r: color.r, g: color.g, b: color.b }
}

/// The cell that shows pixel `top` above pixel `bottom`: blank when
/// neither is visible, an upper half block in the top colour or a lower
/// half block in the bottom colour when one is, and an upper half block on
/// the bottom colour when both are.
pub open spec fn cell_for(top: RgbaColor, bottom: RgbaColor) -> LogoCell {
    if !visible(top) && !visible(bottom) {
        blank_logo_cell()
    } else if !visible(bottom) {
        LogoCell { ch: '\u{2580}', fg: Some(rgb_of(top)), bg: None }
    } else if !visible(top) {
        LogoCell { ch: '\u{2584}', fg: Some(rgb_of(bottom)), bg: None }
    } else {
        LogoCell { ch: '\u{2580}', fg: Some(rgb_of(top)), bg: Some(rgb_of(bottom)) }
    }
}

/// The cell that shows pixel `top` above pixel `bottom`.
pub fn svg_cell_from_pixels(top: RgbaColor, bottom: RgbaColor) -> (c: LogoCell)
    ensures
        c == cell_for(top, bottom),
{
    let top_visible = top.a > ALPHA_THRESHOLD;
    let bottom_visible = bottom.a > ALPHA_THRESHOLD;
    if !top_visible && !bottom_visible {
        LogoCell::blank()
    } else if !bottom_visible {
        LogoCell { ch: '\u{2580}', fg: Some(rgba_to_rgb(top)), bg: None }
    } else if !top_visible {
        LogoCell { ch: '\u{2584}', fg: Some(rgba_to_rgb(bottom)), bg: None }
    } else {
        LogoCell { ch: '\u{2580}', fg: Some(rgba_to_rgb(top)), bg: Some(rgba_to_rgb(bottom)) }
    }
}

/// The larger of `a` and 1.
pub open spec fn at_least_one(a: int) -> int {
    if a > 1 {
        a
    } else {
        1
    }
}

/// The smaller of two integers.
pub open spec fn min2(a: int, b: int) -> int {
    if a < b {
        a
    } else {
        b
    }
}

/// The supersampling factor used for a `target_w` by `target_h` pixel
/// target: the desired one, reduced so that neither side exceeds
/// `MAX_SVG_DIM` where that is possible, and at least 1.
pub open spec fn svg_scale(target_w: int, target_h: int, desired: int) -> int {
    let max_scale = at_least_one(
        min2((MAX_SVG_DIM as int) / at_least_one(target_w), (MAX_SVG_DIM as int) / at_least_one(target_h)),
    );
    at_least_one(min2(desired, max_scale))
}

/// The supersampling factor for a `target_w` by `target_h` pixel target.
pub fn effective_svg_scale(target_w: u32, target_h: u32, desired_scale: u32) -> (s: u32)
    ensures
        s == svg_scale(target_w as int, target_h as int, desired_scale as int),
        1 <= s,
{
    let tw: u32 = if target_w > 1 { target_w } else { 1 };
    let th: u32 = if target_h > 1 { target_h } else { 1 };
    let max_scale_w = MAX_SVG_DIM / tw;
    let max_scale_h = MAX_SVG_DIM / th;
    let m = if max_scale_w < max_scale_h { max_scale_w } else { max_scale_h };
    let max_scale = if m > 1 { m } else { 1 };
    let s = if desired_scale < max_scale { desired_scale } else { max_scale };
    if s > 1 { s } else { 1 }
}

/// The pixel at row `y`, column `x` of an image `w` pixels wide stored row
/// by row.
pub open spec fn at(v: Seq<RgbaColor>, w: int, y: int, x: int) -> RgbaColor {
    v[y * w + x]
}

/// The row-major index of row `y`, column `x` lies before the end of a
/// `w` by `h` image.
pub proof fn lemma_cell_index(y: int, x: int, w: int, h: int)
    requires
        0 <= y < h,
        0 <= x < w,
    ensures
        0 <= y * w,
        0 <= y * w + x < h * w,
        y * w + w <= h * w,
{
    assert(0 <= y * w) by (nonlinear_arith)
        requires
            0 <= y,
            0 <= w,
    ;
    assert(y * w + w <= h * w) by (nonlinear_arith)
        requires
            0 <= y < h,
            0 <= w,
    ;
}

/// The pixel at row `y`, column `x` of a `w` by `h` image is visible.
pub open spec fn vis_at(v: Seq<RgbaColor>, w: int, h: int, y: int, x: int) -> bool {
    0 <= y < h && 0 <= x < w && visible(at(v, w, y, x))
}

/// Rows `top..=bottom` and columns `left..=right` are the smallest box that
/// holds every visible pixel of the `w` by `h` image `v`.
pub open spec fn vis_box(
    v: Seq<RgbaColor>,
    w: int,
    h: int,
    top: int,
    bottom: int,
    left: int,
    right: int,
) -> bool {
    &&& forall|y: int, x: int|
        #[trigger] vis_at(v, w, h, y, x) ==> top <= y <= bottom && left <= x <= right
    &&& exists|x: int| #[trigger] vis_at(v, w, h, top, x)
    &&& exists|x: int| #[trigger] vis_at(v, w, h, bottom, x)
    &&& exists|y: int| #[trigger] vis_at(v, w, h, y, left)
    &&& exists|y: int| #[trigger] vis_at(v, w, h, y, right)
}

/// Where the visible pixels of row `y` start and end.
fn vis_span(pixels: &Vec<RgbaColor>, w: usize, h: usize, y: usize) -> (r: Option<(usize, usize)>)
    requires
        y < h,
        w * h <= pixels.len(),
    ensures
        match r {
            None => forall|x: int| !#[trigger] vis_at(pixels@, w as int, h as int, y as int, x),
            Some((a, b)) => {
                &&& a <= b < w
                &&& vis_at(pixels@, w as int, h as int, y as int, a as int)
                &&& vis_at(pixels@, w as int, h as int, y as int, b as int)
                &&& forall|x: int|
                    #[trigger] vis_at(pixels@, w as int, h as int, y as int, x) ==> a <= x <= b
            },
        },
{
    proof {
        lemma_cell_index(y as int, 0, w as int + 1, h as int);
    }
    assert(y * w + w <= h * w) by (nonlinear_arith)
        requires
            y < h,
    ;
    let row_start = y * w;
    let mut first: Option<usize> = None;
    let mut last: usize = 0;
    let mut x: usize = 0;
    while x < w
        invariant
            x <= w,
            y < h,
            w * h <= pixels.len(),
            row_start == y * w,
            row_start + w <= h * w,
            match first {
                None => forall|k: int|
                    k < x ==> !#[trigger] vis_at(pixels@, w as int, h as int, y as int, k),
                Some(a) => {
                    &&& a <= last < x
                    &&& vis_at(pixels@, w as int, h as int, y as int, a as int)
                    &&& vis_at(pixels@, w as int, h as int, y as int, last as int)
                    &&& forall|k: int|
                        k < x && #[trigger] vis_at(pixels@, w as int, h as int, y as int, k) ==> a
                            <= k <= last
                },
            },
        decreases w - x,
    {
        assert(w * h == h * w) by (nonlinear_arith);
        if pixels[row_start + x].a > ALPHA_THRESHOLD {
            if first.is_none() {
                first = Some(x);
            }
            last = x;
        }
        x += 1;
    }
    match first {
        None => None,
        Some(a) => Some((a, last)),
    }
}

/// Cuts a `width` by `height` image, stored row by row, to the smallest box
/// around its visible pixels: the box's width and height and its pixels
/// row by row. An image with fewer pixels than its size claims, or with no
/// visible pixel, gives `None`.
pub fn crop_pixels(pixels: &Vec<RgbaColor>, width: u32, height: u32) -> (r: Option<(u32, u32, Vec<RgbaColor>)>)
    requires
        pixels.len() < usize::MAX,
    ensures
        match r {
            None => pixels.len() < sat_mul(width as int, height as int, usize::MAX as int)
                || forall|y: int, x: int| !#[trigger] vis_at(pixels@, width as int, height as int, y, x),
            Some((cw, ch, c)) => {
                &&& width * height <= pixels.len()
                &&& c.len() == cw * ch
                &&& exists|t: int, b: int, l: int, rt: int|
                    {
                        &&& #[trigger] vis_box(pixels@, width as int, height as int, t, b, l, rt)
                        &&& cw == rt - l + 1
                        &&& ch == b - t + 1
                        &&& forall|yy: int, xx: int|
                            0 <= yy < ch && 0 <= xx < cw ==> #[trigger] at(c@, cw as int, yy, xx)
                                == at(pixels@, width as int, t + yy, l + xx)
                    }
            },
        },
{
    let w = width as usize;
    let h = height as usize;
    let need = saturating_mul(w, h);
    if pixels.len() < need {
        return None;
    }
    assert(w * h <= pixels.len());
    let ghost v = pixels@;
    let mut found = false;
    let mut top: usize = 0;
    let mut bottom: usize = 0;
    let mut left: usize = 0;
    let mut right: usize = 0;
    let ghost mut wt: int = 0;
    let ghost mut wb: int = 0;
    let ghost mut wl: int = 0;
    let ghost mut wr: int = 0;
    let mut y: usize = 0;
    while y < h
        invariant
            y <= h,
            w * h <= pixels.len(),
            v == pixels@,
            !found ==> forall|yy: int, x: int|
                yy < y ==> !#[trigger] vis_at(v, w as int, h as int, yy, x),
            found ==> {
                &&& top <= bottom < y
                &&& vis_at(v, w as int, h as int, top as int, wt)
                &&& vis_at(v, w as int, h as int, bottom as int, wb)
                &&& vis_at(v, w as int, h as int, wl, left as int)
                &&& vis_at(v, w as int, h as int, wr, right as int)
                &&& forall|yy: int, x: int|
                    yy < y && #[trigger] vis_at(v, w as int, h as int, yy, x) ==> top <= yy
                        <= bottom && left <= x <= right
            },
        decreases h - y,
    {
        match vis_span(pixels, w, h, y) {
            None => {},
            Some((a, b)) => {
                if !found {
                    found = true;
                    top = y;
                    left = a;
                    right = b;
                    proof {
                        wt = a as int;
                        wl = y as int;
                        wr = y as int;
                    }
                } else {
                    if a < left {
                        left = a;
                        proof {
                            wl = y as int;
                        }
                    }
                    if b > right {
                        right = b;
                        proof {
                            wr = y as int;
                        }
                    }
                }
                bottom = y;
                proof {
                    wb = a as int;
                }
            },
        }
        y += 1;
    }
    if !found {
        return None;
    }
    assert(right < w && left <= right) by {
        assert(vis_at(v, w as int, h as int, wr, right as int));
        assert(vis_at(v, w as int, h as int, wl, left as int));
    }
    let cw = right - left + 1;
    let ch = bottom - top + 1;
    let mut out: Vec<RgbaColor> = Vec::new();
    let mut yy: usize = top;
    while yy <= bottom
        invariant
            top <= yy <= bottom + 1,
            bottom < h,
            left <= right < w,
            cw == right - left + 1,
            w * h <= pixels.len(),
            v == pixels@,
            out.len() == (yy - top) * cw,
            forall|a: int, b: int|
                0 <= a < yy - top && 0 <= b < cw ==> #[trigger] at(out@, cw as int, a, b) == at(
                    v,
                    w as int,
                    top + a,
                    left + b,
                ),
        decreases bottom + 1 - yy,
    {
        proof {
            lemma_cell_index(yy as int, right as int, w as int, h as int);
        }
        let row_start = yy * w;
        let mut x: usize = left;
        while x <= right
            invariant
                top <= yy <= bottom < h,
                left <= x <= right + 1,
                right < w,
                cw == right - left + 1,
                row_start == yy * w,
                row_start + right < h * w,
                w * h <= pixels.len(),
                v == pixels@,
                out.len() == (yy - top) * cw + (x - left),
                forall|a: int, b: int|
                    0 <= a < yy - top && 0 <= b < cw ==> #[trigger] at(out@, cw as int, a, b) == at(
                        v,
                        w as int,
                        top + a,
                        left + b,
                    ),
                forall|b: int|
                    0 <= b < x - left ==> #[trigger] at(out@, cw as int, yy - top, b) == at(
                        v,
                        w as int,
                        yy as int,
                        left + b,
                    ),
            decreases right + 1 - x,
        {
            assert(w * h == h * w) by (nonlinear_arith);
            let p = pixels[row_start + x];
            let ghost before = out@;
            let ghost n = out.len() as int;
            out.push(p);
            assert forall|a: int, b: int|
                0 <= a < yy - top && 0 <= b < cw implies #[trigger] at(out@, cw as int, a, b) == at(
                    v,
                    w as int,
                    top + a,
                    left + b,
                ) by {
                lemma_cell_index(a, b, cw as int, yy - top);
                assert(at(out@, cw as int, a, b) == at(before, cw as int, a, b));
            }
            assert forall|b: int|
                0 <= b < x + 1 - left implies #[trigger] at(out@, cw as int, yy - top, b) == at(
                    v,
                    w as int,
                    yy as int,
                    left + b,
                ) by {
                if b < x - left {
                    assert(at(out@, cw as int, yy - top, b) == at(before, cw as int, yy - top, b));
                } else {
                    assert((yy - top) * cw + b == n);
                }
            }
            x += 1;
        }
        assert forall|a: int, b: int|
            0 <= a < yy + 1 - top && 0 <= b < cw implies #[trigger] at(out@, cw as int, a, b) == at(
                v,
                w as int,
                top + a,
                left + b,
            ) by {
            if a == yy - top {
                assert(at(out@, cw as int, yy - top, b) == at(v, w as int, yy as int, left + b));
            }
        }
        assert((yy - top) * cw + cw == (yy + 1 - top) * cw) by (nonlinear_arith);
        yy += 1;
    }
    assert(vis_box(v, w as int, h as int, top as int, bottom as int, left as int, right as int));
    assert(out.len() == cw * ch) by (nonlinear_arith)
        requires
            out.len() == (yy - top) * cw,
            yy - top == ch,
    ;
    let ghost cw32 = (cw as u32) as int;
    let ghost ch32 = (ch as u32) as int;
    assert(cw32 == cw && ch32 == ch);
    assert(forall|a: int, b: int|
        0 <= a < ch32 && 0 <= b < cw32 ==> #[trigger] at(out@, cw32, a, b) == at(
            pixels@,
            width as int,
            top + a,
            left + b,
        ));
    Some((cw as u32, ch as u32, out))
}


/// `u32::saturating_mul`.
fn saturating_mul_u32(a: u32, b: u32) -> (r: u32)
    ensures
        r == sat_mul(a as int, b as int, u32::MAX as int),
{
    match a.checked_mul(b) {
        Some(p) => p,
        None => u32::MAX,
    }
}

/// Nearest-neighbour scaling of a `src_w` by `src_h` image to `dst_w` by
/// `dst_h`; empty when either size has no pixels.
pub fn scale_pixels_nearest(
    src: &Vec<RgbaColor>,
    src_w: u32,
    src_h: u32,
    dst_w: u32,
    dst_h: u32,
) -> (r: Vec<RgbaColor>)
    requires
        src_w * src_h <= src.len(),
        src_w * src_h <= u32::MAX,
        dst_w * dst_h <= u32::MAX,
    ensures
        src_w == 0 || src_h == 0 || dst_w == 0 || dst_h == 0 ==> r.len() == 0,
        !(src_w == 0 || src_h == 0 || dst_w == 0 || dst_h == 0) ==> {
            &&& r.len() == dst_w * dst_h
            &&& forall|y: int, x: int|
                0 <= y < dst_h && 0 <= x < dst_w ==> #[trigger] at(r@, dst_w as int, y, x) == at(
                    src@,
                    src_w as int,
                    nearest(y, src_h as int, dst_h as int, u32::MAX as int),
                    nearest(x, src_w as int, dst_w as int, u32::MAX as int),
                )
        },
{
    if src_w == 0 || src_h == 0 || dst_w == 0 || dst_h == 0 {
        return Vec::new();
    }
    let mut out: Vec<RgbaColor> = Vec::new();
    let mut y: u32 = 0;
    while y < dst_h
        invariant
            y <= dst_h,
            1 <= src_w,
            1 <= src_h,
            1 <= dst_w,
            src_w * src_h <= src.len(),
            src_w * src_h <= u32::MAX,
            out.len() == y * dst_w,
            forall|a: int, b: int|
                0 <= a < y && 0 <= b < dst_w ==> #[trigger] at(out@, dst_w as int, a, b) == at(
                    src@,
                    src_w as int,
                    nearest(a, src_h as int, dst_h as int, u32::MAX as int),
                    nearest(b, src_w as int, dst_w as int, u32::MAX as int),
                ),
        decreases dst_h - y,
    {
        let src_y = saturating_mul_u32(y, src_h) / dst_h;
        proof {
            lemma_nearest_in_range(y as int, src_h as int, dst_h as int, u32::MAX as int);
        }
        let ghost ny = nearest(y as int, src_h as int, dst_h as int, u32::MAX as int);
        assert(src_y == ny);
        let mut x: u32 = 0;
        while x < dst_w
            invariant
                x <= dst_w,
                y < dst_h,
                src_y < src_h,
                1 <= src_w,
                src_y == nearest(y as int, src_h as int, dst_h as int, u32::MAX as int),
                src_w * src_h <= src.len(),
                src_w * src_h <= u32::MAX,
                out.len() == y * dst_w + x,
                forall|a: int, b: int|
                    0 <= a < y && 0 <= b < dst_w ==> #[trigger] at(out@, dst_w as int, a, b) == at(
                        src@,
                        src_w as int,
                        nearest(a, src_h as int, dst_h as int, u32::MAX as int),
                        nearest(b, src_w as int, dst_w as int, u32::MAX as int),
                    ),
                forall|b: int|
                    0 <= b < x ==> #[trigger] at(out@, dst_w as int, y as int, b) == at(
                        src@,
                        src_w as int,
                        src_y as int,
                        nearest(b, src_w as int, dst_w as int, u32::MAX as int),
                    ),
            decreases dst_w - x,
        {
            let src_x = saturating_mul_u32(x, src_w) / dst_w;
            proof {
                lemma_nearest_in_range(x as int, src_w as int, dst_w as int, u32::MAX as int);
                lemma_cell_index(src_y as int, src_x as int, src_w as int, src_h as int);
            }
            assert(src_x == nearest(x as int, src_w as int, dst_w as int, u32::MAX as int));
            assert(src_h * src_w == src_w * src_h) by (nonlinear_arith);
            let p = src[(src_y * src_w + src_x) as usize];
            let ghost before = out@;
            let ghost n = out.len() as int;
            out.push(p);
            assert forall|a: int, b: int|
                0 <= a < y && 0 <= b < dst_w implies #[trigger] at(out@, dst_w as int, a, b) == at(
                    src@,
                    src_w as int,
                    nearest(a, src_h as int, dst_h as int, u32::MAX as int),
                    nearest(b, src_w as int, dst_w as int, u32::MAX as int),
                ) by {
                lemma_cell_index(a, b, dst_w as int, y as int);
                assert(at(out@, dst_w as int, a, b) == at(before, dst_w as int, a, b));
            }
            assert forall|b: int|
                0 <= b < x + 1 implies #[trigger] at(out@, dst_w as int, y as int, b) == at(
                    src@,
                    src_w as int,
                    src_y as int,
                    nearest(b, src_w as int, dst_w as int, u32::MAX as int),
                ) by {
                if b < x {
                    assert(at(out@, dst_w as int, y as int, b) == at(before, dst_w as int, y as int, b));
                } else {
                    assert(y * dst_w + b == n);
                }
            }
            x += 1;
        }
        assert forall|a: int, b: int|
            0 <= a < y + 1 && 0 <= b < dst_w implies #[trigger] at(out@, dst_w as int, a, b) == at(
                src@,
                src_w as int,
                nearest(a, src_h as int, dst_h as int, u32::MAX as int),
                nearest(b, src_w as int, dst_w as int, u32::MAX as int),
            ) by {
            if a == y {
                assert(at(out@, dst_w as int, y as int, b) == at(
                    src@,
                    src_w as int,
                    src_y as int,
                    nearest(b, src_w as int, dst_w as int, u32::MAX as int),
                ));
            }
        }
        assert(y * dst_w + dst_w == (y + 1) * dst_w) by (nonlinear_arith);
        y += 1;
    }
    assert(dst_h * dst_w == dst_w * dst_h) by (nonlinear_arith);
    out
}


/// Pixel `k`, counting row by row, of the `s` by `s` block whose top-left
/// corner is at column `x * s`, row `y * s` of an image `w` pixels wide.
pub open spec fn block_px(v: Seq<RgbaColor>, w: int, x: int, y: int, s: int, k: int) -> RgbaColor {
    at(v, w, y * s + k / s, x * s + k % s)
}

/// The sum of the alphas of the first `n` pixels of a block.
pub open spec fn alpha_sum(v: Seq<RgbaColor>, w: int, x: int, y: int, s: int, n: int) -> int
    decreases n,
{
    if n <= 0 {
        0
    } else {
        alpha_sum(v, w, x, y, s, n - 1) + block_px(v, w, x, y, s, n - 1).a
    }
}

/// Colour channel `c` (0 red, 1 green, 2 blue) of a pixel.
pub open spec fn channel(p: RgbaColor, c: int) -> int {
    if c == 0 {
        p.r as int
    } else if c == 1 {
        p.g as int
    } else {
        p.b as int
    }
}

/// The sum, over the first `n` pixels of a block, of colour channel `c`
/// weighted by alpha.
pub open spec fn weighted_sum(v: Seq<RgbaColor>, w: int, x: int, y: int, s: int, n: int, c: int) -> int
    decreases n,
{
    if n <= 0 {
        0
    } else {
        let p = block_px(v, w, x, y, s, n - 1);
        weighted_sum(v, w, x, y, s, n - 1, c) + channel(p, c) * p.a
    }
}

/// The average of an `s` by `s` block: its colour is the alpha-weighted
/// mean of the pixels' colours, its alpha the mean alpha (both rounded
/// down); a block with no alpha at all is the clear pixel.
pub open spec fn box_average(v: Seq<RgbaColor>, w: int, x: int, y: int, s: int) -> RgbaColor {
    let n = s * s;
    let sa = alpha_sum(v, w, x, y, s, n);
    if sa == 0 {
        clear()
    } else {
        RgbaColor {
            r: (weighted_sum(v, w, x, y, s, n, 0) / sa) as u8,
            g: (weighted_sum(v, w, x, y, s, n, 1) / sa) as u8,
            b: (weighted_sum(v, w, x, y, s, n, 2) / sa) as u8,
            a: (sa / n) as u8,
        }
    }
}

proof fn lemma_block_position(k: int, s: int, x: int, y: int, w: int, h: int)
    requires
        0 <= k < s * s,
        1 <= s,
        0 <= x < w / s,
        0 <= y < h / s,
        0 <= w,
        0 <= h,
    ensures
        0 <= k / s < s,
        0 <= k % s < s,
        0 <= x * s + k % s < w,
        0 <= y * s + k / s < h,
{
    assert(0 <= k / s < s) by (nonlinear_arith)
        requires
            0 <= k < s * s,
            1 <= s,
    ;
    assert(0 <= k % s < s) by (nonlinear_arith)
        requires
            0 <= k,
            1 <= s,
    ;
    assert(x * s + s <= w) by (nonlinear_arith)
        requires
            0 <= x < w / s,
            1 <= s,
            0 <= w,
    ;
    assert(y * s + s <= h) by (nonlinear_arith)
        requires
            0 <= y < h / s,
            1 <= s,
            0 <= h,
    ;
    assert(0 <= x * s) by (nonlinear_arith)
        requires
            0 <= x,
            1 <= s,
    ;
    assert(0 <= y * s) by (nonlinear_arith)
        requires
            0 <= y,
            1 <= s,
    ;
}

/// The average of the `scale` by `scale` block at column `x`, row `y` of
/// the downsampled image.
fn average_block(src: &Vec<RgbaColor>, src_w: u32, src_h: u32, x: u32, y: u32, scale: u32) -> (p: RgbaColor)
    requires
        2 <= scale,
        scale * scale <= u32::MAX,
        src_w * src_h <= src.len(),
        src_w * src_h <= u32::MAX,
        x < src_w / scale,
        y < src_h / scale,
    ensures
        p == box_average(src@, src_w as int, x as int, y as int, scale as int),
{
    let n: u32 = scale * scale;
    let ghost v = src@;
    let mut sum_r: u64 = 0;
    let mut sum_g: u64 = 0;
    let mut sum_b: u64 = 0;
    let mut sum_a: u64 = 0;
    let mut k: u32 = 0;
    while k < n
        invariant
            k <= n,
            n == scale * scale,
            2 <= scale,
            v == src@,
            src_w * src_h <= src.len(),
            src_w * src_h <= u32::MAX,
            x < src_w / scale,
            y < src_h / scale,
            sum_a == alpha_sum(v, src_w as int, x as int, y as int, scale as int, k as int),
            sum_r == weighted_sum(v, src_w as int, x as int, y as int, scale as int, k as int, 0),
            sum_g == weighted_sum(v, src_w as int, x as int, y as int, scale as int, k as int, 1),
            sum_b == weighted_sum(v, src_w as int, x as int, y as int, scale as int, k as int, 2),
            sum_a <= 255 * k,
            sum_r <= 65025 * k,
            sum_g <= 65025 * k,
            sum_b <= 65025 * k,
        decreases n - k,
    {
        proof {
            lemma_block_position(k as int, scale as int, x as int, y as int, src_w as int, src_h as int);
        }
        let by = k / scale;
        let bx = k % scale;
        let src_x = x * scale + bx;
        let src_y = y * scale + by;
        proof {
            lemma_cell_index(src_y as int, src_x as int, src_w as int, src_h as int);
        }
        assert(src_h * src_w == src_w * src_h) by (nonlinear_arith);
        let px = src[(src_y * src_w + src_x) as usize];
        assert(px == block_px(v, src_w as int, x as int, y as int, scale as int, k as int));
        let a = px.a as u64;
        let r = px.r as u64;
        let g = px.g as u64;
        let b = px.b as u64;
        assert(r * a <= 65025 && g * a <= 65025 && b * a <= 65025) by (nonlinear_arith)
            requires
                r <= 255,
                g <= 255,
                b <= 255,
                a <= 255,
        ;
        sum_a = sum_a + a;
        sum_r = sum_r + r * a;
        sum_g = sum_g + g * a;
        sum_b = sum_b + b * a;
        k += 1;
    }
    if sum_a == 0 {
        RgbaColor { r: 0, g: 0, b: 0, a: 0 }
    } else {
        RgbaColor {
            r: (sum_r / sum_a) as u8,
            g: (sum_g / sum_a) as u8,
            b: (sum_b / sum_a) as u8,
            a: (sum_a / (n as u64)) as u8,
        }
    }
}

/// A copy of the pixels.
fn copy_pixels(src: &Vec<RgbaColor>) -> (r: Vec<RgbaColor>)
    ensures
        r@ == src@,
{
    let mut out: Vec<RgbaColor> = Vec::new();
    let mut i: usize = 0;
    while i < src.len()
        invariant
            i <= src.len(),
            out@ == src@.take(i as int),
        decreases src.len() - i,
    {
        out.push(src[i]);
        i += 1;
        assert(out@ =~= src@.take(i as int));
    }
    assert(src@.take(i as int) =~= src@);
    out
}

/// Averages each `scale` by `scale` block of a `src_w` by `src_h` image
/// into one pixel (see `box_average`); the image is returned unchanged when
/// `scale` is at most 1 or it has no pixels.
pub fn downsample_pixels_box(src: &Vec<RgbaColor>, src_w: u32, src_h: u32, scale: u32) -> (r: Vec<RgbaColor>)
    requires
        src_w * src_h <= src.len(),
        src_w * src_h <= u32::MAX,
        scale * scale <= u32::MAX,
    ensures
        scale <= 1 || src_w == 0 || src_h == 0 ==> r@ == src@,
        !(scale <= 1 || src_w == 0 || src_h == 0) ==> {
            &&& r.len() == (src_w / scale) * (src_h / scale)
            &&& forall|y: int, x: int|
                0 <= y < src_h / scale && 0 <= x < src_w / scale ==> #[trigger] at(
                    r@,
                    (src_w / scale) as int,
                    y,
                    x,
                ) == box_average(src@, src_w as int, x, y, scale as int)
        },
{
    if scale <= 1 || src_w == 0 || src_h == 0 {
        return copy_pixels(src);
    }
    let dst_w = src_w / scale;
    let dst_h = src_h / scale;
    let mut out: Vec<RgbaColor> = Vec::new();
    let mut y: u32 = 0;
    while y < dst_h
        invariant
            y <= dst_h,
            dst_w == src_w / scale,
            dst_h == src_h / scale,
            2 <= scale,
            scale * scale <= u32::MAX,
            src_w * src_h <= src.len(),
            src_w * src_h <= u32::MAX,
            out.len() == y * dst_w,
            forall|a: int, b: int|
                0 <= a < y && 0 <= b < dst_w ==> #[trigger] at(out@, dst_w as int, a, b)
                    == box_average(src@, src_w as int, b, a, scale as int),
        decreases dst_h - y,
    {
        let mut x: u32 = 0;
        while x < dst_w
            invariant
                x <= dst_w,
                y < dst_h,
                dst_w == src_w / scale,
                dst_h == src_h / scale,
                2 <= scale,
                scale * scale <= u32::MAX,
                src_w * src_h <= src.len(),
                src_w * src_h <= u32::MAX,
                out.len() == y * dst_w + x,
                forall|a: int, b: int|
                    0 <= a < y && 0 <= b < dst_w ==> #[trigger] at(out@, dst_w as int, a, b)
                        == box_average(src@, src_w as int, b, a, scale as int),
                forall|b: int|
                    0 <= b < x ==> #[trigger] at(out@, dst_w as int, y as int, b) == box_average(
                        src@,
                        src_w as int,
                        b,
                        y as int,
                        scale as int,
                    ),
            decreases dst_w - x,
        {
            let p = average_block(src, src_w, src_h, x, y, scale);
            let ghost before = out@;
            let ghost n = out.len() as int;
            out.push(p);
            assert forall|a: int, b: int|
                0 <= a < y && 0 <= b < dst_w implies #[trigger] at(out@, dst_w as int, a, b)
                    == box_average(src@, src_w as int, b, a, scale as int) by {
                lemma_cell_index(a, b, dst_w as int, y as int);
                assert(at(out@, dst_w as int, a, b) == at(before, dst_w as int, a, b));
            }
            assert forall|b: int|
                0 <= b < x + 1 implies #[trigger] at(out@, dst_w as int, y as int, b) == box_average(
                    src@,
                    src_w as int,
                    b,
                    y as int,
                    scale as int,
                ) by {
                if b < x {
                    assert(at(out@, dst_w as int, y as int, b) == at(before, dst_w as int, y as int, b));
                } else {
                    assert(y * dst_w + b == n);
                }
            }
            x += 1;
        }
        assert forall|a: int, b: int|
            0 <= a < y + 1 && 0 <= b < dst_w implies #[trigger] at(out@, dst_w as int, a, b)
                == box_average(src@, src_w as int, b, a, scale as int) by {
            if a == y {
                assert(at(out@, dst_w as int, y as int, b) == box_average(
                    src@,
                    src_w as int,
                    b,
                    y as int,
                    scale as int,
                ));
            }
        }
        assert(y * dst_w + dst_w == (y + 1) * dst_w) by (nonlinear_arith);
        y += 1;
    }
    assert(dst_h * dst_w == dst_w * dst_h) by (nonlinear_arith);
    out
}


/// Pixel `(y, x)` of the cropped `cw` by `ch` image `c` once fitted to
/// `sw` by `sh`: scaled by nearest neighbour when the size changes.
pub open spec fn fitted_px(c: Seq<RgbaColor>, cw: int, ch: int, sw: int, sh: int, y: int, x: int) -> RgbaColor {
    if sw != cw || sh != ch {
        at(c, cw, nearest(y, ch, sh, u32::MAX as int), nearest(x, cw, sw, u32::MAX as int))
    } else {
        at(c, cw, y, x)
    }
}

/// Pixel `(y, x)` of the `hw` by `hh` canvas with the fitted image centred
/// on it and clear pixels around.
pub open spec fn canvas_px(
    c: Seq<RgbaColor>,
    cw: int,
    ch: int,
    sw: int,
    sh: int,
    hw: int,
    hh: int,
    y: int,
    x: int,
) -> RgbaColor {
    let ox = (hw - sw) / 2;
    let oy = (hh - sh) / 2;
    if oy <= y < oy + sh && ox <= x < ox + sw {
        fitted_px(c, cw, ch, sw, sh, y - oy, x - ox)
    } else {
        clear()
    }
}

/// The canvas, row by row.
pub open spec fn canvas(c: Seq<RgbaColor>, cw: int, ch: int, sw: int, sh: int, hw: int, hh: int) -> Seq<RgbaColor> {
    Seq::new((hw * hh) as nat, |i: int| canvas_px(c, cw, ch, sw, sh, hw, hh, i / hw, i % hw))
}

/// The pixel at row `y`, column `x` of the image shown: the canvas averaged
/// down by `s` when it was supersampled.
pub open spec fn shown_px(
    c: Seq<RgbaColor>,
    cw: int,
    ch: int,
    sw: int,
    sh: int,
    hw: int,
    hh: int,
    s: int,
    y: int,
    x: int,
) -> RgbaColor {
    let v = canvas(c, cw, ch, sw, sh, hw, hh);
    if s > 1 {
        box_average(v, hw, x, y, s)
    } else {
        at(v, hw, y, x)
    }
}

/// The `sw` by `sh` image `f` holds the fitted pixels.
pub open spec fn fitted_ok(f: Seq<RgbaColor>, c: Seq<RgbaColor>, cw: int, ch: int, sw: int, sh: int) -> bool {
    forall|a: int, b: int| 0 <= a < sh && 0 <= b < sw ==> #[trigger] at(f, sw, a, b)
        == fitted_px(c, cw, ch, sw, sh, a, b) && a * sw + b < f.len()
}

/// The `tw` by `th` image `v` holds the pixels shown.
pub open spec fn shown_ok(
    v: Seq<RgbaColor>,
    c: Seq<RgbaColor>,
    cw: int,
    ch: int,
    sw: int,
    sh: int,
    hw: int,
    hh: int,
    s: int,
    tw: int,
    th: int,
) -> bool {
    forall|a: int, b: int| 0 <= a < th && 0 <= b < tw ==> #[trigger] at(v, tw, a, b)
        == shown_px(c, cw, ch, sw, sh, hw, hh, s, a, b) && a * tw + b < v.len()
}

/// The cell at row `y`, column `x` of cells stored row by row, `w` a row.
pub open spec fn cell_at(v: Seq<LogoCell>, w: int, y: int, x: int) -> LogoCell {
    v[y * w + x]
}

/// The cells of an SVG logo `width` cells by `height` cells.
///
/// The cropped image (`crop_w` by `crop_h`) is fitted to `fit`, centred on
/// a clear canvas of `width * scale` by `2 * height * scale` pixels,
/// averaged down by `scale`, and each cell shows the two pixels of its
/// column in its two pixel rows (see `cell_for`).
#[verifier::spinoff_prover]
pub fn svg_logo_cells(
    cropped: &Vec<RgbaColor>,
    crop_w: u32,
    crop_h: u32,
    fit: (u32, u32),
    width: u16,
    height: u16,
    scale: u32,
) -> (r: Vec<LogoCell>)
    requires
        crop_w * crop_h <= cropped.len(),
        crop_w * crop_h <= u32::MAX,
        1 <= crop_w,
        1 <= crop_h,
        1 <= width,
        1 <= height,
        1 <= scale,
        scale * scale <= u32::MAX,
        (width * scale) * (2 * height * scale) <= u32::MAX,
        fit.0 <= width * scale,
        fit.1 <= 2 * height * scale,
    ensures
        r.len() == width * height,
        forall|y: int, x: int|
            0 <= y < height && 0 <= x < width ==> #[trigger] cell_at(r@, width as int, y, x) == cell_for(
                shown_px(
                    cropped@,
                    crop_w as int,
                    crop_h as int,
                    fit.0 as int,
                    fit.1 as int,
                    width * scale,
                    2 * height * scale,
                    scale as int,
                    2 * y,
                    x,
                ),
                shown_px(
                    cropped@,
                    crop_w as int,
                    crop_h as int,
                    fit.0 as int,
                    fit.1 as int,
                    width * scale,
                    2 * height * scale,
                    scale as int,
                    2 * y + 1,
                    x,
                ),
            ),
{
    let (sw, sh) = fit;
    let tw: u32 = width as u32;
    let th: u32 = 2 * (height as u32);
    assert(tw * scale <= u32::MAX && th * scale <= u32::MAX) by (nonlinear_arith)
        requires
            (width * scale) * (2 * height * scale) <= u32::MAX,
            tw == width,
            th == 2 * height,
            1 <= width,
            1 <= height,
            1 <= scale,
    ;
    let hw: u32 = tw * scale;
    let hh: u32 = th * scale;
    assert(hw >= 1 && hh >= 1) by (nonlinear_arith)
        requires
            hw == tw * scale,
            hh == th * scale,
            tw >= 1,
            th >= 1,
            scale >= 1,
    ;
    let ghost cv = cropped@;
    let ghost cwi = crop_w as int;
    let ghost chi = crop_h as int;
    // The cropped image fitted to `sw` by `sh`.
    assert(sw * sh <= hw * hh) by (nonlinear_arith)
        requires
            sw <= hw,
            sh <= hh,
    ;
    let resized = sw != crop_w || sh != crop_h;
    let fitted = if resized {
        scale_pixels_nearest(cropped, crop_w, crop_h, sw, sh)
    } else {
        copy_pixels(cropped)
    };
    assert forall|a: int, b: int| 0 <= a < sh && 0 <= b < sw implies #[trigger] at(fitted@, sw as int, a, b)
        == fitted_px(cv, cwi, chi, sw as int, sh as int, a, b) && a * sw + b < fitted@.len() by {
        lemma_cell_index(a, b, sw as int, sh as int);
        assert(!(crop_w == 0 || crop_h == 0 || sw == 0 || sh == 0));
        if !resized {
            assert(sh * sw == crop_w * crop_h) by (nonlinear_arith)
                requires
                    sw == crop_w,
                    sh == crop_h,
            ;
            assert(fitted@ == cv);
            assert(at(fitted@, sw as int, a, b) == at(cv, cwi, a, b));
        } else {
            assert(sh * sw == sw * sh) by (nonlinear_arith);
            assert(at(fitted@, sw as int, a, b) == at(cv, cwi, nearest(a, chi, sh as int, u32::MAX as int), nearest(b, cwi, sw as int, u32::MAX as int)));
        }
        assert(fitted_px(cv, cwi, chi, sw as int, sh as int, a, b) == if resized {
            at(cv, cwi, nearest(a, chi, sh as int, u32::MAX as int), nearest(b, cwi, sw as int, u32::MAX as int))
        } else {
            at(cv, cwi, a, b)
        });
    }
    assert(fitted_ok(fitted@, cv, cwi, chi, sw as int, sh as int));
    // The canvas with the fitted image centred on it.
    let ox = (hw - sw) / 2;
    let oy = (hh - sh) / 2;
    let mut cnv: Vec<RgbaColor> = Vec::new();
    let mut y: u32 = 0;
    while y < hh
        invariant
            y <= hh,
            sw <= hw,
            sh <= hh,
            ox == (hw - sw) / 2,
            oy == (hh - sh) / 2,
            hw * hh <= u32::MAX,
            fitted_ok(fitted@, cv, cwi, chi, sw as int, sh as int),
            cnv.len() == y * hw,
            forall|a: int, b: int|
                0 <= a < y && 0 <= b < hw ==> #[trigger] at(cnv@, hw as int, a, b) == canvas_px(
                    cv,
                    cwi,
                    chi,
                    sw as int,
                    sh as int,
                    hw as int,
                    hh as int,
                    a,
                    b,
                ),
        decreases hh - y,
    {
        let mut x: u32 = 0;
        while x < hw
            invariant
                x <= hw,
                y < hh,
                sw <= hw,
                sh <= hh,
                ox == (hw - sw) / 2,
                oy == (hh - sh) / 2,
                hw * hh <= u32::MAX,
                fitted_ok(fitted@, cv, cwi, chi, sw as int, sh as int),
                cnv.len() == y * hw + x,
                forall|a: int, b: int|
                    0 <= a < y && 0 <= b < hw ==> #[trigger] at(cnv@, hw as int, a, b) == canvas_px(
                        cv,
                        cwi,
                        chi,
                        sw as int,
                        sh as int,
                        hw as int,
                        hh as int,
                        a,
                        b,
                    ),
                forall|b: int|
                    0 <= b < x ==> #[trigger] at(cnv@, hw as int, y as int, b) == canvas_px(
                        cv,
                        cwi,
                        chi,
                        sw as int,
                        sh as int,
                        hw as int,
                        hh as int,
                        y as int,
                        b,
                    ),
            decreases hw - x,
        {
            let p = if oy <= y && y < oy + sh && ox <= x && x < ox + sw {
                let a = y - oy;
                let b = x - ox;
                assert(fitted_ok(fitted@, cv, cwi, chi, sw as int, sh as int));
                assert(at(fitted@, sw as int, a as int, b as int) == fitted_px(cv, cwi, chi, sw as int, sh as int, a as int, b as int));
                proof {
                    lemma_cell_index(a as int, b as int, sw as int, sh as int);
                }
                assert(sh * sw <= u32::MAX) by (nonlinear_arith)
                    requires
                        sw <= hw,
                        sh <= hh,
                        hw * hh <= u32::MAX,
                ;
                fitted[(a * sw + b) as usize]
            } else {
                RgbaColor { r: 0, g: 0, b: 0, a: 0 }
            };
            let ghost before = cnv@;
            let ghost n = cnv.len() as int;
            cnv.push(p);
            assert forall|a: int, b: int|
                0 <= a < y && 0 <= b < hw implies #[trigger] at(cnv@, hw as int, a, b) == canvas_px(
                    cv,
                    cwi,
                    chi,
                    sw as int,
                    sh as int,
                    hw as int,
                    hh as int,
                    a,
                    b,
                ) by {
                lemma_cell_index(a, b, hw as int, y as int);
                assert(at(cnv@, hw as int, a, b) == at(before, hw as int, a, b));
            }
            assert forall|b: int|
                0 <= b < x + 1 implies #[trigger] at(cnv@, hw as int, y as int, b) == canvas_px(
                    cv,
                    cwi,
                    chi,
                    sw as int,
                    sh as int,
                    hw as int,
                    hh as int,
                    y as int,
                    b,
                ) by {
                if b < x {
                    assert(at(cnv@, hw as int, y as int, b) == at(before, hw as int, y as int, b));
                } else {
                    assert(y * hw + b == n);
                }
            }
            x += 1;
        }
        assert forall|a: int, b: int|
            0 <= a < y + 1 && 0 <= b < hw implies #[trigger] at(cnv@, hw as int, a, b) == canvas_px(
                cv,
                cwi,
                chi,
                sw as int,
                sh as int,
                hw as int,
                hh as int,
                a,
                b,
            ) by {
            if a == y {
                assert(at(cnv@, hw as int, y as int, b) == canvas_px(
                    cv,
                    cwi,
                    chi,
                    sw as int,
                    sh as int,
                    hw as int,
                    hh as int,
                    y as int,
                    b,
                ));
            }
        }
        assert(y * hw + hw == (y + 1) * hw) by (nonlinear_arith);
        y += 1;
    }
    let ghost full = canvas(cv, cwi, chi, sw as int, sh as int, hw as int, hh as int);
    assert(cnv.len() == hw * hh) by (nonlinear_arith)
        requires
            cnv.len() == y * hw,
            y == hh,
    ;
    assert forall|i: int| 0 <= i < cnv.len() implies #[trigger] cnv@[i] == full[i] by {
        let a = i / (hw as int);
        let b = i % (hw as int);
        assert(hw > 0);
        vstd::arithmetic::div_mod::lemma_fundamental_div_mod(i, hw as int);
        assert(0 <= b < hw) by (nonlinear_arith)
            requires
                b == i % (hw as int),
                hw > 0,
        ;
        assert(0 <= a < hh) by (nonlinear_arith)
            requires
                a == i / (hw as int),
                0 <= i < hw * hh,
                hw > 0,
        ;
        assert(i == a * hw + b) by (nonlinear_arith)
            requires
                i == (hw as int) * (i / (hw as int)) + i % (hw as int),
                a == i / (hw as int),
                b == i % (hw as int),
        ;
        assert(at(cnv@, hw as int, a, b) == canvas_px(cv, cwi, chi, sw as int, sh as int, hw as int, hh as int, a, b));
    }
    assert(cnv@ =~= full);
    // The pixels shown: the canvas averaged down to the target size.
    assert(hw / scale == tw && hh / scale == th) by (nonlinear_arith)
        requires
            hw == tw * scale,
            hh == th * scale,
            scale >= 1,
    ;
    assert(tw * th <= hw * hh) by (nonlinear_arith)
        requires
            hw == tw * scale,
            hh == th * scale,
            scale >= 1,
    ;
    let shown = if scale > 1 {
        downsample_pixels_box(&cnv, hw, hh, scale)
    } else {
        cnv
    };
    assert forall|a: int, b: int| 0 <= a < th && 0 <= b < tw implies #[trigger] at(shown@, tw as int, a, b)
        == shown_px(cv, cwi, chi, sw as int, sh as int, hw as int, hh as int, scale as int, a, b) && a * tw
        + b < shown@.len() by {
        lemma_cell_index(a, b, tw as int, th as int);
        assert(th * tw == tw * th) by (nonlinear_arith);
        if scale <= 1 {
            assert(hw == tw && hh == th);
            assert(shown@ == full);
            assert(at(shown@, tw as int, a, b) == at(full, hw as int, a, b));
        } else {
            assert(at(shown@, tw as int, a, b) == box_average(full, hw as int, b, a, scale as int));
        }
    }
    assert(shown_ok(shown@, cv, cwi, chi, sw as int, sh as int, hw as int, hh as int, scale as int, tw as int, th as int));
    assert(shown.len() <= u32::MAX) by {
        if scale > 1 {
            assert(shown.len() == tw * th);
        }
    }
    // One cell per two pixel rows.
    let mut cells: Vec<LogoCell> = Vec::new();
    let mut cy: u16 = 0;
    let w = width as u32;
    while cy < height
        invariant
            cy <= height,
            w == width,
            tw == width,
            th == 2 * height,
            shown.len() <= u32::MAX,
            shown_ok(shown@, cv, cwi, chi, sw as int, sh as int, hw as int, hh as int, scale as int, tw as int, th as int),
            cells.len() == cy * width,
            forall|a: int, b: int|
                0 <= a < cy && 0 <= b < width ==> #[trigger] cell_at(cells@, width as int, a, b) == cell_for(
                    shown_px(cv, cwi, chi, sw as int, sh as int, hw as int, hh as int, scale as int, 2 * a, b),
                    shown_px(cv, cwi, chi, sw as int, sh as int, hw as int, hh as int, scale as int, 2 * a + 1, b),
                ),
        decreases height - cy,
    {
        let top_row = (cy as u32) * 2;
        let bottom_row = top_row + 1;
        let mut cx: u16 = 0;
        while cx < width
            invariant
                cx <= width,
                cy < height,
                w == width,
                tw == width,
                th == 2 * height,
                top_row == 2 * cy,
                bottom_row == top_row + 1,
                shown.len() <= u32::MAX,
                shown_ok(shown@, cv, cwi, chi, sw as int, sh as int, hw as int, hh as int, scale as int, tw as int, th as int),
                cells.len() == cy * width + cx,
                forall|a: int, b: int|
                    0 <= a < cy && 0 <= b < width ==> #[trigger] cell_at(cells@, width as int, a, b) == cell_for(
                        shown_px(cv, cwi, chi, sw as int, sh as int, hw as int, hh as int, scale as int, 2 * a, b),
                        shown_px(cv, cwi, chi, sw as int, sh as int, hw as int, hh as int, scale as int, 2 * a + 1, b),
                    ),
                forall|b: int|
                    0 <= b < cx ==> #[trigger] cell_at(cells@, width as int, cy as int, b) == cell_for(
                        shown_px(cv, cwi, chi, sw as int, sh as int, hw as int, hh as int, scale as int, 2 * cy, b),
                        shown_px(cv, cwi, chi, sw as int, sh as int, hw as int, hh as int, scale as int, 2 * cy + 1, b),
                    ),
            decreases width - cx,
        {
            let col = cx as u32;
            assert(shown_ok(shown@, cv, cwi, chi, sw as int, sh as int, hw as int, hh as int, scale as int, tw as int, th as int));
            assert(at(shown@, tw as int, top_row as int, col as int) == shown_px(cv, cwi, chi, sw as int, sh as int, hw as int, hh as int, scale as int, top_row as int, col as int));
            assert(at(shown@, tw as int, bottom_row as int, col as int) == shown_px(cv, cwi, chi, sw as int, sh as int, hw as int, hh as int, scale as int, bottom_row as int, col as int));
            let top = shown[(top_row * w + col) as usize];
            let bottom = if bottom_row < th {
                shown[(bottom_row * w + col) as usize]
            } else {
                RgbaColor { r: 0, g: 0, b: 0, a: 0 }
            };
            let c = svg_cell_from_pixels(top, bottom);
            let ghost before = cells@;
            let ghost n = cells.len() as int;
            cells.push(c);
            assert forall|a: int, b: int|
                0 <= a < cy && 0 <= b < width implies #[trigger] cell_at(cells@, width as int, a, b) == cell_for(
                    shown_px(cv, cwi, chi, sw as int, sh as int, hw as int, hh as int, scale as int, 2 * a, b),
                    shown_px(cv, cwi, chi, sw as int, sh as int, hw as int, hh as int, scale as int, 2 * a + 1, b),
                ) by {
                lemma_cell_index(a, b, width as int, cy as int);
                assert(cell_at(cells@, width as int, a, b) == cell_at(before, width as int, a, b));
            }
            assert forall|b: int|
                0 <= b < cx + 1 implies #[trigger] cell_at(cells@, width as int, cy as int, b) == cell_for(
                    shown_px(cv, cwi, chi, sw as int, sh as int, hw as int, hh as int, scale as int, 2 * cy, b),
                    shown_px(cv, cwi, chi, sw as int, sh as int, hw as int, hh as int, scale as int, 2 * cy + 1, b),
                ) by {
                if b < cx {
                    assert(cell_at(cells@, width as int, cy as int, b) == cell_at(before, width as int, cy as int, b));
                } else {
                    assert(cy * width + b == n);
                }
            }
            cx += 1;
        }
        assert forall|a: int, b: int|
            0 <= a < cy + 1 && 0 <= b < width implies #[trigger] cell_at(cells@, width as int, a, b) == cell_for(
                shown_px(cv, cwi, chi, sw as int, sh as int, hw as int, hh as int, scale as int, 2 * a, b),
                shown_px(cv, cwi, chi, sw as int, sh as int, hw as int, hh as int, scale as int, 2 * a + 1, b),
            ) by {
            if a == cy {
                assert(cell_at(cells@, width as int, cy as int, b) == cell_for(
                    shown_px(cv, cwi, chi, sw as int, sh as int, hw as int, hh as int, scale as int, 2 * cy, b),
                    shown_px(cv, cwi, chi, sw as int, sh as int, hw as int, hh as int, scale as int, 2 * cy + 1, b),
                ));
            }
        }
        assert(cy * width + width == (cy + 1) * width) by (nonlinear_arith);
        cy += 1;
    }
    assert(height * width == width * height) by (nonlinear_arith);
    cells
}


proof fn lemma_uniform_sums(v: Seq<RgbaColor>, w: int, x: int, y: int, s: int, p: RgbaColor, n: int)
    requires
        0 <= n,
        forall|k: int| 0 <= k < n ==> block_px(v, w, x, y, s, k) == p,
    ensures
        alpha_sum(v, w, x, y, s, n) == n * p.a,
        weighted_sum(v, w, x, y, s, n, 0) == n * (p.r * p.a),
        weighted_sum(v, w, x, y, s, n, 1) == n * (p.g * p.a),
        weighted_sum(v, w, x, y, s, n, 2) == n * (p.b * p.a),
    decreases n,
{
    if n > 0 {
        lemma_uniform_sums(v, w, x, y, s, p, n - 1);
        assert(block_px(v, w, x, y, s, n - 1) == p);
        assert(n * p.a == (n - 1) * p.a + p.a) by (nonlinear_arith);
        assert(n * (p.r * p.a) == (n - 1) * (p.r * p.a) + p.r * p.a) by (nonlinear_arith);
        assert(n * (p.g * p.a) == (n - 1) * (p.g * p.a) + p.g * p.a) by (nonlinear_arith);
        assert(n * (p.b * p.a) == (n - 1) * (p.b * p.a) + p.b * p.a) by (nonlinear_arith);
    }
}

/// Averaging a block whose pixels are all the same visible colour gives
/// that colour back.
pub proof fn lemma_uniform_block(v: Seq<RgbaColor>, w: int, x: int, y: int, s: int, p: RgbaColor)
    requires
        s >= 1,
        p.a > 0,
        forall|k: int| 0 <= k < s * s ==> block_px(v, w, x, y, s, k) == p,
    ensures
        box_average(v, w, x, y, s) == p,
{
    let n = s * s;
    assert(n >= 1) by (nonlinear_arith)
        requires
            s >= 1,
            n == s * s,
    ;
    lemma_uniform_sums(v, w, x, y, s, p, n);
    let a = p.a as int;
    assert((n * a) / n == a) by (nonlinear_arith)
        requires
            n >= 1,
    ;
    assert((n * (p.r * a)) / (n * a) == p.r) by (nonlinear_arith)
        requires
            n >= 1,
            a >= 1,
    ;
    assert((n * (p.g * a)) / (n * a) == p.g) by (nonlinear_arith)
        requires
            n >= 1,
            a >= 1,
    ;
    assert((n * (p.b * a)) / (n * a) == p.b) by (nonlinear_arith)
        requires
            n >= 1,
            a >= 1,
    ;
    assert(n * a != 0) by (nonlinear_arith)
        requires
            n >= 1,
            a >= 1,
    ;
}

} // verus!
