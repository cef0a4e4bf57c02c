//! The characters that are drawn from the cell instead of the font.
//!
//! Lines and blocks have to meet their neighbours: a vertical line runs into the one below it, and
//! a full block leaves no seam. A font promises none of that, so these characters are rectangles
//! of the cell, and what reaches the cell's edge reaches it exactly.
//!
//! Dashed and double lines, arcs and diagonals are no rectangles; those stay with the font.

use crate::grid_raster::tables;
use crate::grid_raster::tables::{box_weights, quadrants_of};
use vstd::array::*;
use vstd::prelude::*;

verus! {

/// A rectangle of ink. Its sides are counted in eighths of a pixel from the top left of the cell,
/// because the smallest block is an eighth of the cell.
#[derive(Debug, Clone, Copy, PartialEq, Eq, Structural)]
pub struct Rect {
    pub x0: u64,
    pub y0: u64,
    pub x1: u64,
    pub y1: u64,
}

/// What a character covers of its cell. Where rectangles overlap there is still only ink.
#[derive(Debug, PartialEq, Eq)]
pub struct CellShape {
    pub rects: Vec<Rect>,
    /// How much ink there is, in quarters: less than four only in the shades.
    pub alpha: u32,
}

/// A shape by what it holds.
#[verifier::ext_equal]
pub ghost struct ShapeView {
    pub rects: Seq<Rect>,
    pub alpha: u32,
}

impl View for CellShape {
    type V = ShapeView;

    open spec fn view(&self) -> ShapeView {
        ShapeView { rects: self.rects@, alpha: self.alpha }
    }
}

/// How much of the pixel that starts at `at` lies between two sides, in eighths.
spec fn overlap(low: int, high: int, at: int) -> int {
    let from = if low > 8 * at {
        low
    } else {
        8 * at
    };
    let to = if high < 8 * at + 8 {
        high
    } else {
        8 * at + 8
    };
    if from < to {
        to - from
    } else {
        0
    }
}

/// How much of a pixel a rectangle covers, in parts of sixty-four.
spec fn rect_part(rect: Rect, x: int, y: int) -> int {
    overlap(rect.x0 as int, rect.x1 as int, x) * overlap(rect.y0 as int, rect.y1 as int, y)
}

pub open spec fn larger(a: int, b: int) -> int {
    if a > b {
        a
    } else {
        b
    }
}

impl Rect {
    /// Whether a square of an eighth of a pixel lies in the rectangle.
    pub open spec fn holds(self, across: int, down: int) -> bool {
        self.x0 <= across < self.x1 && self.y0 <= down < self.y1
    }
}

/// Whether a square of an eighth of a pixel lies in any of some rectangles.
pub open spec fn inked(rects: Seq<Rect>, across: int, down: int) -> bool {
    exists|i: int| 0 <= i < rects.len() && (#[trigger] rects[i]).holds(across, down)
}

/// How many of the first `n` squares of a row lie in any of some rectangles.
pub open spec fn row_squares(rects: Seq<Rect>, across: int, down: int, n: int) -> int
    decreases n,
{
    if n <= 0 {
        0
    } else {
        row_squares(rects, across, down, n - 1) + if inked(rects, across + n - 1, down) {
            1int
        } else {
            0
        }
    }
}

/// How many squares of the first `n` rows of a pixel lie in any of some rectangles.
pub open spec fn squares(rects: Seq<Rect>, across: int, down: int, n: int) -> int
    decreases n,
{
    if n <= 0 {
        0
    } else {
        squares(rects, across, down, n - 1) + row_squares(rects, across, down + n - 1, 8)
    }
}

/// How much of a pixel some rectangles cover together, in parts of sixty-four. What two of them
/// cover counts once.
pub open spec fn part(rects: Seq<Rect>, x: int, y: int) -> int {
    squares(rects, 8 * x, 8 * y, 8)
}

impl ShapeView {
    /// How much ink is on a pixel, in parts of 256.
    pub open spec fn ink(self, x: int, y: int) -> int {
        part(self.rects, x, y) * self.alpha
    }
}

impl CellShape {
    /// How much of the pixel at `(x, y)` the shape covers, in parts of 256.
    pub fn coverage(&self, x: u32, y: u32) -> (covered: u32)
        requires
            self.alpha <= 4,
        ensures
            covered == self@.ink(x as int, y as int),
            covered <= 256,
    {
        let across: u64 = 8 * x as u64;
        let down: u64 = 8 * y as u64;
        let mut sum: u64 = 0;
        let mut row: u64 = 0;
        while row < 8
            invariant
                row <= 8,
                down == 8 * y,
                across == 8 * x,
                sum == squares(self.rects@, across as int, down as int, row as int),
                sum <= 8 * row,
            decreases 8 - row,
        {
            let mut count: u64 = 0;
            let mut n: u64 = 0;
            while n < 8
                invariant
                    n <= 8,
                    row < 8,
                    down == 8 * y,
                    across == 8 * x,
                    count == row_squares(self.rects@, across as int, down + row, n as int),
                    count <= n,
                decreases 8 - n,
            {
                if self.has_ink(across + n, down + row) {
                    count += 1;
                }
                n += 1;
            }
            sum += count;
            row += 1;
        }
        let alpha: u64 = self.alpha as u64;
        assert(sum * alpha <= 256) by (nonlinear_arith)
            requires
                sum <= 64,
                alpha <= 4,
        ;
        (sum * alpha) as u32
    }

    fn has_ink(&self, across: u64, down: u64) -> (found: bool)
        ensures
            found == inked(self.rects@, across as int, down as int),
    {
        let mut i: usize = 0;
        while i < self.rects.len()
            invariant
                i <= self.rects@.len(),
                forall|j: int|
                    0 <= j < i ==> !(#[trigger] self.rects@[j]).holds(across as int, down as int),
            decreases self.rects@.len() - i,
        {
            let rect = self.rects[i];
            if rect.x0 <= across && across < rect.x1 && rect.y0 <= down && down < rect.y1 {
                assert(self.rects@[i as int].holds(across as int, down as int));
                return true;
            }
            i += 1;
        }
        false
    }
}

/// The thickness of a line in pixels: an eighth of the cell's narrow side, rounded, but at least
/// one; a heavy line has twice as many.
pub open spec fn stroke(weight: u8, w: int, h: int) -> int {
    let narrow = if w < h {
        w
    } else {
        h
    };
    let light = larger((narrow + 4) / 8, 1);
    if weight == 0 {
        0
    } else if weight == 1 {
        light
    } else {
        2 * light
    }
}

/// Where a line of some thickness starts across the cell: in the middle, on a whole pixel.
pub open spec fn band_start(thickness: int, extent: int) -> int {
    if thickness < extent {
        (extent - thickness) / 2
    } else {
        0
    }
}

/// Where it ends.
pub open spec fn band_end(thickness: int, extent: int) -> int {
    if band_start(thickness, extent) + thickness < extent {
        band_start(thickness, extent) + thickness
    } else {
        extent
    }
}

pub open spec fn heavier(a: u8, b: u8) -> u8 {
    if a > b {
        a
    } else {
        b
    }
}

/// Where a line from the left or the top stops: on the far side of the lines that it meets, or in
/// the middle where it meets none.
pub open spec fn near_stop(across: int, extent: int) -> int {
    if across > 0 {
        band_end(across, extent)
    } else {
        (extent + 1) / 2
    }
}

/// Where a line from the right or the bottom stops.
pub open spec fn far_stop(across: int, extent: int) -> int {
    if across > 0 {
        band_start(across, extent)
    } else {
        extent / 2
    }
}

/// A rectangle of whole pixels.
pub open spec fn pixels(x0: int, y0: int, x1: int, y1: int) -> Rect {
    Rect { x0: (8 * x0) as u64, y0: (8 * y0) as u64, x1: (8 * x1) as u64, y1: (8 * y1) as u64 }
}

/// The thickness of a character's vertical lines.
pub open spec fn vertical(arms: [u8; 4], w: int, h: int) -> int {
    stroke(heavier(arms@[0], arms@[1]), w, h)
}

/// The thickness of a character's horizontal lines.
pub open spec fn horizontal(arms: [u8; 4], w: int, h: int) -> int {
    stroke(heavier(arms@[2], arms@[3]), w, h)
}

pub open spec fn left_arm(arms: [u8; 4], w: int, h: int) -> Seq<Rect> {
    let t = stroke(arms@[2], w, h);
    if arms@[2] > 0 {
        seq![
            pixels(0, band_start(t, h), near_stop(vertical(arms, w, h), w), band_end(t, h)),
        ]
    } else {
        seq![]
    }
}

pub open spec fn right_arm(arms: [u8; 4], w: int, h: int) -> Seq<Rect> {
    let t = stroke(arms@[3], w, h);
    if arms@[3] > 0 {
        seq![
            pixels(far_stop(vertical(arms, w, h), w), band_start(t, h), w, band_end(t, h)),
        ]
    } else {
        seq![]
    }
}

pub open spec fn up_arm(arms: [u8; 4], w: int, h: int) -> Seq<Rect> {
    let t = stroke(arms@[0], w, h);
    if arms@[0] > 0 {
        seq![
            pixels(band_start(t, w), 0, band_end(t, w), near_stop(horizontal(arms, w, h), h)),
        ]
    } else {
        seq![]
    }
}

pub open spec fn down_arm(arms: [u8; 4], w: int, h: int) -> Seq<Rect> {
    let t = stroke(arms@[1], w, h);
    if arms@[1] > 0 {
        seq![
            pixels(band_start(t, w), far_stop(horizontal(arms, w, h), h), band_end(t, w), h),
        ]
    } else {
        seq![]
    }
}

/// The lines of a character, from each edge to the far side of the lines that it meets there, so
/// that no corner has a notch.
pub open spec fn arm_rects(arms: [u8; 4], w: int, h: int) -> Seq<Rect> {
    left_arm(arms, w, h) + right_arm(arms, w, h) + up_arm(arms, w, h) + down_arm(arms, w, h)
}

/// A rectangle by its sides in eighths of a pixel.
pub open spec fn eighths(x0: int, y0: int, x1: int, y1: int) -> Rect {
    Rect { x0: x0 as u64, y0: y0 as u64, x1: x1 as u64, y1: y1 as u64 }
}

pub open spec fn one_if(condition: bool, rect: Rect) -> Seq<Rect> {
    if condition {
        seq![rect]
    } else {
        seq![]
    }
}

/// The quarters of the cell that a character fills.
pub open spec fn quadrant_rects(quadrants: [bool; 4], w: int, h: int) -> Seq<Rect> {
    one_if(quadrants@[0], eighths(0, 0, 4 * w, 4 * h)) + one_if(
        quadrants@[1],
        eighths(4 * w, 0, 8 * w, 4 * h),
    ) + one_if(quadrants@[2], eighths(0, 4 * h, 4 * w, 8 * h)) + one_if(
        quadrants@[3],
        eighths(4 * w, 4 * h, 8 * w, 8 * h),
    )
}

/// The part of the cell that a block fills: an exact fraction, so that bars of different heights
/// can be told apart in a small cell.
pub open spec fn block_rects(code: int, w: int, h: int) -> Seq<Rect> {
    if code == 0x2580 {
        seq![eighths(0, 0, 8 * w, 4 * h)]
    } else if code <= 0x2588 {
        seq![eighths(0, 8 * h - (code - 0x2580) * h, 8 * w, 8 * h)]
    } else if code <= 0x258f {
        seq![eighths(0, 0, (0x2590 - code) * w, 8 * h)]
    } else if code == 0x2590 {
        seq![eighths(4 * w, 0, 8 * w, 8 * h)]
    } else if code <= 0x2593 {
        seq![eighths(0, 0, 8 * w, 8 * h)]
    } else if code == 0x2594 {
        seq![eighths(0, 0, 8 * w, h)]
    } else if code == 0x2595 {
        seq![eighths(7 * w, 0, 8 * w, 8 * h)]
    } else {
        quadrant_rects(tables::quarters(code), w, h)
    }
}

/// How much ink a block has: the shades have a quarter, a half and three quarters.
pub open spec fn block_alpha(code: int) -> u32 {
    if code == 0x2591 {
        1
    } else if code == 0x2592 {
        2
    } else if code == 0x2593 {
        3
    } else {
        4
    }
}

/// Whether a character of the lines has any.
pub open spec fn has_arms(arms: [u8; 4]) -> bool {
    arms@[0] > 0 || arms@[1] > 0 || arms@[2] > 0 || arms@[3] > 0
}

/// The lines of a character as a shape.
pub open spec fn lines(arms: [u8; 4], w: int, h: int) -> ShapeView {
    ShapeView { rects: arm_rects(arms, w, h), alpha: 4 }
}

/// The shape of a character in a cell; nothing where the font draws it.
pub open spec fn shape_of(ch: char, w: int, h: int) -> Option<ShapeView> {
    let code = ch as int;
    if w == 0 || h == 0 {
        None
    } else if 0x2500 <= code <= 0x257f {
        if has_arms(tables::weights(code)) {
            Some(lines(tables::weights(code), w, h))
        } else {
            None
        }
    } else if 0x2580 <= code <= 0x259f {
        Some(ShapeView { rects: block_rects(code, w, h), alpha: block_alpha(code) })
    } else {
        None
    }
}

/// The shape of a character in a cell of so many pixels; nothing where the font draws it, or where
/// the cell has no pixels.
pub fn shape_for(ch: char, cell_width: u32, cell_height: u32) -> (shape: Option<CellShape>)
    ensures
        match shape {
            Some(shape) => shape_of(ch, cell_width as int, cell_height as int) == Some(shape@)
                && shape.alpha <= 4,
            None => shape_of(ch, cell_width as int, cell_height as int) is None,
        },
{
    if cell_width == 0 || cell_height == 0 {
        return None;
    }
    let w: u64 = cell_width as u64;
    let h: u64 = cell_height as u64;
    let code: u32 = ch as u32;
    if 0x2500 <= code && code <= 0x257f {
        box_drawing(box_weights(code), w, h)
    } else if 0x2580 <= code && code <= 0x259f {
        Some(block_element(code, w, h))
    } else {
        None
    }
}

fn stroke_px(weight: u8, w: u64, h: u64) -> (thickness: u64)
    requires
        0 < w <= u32::MAX,
        0 < h <= u32::MAX,
    ensures
        thickness == stroke(weight, w as int, h as int),
{
    let narrow: u64 = if w < h {
        w
    } else {
        h
    };
    let rounded: u64 = (narrow + 4) / 8;
    let light: u64 = if rounded > 1 {
        rounded
    } else {
        1
    };
    if weight == 0 {
        0
    } else if weight == 1 {
        light
    } else {
        2 * light
    }
}

fn band(thickness: u64, extent: u64) -> (sides: (u64, u64))
    requires
        thickness <= 2 * u32::MAX,
        0 < extent <= u32::MAX,
    ensures
        sides.0 == band_start(thickness as int, extent as int),
        sides.1 == band_end(thickness as int, extent as int),
        sides.0 <= extent,
        sides.1 <= extent,
{
    let start: u64 = if thickness < extent {
        (extent - thickness) / 2
    } else {
        0
    };
    let end: u64 = if start + thickness < extent {
        start + thickness
    } else {
        extent
    };
    (start, end)
}

fn pixel_rect(x0: u64, y0: u64, x1: u64, y1: u64) -> (rect: Rect)
    requires
        x0 <= u32::MAX,
        y0 <= u32::MAX,
        x1 <= u32::MAX,
        y1 <= u32::MAX,
    ensures
        rect == pixels(x0 as int, y0 as int, x1 as int, y1 as int),
{
    Rect { x0: 8 * x0, y0: 8 * y0, x1: 8 * x1, y1: 8 * y1 }
}

fn max_weight(a: u8, b: u8) -> (weight: u8)
    ensures
        weight == heavier(a, b),
{
    if a > b {
        a
    } else {
        b
    }
}

fn box_drawing(arms: [u8; 4], w: u64, h: u64) -> (shape: Option<CellShape>)
    requires
        0 < w <= u32::MAX,
        0 < h <= u32::MAX,
    ensures
        match shape {
            Some(shape) => has_arms(arms) && shape@ == lines(arms, w as int, h as int),
            None => !has_arms(arms),
        },
{
    let up: u8 = arms[0];
    let down: u8 = arms[1];
    let left: u8 = arms[2];
    let right: u8 = arms[3];
    if up == 0 && down == 0 && left == 0 && right == 0 {
        return None;
    }
    let upright: u64 = stroke_px(max_weight(up, down), w, h);
    let level: u64 = stroke_px(max_weight(left, right), w, h);
    let (vx0, vx1) = band(upright, w);
    let (hy0, hy1) = band(level, h);
    let left_stop: u64 = if upright > 0 {
        vx1
    } else {
        (w + 1) / 2
    };
    let right_stop: u64 = if upright > 0 {
        vx0
    } else {
        w / 2
    };
    let up_stop: u64 = if level > 0 {
        hy1
    } else {
        (h + 1) / 2
    };
    let down_stop: u64 = if level > 0 {
        hy0
    } else {
        h / 2
    };
    let mut rects: Vec<Rect> = Vec::new();
    if left > 0 {
        let (y0, y1) = band(stroke_px(left, w, h), h);
        rects.push(pixel_rect(0, y0, left_stop, y1));
    }
    assert(rects@ =~= left_arm(arms, w as int, h as int));
    if right > 0 {
        let (y0, y1) = band(stroke_px(right, w, h), h);
        rects.push(pixel_rect(right_stop, y0, w, y1));
    }
    assert(rects@ =~= left_arm(arms, w as int, h as int) + right_arm(arms, w as int, h as int));
    if up > 0 {
        let (x0, x1) = band(stroke_px(up, w, h), w);
        rects.push(pixel_rect(x0, 0, x1, up_stop));
    }
    assert(rects@ =~= left_arm(arms, w as int, h as int) + right_arm(arms, w as int, h as int)
        + up_arm(arms, w as int, h as int));
    if down > 0 {
        let (x0, x1) = band(stroke_px(down, w, h), w);
        rects.push(pixel_rect(x0, down_stop, x1, h));
    }
    assert(rects@ =~= arm_rects(arms, w as int, h as int));
    Some(CellShape { rects, alpha: 4 })
}

fn push_if(rects: &mut Vec<Rect>, condition: bool, rect: Rect)
    ensures
        final(rects)@ == old(rects)@ + one_if(condition, rect),
{
    if condition {
        rects.push(rect);
    }
    assert(rects@ =~= old(rects)@ + one_if(condition, rect));
}

fn block_element(code: u32, w: u64, h: u64) -> (shape: CellShape)
    requires
        0x2580 <= code <= 0x259f,
        0 < w <= u32::MAX,
        0 < h <= u32::MAX,
    ensures
        shape@ == (ShapeView {
            rects: block_rects(code as int, w as int, h as int),
            alpha: block_alpha(code as int),
        }),
{
    let mut rects: Vec<Rect> = Vec::new();
    let mut alpha: u32 = 4;
    if code == 0x2580 {
        rects.push(Rect { x0: 0, y0: 0, x1: 8 * w, y1: 4 * h });
    } else if code <= 0x2588 {
        let filled: u64 = (code - 0x2580) as u64;
        assert(0 <= filled * h <= 8 * h) by (nonlinear_arith)
            requires
                0 <= filled <= 8,
                0 < h,
        ;
        rects.push(Rect { x0: 0, y0: 8 * h - filled * h, x1: 8 * w, y1: 8 * h });
    } else if code <= 0x258f {
        let filled: u64 = (0x2590 - code) as u64;
        assert(0 <= filled * w <= 8 * w) by (nonlinear_arith)
            requires
                0 <= filled <= 8,
                0 < w,
        ;
        rects.push(Rect { x0: 0, y0: 0, x1: filled * w, y1: 8 * h });
    } else if code == 0x2590 {
        rects.push(Rect { x0: 4 * w, y0: 0, x1: 8 * w, y1: 8 * h });
    } else if code <= 0x2593 {
        alpha = code - 0x2590;
        rects.push(Rect { x0: 0, y0: 0, x1: 8 * w, y1: 8 * h });
    } else if code == 0x2594 {
        rects.push(Rect { x0: 0, y0: 0, x1: 8 * w, y1: h });
    } else if code == 0x2595 {
        rects.push(Rect { x0: 7 * w, y0: 0, x1: 8 * w, y1: 8 * h });
    } else {
        let quadrants = quadrants_of(code);
        push_if(&mut rects, quadrants[0], Rect { x0: 0, y0: 0, x1: 4 * w, y1: 4 * h });
        push_if(&mut rects, quadrants[1], Rect { x0: 4 * w, y0: 0, x1: 8 * w, y1: 4 * h });
        push_if(&mut rects, quadrants[2], Rect { x0: 0, y0: 4 * h, x1: 4 * w, y1: 8 * h });
        push_if(&mut rects, quadrants[3], Rect { x0: 4 * w, y0: 4 * h, x1: 8 * w, y1: 8 * h });
    }
    assert(rects@ =~= block_rects(code as int, w as int, h as int));
    CellShape { rects, alpha }
}

proof fn lemma_row_bounds(rects: Seq<Rect>, across: int, down: int, n: int)
    requires
        0 <= n,
    ensures
        0 <= row_squares(rects, across, down, n) <= n,
    decreases n,
{
    if n > 0 {
        lemma_row_bounds(rects, across, down, n - 1);
    }
}

proof fn lemma_square_bounds(rects: Seq<Rect>, across: int, down: int, n: int)
    requires
        0 <= n,
    ensures
        0 <= squares(rects, across, down, n) <= 8 * n,
    decreases n,
{
    if n > 0 {
        lemma_square_bounds(rects, across, down, n - 1);
        lemma_row_bounds(rects, across, down + n - 1, 8);
    }
}

/// Two numbers are at most a third, and the third is at most their sum; and it is their sum where
/// they have nothing in common.
spec fn joined(whole: int, a: int, b: int, apart: bool) -> bool {
    &&& a <= whole
    &&& b <= whole
    &&& whole <= a + b
    &&& apart ==> whole == a + b
}

/// Whether no square lies in rectangles of both.
spec fn apart(a: Seq<Rect>, b: Seq<Rect>) -> bool {
    forall|across: int, down: int|
        #![trigger inked(a, across, down)]
        #![trigger inked(b, across, down)]
        !(inked(a, across, down) && inked(b, across, down))
}

proof fn lemma_inked_concat(a: Seq<Rect>, b: Seq<Rect>, across: int, down: int)
    ensures
        inked(a + b, across, down) == (inked(a, across, down) || inked(b, across, down)),
{
    let whole = a + b;
    if inked(a, across, down) {
        let i = choose|i: int| 0 <= i < a.len() && (#[trigger] a[i]).holds(across, down);
        assert(whole[i] == a[i]);
    }
    if inked(b, across, down) {
        let i = choose|i: int| 0 <= i < b.len() && (#[trigger] b[i]).holds(across, down);
        assert(whole[a.len() + i] == b[i]);
    }
    if inked(whole, across, down) {
        let i = choose|i: int| 0 <= i < whole.len() && (#[trigger] whole[i]).holds(across, down);
        if i < a.len() {
            assert(whole[i] == a[i]);
        } else {
            assert(whole[i] == b[i - a.len()]);
        }
    }
}

proof fn lemma_row_concat(a: Seq<Rect>, b: Seq<Rect>, across: int, down: int, n: int)
    requires
        0 <= n,
    ensures
        joined(
            row_squares(a + b, across, down, n),
            row_squares(a, across, down, n),
            row_squares(b, across, down, n),
            apart(a, b),
        ),
    decreases n,
{
    if n > 0 {
        lemma_row_concat(a, b, across, down, n - 1);
        lemma_inked_concat(a, b, across + n - 1, down);
    }
}

proof fn lemma_squares_concat(a: Seq<Rect>, b: Seq<Rect>, across: int, down: int, n: int)
    requires
        0 <= n,
    ensures
        joined(
            squares(a + b, across, down, n),
            squares(a, across, down, n),
            squares(b, across, down, n),
            apart(a, b),
        ),
    decreases n,
{
    if n > 0 {
        lemma_squares_concat(a, b, across, down, n - 1);
        lemma_row_concat(a, b, across, down + n - 1, 8);
    }
}

proof fn lemma_concat(a: Seq<Rect>, b: Seq<Rect>, x: int, y: int)
    ensures
        joined(part(a + b, x, y), part(a, x, y), part(b, x, y), apart(a, b)),
        0 <= part(a, x, y) <= 64,
        0 <= part(b, x, y) <= 64,
        0 <= part(a + b, x, y) <= 64,
{
    lemma_squares_concat(a, b, 8 * x, 8 * y, 8);
    lemma_square_bounds(a, 8 * x, 8 * y, 8);
    lemma_square_bounds(b, 8 * x, 8 * y, 8);
    lemma_square_bounds(a + b, 8 * x, 8 * y, 8);
}

/// How many of the first `n` squares lie between two sides.
spec fn span(low: int, high: int, at: int, n: int) -> int {
    let from = if low > at {
        low
    } else {
        at
    };
    let to = if high < at + n {
        high
    } else {
        at + n
    };
    if from < to {
        to - from
    } else {
        0
    }
}

proof fn lemma_inked_one(rect: Rect, across: int, down: int)
    ensures
        inked(seq![rect], across, down) == rect.holds(across, down),
        !inked(seq![], across, down),
{
    assert(seq![rect][0] == rect);
}

proof fn lemma_row_one(rect: Rect, across: int, down: int, n: int)
    requires
        0 <= n,
    ensures
        row_squares(seq![rect], across, down, n) == if rect.y0 <= down < rect.y1 {
            span(rect.x0 as int, rect.x1 as int, across, n)
        } else {
            0
        },
        row_squares(seq![], across, down, n) == 0,
    decreases n,
{
    if n > 0 {
        lemma_row_one(rect, across, down, n - 1);
        lemma_inked_one(rect, across + n - 1, down);
    }
}

proof fn lemma_squares_one(rect: Rect, across: int, down: int, n: int)
    requires
        0 <= n,
    ensures
        squares(seq![rect], across, down, n) == span(rect.x0 as int, rect.x1 as int, across, 8)
            * span(rect.y0 as int, rect.y1 as int, down, n),
        squares(seq![], across, down, n) == 0,
    decreases n,
{
    let wide = span(rect.x0 as int, rect.x1 as int, across, 8);
    let high = span(rect.y0 as int, rect.y1 as int, down, n);
    if n > 0 {
        let before = span(rect.y0 as int, rect.y1 as int, down, n - 1);
        lemma_squares_one(rect, across, down, n - 1);
        lemma_row_one(rect, across, down + n - 1, 8);
        assert(wide * (before + 1) == wide * before + wide) by (nonlinear_arith);
    } else {
        assert(wide * high == 0) by (nonlinear_arith)
            requires
                high == 0,
        ;
    }
}

proof fn lemma_one(rect: Rect, x: int, y: int)
    ensures
        part(seq![rect], x, y) == rect_part(rect, x, y),
        part(seq![], x, y) == 0,
{
    lemma_squares_one(rect, 8 * x, 8 * y, 8);
}

/// What a line covers of a pixel, where there is one.
spec fn arm_part(arm: Seq<Rect>, x: int, y: int) -> int {
    if arm.len() == 0 {
        0
    } else {
        rect_part(arm[0], x, y)
    }
}

/// Each line covers a pixel wholly or not at all, and so do all together.
proof fn lemma_arms(arms: [u8; 4], w: int, h: int, x: int, y: int)
    requires
        0 < w <= u32::MAX,
        0 < h <= u32::MAX,
    ensures
        part(arm_rects(arms, w, h), x, y) == larger(
            larger(
                larger(
                    arm_part(left_arm(arms, w, h), x, y),
                    arm_part(right_arm(arms, w, h), x, y),
                ),
                arm_part(up_arm(arms, w, h), x, y),
            ),
            arm_part(down_arm(arms, w, h), x, y),
        ),
{
    let l = left_arm(arms, w, h);
    let r = right_arm(arms, w, h);
    let u = up_arm(arms, w, h);
    let d = down_arm(arms, w, h);
    lemma_arm_pixels(arms, w, h, x, y);
    lemma_concat(l + r + u, d, x, y);
    lemma_concat(l + r, u, x, y);
    lemma_concat(l, r, x, y);
    lemma_arm(l, x, y);
    lemma_arm(r, x, y);
    lemma_arm(u, x, y);
    lemma_arm(d, x, y);
}

proof fn lemma_arm(arm: Seq<Rect>, x: int, y: int)
    requires
        arm.len() <= 1,
    ensures
        part(arm, x, y) == arm_part(arm, x, y),
{
    if arm.len() == 1 {
        assert(arm =~= seq![arm[0]]);
        lemma_one(arm[0], x, y);
    } else {
        assert(arm =~= seq![]);
        lemma_squares_one(pixels(0, 0, 0, 0), 8 * x, 8 * y, 8);
    }
}

proof fn lemma_lines_ink(arms: [u8; 4], w: int, h: int, x: int, y: int)
    ensures
        lines(arms, w, h).ink(x, y) == 4 * part(arm_rects(arms, w, h), x, y),
{
    let covered = part(arm_rects(arms, w, h), x, y);
    let alpha = lines(arms, w, h).alpha;
    assert(covered * alpha == 4 * covered) by (nonlinear_arith)
        requires
            alpha == 4,
    ;
}

/// A line of whole pixels covers a pixel wholly or not at all.
proof fn lemma_pixel_overlap(low: int, high: int, at: int)
    requires
        low <= high,
    ensures
        overlap(8 * low, 8 * high, at) == if low <= at < high {
            8int
        } else {
            0
        },
{
}

proof fn lemma_pixel_part(x0: int, y0: int, x1: int, y1: int, x: int, y: int)
    requires
        0 <= x0 <= x1 <= u32::MAX,
        0 <= y0 <= y1 <= u32::MAX,
    ensures
        rect_part(pixels(x0, y0, x1, y1), x, y) == if x0 <= x < x1 && y0 <= y < y1 {
            64int
        } else {
            0
        },
{
    lemma_pixel_overlap(x0, x1, x);
    lemma_pixel_overlap(y0, y1, y);
}

/// Where lines lie: in the cell, and a thinner one within a thicker one. In a cell of at least
/// four pixels they keep away from its edges.
proof fn lemma_band(thin: int, thick: int, extent: int)
    requires
        0 < extent,
        0 < thin <= thick,
    ensures
        0 <= band_start(thick, extent) <= band_start(thin, extent),
        band_start(thin, extent) < band_end(thin, extent) <= band_end(thick, extent) <= extent,
        thick <= extent - 2 ==> 0 < band_start(thick, extent) && band_end(thick, extent) < extent,
{
}

proof fn lemma_stroke(a: u8, b: u8, w: int, h: int)
    requires
        0 < w,
        0 < h,
    ensures
        0 <= stroke(a, w, h) <= stroke(heavier(a, b), w, h),
        a > 0 ==> stroke(a, w, h) > 0,
        stroke(heavier(a, b), w, h) == stroke(heavier(b, a), w, h),
        w >= 4 ==> stroke(a, w, h) <= w - 2,
        h >= 4 ==> stroke(a, w, h) <= h - 2,
{
}

/// A heavy line is exactly twice as thick as a light one, in every cell, and a light one has at
/// least one pixel.
pub proof fn law_heavy_is_twice_light(w: int, h: int)
    requires
        0 < w,
        0 < h,
    ensures
        stroke(2, w, h) == 2 * stroke(1, w, h),
        stroke(1, w, h) >= 1,
{
}

/// What each line of a character covers, pixel by pixel.
proof fn lemma_arm_pixels(arms: [u8; 4], w: int, h: int, x: int, y: int)
    requires
        0 < w <= u32::MAX,
        0 < h <= u32::MAX,
    ensures
        ({
            let v = vertical(arms, w, h);
            let z = horizontal(arms, w, h);
            let l = stroke(arms@[2], w, h);
            let r = stroke(arms@[3], w, h);
            let u = stroke(arms@[0], w, h);
            let d = stroke(arms@[1], w, h);
            &&& arm_part(left_arm(arms, w, h), x, y) == if arms@[2] > 0 && 0 <= x < near_stop(v, w)
                && band_start(l, h) <= y < band_end(l, h) {
                64int
            } else {
                0
            }
            &&& arm_part(right_arm(arms, w, h), x, y) == if arms@[3] > 0 && far_stop(v, w) <= x < w
                && band_start(r, h) <= y < band_end(r, h) {
                64int
            } else {
                0
            }
            &&& arm_part(up_arm(arms, w, h), x, y) == if arms@[0] > 0 && 0 <= y < near_stop(z, h)
                && band_start(u, w) <= x < band_end(u, w) {
                64int
            } else {
                0
            }
            &&& arm_part(down_arm(arms, w, h), x, y) == if arms@[1] > 0 && far_stop(z, h) <= y < h
                && band_start(d, w) <= x < band_end(d, w) {
                64int
            } else {
                0
            }
        }),
{
    let v = vertical(arms, w, h);
    let z = horizontal(arms, w, h);
    lemma_stroke(arms@[0], arms@[1], w, h);
    lemma_stroke(arms@[1], arms@[0], w, h);
    lemma_stroke(arms@[2], arms@[3], w, h);
    lemma_stroke(arms@[3], arms@[2], w, h);
    if v > 0 {
        lemma_band(v, v, w);
    }
    if z > 0 {
        lemma_band(z, z, h);
    }
    if arms@[2] > 0 {
        let t = stroke(arms@[2], w, h);
        lemma_band(t, z, h);
        lemma_pixel_part(0, band_start(t, h), near_stop(v, w), band_end(t, h), x, y);
    }
    if arms@[3] > 0 {
        let t = stroke(arms@[3], w, h);
        lemma_band(t, z, h);
        lemma_pixel_part(far_stop(v, w), band_start(t, h), w, band_end(t, h), x, y);
    }
    if arms@[0] > 0 {
        let t = stroke(arms@[0], w, h);
        lemma_band(t, v, w);
        lemma_pixel_part(band_start(t, w), 0, band_end(t, w), near_stop(z, h), x, y);
    }
    if arms@[1] > 0 {
        let t = stroke(arms@[1], w, h);
        lemma_band(t, v, w);
        lemma_pixel_part(band_start(t, w), far_stop(z, h), band_end(t, w), h, x, y);
    }
}

/// A line reaches the edge that it points at, in the middle of it, whatever the cell: one above
/// runs into one below, and one on the left into one on the right.
pub proof fn law_lines_reach_their_edges(arms: [u8; 4], w: int, h: int)
    requires
        0 < w <= u32::MAX,
        0 < h <= u32::MAX,
    ensures
        arms@[0] > 0 ==> lines(arms, w, h).ink(band_start(stroke(arms@[0], w, h), w), 0) == 256,
        arms@[1] > 0 ==> lines(arms, w, h).ink(band_start(stroke(arms@[1], w, h), w), h - 1) == 256,
        arms@[2] > 0 ==> lines(arms, w, h).ink(0, band_start(stroke(arms@[2], w, h), h)) == 256,
        arms@[3] > 0 ==> lines(arms, w, h).ink(w - 1, band_start(stroke(arms@[3], w, h), h)) == 256,
{
    let v = vertical(arms, w, h);
    let z = horizontal(arms, w, h);
    lemma_stroke(arms@[0], arms@[1], w, h);
    lemma_stroke(arms@[1], arms@[0], w, h);
    lemma_stroke(arms@[2], arms@[3], w, h);
    lemma_stroke(arms@[3], arms@[2], w, h);
    if v > 0 {
        lemma_band(v, v, w);
    }
    if z > 0 {
        lemma_band(z, z, h);
    }
    if arms@[0] > 0 {
        let x = band_start(stroke(arms@[0], w, h), w);
        lemma_band(stroke(arms@[0], w, h), v, w);
        lemma_arm_pixels(arms, w, h, x, 0);
        lemma_arms(arms, w, h, x, 0);
        lemma_lines_ink(arms, w, h, x, 0);
    }
    if arms@[1] > 0 {
        let x = band_start(stroke(arms@[1], w, h), w);
        lemma_band(stroke(arms@[1], w, h), v, w);
        lemma_arm_pixels(arms, w, h, x, h - 1);
        lemma_arms(arms, w, h, x, h - 1);
        lemma_lines_ink(arms, w, h, x, h - 1);
    }
    if arms@[2] > 0 {
        let y = band_start(stroke(arms@[2], w, h), h);
        lemma_band(stroke(arms@[2], w, h), z, h);
        lemma_arm_pixels(arms, w, h, 0, y);
        lemma_arms(arms, w, h, 0, y);
        lemma_lines_ink(arms, w, h, 0, y);
    }
    if arms@[3] > 0 {
        let y = band_start(stroke(arms@[3], w, h), h);
        lemma_band(stroke(arms@[3], w, h), z, h);
        lemma_arm_pixels(arms, w, h, w - 1, y);
        lemma_arms(arms, w, h, w - 1, y);
        lemma_lines_ink(arms, w, h, w - 1, y);
    }
}

/// What is on the edges of a cell of at least four pixels each way: the lines that point there,
/// and nothing else. So a character leaves alone the edges that it has no line to, and two
/// characters whose lines meet at an edge with the same weight have the same ink on both sides of
/// it.
pub proof fn law_edges_hold_their_lines_alone(arms: [u8; 4], w: int, h: int, x: int, y: int)
    requires
        4 <= w <= u32::MAX,
        4 <= h <= u32::MAX,
        0 <= x < w,
        0 <= y < h,
    ensures
        lines(arms, w, h).ink(x, 0) == on_edge(arms@[0], w, h, w, x),
        lines(arms, w, h).ink(x, h - 1) == on_edge(arms@[1], w, h, w, x),
        lines(arms, w, h).ink(0, y) == on_edge(arms@[2], w, h, h, y),
        lines(arms, w, h).ink(w - 1, y) == on_edge(arms@[3], w, h, h, y),
{
    let v = vertical(arms, w, h);
    let z = horizontal(arms, w, h);
    lemma_stroke(arms@[0], arms@[1], w, h);
    lemma_stroke(arms@[1], arms@[0], w, h);
    lemma_stroke(arms@[2], arms@[3], w, h);
    lemma_stroke(arms@[3], arms@[2], w, h);
    lemma_stroke(heavier(arms@[0], arms@[1]), 0, w, h);
    lemma_stroke(heavier(arms@[2], arms@[3]), 0, w, h);
    if v > 0 {
        lemma_band(v, v, w);
    }
    if z > 0 {
        lemma_band(z, z, h);
    }
    if arms@[0] > 0 {
        lemma_band(stroke(arms@[0], w, h), v, w);
    }
    if arms@[1] > 0 {
        lemma_band(stroke(arms@[1], w, h), v, w);
    }
    if arms@[2] > 0 {
        lemma_band(stroke(arms@[2], w, h), z, h);
    }
    if arms@[3] > 0 {
        lemma_band(stroke(arms@[3], w, h), z, h);
    }
    lemma_arm_pixels(arms, w, h, x, 0);
    lemma_arms(arms, w, h, x, 0);
    lemma_lines_ink(arms, w, h, x, 0);
    lemma_arm_pixels(arms, w, h, x, h - 1);
    lemma_arms(arms, w, h, x, h - 1);
    lemma_lines_ink(arms, w, h, x, h - 1);
    lemma_arm_pixels(arms, w, h, 0, y);
    lemma_arms(arms, w, h, 0, y);
    lemma_lines_ink(arms, w, h, 0, y);
    lemma_arm_pixels(arms, w, h, w - 1, y);
    lemma_arms(arms, w, h, w - 1, y);
    lemma_lines_ink(arms, w, h, w - 1, y);
}

/// The ink that a line of some weight leaves along an edge.
pub open spec fn on_edge(weight: u8, w: int, h: int, extent: int, at: int) -> int {
    let t = stroke(weight, w, h);
    if weight > 0 && band_start(t, extent) <= at < band_end(t, extent) {
        256
    } else {
        0
    }
}

/// Where a vertical and a horizontal line of a character cross there is ink: no corner has a
/// notch.
pub proof fn law_lines_meet(arms: [u8; 4], w: int, h: int, down: bool, right: bool)
    requires
        0 < w <= u32::MAX,
        0 < h <= u32::MAX,
        arms@[if down { 1int } else { 0 }] > 0,
        arms@[if right { 3int } else { 2 }] > 0,
    ensures
        lines(arms, w, h).ink(
            band_start(stroke(arms@[if down { 1int } else { 0 }], w, h), w),
            band_start(stroke(arms@[if right { 3int } else { 2 }], w, h), h),
        ) == 256,
{
    let v = vertical(arms, w, h);
    let z = horizontal(arms, w, h);
    let tv = stroke(arms@[if down { 1int } else { 0 }], w, h);
    let tz = stroke(arms@[if right { 3int } else { 2 }], w, h);
    lemma_stroke(arms@[0], arms@[1], w, h);
    lemma_stroke(arms@[1], arms@[0], w, h);
    lemma_stroke(arms@[2], arms@[3], w, h);
    lemma_stroke(arms@[3], arms@[2], w, h);
    lemma_band(tv, v, w);
    lemma_band(tz, z, h);
    let x = band_start(tv, w);
    let y = band_start(tz, h);
    lemma_arm_pixels(arms, w, h, x, y);
    lemma_arms(arms, w, h, x, y);
    lemma_lines_ink(arms, w, h, x, y);
}

/// A line that meets no other stops in the middle of a cell of two pixels or more.
pub proof fn law_a_stub_stops_in_the_middle(arms: [u8; 4], w: int, h: int, x: int, y: int)
    requires
        0 < w <= u32::MAX,
        0 < h <= u32::MAX,
        arms@[0] == 0 && arms@[1] == 0 && arms@[3] == 0,
        (w + 1) / 2 <= x < w,
    ensures
        lines(arms, w, h).ink(x, y) == 0,
{
    lemma_arm_pixels(arms, w, h, x, y);
    lemma_arms(arms, w, h, x, y);
    lemma_lines_ink(arms, w, h, x, y);
}

/// A shape of one rectangle.
spec fn single(rect: Rect, alpha: u32) -> ShapeView {
    ShapeView { rects: seq![rect], alpha }
}

proof fn lemma_single(rect: Rect, alpha: u32, x: int, y: int)
    ensures
        single(rect, alpha).ink(x, y) == rect_part(rect, x, y) * alpha,
        alpha == 1 ==> single(rect, alpha).ink(x, y) == rect_part(rect, x, y),
        alpha == 2 ==> single(rect, alpha).ink(x, y) == 2 * rect_part(rect, x, y),
        alpha == 3 ==> single(rect, alpha).ink(x, y) == 3 * rect_part(rect, x, y),
        alpha == 4 ==> single(rect, alpha).ink(x, y) == 4 * rect_part(rect, x, y),
{
    lemma_one(rect, x, y);
    let covered = rect_part(rect, x, y);
    assert(covered * 1 == covered && covered * 2 == 2 * covered && covered * 3 == 3 * covered
        && covered * 4 == 4 * covered);
}

/// The full block covers every pixel of its cell, so that a wall of them has no seam; and each
/// shade has the same share of ink on every pixel, the darker the more.
pub proof fn law_full_block_and_shades(w: int, h: int, x: int, y: int)
    requires
        0 < w <= u32::MAX,
        0 < h <= u32::MAX,
        0 <= x < w,
        0 <= y < h,
    ensures
        shape_of('\u{2588}', w, h)->0.ink(x, y) == 256,
        shape_of('\u{2591}', w, h)->0.ink(x, y) == 64,
        shape_of('\u{2592}', w, h)->0.ink(x, y) == 128,
        shape_of('\u{2593}', w, h)->0.ink(x, y) == 192,
{
    let full = eighths(0, 0, 8 * w, 8 * h);
    lemma_single(full, 4, x, y);
    lemma_single(full, 1, x, y);
    lemma_single(full, 2, x, y);
    lemma_single(full, 3, x, y);
    lemma_pixel_overlap(0, w, x);
    lemma_pixel_overlap(0, h, y);
    assert(8 * h - (0x2588 - 0x2580) * h == 0);
    assert(shape_of('\u{2588}', w, h)->0 =~= single(full, 4));
    assert(shape_of('\u{2591}', w, h)->0 =~= single(full, 1));
    assert(shape_of('\u{2592}', w, h)->0 =~= single(full, 2));
    assert(shape_of('\u{2593}', w, h)->0 =~= single(full, 3));
}

/// Opposite halves share out every pixel between them: no overlap and no gap.
pub proof fn law_halves_tile(w: int, h: int, x: int, y: int)
    requires
        0 < w <= u32::MAX,
        0 < h <= u32::MAX,
        0 <= x < w,
        0 <= y < h,
    ensures
        shape_of('\u{2580}', w, h)->0.ink(x, y) + shape_of('\u{2584}', w, h)->0.ink(x, y) == 256,
        shape_of('\u{258c}', w, h)->0.ink(x, y) + shape_of('\u{2590}', w, h)->0.ink(x, y) == 256,
{
    lemma_single(eighths(0, 0, 8 * w, 4 * h), 4, x, y);
    lemma_single(eighths(0, 8 * h - 4 * h, 8 * w, 8 * h), 4, x, y);
    lemma_single(eighths(0, 0, 4 * w, 8 * h), 4, x, y);
    lemma_single(eighths(4 * w, 0, 8 * w, 8 * h), 4, x, y);
    lemma_pixel_overlap(0, w, x);
    lemma_pixel_overlap(0, h, y);
    let across = overlap(0, 8 * w, x);
    let down = overlap(0, 8 * h, y);
    let upper = overlap(0, 4 * h, y);
    let lower = overlap(4 * h, 8 * h, y);
    let left = overlap(0, 4 * w, x);
    let right = overlap(4 * w, 8 * w, x);
    assert(4 * (across * upper) + 4 * (across * lower) == 256 && 4 * (left * down) + 4 * (right
        * down) == 256) by (nonlinear_arith)
        requires
            across == 8,
            down == 8,
            upper + lower == 8,
            left + right == 8,
    ;
    assert(shape_of('\u{2580}', w, h)->0 =~= single(eighths(0, 0, 8 * w, 4 * h), 4));
    assert(shape_of('\u{2584}', w, h)->0 =~= single(
        eighths(0, 8 * h - 4 * h, 8 * w, 8 * h),
        4,
    ));
    assert(shape_of('\u{258c}', w, h)->0 =~= single(eighths(0, 0, 4 * w, 8 * h), 4));
    assert(shape_of('\u{2590}', w, h)->0 =~= single(eighths(4 * w, 0, 8 * w, 8 * h), 4));
}

/// The four quarters share out every pixel between them.
pub proof fn law_quadrants_tile(w: int, h: int, x: int, y: int)
    requires
        0 < w <= u32::MAX,
        0 < h <= u32::MAX,
        0 <= x < w,
        0 <= y < h,
    ensures
        shape_of('\u{2598}', w, h)->0.ink(x, y) + shape_of('\u{259d}', w, h)->0.ink(x, y)
            + shape_of('\u{2596}', w, h)->0.ink(x, y) + shape_of('\u{2597}', w, h)->0.ink(x, y)
            == 256,
{
    let ul = eighths(0, 0, 4 * w, 4 * h);
    let ur = eighths(4 * w, 0, 8 * w, 4 * h);
    let ll = eighths(0, 4 * h, 4 * w, 8 * h);
    let lr = eighths(4 * w, 4 * h, 8 * w, 8 * h);
    lemma_single(ul, 4, x, y);
    lemma_single(ur, 4, x, y);
    lemma_single(ll, 4, x, y);
    lemma_single(lr, 4, x, y);
    reveal(tables::quarters);
    assert(quadrant_rects(tables::quarters(0x2598), w, h) =~= seq![ul]);
    assert(quadrant_rects(tables::quarters(0x259d), w, h) =~= seq![ur]);
    assert(quadrant_rects(tables::quarters(0x2596), w, h) =~= seq![ll]);
    assert(quadrant_rects(tables::quarters(0x2597), w, h) =~= seq![lr]);
    let a = overlap(0, 4 * w, x);
    let b = overlap(4 * w, 8 * w, x);
    let c = overlap(0, 4 * h, y);
    let d = overlap(4 * h, 8 * h, y);
    assert(a * c * 4 + b * c * 4 + a * d * 4 + b * d * 4 == 256) by (nonlinear_arith)
        requires
            a + b == 8,
            c + d == 8,
    ;
}

proof fn lemma_rects_apart(a: Seq<Rect>, b: Seq<Rect>)
    requires
        forall|i: int, j: int|
            0 <= i < a.len() && 0 <= j < b.len() ==> (#[trigger] a[i]).x1 <= (#[trigger] b[j]).x0
                || b[j].x1 <= a[i].x0 || a[i].y1 <= b[j].y0 || b[j].y1 <= a[i].y0,
    ensures
        apart(a, b),
{
    assert forall|across: int, down: int| !(inked(a, across, down) && inked(b, across, down)) by {
        if inked(a, across, down) && inked(b, across, down) {
            let i = choose|i: int| 0 <= i < a.len() && (#[trigger] a[i]).holds(across, down);
            let j = choose|j: int| 0 <= j < b.len() && (#[trigger] b[j]).holds(across, down);
            assert(a[i].holds(across, down) && b[j].holds(across, down));
        }
    }
}

proof fn lemma_full_alpha(shape: ShapeView, x: int, y: int)
    requires
        shape.alpha == 4,
    ensures
        shape.ink(x, y) == 4 * part(shape.rects, x, y),
{
    let covered = part(shape.rects, x, y);
    assert(covered * 4 == 4 * covered);
}

/// The quarters of the cell that are chosen cover together what each of them covers alone.
proof fn lemma_quadrants(quadrants: [bool; 4], w: int, h: int, x: int, y: int)
    requires
        0 < w <= u32::MAX,
        0 < h <= u32::MAX,
    ensures
        part(quadrant_rects(quadrants, w, h), x, y) == (if quadrants@[0] {
            overlap(0, 4 * w, x) * overlap(0, 4 * h, y)
        } else {
            0
        }) + (if quadrants@[1] {
            overlap(4 * w, 8 * w, x) * overlap(0, 4 * h, y)
        } else {
            0
        }) + (if quadrants@[2] {
            overlap(0, 4 * w, x) * overlap(4 * h, 8 * h, y)
        } else {
            0
        }) + (if quadrants@[3] {
            overlap(4 * w, 8 * w, x) * overlap(4 * h, 8 * h, y)
        } else {
            0
        }),
{
    let ul = eighths(0, 0, 4 * w, 4 * h);
    let ur = eighths(4 * w, 0, 8 * w, 4 * h);
    let ll = eighths(0, 4 * h, 4 * w, 8 * h);
    let lr = eighths(4 * w, 4 * h, 8 * w, 8 * h);
    let a = one_if(quadrants@[0], ul);
    let b = one_if(quadrants@[1], ur);
    let c = one_if(quadrants@[2], ll);
    let d = one_if(quadrants@[3], lr);
    lemma_rects_apart(a, b);
    lemma_rects_apart(a + b, c);
    lemma_rects_apart(a + b + c, d);
    lemma_concat(a, b, x, y);
    lemma_concat(a + b, c, x, y);
    lemma_concat(a + b + c, d, x, y);
    lemma_one(ul, x, y);
    lemma_one(ur, x, y);
    lemma_one(ll, x, y);
    lemma_one(lr, x, y);
}

/// A character of one quarter and the one of the three others share out every pixel between them,
/// and so do the two characters of opposite quarters, however the middle of the cell lies on the
/// pixels.
pub proof fn law_opposite_quadrants_tile(w: int, h: int, x: int, y: int)
    requires
        0 < w <= u32::MAX,
        0 < h <= u32::MAX,
        0 <= x < w,
        0 <= y < h,
    ensures
        shape_of('\u{259b}', w, h)->0.ink(x, y) + shape_of('\u{2597}', w, h)->0.ink(x, y) == 256,
        shape_of('\u{259c}', w, h)->0.ink(x, y) + shape_of('\u{2596}', w, h)->0.ink(x, y) == 256,
        shape_of('\u{2599}', w, h)->0.ink(x, y) + shape_of('\u{259d}', w, h)->0.ink(x, y) == 256,
        shape_of('\u{259f}', w, h)->0.ink(x, y) + shape_of('\u{2598}', w, h)->0.ink(x, y) == 256,
        shape_of('\u{259a}', w, h)->0.ink(x, y) + shape_of('\u{259e}', w, h)->0.ink(x, y) == 256,
{
    reveal(tables::quarters);
    lemma_quadrants(tables::quarters(0x2596), w, h, x, y);
    lemma_quadrants(tables::quarters(0x2597), w, h, x, y);
    lemma_quadrants(tables::quarters(0x2598), w, h, x, y);
    lemma_quadrants(tables::quarters(0x2599), w, h, x, y);
    lemma_quadrants(tables::quarters(0x259a), w, h, x, y);
    lemma_quadrants(tables::quarters(0x259b), w, h, x, y);
    lemma_quadrants(tables::quarters(0x259c), w, h, x, y);
    lemma_quadrants(tables::quarters(0x259d), w, h, x, y);
    lemma_quadrants(tables::quarters(0x259e), w, h, x, y);
    lemma_quadrants(tables::quarters(0x259f), w, h, x, y);
    lemma_full_alpha(shape_of('\u{2596}', w, h)->0, x, y);
    lemma_full_alpha(shape_of('\u{2597}', w, h)->0, x, y);
    lemma_full_alpha(shape_of('\u{2598}', w, h)->0, x, y);
    lemma_full_alpha(shape_of('\u{2599}', w, h)->0, x, y);
    lemma_full_alpha(shape_of('\u{259a}', w, h)->0, x, y);
    lemma_full_alpha(shape_of('\u{259b}', w, h)->0, x, y);
    lemma_full_alpha(shape_of('\u{259c}', w, h)->0, x, y);
    lemma_full_alpha(shape_of('\u{259d}', w, h)->0, x, y);
    lemma_full_alpha(shape_of('\u{259e}', w, h)->0, x, y);
    lemma_full_alpha(shape_of('\u{259f}', w, h)->0, x, y);
    let a = overlap(0, 4 * w, x);
    let b = overlap(4 * w, 8 * w, x);
    let c = overlap(0, 4 * h, y);
    let d = overlap(4 * h, 8 * h, y);
    assert(a * c + b * c + a * d + b * d == 64) by (nonlinear_arith)
        requires
            a + b == 8,
            c + d == 8,
    ;
}

/// The ink on the first pixels of a row.
pub open spec fn row_ink(shape: ShapeView, width: int, y: int) -> int
    decreases width,
{
    if width <= 0 {
        0
    } else {
        row_ink(shape, width - 1, y) + shape.ink(width - 1, y)
    }
}

/// The ink on the first rows of a cell.
pub open spec fn total_ink(shape: ShapeView, width: int, height: int) -> int
    decreases height,
{
    if height <= 0 {
        0
    } else {
        total_ink(shape, width, height - 1) + row_ink(shape, width, height - 1)
    }
}

/// The part of the first pixels that lies between two sides.
spec fn covered_before(low: int, high: int, pixels: int) -> int {
    let to = if high < 8 * pixels {
        high
    } else {
        8 * pixels
    };
    if low < to {
        to - low
    } else {
        0
    }
}

proof fn lemma_row_ink(rect: Rect, width: int, y: int)
    requires
        0 <= width,
    ensures
        row_ink(single(rect, 4), width, y) == 4 * covered_before(
            rect.x0 as int,
            rect.x1 as int,
            width,
        ) * overlap(rect.y0 as int, rect.y1 as int, y),
    decreases width,
{
    let b = overlap(rect.y0 as int, rect.y1 as int, y);
    if width > 0 {
        lemma_row_ink(rect, width - 1, y);
        lemma_single(rect, 4, width - 1, y);
        let before = covered_before(rect.x0 as int, rect.x1 as int, width - 1);
        let now = covered_before(rect.x0 as int, rect.x1 as int, width);
        let a = overlap(rect.x0 as int, rect.x1 as int, width - 1);
        assert(now == before + a);
        assert(4 * now * b == 4 * before * b + (a * b) * 4) by (nonlinear_arith)
            requires
                now == before + a,
        ;
    } else {
        assert(4 * covered_before(rect.x0 as int, rect.x1 as int, width) * b == 0)
            by (nonlinear_arith)
            requires
                covered_before(rect.x0 as int, rect.x1 as int, width) == 0,
        ;
    }
}

proof fn lemma_total_ink(rect: Rect, width: int, height: int)
    requires
        0 <= width,
        0 <= height,
    ensures
        total_ink(single(rect, 4), width, height) == 4 * covered_before(
            rect.x0 as int,
            rect.x1 as int,
            width,
        ) * covered_before(rect.y0 as int, rect.y1 as int, height),
    decreases height,
{
    let a = covered_before(rect.x0 as int, rect.x1 as int, width);
    if height > 0 {
        lemma_total_ink(rect, width, height - 1);
        lemma_row_ink(rect, width, height - 1);
        let before = covered_before(rect.y0 as int, rect.y1 as int, height - 1);
        let now = covered_before(rect.y0 as int, rect.y1 as int, height);
        let b = overlap(rect.y0 as int, rect.y1 as int, height - 1);
        assert(now == before + b);
        assert(4 * a * now == 4 * a * before + 4 * a * b) by (nonlinear_arith)
            requires
                now == before + b,
        ;
    } else {
        assert(4 * a * covered_before(rect.y0 as int, rect.y1 as int, height) == 0)
            by (nonlinear_arith)
            requires
                covered_before(rect.y0 as int, rect.y1 as int, height) == 0,
        ;
    }
}

/// The lower blocks rise by an eighth of the cell each, and the left ones by an eighth of it to the
/// right, without rounding: `n` eighths hold exactly so much of the cell's ink.
pub proof fn law_eighths_step_evenly(n: int, w: int, h: int)
    requires
        1 <= n <= 8,
        0 < w <= u32::MAX,
        0 < h <= u32::MAX,
    ensures
        8 * total_ink(shape_of((0x2580 + n) as char, w, h)->0, w, h) == 256 * n * w * h,
        n <= 7 ==> 8 * total_ink(shape_of((0x2590 - n) as char, w, h)->0, w, h) == 256 * n * w * h,
{
    assert(0 <= n * h <= 8 * h) by (nonlinear_arith)
        requires
            1 <= n <= 8,
            0 < h,
    ;
    assert(0 <= n * w <= 8 * w) by (nonlinear_arith)
        requires
            1 <= n <= 8,
            0 < w,
    ;
    let lower = eighths(0, 8 * h - n * h, 8 * w, 8 * h);
    lemma_total_ink(lower, w, h);
    assert(8 * (4 * (8 * w) * (n * h)) == 256 * n * w * h) by (nonlinear_arith);
    assert(shape_of((0x2580 + n) as char, w, h)->0 =~= single(lower, 4));
    if n <= 7 {
        let left = eighths(0, 0, n * w, 8 * h);
        lemma_total_ink(left, w, h);
        assert(8 * (4 * (n * w) * (8 * h)) == 256 * n * w * h) by (nonlinear_arith);
        assert(shape_of((0x2590 - n) as char, w, h)->0 =~= single(left, 4));
    }
}

/// A light line is as close to an eighth of the cell's narrow side as whole pixels come, halves
/// rounded up, but never thinner than a pixel.
pub proof fn law_a_light_line_is_an_eighth(w: int, h: int)
    requires
        0 < w,
        0 < h,
    ensures
        ({
            let narrow = if w < h {
                w
            } else {
                h
            };
            let light = stroke(1, w, h);
            &&& light >= 1
            &&& narrow < 8 * light + 4
            &&& light > 1 ==> 8 * light - 4 <= narrow
            &&& stroke(0, w, h) == 0
        }),
{
}

/// The ink at one place of an edge that is `extent` pixels long, if a line of some thickness
/// reaches it in its middle.
pub open spec fn middle_of_edge(thickness: int, extent: int, at: int) -> int {
    let start = (extent - thickness) / 2;
    if start <= at < start + thickness {
        256
    } else {
        0
    }
}

/// A character of lines has ink on an edge of its cell exactly where its name says that a line goes
/// there: in the middle of the edge, one light line wide for a light line and two for a heavy one.
/// A character whose name says nothing of such lines is left to the font.
pub proof fn law_characters_reach_the_edges_of_their_names(ch: char, w: int, h: int, x: int, y: int)
    requires
        0x2500 <= ch as int <= 0x257f,
        4 <= w <= u32::MAX,
        4 <= h <= u32::MAX,
        0 <= x < w,
        0 <= y < h,
    ensures
        ({
            let named = tables::named_lines(ch as int);
            let light = stroke(1, w, h);
            let shape = shape_of(ch, w, h);
            &&& shape is Some <==> named.up + named.down + named.left + named.right > 0
            &&& shape is Some ==> {
                &&& shape->0.ink(x, 0) == middle_of_edge(named.up * light, w, x)
                &&& shape->0.ink(x, h - 1) == middle_of_edge(named.down * light, w, x)
                &&& shape->0.ink(0, y) == middle_of_edge(named.left * light, h, y)
                &&& shape->0.ink(w - 1, y) == middle_of_edge(named.right * light, h, y)
            }
        }),
{
    let code = ch as int;
    let arms = tables::weights(code);
    tables::law_characters_have_the_lines_of_their_names(code);
    tables::law_weights_are_known(code - 0x2500, 0);
    tables::law_weights_are_known(code - 0x2500, 1);
    tables::law_weights_are_known(code - 0x2500, 2);
    tables::law_weights_are_known(code - 0x2500, 3);
    law_edges_hold_their_lines_alone(arms, w, h, x, y);
    lemma_on_edge(arms@[0], w, h, w, x);
    lemma_on_edge(arms@[1], w, h, w, x);
    lemma_on_edge(arms@[2], w, h, h, y);
    lemma_on_edge(arms@[3], w, h, h, y);
}

proof fn lemma_on_edge(weight: u8, w: int, h: int, extent: int, at: int)
    requires
        weight <= 2,
        4 <= w,
        4 <= h,
        extent == w || extent == h,
    ensures
        on_edge(weight, w, h, extent, at) == middle_of_edge(
            weight * stroke(1, w, h),
            extent,
            at,
        ),
{
    lemma_stroke(weight, 0, w, h);
    let light = stroke(1, w, h);
    assert(weight * light == stroke(weight, w, h)) by {
        assert(weight == 0 || weight == 1 || weight == 2);
        assert(0 * light == 0 && 1 * light == light && 2 * light == light + light);
    }
}

/// The lines of a character run unbroken from their edges to the middle of the cell, and what is
/// inked lies on a line: in the column of a vertical line or in the row of a horizontal one. Beyond
/// the middle there is none of a line that the character does not have.
pub proof fn law_lines_run_to_the_middle(arms: [u8; 4], w: int, h: int, x: int, y: int)
    requires
        0 < w <= u32::MAX,
        0 < h <= u32::MAX,
        0 <= x < w,
        0 <= y < h,
    ensures
        ({
            let ink = lines(arms, w, h).ink(x, y);
            let v = vertical(arms, w, h);
            let z = horizontal(arms, w, h);
            &&& arms@[0] > 0 && y < h / 2 && x == band_start(stroke(arms@[0], w, h), w) ==> ink
                == 256
            &&& arms@[1] > 0 && y >= h / 2 && x == band_start(stroke(arms@[1], w, h), w) ==> ink
                == 256
            &&& arms@[2] > 0 && x < w / 2 && y == band_start(stroke(arms@[2], w, h), h) ==> ink
                == 256
            &&& arms@[3] > 0 && x >= w / 2 && y == band_start(stroke(arms@[3], w, h), h) ==> ink
                == 256
            &&& ink == 0 || ink == 256
            &&& ink > 0 ==> (v > 0 && band_start(v, w) <= x < band_end(v, w)) || (z > 0
                && band_start(z, h) <= y < band_end(z, h))
            &&& arms@[2] == 0 && x < (w - v) / 2 ==> ink == 0
            &&& arms@[3] == 0 && x >= w - (w - v) / 2 ==> ink == 0
            &&& arms@[0] == 0 && y < (h - z) / 2 ==> ink == 0
            &&& arms@[1] == 0 && y >= h - (h - z) / 2 ==> ink == 0
        }),
{
    let v = vertical(arms, w, h);
    let z = horizontal(arms, w, h);
    lemma_stroke(arms@[0], arms@[1], w, h);
    lemma_stroke(arms@[1], arms@[0], w, h);
    lemma_stroke(arms@[2], arms@[3], w, h);
    lemma_stroke(arms@[3], arms@[2], w, h);
    if v > 0 {
        lemma_band(v, v, w);
    }
    if z > 0 {
        lemma_band(z, z, h);
    }
    if arms@[0] > 0 {
        lemma_band(stroke(arms@[0], w, h), v, w);
    }
    if arms@[1] > 0 {
        lemma_band(stroke(arms@[1], w, h), v, w);
    }
    if arms@[2] > 0 {
        lemma_band(stroke(arms@[2], w, h), z, h);
    }
    if arms@[3] > 0 {
        lemma_band(stroke(arms@[3], w, h), z, h);
    }
    lemma_arm_pixels(arms, w, h, x, y);
    lemma_arms(arms, w, h, x, y);
    lemma_lines_ink(arms, w, h, x, y);
}

/// The lines of a character are those of its name, all over its cell: along every line of the name,
/// from its edge to the middle, there is ink, and on a side to which the name has no line there is
/// none.
pub proof fn law_characters_have_ink_where_their_names_say(
    ch: char,
    w: int,
    h: int,
    x: int,
    y: int,
)
    requires
        0x2500 <= ch as int <= 0x257f,
        shape_of(ch, w, h) is Some,
        4 <= w <= u32::MAX,
        4 <= h <= u32::MAX,
        0 <= x < w,
        0 <= y < h,
    ensures
        ({
            let named = tables::named_lines(ch as int);
            let light = stroke(1, w, h);
            let ink = shape_of(ch, w, h)->0.ink(x, y);
            &&& named.up > 0 && y < h / 2 && x == (w - named.up * light) / 2 ==> ink == 256
            &&& named.down > 0 && y >= h / 2 && x == (w - named.down * light) / 2 ==> ink == 256
            &&& named.left > 0 && x < w / 2 && y == (h - named.left * light) / 2 ==> ink == 256
            &&& named.right > 0 && x >= w / 2 && y == (h - named.right * light) / 2 ==> ink == 256
            &&& named.left == 0 && x < (w - 2 * light) / 2 ==> ink == 0
            &&& named.right == 0 && x >= w - (w - 2 * light) / 2 ==> ink == 0
            &&& named.up == 0 && y < (h - 2 * light) / 2 ==> ink == 0
            &&& named.down == 0 && y >= h - (h - 2 * light) / 2 ==> ink == 0
        }),
{
    let code = ch as int;
    let arms = tables::weights(code);
    tables::law_characters_have_the_lines_of_their_names(code);
    tables::law_weights_are_known(code - 0x2500, 0);
    tables::law_weights_are_known(code - 0x2500, 1);
    tables::law_weights_are_known(code - 0x2500, 2);
    tables::law_weights_are_known(code - 0x2500, 3);
    law_lines_run_to_the_middle(arms, w, h, x, y);
    lemma_weight_stroke(arms@[0], w, h);
    lemma_weight_stroke(arms@[1], w, h);
    lemma_weight_stroke(arms@[2], w, h);
    lemma_weight_stroke(arms@[3], w, h);
}

proof fn lemma_weight_stroke(weight: u8, w: int, h: int)
    requires
        weight <= 2,
        4 <= w,
        4 <= h,
    ensures
        stroke(weight, w, h) == weight * stroke(1, w, h),
        stroke(weight, w, h) <= 2 * stroke(1, w, h),
        stroke(weight, w, h) < w,
        stroke(weight, w, h) < h,
{
    lemma_stroke(weight, 0, w, h);
    let light = stroke(1, w, h);
    assert(weight == 0 || weight == 1 || weight == 2);
    assert(0 * light == 0 && 1 * light == light && 2 * light == light + light);
}

/// Which part of its cell a block fills, by its name; `across` and `down` count eighths of a pixel.
pub open spec fn named_part(code: int, w: int, h: int, across: int, down: int) -> bool {
    let left = across < 4 * w;
    let upper = down < 4 * h;
    if code == 0x2580 {
        upper
    } else if code <= 0x2588 {
        8 * h - down <= (code - 0x2580) * h
    } else if code <= 0x258f {
        across < (0x2590 - code) * w
    } else if code == 0x2590 {
        !left
    } else if code <= 0x2593 {
        true
    } else if code == 0x2594 {
        down < h
    } else if code == 0x2595 {
        across >= 7 * w
    } else if code == 0x2596 {
        left && !upper
    } else if code == 0x2597 {
        !left && !upper
    } else if code == 0x2598 {
        left && upper
    } else if code == 0x2599 {
        left || !upper
    } else if code == 0x259a {
        left == upper
    } else if code == 0x259b {
        left || upper
    } else if code == 0x259c {
        !left || upper
    } else if code == 0x259d {
        !left && upper
    } else if code == 0x259e {
        left != upper
    } else {
        !left || !upper
    }
}

/// A block fills just the part of its cell that its name says: a half, so many eighths from below
/// or from the left, or quarters. All of them are solid but for the three shades.
pub proof fn law_blocks_fill_the_part_of_their_names(
    ch: char,
    w: int,
    h: int,
    across: int,
    down: int,
)
    requires
        0x2580 <= ch as int <= 0x259f,
        0 < w <= u32::MAX,
        0 < h <= u32::MAX,
        0 <= across < 8 * w,
        0 <= down < 8 * h,
    ensures
        shape_of(ch, w, h) is Some,
        inked(shape_of(ch, w, h)->0.rects, across, down) == named_part(
            ch as int,
            w,
            h,
            across,
            down,
        ),
        shape_of(ch, w, h)->0.alpha == (if 0x2591 <= ch as int <= 0x2593 {
            ch as int - 0x2590
        } else {
            4
        }),
{
    let code = ch as int;
    if code >= 0x2596 {
        let q = tables::quarters(code);
        tables::law_characters_fill_the_quarters_of_their_names(code);
        let ul = eighths(0, 0, 4 * w, 4 * h);
        let ur = eighths(4 * w, 0, 8 * w, 4 * h);
        let ll = eighths(0, 4 * h, 4 * w, 8 * h);
        let lr = eighths(4 * w, 4 * h, 8 * w, 8 * h);
        let a = one_if(q@[0], ul);
        let b = one_if(q@[1], ur);
        let c = one_if(q@[2], ll);
        let d = one_if(q@[3], lr);
        lemma_inked_concat(a + b + c, d, across, down);
        lemma_inked_concat(a + b, c, across, down);
        lemma_inked_concat(a, b, across, down);
        lemma_inked_one(ul, across, down);
        lemma_inked_one(ur, across, down);
        lemma_inked_one(ll, across, down);
        lemma_inked_one(lr, across, down);
    } else {
        let rects = block_rects(code, w, h);
        if 0x2581 <= code <= 0x2588 {
            let n = code - 0x2580;
            assert(0 <= n * h <= 8 * h) by (nonlinear_arith)
                requires
                    1 <= n <= 8,
                    0 < h,
            ;
        }
        if 0x2589 <= code <= 0x258f {
            let n = 0x2590 - code;
            assert(0 <= n * w <= 8 * w) by (nonlinear_arith)
                requires
                    1 <= n <= 8,
                    0 < w,
            ;
        }
        assert(rects.len() == 1);
        assert(rects =~= seq![rects[0]]);
        lemma_inked_one(rects[0], across, down);
    }
}

/// The ink on a pixel is what is inked of its sixty-four squares, times the strength of the shape:
/// all of it where every square is inked, and none where none is.
pub proof fn law_ink_counts_squares(shape: ShapeView, x: int, y: int)
    ensures
        0 <= shape.ink(x, y) <= 64 * shape.alpha,
        (forall|across: int, down: int|
            8 * x <= across < 8 * x + 8 && 8 * y <= down < 8 * y + 8 ==> #[trigger] inked(
                shape.rects,
                across,
                down,
            )) ==> shape.ink(x, y) == 64 * shape.alpha,
        (forall|across: int, down: int|
            8 * x <= across < 8 * x + 8 && 8 * y <= down < 8 * y + 8 ==> !#[trigger] inked(
                shape.rects,
                across,
                down,
            )) ==> shape.ink(x, y) == 0,
{
    let n = part(shape.rects, x, y);
    lemma_square_bounds(shape.rects, 8 * x, 8 * y, 8);
    if forall|across: int, down: int|
        8 * x <= across < 8 * x + 8 && 8 * y <= down < 8 * y + 8 ==> #[trigger] inked(
            shape.rects,
            across,
            down,
        ) {
        lemma_all_squares(shape.rects, 8 * x, 8 * y, 8);
    }
    if forall|across: int, down: int|
        8 * x <= across < 8 * x + 8 && 8 * y <= down < 8 * y + 8 ==> !#[trigger] inked(
            shape.rects,
            across,
            down,
        ) {
        lemma_no_squares(shape.rects, 8 * x, 8 * y, 8);
        assert(0 * shape.alpha == 0);
    }
    assert(0 <= n * shape.alpha <= 64 * shape.alpha) by (nonlinear_arith)
        requires
            0 <= n <= 64,
            0 <= shape.alpha,
    ;
}

proof fn lemma_all_in_row(rects: Seq<Rect>, across: int, down: int, n: int)
    requires
        0 <= n <= 8,
        forall|a: int| across <= a < across + 8 ==> #[trigger] inked(rects, a, down),
    ensures
        row_squares(rects, across, down, n) == n,
    decreases n,
{
    if n > 0 {
        lemma_all_in_row(rects, across, down, n - 1);
    }
}

proof fn lemma_none_in_row(rects: Seq<Rect>, across: int, down: int, n: int)
    requires
        0 <= n <= 8,
        forall|a: int| across <= a < across + 8 ==> !#[trigger] inked(rects, a, down),
    ensures
        row_squares(rects, across, down, n) == 0,
    decreases n,
{
    if n > 0 {
        lemma_none_in_row(rects, across, down, n - 1);
    }
}

proof fn lemma_all_squares(rects: Seq<Rect>, across: int, down: int, n: int)
    requires
        0 <= n <= 8,
        forall|a: int, d: int|
            across <= a < across + 8 && down <= d < down + 8 ==> #[trigger] inked(rects, a, d),
    ensures
        squares(rects, across, down, n) == 8 * n,
    decreases n,
{
    if n > 0 {
        lemma_all_squares(rects, across, down, n - 1);
        lemma_all_in_row(rects, across, down + n - 1, 8);
    }
}

proof fn lemma_no_squares(rects: Seq<Rect>, across: int, down: int, n: int)
    requires
        0 <= n <= 8,
        forall|a: int, d: int|
            across <= a < across + 8 && down <= d < down + 8 ==> !#[trigger] inked(rects, a, d),
    ensures
        squares(rects, across, down, n) == 0,
    decreases n,
{
    if n > 0 {
        lemma_no_squares(rects, across, down, n - 1);
        lemma_none_in_row(rects, across, down + n - 1, 8);
    }
}

/// A character that is neither one of lines nor a block is left to the font, and so is every
/// character in a cell without pixels.
pub proof fn law_other_characters_are_left_to_the_font(ch: char, w: int, h: int)
    requires
        !(0x2500 <= ch as int <= 0x259f) || w == 0 || h == 0,
    ensures
        shape_of(ch, w, h) is None,
{
}

} // verus!
