//! The surface that a region of the grid is drawn on, and what each cell puts there.
//!
//! A region is drawn in two passes. The first gives every cell its background, and the second puts
//! the glyphs of each cell and the lines through it on top: a glyph may reach into the next cell,
//! which must not be wiped out by that cell's background. The outlines of the glyphs come from
//! outside; everything else is decided here.

use crate::text;
use crate::text::{char_is_white_space, chars_of};
use vstd::prelude::*;

verus! {

/// A colour.
pub type Rgb = (u8, u8, u8);

/// The largest side of a surface. It is far above any terminal; a cell size that makes no sense
/// must not ask for gigabytes.
pub const MAX_SIDE: u32 = 32768;

/// An opaque image, four bytes to a pixel, row by row.
#[derive(Debug, PartialEq, Eq)]
pub struct GridRaster {
    pub width: u32,
    pub height: u32,
    pub rgba: Vec<u8>,
}

/// How many pixels so many cells take; nothing where that is none, or too many.
pub open spec fn side(cells: u16, cell: u32) -> Option<u32> {
    if 0 < cells * cell <= MAX_SIDE {
        Some((cells * cell) as u32)
    } else {
        None
    }
}

fn side_of(cells: u16, cell: u32) -> (pixels: Option<u32>)
    ensures
        pixels == side(cells, cell),
{
    assert(cells * cell <= 0xffff * 0xffff_ffff) by (nonlinear_arith)
        requires
            cells <= 0xffff,
            cell <= 0xffff_ffff,
    ;
    let pixels: u64 = cells as u64 * cell as u64;
    if 0 < pixels && pixels <= MAX_SIDE as u64 {
        Some(pixels as u32)
    } else {
        None
    }
}

/// The size of a region's surface: whole cells, and nothing where the region or the cell is empty
/// or the surface would be too large.
pub fn surface_size(cols: u16, rows: u16, cell_width: u32, cell_height: u32) -> (size: Option<
    (u32, u32),
>)
    ensures
        size == match (side(cols, cell_width), side(rows, cell_height)) {
            (Some(width), Some(height)) => Some((width, height)),
            _ => None,
        },
{
    match (side_of(cols, cell_width), side_of(rows, cell_height)) {
        (Some(width), Some(height)) => Some((width, height)),
        _ => None,
    }
}

/// Where a pixel's bytes start.
pub open spec fn byte_index(width: u32, x: int, y: int) -> int {
    (y * width + x) * 4
}

proof fn lemma_index(width: u32, height: u32, x: int, y: int)
    requires
        0 <= x < width,
        0 <= y < height,
    ensures
        0 <= byte_index(width, x, y),
        byte_index(width, x, y) + 4 <= width * height * 4,
{
    assert(y * width + x + 1 <= width * height && 0 <= y * width) by (nonlinear_arith)
        requires
            0 <= x < width,
            0 <= y < height,
    ;
}

proof fn lemma_apart(width: u32, x: int, y: int, i: int, j: int)
    requires
        0 <= x < width,
        0 <= i < width,
        (x, y) != (i, j),
    ensures
        byte_index(width, x, y) + 4 <= byte_index(width, i, j) || byte_index(width, i, j) + 4
            <= byte_index(width, x, y),
{
    assert(y < j ==> y * width + width <= j * width) by (nonlinear_arith)
        requires
            0 <= x < width,
    ;
    assert(j < y ==> j * width + width <= y * width) by (nonlinear_arith)
        requires
            0 <= x < width,
    ;
}

impl GridRaster {
    /// The bytes are those of as many pixels as the sides say.
    pub open spec fn wf(self) -> bool {
        &&& 0 < self.width <= MAX_SIDE
        &&& 0 < self.height <= MAX_SIDE
        &&& self.rgba@.len() == self.width * self.height * 4
    }

    /// The colour of a pixel.
    pub open spec fn color(self, x: int, y: int) -> Rgb {
        let at = byte_index(self.width, x, y);
        (self.rgba@[at], self.rgba@[at + 1], self.rgba@[at + 2])
    }

    /// How opaque a pixel is.
    pub open spec fn alpha(self, x: int, y: int) -> u8 {
        self.rgba@[byte_index(self.width, x, y) + 3]
    }

    /// Whether the pixels in a rectangle have a colour and are opaque, and all others are as they
    /// were.
    pub open spec fn painted(self, before: Self, x0: int, y0: int, x1: int, y1: int, color: Rgb) -> bool {
        &&& self.wf()
        &&& self.width == before.width
        &&& self.height == before.height
        &&& forall|x: int, y: int|
            #![trigger self.color(x, y)]
            #![trigger self.alpha(x, y)]
            0 <= x < self.width && 0 <= y < self.height ==> if x0 <= x < x1 && y0 <= y < y1 {
                self.color(x, y) == color && self.alpha(x, y) == 255
            } else {
                self.color(x, y) == before.color(x, y) && self.alpha(x, y) == before.alpha(x, y)
            }
    }

    /// The surface of a region before anything is drawn: every pixel is clear.
    pub fn new(cols: u16, rows: u16, cell_width: u32, cell_height: u32) -> (raster: Option<Self>)
        requires
            side(cols, cell_width) is Some && side(rows, cell_height) is Some ==> cols * cell_width
                * (rows * cell_height) * 4 <= usize::MAX,
        ensures
            raster is Some <==> side(cols, cell_width) is Some && side(rows, cell_height) is Some,
            raster is Some ==> {
                &&& raster->0.wf()
                &&& raster->0.width == cols * cell_width
                &&& raster->0.height == rows * cell_height
                &&& forall|i: int|
                    0 <= i < raster->0.rgba@.len() ==> #[trigger] raster->0.rgba@[i] == 0
            },
    {
        let (width, height) = match surface_size(cols, rows, cell_width, cell_height) {
            Some(size) => size,
            None => {
                return None;
            },
        };
        assert(width * height <= 32768 * 32768) by (nonlinear_arith)
            requires
                width <= 32768,
                height <= 32768,
        ;
        let len: u64 = width as u64 * height as u64 * 4;
        assert(len == cols * cell_width * (rows * cell_height) * 4);
        let mut rgba: Vec<u8> = Vec::new();
        let mut i: u64 = 0;
        while i < len
            invariant
                i <= len,
                rgba@.len() == i,
                forall|j: int| 0 <= j < i ==> #[trigger] rgba@[j] == 0,
            decreases len - i,
        {
            rgba.push(0);
            i += 1;
        }
        Some(GridRaster { width, height, rgba })
    }

    fn put(&mut self, x: u32, y: u32, color: Rgb)
        requires
            old(self).wf(),
            x < old(self).width,
            y < old(self).height,
        ensures
            final(self).painted(*old(self), x as int, y as int, x + 1, y + 1, color),
    {
        proof {
            lemma_index(self.width, self.height, x as int, y as int);
            assert(y * self.width <= 32768 * 32768) by (nonlinear_arith)
                requires
                    y <= 32768,
                    self.width <= 32768,
            ;
        }
        let len: usize = self.rgba.len();
        let wide: u64 = (y as u64 * self.width as u64 + x as u64) * 4;
        assert(wide == byte_index(self.width, x as int, y as int));
        assert(wide + 4 <= len);
        let at: usize = wide as usize;
        self.rgba.set(at, color.0);
        self.rgba.set(at + 1, color.1);
        self.rgba.set(at + 2, color.2);
        self.rgba.set(at + 3, 255);
        proof {
            assert forall|i: int, j: int|
                0 <= i < self.width && 0 <= j < self.height implies if x <= i < x + 1 && y <= j < y
                + 1 {
                #[trigger] self.color(i, j) == color && self.alpha(i, j) == 255
            } else {
                self.color(i, j) == old(self).color(i, j) && self.alpha(i, j) == old(self).alpha(
                    i,
                    j,
                )
            } by {
                lemma_index(self.width, self.height, i, j);
                if (x as int, y as int) != (i, j) {
                    lemma_apart(self.width, x as int, y as int, i, j);
                }
            }
        }
    }

    /// Fills a rectangle with a colour.
    fn fill(&mut self, x0: u32, y0: u32, x1: u32, y1: u32, color: Rgb)
        requires
            old(self).wf(),
            x0 <= x1 <= old(self).width,
            y0 <= y1 <= old(self).height,
        ensures
            final(self).painted(
                *old(self),
                x0 as int,
                y0 as int,
                x1 as int,
                y1 as int,
                color,
            ),
    {
        let mut y: u32 = y0;
        while y < y1
            invariant
                y0 <= y <= y1 <= old(self).height,
                x0 <= x1 <= old(self).width,
                self.painted(*old(self), x0 as int, y0 as int, x1 as int, y as int, color),
            decreases y1 - y,
        {
            let ghost rows = *self;
            let mut x: u32 = x0;
            while x < x1
                invariant
                    y0 <= y < y1 <= old(self).height,
                    x0 <= x <= x1 <= old(self).width,
                    rows.painted(*old(self), x0 as int, y0 as int, x1 as int, y as int, color),
                    self.painted(rows, x0 as int, y as int, x as int, y + 1, color),
                decreases x1 - x,
            {
                let ghost before = *self;
                self.put(x, y, color);
                proof {
                    assert forall|i: int, j: int|
                        0 <= i < self.width && 0 <= j < self.height implies if x0 <= i < x + 1 && y
                        <= j < y + 1 {
                        #[trigger] self.color(i, j) == color && self.alpha(i, j) == 255
                    } else {
                        self.color(i, j) == rows.color(i, j) && self.alpha(i, j) == rows.alpha(i, j)
                    } by {
                        let _ = before.color(i, j);
                    }
                }
                x += 1;
            }
            proof {
                assert forall|i: int, j: int|
                    0 <= i < self.width && 0 <= j < self.height implies if x0 <= i < x1 && y0 <= j
                    < y + 1 {
                    #[trigger] self.color(i, j) == color && self.alpha(i, j) == 255
                } else {
                    self.color(i, j) == old(self).color(i, j) && self.alpha(i, j) == old(
                        self,
                    ).alpha(i, j)
                } by {
                    let _ = rows.color(i, j);
                }
            }
            y += 1;
        }
    }

    /// Fills a cell with its background, up to its edges.
    pub fn fill_cell(&mut self, col: u16, row: u16, cell_width: u32, cell_height: u32, color: Rgb)
        requires
            old(self).wf(),
            (col + 1) * cell_width <= old(self).width,
            (row + 1) * cell_height <= old(self).height,
        ensures
            final(self).painted(
                *old(self),
                col * cell_width,
                row * cell_height,
                (col + 1) * cell_width,
                (row + 1) * cell_height,
                color,
            ),
    {
        proof {
            lemma_cell(col, cell_width);
            lemma_cell(row, cell_height);
        }
        let x0: u32 = col as u32 * cell_width;
        let y0: u32 = row as u32 * cell_height;
        self.fill(x0, y0, x0 + cell_width, y0 + cell_height, color);
    }

    /// Draws a line of one pixel across a cell, in one of its rows. A row below the surface is not
    /// drawn.
    pub fn draw_rule(&mut self, col: u16, cell_width: u32, y: u32, color: Rgb)
        requires
            old(self).wf(),
            (col + 1) * cell_width <= old(self).width,
        ensures
            y < old(self).height ==> final(self).painted(
                *old(self),
                col * cell_width,
                y as int,
                (col + 1) * cell_width,
                y + 1,
                color,
            ),
            y >= old(self).height ==> *final(self) == *old(self),
    {
        proof {
            lemma_cell(col, cell_width);
        }
        if y < self.height {
            let x0: u32 = col as u32 * cell_width;
            self.fill(x0, y, x0 + cell_width, y + 1, color);
        }
    }

    /// Whether nothing shows through the surface.
    pub open spec fn opaque(self) -> bool {
        forall|x: int, y: int| self.holds(x, y) ==> #[trigger] self.alpha(x, y) == 255
    }

    /// Whether a place is on the surface.
    pub open spec fn holds(self, x: int, y: int) -> bool {
        0 <= x < self.width && 0 <= y < self.height
    }

    /// The colour at a place that a glyph reaches; nothing beside the surface. A glyph may reach
    /// out of its own cell.
    pub fn color_at(&self, x: i32, y: i32) -> (color: Option<Rgb>)
        requires
            self.wf(),
        ensures
            color == if self.holds(x as int, y as int) {
                Some(self.color(x as int, y as int))
            } else {
                None
            },
    {
        if x < 0 || y < 0 || x >= self.width as i32 || y >= self.height as i32 {
            return None;
        }
        proof {
            lemma_index(self.width, self.height, x as int, y as int);
            assert(y * self.width <= 32768 * 32768) by (nonlinear_arith)
                requires
                    0 <= y <= 32768,
                    self.width <= 32768,
            ;
        }
        let len: usize = self.rgba.len();
        let wide: u64 = (y as u64 * self.width as u64 + x as u64) * 4;
        assert(wide == byte_index(self.width, x as int, y as int));
        assert(wide + 4 <= len);
        let at: usize = wide as usize;
        Some((self.rgba[at], self.rgba[at + 1], self.rgba[at + 2]))
    }

    /// Puts a colour at a place that a glyph reaches; beside the surface nothing happens.
    pub fn put_at(&mut self, x: i32, y: i32, color: Rgb)
        requires
            old(self).wf(),
        ensures
            old(self).holds(x as int, y as int) ==> final(self).painted(
                *old(self),
                x as int,
                y as int,
                x + 1,
                y + 1,
                color,
            ),
            !old(self).holds(x as int, y as int) ==> *final(self) == *old(self),
            old(self).opaque() ==> final(self).opaque(),
    {
        if x < 0 || y < 0 || x >= self.width as i32 || y >= self.height as i32 {
            return;
        }
        self.put(x as u32, y as u32, color);
    }
}

proof fn lemma_cell(cells: u16, cell: u32)
    ensures
        (cells + 1) * cell == cells * cell + cell,
        0 <= cells * cell,
{
    assert((cells + 1) * cell == cells * cell + cell && 0 <= cells * cell) by (nonlinear_arith)
        requires
            0 <= cells,
            0 <= cell,
    ;
}

/// Every pixel of a region belongs to exactly one of its cells: when each cell has its background,
/// no pixel is left clear.
pub proof fn law_cells_cover_the_surface(cells: u16, cell: u32, at: int)
    requires
        0 < cell,
        0 <= at < cells * cell,
    ensures
        0 <= at / (cell as int) < cells,
        forall|c: int|
            0 <= c < cells ==> (#[trigger] (c * cell) <= at < (c + 1) * cell <==> c == at / (
            cell as int)),
{
    let k = at / (cell as int);
    assert(at == k * cell + at % (cell as int) && 0 <= at % (cell as int) < cell)
        by (nonlinear_arith)
        requires
            0 < cell,
            k == at / (cell as int),
    ;
    assert(0 <= k < cells) by (nonlinear_arith)
        requires
            0 < cell,
            0 <= at < cells * cell,
            k * cell <= at < k * cell + cell,
    ;
    assert forall|c: int| 0 <= c < cells implies (#[trigger] (c * cell) <= at < (c + 1) * cell
        <==> c == k) by {
        assert((c + 1) * cell == c * cell + cell) by (nonlinear_arith);
        assert(c < k ==> c * cell + cell <= k * cell) by (nonlinear_arith)
            requires
                0 < cell,
        ;
        assert(k < c ==> k * cell + cell <= c * cell) by (nonlinear_arith)
            requires
                0 < cell,
        ;
    }
}

/// How a cell is set. A colour that is missing is the terminal's own.
#[derive(Debug, Clone, Copy, PartialEq, Eq)]
pub struct CellStyle {
    pub foreground: Option<Rgb>,
    pub background: Option<Rgb>,
    pub underline: Option<Rgb>,
    pub bold: bool,
    pub dim: bool,
    pub reversed: bool,
    pub hidden: bool,
    pub underlined: bool,
    pub crossed_out: bool,
}

/// The terminal's own colours, where it told them.
#[derive(Debug, Clone, Copy, PartialEq, Eq)]
pub struct ThemeColors {
    pub foreground: Option<Rgb>,
    pub background: Option<Rgb>,
}

/// The colours that a cell is drawn in.
#[derive(Debug, Clone, Copy, PartialEq, Eq)]
pub struct CellColors {
    pub fg: Rgb,
    pub bg: Rgb,
}

/// The last resort for a terminal that told nothing: not quite black and white, which would be
/// harsher than any terminal.
pub open spec fn fallback_foreground() -> Rgb {
    (0xd0, 0xd0, 0xd0)
}

pub open spec fn fallback_background() -> Rgb {
    (0x10, 0x10, 0x10)
}

pub open spec fn or_else(first: Option<Rgb>, second: Option<Rgb>, last: Rgb) -> Rgb {
    match first {
        Some(color) => color,
        None => match second {
            Some(color) => color,
            None => last,
        },
    }
}

fn first_color(first: Option<Rgb>, second: Option<Rgb>, last: Rgb) -> (color: Rgb)
    ensures
        color == or_else(first, second, last),
{
    match first {
        Some(color) => color,
        None => match second {
            Some(color) => color,
            None => last,
        },
    }
}

/// Half way between two shades; a half is rounded up.
pub open spec fn halfway(a: u8, b: u8) -> u8 {
    ((a + b + 1) / 2) as u8
}

pub open spec fn mixed(a: Rgb, b: Rgb) -> Rgb {
    (halfway(a.0, b.0), halfway(a.1, b.1), halfway(a.2, b.2))
}

/// The colours of a cell: its own or the terminal's, exchanged where it is reversed, and with the
/// ink half way to the background where it is dim.
pub open spec fn cell_colors(style: CellStyle, theme: ThemeColors) -> CellColors {
    let fg = or_else(style.foreground, theme.foreground, fallback_foreground());
    let bg = or_else(style.background, theme.background, fallback_background());
    let ink = if style.reversed {
        bg
    } else {
        fg
    };
    let ground = if style.reversed {
        fg
    } else {
        bg
    };
    CellColors {
        fg: if style.dim {
            mixed(ink, ground)
        } else {
            ink
        },
        bg: ground,
    }
}

fn midpoint(a: u8, b: u8) -> (middle: u8)
    ensures
        middle == halfway(a, b),
{
    ((a as u16 + b as u16 + 1) / 2) as u8
}

pub fn resolve_cell_colors(style: &CellStyle, theme: &ThemeColors) -> (colors: CellColors)
    ensures
        colors == cell_colors(*style, *theme),
{
    let mut fg = first_color(style.foreground, theme.foreground, (0xd0, 0xd0, 0xd0));
    let mut bg = first_color(style.background, theme.background, (0x10, 0x10, 0x10));
    if style.reversed {
        let ink = bg;
        bg = fg;
        fg = ink;
    }
    if style.dim {
        fg = (midpoint(fg.0, bg.0), midpoint(fg.1, bg.1), midpoint(fg.2, bg.2));
    }
    CellColors { fg, bg }
}

/// Dimming stays between ink and background, shade by shade.
pub proof fn law_dim_lies_between(a: u8, b: u8)
    ensures
        a <= b ==> a <= halfway(a, b) <= b,
        b <= a ==> b <= halfway(a, b) <= a,
        a + 2 <= b || b + 2 <= a ==> halfway(a, b) != a && halfway(a, b) != b,
        2 * halfway(a, b) == a + b || 2 * halfway(a, b) == a + b + 1,
        halfway(a, b) == halfway(b, a),
{
}

/// Whether a symbol leaves any ink: not where it is hidden, and not where it is blank. The cell
/// beside a wide character holds nothing.
pub open spec fn leaves_ink(symbol: Seq<char>, hidden: bool) -> bool {
    !hidden && exists|i: int| 0 <= i < symbol.len() && !text::is_white_space(#[trigger] symbol[i])
}

pub fn glyph_is_worth_drawing(symbol: &str, hidden: bool) -> (worth: bool)
    ensures
        worth == leaves_ink(symbol@, hidden),
{
    if hidden {
        return false;
    }
    let chars = chars_of(symbol);
    let mut i: usize = 0;
    while i < chars.len()
        invariant
            !hidden,
            i <= chars@.len(),
            chars@ == symbol@,
            forall|j: int| 0 <= j < i ==> text::is_white_space(#[trigger] symbol@[j]),
        decreases chars@.len() - i,
    {
        if !char_is_white_space(chars[i]) {
            assert(!text::is_white_space(symbol@[i as int]));
            return true;
        }
        i += 1;
    }
    false
}

/// What a cell puts on the surface: its background, then its glyphs, then a line below them and a
/// line through them.
#[derive(Debug, Clone, Copy, PartialEq, Eq)]
pub struct CellPlan {
    pub colors: CellColors,
    pub glyphs: bool,
    pub bold: bool,
    pub underline: Option<Rgb>,
    pub strike: Option<Rgb>,
}

pub fn plan_cell(symbol: &str, style: &CellStyle, theme: &ThemeColors) -> (plan: CellPlan)
    ensures
        plan.colors == cell_colors(*style, *theme),
        plan.glyphs == leaves_ink(symbol@, style.hidden),
        plan.bold == style.bold,
        plan.underline == if style.underlined && !style.hidden {
            Some(or_else(style.underline, None, cell_colors(*style, *theme).fg))
        } else {
            None
        },
        plan.strike == if style.crossed_out && !style.hidden {
            Some(cell_colors(*style, *theme).fg)
        } else {
            None
        },
{
    let colors = resolve_cell_colors(style, theme);
    CellPlan {
        colors,
        glyphs: glyph_is_worth_drawing(symbol, style.hidden),
        bold: style.bold,
        underline: if style.underlined && !style.hidden {
            Some(first_color(style.underline, None, colors.fg))
        } else {
            None
        },
        strike: if style.crossed_out && !style.hidden {
            Some(colors.fg)
        } else {
            None
        },
    }
}

/// The row of a cell in which its underline lies: just below the baseline, and above the last row
/// of the cell where it has more than one.
pub open spec fn underline_row(baseline: u32, cell_height: u32) -> int {
    if cell_height < 2 {
        0
    } else if baseline + 1 < cell_height - 1 {
        baseline + 1
    } else {
        cell_height - 2
    }
}

/// The underlines of two cells, one above the other, do not touch: between them is at least the
/// last row of the upper one.
pub proof fn law_underlines_stay_apart(baseline: u32, cell_height: u32)
    requires
        cell_height >= 2,
    ensures
        0 <= underline_row(baseline, cell_height) < cell_height - 1,
        underline_row(baseline, cell_height) + 1 < cell_height + underline_row(
            baseline,
            cell_height,
        ),
        baseline + 2 < cell_height ==> underline_row(baseline, cell_height) == baseline + 1,
{
}

/// The colour of the line in a row of a cell, where there is one. The line through the middle is
/// drawn last.
pub open spec fn rule_color(plan: CellPlan, baseline: u32, cell_height: u32, at: int) -> Option<
    Rgb,
> {
    if plan.strike is Some && at == cell_height / 2 {
        plan.strike
    } else if plan.underline is Some && at == underline_row(baseline, cell_height) {
        plan.underline
    } else {
        None
    }
}

impl GridRaster {
    /// Draws the lines of a cell over its glyphs: the underline first, then the line through its
    /// middle.
    pub fn draw_rules(
        &mut self,
        col: u16,
        row: u16,
        cell_width: u32,
        cell_height: u32,
        baseline: u32,
        plan: &CellPlan,
    )
        requires
            old(self).wf(),
            (col + 1) * cell_width <= old(self).width,
            (row + 1) * cell_height <= old(self).height,
            cell_height > 0,
        ensures
            forall|x: int, y: int|
                #![trigger final(self).color(x, y)]
                #![trigger final(self).alpha(x, y)]
                old(self).holds(x, y) ==> {
                    let line = rule_color(*plan, baseline, cell_height, y - row * cell_height);
                    if col * cell_width <= x < (col + 1) * cell_width && line is Some {
                        final(self).color(x, y) == line->0 && final(self).alpha(x, y) == 255
                    } else {
                        final(self).color(x, y) == old(self).color(x, y) && final(self).alpha(x, y)
                            == old(self).alpha(x, y)
                    }
                },
            old(self).opaque() ==> final(self).opaque(),
            final(self).wf(),
            final(self).width == old(self).width,
            final(self).height == old(self).height,
    {
        proof {
            lemma_cell(row, cell_height);
        }
        let top: u32 = row as u32 * cell_height;
        if let Some(color) = plan.underline {
            let offset: u32 = if cell_height < 2 {
                0
            } else if baseline < cell_height - 1 && baseline + 1 < cell_height - 1 {
                baseline + 1
            } else {
                cell_height - 2
            };
            self.draw_rule(col, cell_width, top + offset, color);
        }
        let ghost between = *self;
        if let Some(color) = plan.strike {
            self.draw_rule(col, cell_width, top + cell_height / 2, color);
        }
        proof {
            assert forall|x: int, y: int| #![trigger self.color(x, y)]
                old(self).holds(x, y) implies {
                let line = rule_color(*plan, baseline, cell_height, y - row * cell_height);
                if col * cell_width <= x < (col + 1) * cell_width && line is Some {
                    self.color(x, y) == line->0 && self.alpha(x, y) == 255
                } else {
                    self.color(x, y) == old(self).color(x, y) && self.alpha(x, y) == old(
                        self,
                    ).alpha(x, y)
                }
            } by {
                let _ = between.color(x, y);
            }
        }
    }
}

/// The place of a pixel's cell among the cells of a region, which are counted row by row.
pub open spec fn cell_of(cols: u16, cell_width: u32, cell_height: u32, x: int, y: int) -> int {
    y / (cell_height as int) * cols + x / (cell_width as int)
}

/// The background of a region's cell. A cell that the region does not have, because it reaches out
/// of the grid, has the terminal's own.
pub open spec fn ground_of(ground: Option<Rgb>, theme: ThemeColors) -> Rgb {
    or_else(ground, theme.background, fallback_background())
}

proof fn lemma_in_cell(at: int, cell: u32, c: int)
    requires
        0 < cell,
    ensures
        c * cell <= at < (c + 1) * cell <==> at / (cell as int) == c,
{
    let k = at / (cell as int);
    assert(k * cell <= at < k * cell + cell) by (nonlinear_arith)
        requires
            0 < cell,
            k == at / (cell as int),
    ;
    assert((c + 1) * cell == c * cell + cell) by (nonlinear_arith);
    assert(c < k ==> c * cell + cell <= k * cell) by (nonlinear_arith)
        requires
            0 < cell,
    ;
    assert(k < c ==> k * cell + cell <= c * cell) by (nonlinear_arith)
        requires
            0 < cell,
    ;
}

proof fn lemma_cell_fits(c: int, cells: u16, cell: u32)
    requires
        0 <= c < cells,
    ensures
        (c + 1) * cell <= cells * cell,
{
    assert((c + 1) * cell <= cells * cell) by (nonlinear_arith)
        requires
            c + 1 <= cells,
            0 <= cell,
    ;
}

/// Where the cell of a pixel lies.
proof fn lemma_pixel_cell(cells: u16, cell: u32, at: int)
    requires
        0 < cell,
        0 <= at < cells * cell,
    ensures
        0 <= at / (cell as int) < cells,
{
    law_cells_cover_the_surface(cells, cell, at);
}

/// The surface of a region with the background of each of its cells. Nothing shows through it: a
/// cell that is not there has the terminal's own background.
pub fn region_ground(
    cols: u16,
    rows: u16,
    cell_width: u32,
    cell_height: u32,
    grounds: &[Option<Rgb>],
    theme: &ThemeColors,
) -> (raster: Option<GridRaster>)
    requires
        grounds@.len() == cols * rows,
        side(cols, cell_width) is Some && side(rows, cell_height) is Some ==> cols * cell_width * (
        rows * cell_height) * 4 <= usize::MAX,
    ensures
        raster is Some <==> side(cols, cell_width) is Some && side(rows, cell_height) is Some,
        raster is Some ==> {
            &&& raster->0.wf()
            &&& raster->0.width == cols * cell_width
            &&& raster->0.height == rows * cell_height
            &&& raster->0.opaque()
            &&& forall|x: int, y: int|
                raster->0.holds(x, y) ==> #[trigger] raster->0.color(x, y) == ground_of(
                    grounds@[cell_of(cols, cell_width, cell_height, x, y)],
                    *theme,
                )
        },
{
    let mut raster = match GridRaster::new(cols, rows, cell_width, cell_height) {
        Some(raster) => raster,
        None => {
            return None;
        },
    };
    proof {
        assert(cell_width > 0 && cell_height > 0) by (nonlinear_arith)
            requires
                0 < cols * cell_width,
                0 < rows * cell_height,
                0 <= cols,
                0 <= rows,
                0 <= cell_width,
                0 <= cell_height,
        ;
    }
    let mut at: usize = 0;
    let mut row: u16 = 0;
    while row < rows
        invariant
            row <= rows,
            cell_width > 0,
            cell_height > 0,
            at == row * cols,
            grounds@.len() == cols * rows,
            raster.wf(),
            raster.width == cols * cell_width,
            raster.height == rows * cell_height,
            forall|x: int, y: int|
                #![trigger raster.color(x, y)]
                #![trigger raster.alpha(x, y)]
                raster.holds(x, y) && y / (cell_height as int) < row ==> raster.alpha(x, y) == 255
                    && raster.color(x, y) == ground_of(
                    grounds@[cell_of(cols, cell_width, cell_height, x, y)],
                    *theme,
                ),
        decreases rows - row,
    {
        let mut col: u16 = 0;
        while col < cols
            invariant
                row < rows,
                col <= cols,
                cell_width > 0,
                cell_height > 0,
                at == row * cols + col,
                grounds@.len() == cols * rows,
                raster.wf(),
                raster.width == cols * cell_width,
                raster.height == rows * cell_height,
                forall|x: int, y: int|
                    #![trigger raster.color(x, y)]
                    #![trigger raster.alpha(x, y)]
                    raster.holds(x, y) && (y / (cell_height as int) < row || y / (
                    cell_height as int) == row && x / (cell_width as int) < col) ==> raster.alpha(
                        x,
                        y,
                    ) == 255 && raster.color(x, y) == ground_of(
                        grounds@[cell_of(cols, cell_width, cell_height, x, y)],
                        *theme,
                    ),
            decreases cols - col,
        {
            proof {
                lemma_cell_fits(col as int, cols, cell_width);
                lemma_cell_fits(row as int, rows, cell_height);
                lemma_cell_fits(row as int, rows, cols as u32);
                assert(cols * rows == rows * cols) by (nonlinear_arith);
                assert((row + 1) * cols == row * cols + cols) by (nonlinear_arith);
            }
            let color = first_color(grounds[at], theme.background, (0x10, 0x10, 0x10));
            let ghost before = raster;
            raster.fill_cell(col, row, cell_width, cell_height, color);
            proof {
                assert forall|x: int, y: int|
                    #![trigger raster.color(x, y)]
                    #![trigger raster.alpha(x, y)]
                    raster.holds(x, y) && (y / (cell_height as int) < row || y / (
                    cell_height as int) == row && x / (cell_width as int) < col
                        + 1) implies raster.alpha(x, y) == 255 && raster.color(x, y) == ground_of(
                    grounds@[cell_of(cols, cell_width, cell_height, x, y)],
                    *theme,
                ) by {
                    lemma_in_cell(x, cell_width, col as int);
                    lemma_in_cell(y, cell_height, row as int);
                    let _ = before.color(x, y);
                }
            }
            at += 1;
            col += 1;
        }
        proof {
            assert((row + 1) * cols == row * cols + cols) by (nonlinear_arith);
            assert forall|x: int, y: int|
                #![trigger raster.color(x, y)]
                #![trigger raster.alpha(x, y)]
                raster.holds(x, y) && y / (cell_height as int) < row + 1 implies raster.alpha(x, y)
                == 255 && raster.color(x, y) == ground_of(
                grounds@[cell_of(cols, cell_width, cell_height, x, y)],
                *theme,
            ) by {
                lemma_pixel_cell(cols, cell_width, x);
            }
        }
        row += 1;
    }
    proof {
        assert forall|x: int, y: int| raster.holds(x, y) implies #[trigger] raster.alpha(x, y)
            == 255 by {
            lemma_pixel_cell(rows, cell_height, y);
        }
        assert forall|x: int, y: int| raster.holds(x, y) implies #[trigger] raster.color(x, y)
            == ground_of(grounds@[cell_of(cols, cell_width, cell_height, x, y)], *theme) by {
            lemma_pixel_cell(rows, cell_height, y);
        }
    }
    Some(raster)
}

/// A cell is drawn in its own colours; where it has none in the terminal's, and where the terminal
/// told none in a light and a dark grey. A reversed cell has ink and background exchanged, and
/// dimming changes the ink alone.
pub proof fn law_cells_have_their_own_colors(style: CellStyle, theme: ThemeColors)
    ensures
        ({
            let colors = cell_colors(style, theme);
            let ink = if style.reversed {
                colors.bg
            } else {
                colors.fg
            };
            let ground = if style.reversed {
                colors.fg
            } else {
                colors.bg
            };
            !style.dim ==> {
                &&& style.foreground is Some ==> ink == style.foreground->0
                &&& style.foreground is None && theme.foreground is Some ==> ink
                    == theme.foreground->0
                &&& style.foreground is None && theme.foreground is None ==> ink == (
                    0xd0u8,
                    0xd0u8,
                    0xd0u8,
                )
                &&& style.background is Some ==> ground == style.background->0
                &&& style.background is None && theme.background is Some ==> ground
                    == theme.background->0
                &&& style.background is None && theme.background is None ==> ground == (
                    0x10u8,
                    0x10u8,
                    0x10u8,
                )
            }
        }),
        ({
            let plain = cell_colors(CellStyle { dim: false, ..style }, theme);
            let dim = cell_colors(CellStyle { dim: true, ..style }, theme);
            &&& dim.bg == plain.bg
            &&& 0 <= 2 * dim.fg.0 - (plain.fg.0 + plain.bg.0) <= 1
            &&& 0 <= 2 * dim.fg.1 - (plain.fg.1 + plain.bg.1) <= 1
            &&& 0 <= 2 * dim.fg.2 - (plain.fg.2 + plain.bg.2) <= 1
        }),
        ({
            let plain = cell_colors(CellStyle { reversed: false, dim: false, ..style }, theme);
            let reversed = cell_colors(CellStyle { reversed: true, dim: false, ..style }, theme);
            reversed.fg == plain.bg && reversed.bg == plain.fg
        }),
{
}

/// The pixel at a place of a cell belongs to that cell: cells lie side by side in rows, and the
/// rows below each other.
pub proof fn law_pixels_belong_to_their_cells(
    cols: u16,
    cell_width: u32,
    cell_height: u32,
    col: int,
    row: int,
    right: int,
    lower: int,
)
    requires
        0 <= col < cols,
        0 <= row,
        0 <= right < cell_width,
        0 <= lower < cell_height,
    ensures
        cell_of(
            cols,
            cell_width,
            cell_height,
            col * cell_width + right,
            row * cell_height + lower,
        ) == row * cols + col,
{
    lemma_in_cell(col * cell_width + right, cell_width, col);
    lemma_in_cell(row * cell_height + lower, cell_height, row);
    assert((col + 1) * cell_width == col * cell_width + cell_width) by (nonlinear_arith);
    assert((row + 1) * cell_height == row * cell_height + cell_height) by (nonlinear_arith);
}

/// The bytes of a surface are its pixels row by row from the top, each with red, green, blue and
/// opacity: the next pixel of a row follows four bytes on, the first of the next row behind the
/// last of this one.
pub proof fn law_pixels_lie_row_by_row(raster: GridRaster, x: int, y: int)
    requires
        raster.wf(),
        raster.holds(x, y),
    ensures
        ({
            let at = 4 * (raster.width * y + x);
            &&& 0 <= at && at + 4 <= raster.rgba@.len()
            &&& raster.color(x, y).0 == raster.rgba@[at]
            &&& raster.color(x, y).1 == raster.rgba@[at + 1]
            &&& raster.color(x, y).2 == raster.rgba@[at + 2]
            &&& raster.alpha(x, y) == raster.rgba@[at + 3]
        }),
{
    lemma_index(raster.width, raster.height, x, y);
    assert(raster.width * y == y * raster.width) by (nonlinear_arith);
}

/// The line through a cell lies in its middle row and hides an underline there; the underline lies
/// in its own row, and no other row has a line.
pub proof fn law_lines_lie_in_their_rows(plan: CellPlan, baseline: u32, cell_height: u32, at: int)
    requires
        0 <= at < cell_height,
    ensures
        ({
            let line = rule_color(plan, baseline, cell_height, at);
            &&& plan.strike is Some && (2 * at == cell_height || 2 * at + 1 == cell_height) ==> line
                == plan.strike
            &&& plan.strike is None && plan.underline is Some && at == baseline + 1 && at + 1
                < cell_height ==> line == plan.underline
            &&& plan.strike is None && plan.underline is Some && baseline + 2 >= cell_height && at
                + 2 == cell_height ==> line == plan.underline
            &&& line is Some ==> line == plan.strike || line == plan.underline
            &&& plan.strike is None && plan.underline is None ==> line is None
            &&& plan.strike is None && at < baseline && at + 2 < cell_height ==> line is None
            &&& plan.underline is None && !(2 * at == cell_height || 2 * at + 1 == cell_height)
                ==> line is None
        }),
{
}

/// A surface has as many pixels each way as its cells have together. There is none without pixels,
/// and none with a side of more than 32768.
pub proof fn law_surfaces_have_whole_cells(cells: u16, cell: u32)
    ensures
        side(cells, cell) is Some ==> side(cells, cell)->0 == cells * cell,
        side(cells, cell) is Some <==> cells > 0 && cell > 0 && cells * cell <= 32768,
{
    assert(0 < cells * cell <==> cells > 0 && cell > 0) by (nonlinear_arith)
        requires
            0 <= cells,
            0 <= cell,
    ;
}

/// A symbol leaves ink exactly where it is not hidden and holds a character that is not blank.
pub proof fn law_blank_symbols_leave_no_ink(blank: Seq<char>, c: char, more: Seq<char>)
    requires
        forall|i: int| 0 <= i < blank.len() ==> text::is_white_space(#[trigger] blank[i]),
        !text::is_white_space(c),
    ensures
        !leaves_ink(blank, false),
        !leaves_ink(blank + seq![c] + more, true),
        leaves_ink(blank + seq![c] + more, false),
{
    let symbol = blank + seq![c] + more;
    assert(symbol[blank.len() as int] == c);
}

/// A cell without a background has the terminal's, and a terminal that told none a dark one.
pub proof fn law_every_cell_has_a_ground(theme: ThemeColors, color: Rgb)
    ensures
        ground_of(Some(color), theme) == color,
        theme.background matches Some(own) ==> ground_of(None, theme) == own,
        theme.background is None ==> ground_of(None, theme) == (0x10u8, 0x10u8, 0x10u8),
{
}

/// What is painted has its colour and hides what was there, and nothing beside it changes: neither
/// left or right of it nor above or below it. The surface keeps its size.
pub proof fn law_paint_stays_inside(
    after: GridRaster,
    before: GridRaster,
    left: int,
    top: int,
    right: int,
    bottom: int,
    color: Rgb,
    x: int,
    y: int,
)
    requires
        after.painted(before, left, top, right, bottom, color),
        after.holds(x, y),
    ensures
        after.width == before.width && after.height == before.height,
        left <= x < right && top <= y < bottom ==> after.color(x, y) == color && after.alpha(x, y)
            == 255,
        x < left || x >= right || y < top || y >= bottom ==> after.color(x, y) == before.color(x, y)
            && after.alpha(x, y) == before.alpha(x, y),
{
    let _ = after.color(x, y);
}

} // verus!
