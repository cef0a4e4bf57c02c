//! Cropping a placement to the rectangle it belongs to.

use crate::kitty_graphics::model;
use crate::kitty_graphics::model::{kitty_format_code, ClippedPlacement, HostPlacement};
use crate::kitty_graphics::update;
use vstd::prelude::*;

verus! {

pub open spec fn min_int(a: int, b: int) -> int {
    if a <= b {
        a
    } else {
        b
    }
}

pub open spec fn max_int(a: int, b: int) -> int {
    if a >= b {
        a
    } else {
        b
    }
}

/// Products of pixel counts stop at the largest `u32`.
pub open spec fn capped_product(a: int, b: int) -> int {
    min_int(a * b, u32::MAX as int)
}

/// `value` pixels of a destination that is `dest` long, measured in the source that is shown
/// in it.
pub open spec fn scaled(value: int, source: int, dest: int) -> int {
    min_int(value * source / max_int(dest, 1), u32::MAX as int)
}

/// How many cells of a placement lie before the start of its area.
pub open spec fn cells_before(viewport: int) -> int {
    min_int(max_int(-viewport, 0), i32::MAX as int)
}

/// One axis of a placement: where it starts, how many cells it spans, how many there are, and
/// how large cell, target, source and image are in pixels.
pub struct Axis {
    pub viewport: i32,
    pub grid: u32,
    pub extent: u16,
    pub cell_px: u32,
    pub target_px: u32,
    pub source_start: u32,
    pub source_px: u32,
    pub image_px: u32,
}

/// The visible part of one axis.
pub struct AxisClip {
    pub offset: u16,
    pub cells: u32,
    pub source_start: u32,
    pub source_px: u32,
}

impl Axis {
    /// The first cell of the area that the placement covers.
    pub open spec fn offset(self) -> int {
        max_int(self.viewport as int, 0)
    }

    /// How many cells of the area the placement covers.
    pub open spec fn visible_cells(self) -> int {
        if self.offset() >= self.extent {
            0
        } else {
            min_int(
                max_int(self.grid - cells_before(self.viewport as int), 0),
                self.extent - self.offset(),
            )
        }
    }

    /// The pixels of source that the placement shows in all.
    pub open spec fn full_source(self) -> int {
        if self.source_px == 0 {
            self.image_px as int
        } else {
            self.source_px as int
        }
    }

    /// The pixels on screen that the whole placement takes.
    pub open spec fn full_target(self) -> int {
        max_int(
            max_int(self.target_px as int, capped_product(self.grid as int, self.cell_px as int)),
            1,
        )
    }

    /// Where in the image the visible part starts.
    pub open spec fn visible_source_start(self) -> int {
        self.source_start + scaled(
            capped_product(cells_before(self.viewport as int), self.cell_px as int),
            self.full_source(),
            self.full_target(),
        )
    }

    /// How much of the image the visible part shows: at least one pixel, and never past the
    /// end of the image.
    pub open spec fn visible_source(self) -> int {
        min_int(
            max_int(
                scaled(
                    capped_product(self.visible_cells(), self.cell_px as int),
                    self.full_source(),
                    self.full_target(),
                ),
                1,
            ),
            max_int(self.image_px - self.visible_source_start(), 0),
        )
    }

    fn offset_cells(&self) -> (offset: u32)
        ensures
            offset == self.offset(),
    {
        if self.viewport > 0 {
            self.viewport as u32
        } else {
            0
        }
    }

    fn cells_hidden_before(&self) -> (cells: u32)
        ensures
            cells == cells_before(self.viewport as int),
    {
        if self.viewport >= 0 {
            0
        } else if self.viewport == i32::MIN {
            i32::MAX as u32
        } else {
            (-self.viewport) as u32
        }
    }

    fn cells_shown(&self) -> (cells: u32)
        ensures
            cells == self.visible_cells(),
    {
        let offset: u32 = self.offset_cells();
        let extent: u32 = self.extent as u32;
        if offset >= extent {
            return 0;
        }
        let before: u32 = self.cells_hidden_before();
        let rest: u32 = self.grid.saturating_sub(before);
        if rest <= extent - offset {
            rest
        } else {
            extent - offset
        }
    }

    fn source_all(&self) -> (px: u32)
        ensures
            px == self.full_source(),
    {
        if self.source_px == 0 {
            self.image_px
        } else {
            self.source_px
        }
    }

    fn target_all(&self) -> (px: u32)
        ensures
            px == self.full_target(),
    {
        let by_cells: u32 = saturating_product(self.grid, self.cell_px);
        let larger: u32 = if self.target_px >= by_cells {
            self.target_px
        } else {
            by_cells
        };
        if larger >= 1 {
            larger
        } else {
            1
        }
    }

    /// Whether the place in the image where the visible part starts can be written down.
    fn start_fits(&self) -> (fits: bool)
        ensures
            fits == (self.visible_source_start() <= u32::MAX),
    {
        let crop_px: u32 = saturating_product(self.cells_hidden_before(), self.cell_px);
        let crop: u32 = scale_pixels(crop_px, self.source_all(), self.target_all());
        self.source_start <= u32::MAX - crop
    }

    /// Crops the axis to its extent.
    fn clip(&self) -> (clip: AxisClip)
        requires
            self.visible_cells() > 0,
            self.visible_source_start() <= u32::MAX,
        ensures
            clip.offset == self.offset(),
            clip.cells == self.visible_cells(),
            clip.source_start == self.visible_source_start(),
            clip.source_px == self.visible_source(),
    {
        let offset: u32 = self.offset_cells();
        let cells: u32 = self.cells_shown();
        let source_all: u32 = self.source_all();
        let target_all: u32 = self.target_all();
        let crop_px: u32 = saturating_product(self.cells_hidden_before(), self.cell_px);
        let visible_px: u32 = saturating_product(cells, self.cell_px);
        let source_start: u32 = self.source_start + scale_pixels(crop_px, source_all, target_all);
        let wanted: u32 = scale_pixels(visible_px, source_all, target_all);
        let at_least_one: u32 = if wanted >= 1 {
            wanted
        } else {
            1
        };
        let left: u32 = self.image_px.saturating_sub(source_start);
        AxisClip {
            offset: offset as u16,
            cells,
            source_start,
            source_px: if at_least_one <= left {
                at_least_one
            } else {
                left
            },
        }
    }
}

/// `a * b`, or the largest `u32` where that is more.
pub fn saturating_product(a: u32, b: u32) -> (product: u32)
    ensures
        product == capped_product(a as int, b as int),
{
    assert(0 <= a * b <= u32::MAX * u32::MAX) by (nonlinear_arith)
        requires
            0 <= a <= u32::MAX,
            0 <= b <= u32::MAX,
    ;
    let wide: u64 = a as u64 * b as u64;
    if wide <= u32::MAX as u64 {
        wide as u32
    } else {
        u32::MAX
    }
}

pub fn scale_pixels(value: u32, source: u32, dest: u32) -> (px: u32)
    ensures
        px == scaled(value as int, source as int, dest as int),
{
    assert(0 <= value * source <= u32::MAX * u32::MAX) by (nonlinear_arith)
        requires
            0 <= value <= u32::MAX,
            0 <= source <= u32::MAX,
    ;
    let wide: u64 = value as u64 * source as u64;
    let divisor: u64 = if dest >= 1 {
        dest as u64
    } else {
        1
    };
    let quotient: u64 = wide / divisor;
    if quotient <= u32::MAX as u64 {
        quotient as u32
    } else {
        u32::MAX
    }
}

/// The horizontal axis of a placement.
pub open spec fn columns(p: HostPlacement) -> Axis {
    Axis {
        viewport: p.placement.render.viewport_col,
        grid: p.placement.render.grid_cols,
        extent: p.area.width,
        cell_px: p.cell_size.width_px,
        target_px: p.placement.render.pixel_width,
        source_start: p.placement.render.source_x,
        source_px: p.placement.render.source_width,
        image_px: p.placement.image_width,
    }
}

/// The vertical axis of a placement.
pub open spec fn rows(p: HostPlacement) -> Axis {
    Axis {
        viewport: p.placement.render.viewport_row,
        grid: p.placement.render.grid_rows,
        extent: p.area.height,
        cell_px: p.cell_size.height_px,
        target_px: p.placement.render.pixel_height,
        source_start: p.placement.render.source_y,
        source_px: p.placement.render.source_height,
        image_px: p.placement.image_height,
    }
}

/// Some cell of the area is covered.
pub open spec fn axes_cover_a_cell(columns: Axis, rows: Axis) -> bool {
    columns.visible_cells() > 0 && rows.visible_cells() > 0
}

/// Some cell of the area is covered, and some pixel of the image is shown in it.
pub open spec fn axes_visible(columns: Axis, rows: Axis) -> bool {
    &&& axes_cover_a_cell(columns, rows)
    &&& columns.visible_source() > 0
    &&& rows.visible_source() > 0
}

/// The coordinates of a placement that covers a cell fit the integers they are kept in.
pub open spec fn axes_fit(columns: Axis, rows: Axis, x: u16, y: u16) -> bool {
    axes_cover_a_cell(columns, rows) ==> {
        &&& columns.visible_source_start() <= u32::MAX
        &&& rows.visible_source_start() <= u32::MAX
        &&& axes_visible(columns, rows) ==> x + columns.offset() <= u16::MAX && y + rows.offset()
            <= u16::MAX
    }
}

pub open spec fn visible(p: HostPlacement) -> bool {
    axes_visible(columns(p), rows(p))
}

pub open spec fn clip_fits(p: HostPlacement) -> bool {
    axes_fit(columns(p), rows(p), p.area.x, p.area.y)
}

/// The visible part of a placement.
pub open spec fn clipped(p: HostPlacement) -> ClippedPlacement {
    ClippedPlacement {
        x: (p.area.x + columns(p).offset()) as u16,
        y: (p.area.y + rows(p).offset()) as u16,
        cols: columns(p).visible_cells() as u32,
        rows: rows(p).visible_cells() as u32,
        source_x: columns(p).visible_source_start() as u32,
        source_y: rows(p).visible_source_start() as u32,
        source_width: columns(p).visible_source() as u32,
        source_height: rows(p).visible_source() as u32,
        x_offset: if p.placement.render.viewport_col >= 0 {
            p.placement.x_offset
        } else {
            0
        },
        y_offset: if p.placement.render.viewport_row >= 0 {
            p.placement.y_offset
        } else {
            0
        },
    }
}

/// What [`clipped_placement`] returns.
pub open spec fn spec_clip(p: HostPlacement) -> Option<(ClippedPlacement, u32)> {
    if visible(p) {
        Some((clipped(p), model::spec_format_code(p.placement.format)))
    } else {
        None
    }
}

fn axes_of(p: &HostPlacement) -> (axes: (Axis, Axis))
    ensures
        axes == (columns(*p), rows(*p)),
{
    let render = p.placement.render;
    let columns = Axis {
        viewport: render.viewport_col,
        grid: render.grid_cols,
        extent: p.area.width,
        cell_px: p.cell_size.width_px,
        target_px: render.pixel_width,
        source_start: render.source_x,
        source_px: render.source_width,
        image_px: p.placement.image_width,
    };
    let rows = Axis {
        viewport: render.viewport_row,
        grid: render.grid_rows,
        extent: p.area.height,
        cell_px: p.cell_size.height_px,
        target_px: render.pixel_height,
        source_start: render.source_y,
        source_px: render.source_height,
        image_px: p.placement.image_height,
    };
    (columns, rows)
}

/// Whether the coordinates of a placement fit the integers they are kept in, counted from one
/// too.
pub fn placement_fits(p: &HostPlacement) -> (fits: bool)
    ensures
        fits == update::placement_fits(*p),
{
    let (columns, rows) = axes_of(p);
    if columns.cells_shown() == 0 || rows.cells_shown() == 0 {
        return true;
    }
    if !columns.start_fits() || !rows.start_fits() {
        return false;
    }
    let across = columns.clip();
    let down = rows.clip();
    if across.source_px == 0 || down.source_px == 0 {
        return true;
    }
    p.area.x < u16::MAX - across.offset && p.area.y < u16::MAX - down.offset
}

/// Crops a placement to its area. Nothing comes back where nothing of it is visible.
pub fn clipped_placement(p: &HostPlacement) -> (clip: Option<(ClippedPlacement, u32)>)
    requires
        clip_fits(*p),
    ensures
        clip == spec_clip(*p),
{
    let (columns, rows) = axes_of(p);
    if columns.cells_shown() == 0 || rows.cells_shown() == 0 {
        return None;
    }
    let across = columns.clip();
    let down = rows.clip();
    if across.source_px == 0 || down.source_px == 0 {
        return None;
    }
    Some(
        (
            ClippedPlacement {
                x: p.area.x + across.offset,
                y: p.area.y + down.offset,
                cols: across.cells,
                rows: down.cells,
                source_x: across.source_start,
                source_y: down.source_start,
                source_width: across.source_px,
                source_height: down.source_px,
                x_offset: if p.placement.render.viewport_col >= 0 {
                    p.placement.x_offset
                } else {
                    0
                },
                y_offset: if p.placement.render.viewport_row >= 0 {
                    p.placement.y_offset
                } else {
                    0
                },
            },
            kitty_format_code(p.placement.format),
        ),
    )
}

/// What is drawn stays inside the placement's area, and what is shown of the image stays
/// inside the image: a placement never spills over its neighbours.
pub proof fn law_clip_stays_inside(p: HostPlacement)
    requires
        clip_fits(p),
        spec_clip(p) is Some,
    ensures
        ({
            let c = clipped(p);
            &&& p.area.x <= c.x
            &&& 0 < c.cols
            &&& c.x + c.cols <= p.area.x + p.area.width
            &&& p.area.y <= c.y
            &&& 0 < c.rows
            &&& c.y + c.rows <= p.area.y + p.area.height
            &&& c.cols <= p.placement.render.grid_cols
            &&& c.rows <= p.placement.render.grid_rows
            &&& 0 < c.source_width
            &&& c.source_x + c.source_width <= p.placement.image_width
            &&& 0 < c.source_height
            &&& c.source_y + c.source_height <= p.placement.image_height
        }),
{
}

/// Nothing is drawn into an area without cells, nor for a placement without a grid, nor for
/// one that lies wholly outside its area.
pub proof fn law_nothing_visible_outside(p: HostPlacement)
    requires
        p.area.spec_is_empty() || p.placement.render.grid_cols == 0 || p.placement.render.grid_rows
            == 0 || p.placement.render.viewport_col >= p.area.width
            || p.placement.render.viewport_row >= p.area.height
            || (p.placement.render.viewport_col > i32::MIN && p.placement.render.viewport_col
            + p.placement.render.grid_cols <= 0) || (p.placement.render.viewport_row > i32::MIN
            && p.placement.render.viewport_row + p.placement.render.grid_rows <= 0),
    ensures
        spec_clip(p) is None,
{
}

/// What one axis of a placement asks for: the cells from `start` on, `grid` of them, in an area of
/// `extent` cells of `cell_px` pixels, filled with the `asked` pixels of the image from `from` on.
/// The placement is `whole` pixels long.
pub ghost struct Request {
    pub start: int,
    pub grid: int,
    pub extent: int,
    pub cell_px: int,
    pub whole: int,
    pub from: int,
    pub asked: int,
    pub image: int,
}

/// What is asked for across.
pub open spec fn across(p: HostPlacement) -> Request {
    let by_cells = p.placement.render.grid_cols * p.cell_size.width_px;
    Request {
        start: p.placement.render.viewport_col as int,
        grid: p.placement.render.grid_cols as int,
        extent: p.area.width as int,
        cell_px: p.cell_size.width_px as int,
        whole: max_int(max_int(p.placement.render.pixel_width as int, by_cells), 1),
        from: p.placement.render.source_x as int,
        asked: if p.placement.render.source_width == 0 {
            p.placement.image_width as int
        } else {
            p.placement.render.source_width as int
        },
        image: p.placement.image_width as int,
    }
}

/// What is asked for down the screen.
pub open spec fn down(p: HostPlacement) -> Request {
    let by_cells = p.placement.render.grid_rows * p.cell_size.height_px;
    Request {
        start: p.placement.render.viewport_row as int,
        grid: p.placement.render.grid_rows as int,
        extent: p.area.height as int,
        cell_px: p.cell_size.height_px as int,
        whole: max_int(max_int(p.placement.render.pixel_height as int, by_cells), 1),
        from: p.placement.render.source_y as int,
        asked: if p.placement.render.source_height == 0 {
            p.placement.image_height as int
        } else {
            p.placement.render.source_height as int
        },
        image: p.placement.image_height as int,
    }
}

impl Request {
    /// A request whose numbers stay below the limits of the integers they are kept in.
    pub open spec fn is_small(self) -> bool {
        i32::MIN < self.start && self.grid * self.cell_px <= u32::MAX
    }

    /// Cell `i` of the area is one that the placement asks for.
    pub open spec fn covers(self, i: int) -> bool {
        0 <= i < self.extent && self.start <= i < self.start + self.grid
    }

    /// How many cells are cut off before the start of the area.
    pub open spec fn cut(self) -> int {
        if self.start < 0 {
            -self.start
        } else {
            0
        }
    }

    /// `px` pixels of the image are what belongs to `cells` cells of the placement: their exact
    /// share, the fraction left out.
    pub open spec fn is_share(self, px: int, cells: int) -> bool {
        px * self.whole <= cells * self.cell_px * self.asked < (px + 1) * self.whole
    }

    /// The `cells` cells from `at` on, filled with `px` pixels from `source` on, are what is left of
    /// the request in its area: all cells that it covers and no others; the image from where the
    /// request starts, moved on by the share of the cells that are cut off; and the share of the
    /// cells that are left, but at least a pixel, and not beyond the end of the image.
    pub open spec fn leaves(self, at: int, cells: int, source: int, px: int) -> bool {
        &&& forall|i: int| self.covers(i) <==> at <= i < at + cells
        &&& self.is_share(source - self.from, self.cut())
        &&& source + px <= self.image
        &&& self.is_share(px, cells) || (self.is_share(0, cells) && px == 1) || (source + px
            == self.image && px * self.whole <= max_int(
            cells * self.cell_px * self.asked,
            self.whole,
        ))
    }
}

proof fn lemma_share(value: int, cell_px: int, asked: int, whole: int)
    requires
        0 <= value,
        0 <= cell_px,
        0 <= asked <= u32::MAX,
        value * cell_px <= whole,
        0 < whole <= u32::MAX,
    ensures
        ({
            let px = scaled(capped_product(value, cell_px), asked, whole);
            &&& 0 <= px <= asked
            &&& px * whole <= value * cell_px * asked < (px + 1) * whole
        }),
{
    let v = value * cell_px;
    assert(0 <= v) by (nonlinear_arith)
        requires
            0 <= value,
            0 <= cell_px,
            v == value * cell_px,
    ;
    let n = v * asked;
    assert(n == value * cell_px * asked);
    let q = n / whole;
    assert(0 <= n <= whole * asked) by (nonlinear_arith)
        requires
            0 <= v <= whole,
            0 <= asked,
            n == v * asked,
    ;
    assert(q * whole <= n < (q + 1) * whole && 0 <= q <= asked) by (nonlinear_arith)
        requires
            0 <= n <= whole * asked,
            0 < whole,
            q == n / whole,
    ;
}

proof fn lemma_axis_leaves(axis: Axis, request: Request)
    requires
        axis.visible_cells() > 0,
        request.is_small(),
        request.start == axis.viewport,
        request.grid == axis.grid,
        request.extent == axis.extent,
        request.cell_px == axis.cell_px,
        request.whole == max_int(max_int(axis.target_px as int, axis.grid * axis.cell_px), 1),
        request.from == axis.source_start,
        request.asked == axis.full_source(),
        request.image == axis.image_px,
        axis.visible_source() > 0,
    ensures
        request.leaves(
            axis.offset(),
            axis.visible_cells(),
            axis.visible_source_start(),
            axis.visible_source(),
        ),
{
    let hidden = cells_before(axis.viewport as int);
    let cells = axis.visible_cells();
    let whole = request.whole;
    let cell = axis.cell_px as int;
    assert(axis.full_target() == whole);
    assert(hidden * cell <= whole && cells * cell <= whole) by (nonlinear_arith)
        requires
            0 <= hidden <= axis.grid,
            0 <= cells <= axis.grid,
            0 <= cell,
            axis.grid * cell <= whole,
    ;
    lemma_share(hidden, cell, axis.full_source(), whole);
    lemma_share(cells, cell, axis.full_source(), whole);
    assert forall|i: int| request.covers(i) <==> axis.offset() <= i < axis.offset() + cells by {}
    let share = scaled(capped_product(cells, cell), axis.full_source(), whole);
    let px = axis.visible_source();
    assert(px <= share || px == 1);
    if !request.is_share(px, cells) {
        assert(px * whole <= max_int(cells * cell * request.asked, whole)) by (nonlinear_arith)
            requires
                px <= share || px == 1,
                share * whole <= cells * cell * request.asked,
                0 < whole,
                0 <= share,
        ;
    }
}

/// What is left of a placement in its area is the part that was asked for: every cell of the area
/// that the placement covers, and the part of the image that belongs to those cells, counted from
/// the start of the part that the placement shows.
pub proof fn law_clip_shows_what_was_asked_for(p: HostPlacement)
    requires
        clip_fits(p),
        spec_clip(p) is Some,
        across(p).is_small(),
        down(p).is_small(),
    ensures
        ({
            let c = (spec_clip(p)->0).0;
            &&& across(p).leaves(
                c.x - p.area.x,
                c.cols as int,
                c.source_x as int,
                c.source_width as int,
            )
            &&& down(p).leaves(
                c.y - p.area.y,
                c.rows as int,
                c.source_y as int,
                c.source_height as int,
            )
        }),
{
    lemma_axis_leaves(columns(p), across(p));
    lemma_axis_leaves(rows(p), down(p));
}

/// A placement is drawn exactly where it covers a cell of its area, across and down, and where the
/// image has not ended before the first of them.
pub proof fn law_what_covers_a_cell_is_drawn(p: HostPlacement)
    requires
        clip_fits(p),
        across(p).is_small(),
        down(p).is_small(),
    ensures
        spec_clip(p) is Some ==> (exists|i: int| across(p).covers(i)) && (exists|j: int|
            down(p).covers(j)),
        (exists|i: int| across(p).covers(i)) && (exists|j: int| down(p).covers(j))
            && p.placement.render.viewport_col >= 0 && p.placement.render.viewport_row >= 0
            && p.placement.render.source_x < p.placement.image_width
            && p.placement.render.source_y < p.placement.image_height ==> spec_clip(p) is Some,
{
    if spec_clip(p) is Some {
        assert(across(p).covers(columns(p).offset()));
        assert(down(p).covers(rows(p).offset()));
    }
    if exists|i: int| across(p).covers(i) {
        let i = choose|i: int| across(p).covers(i);
        assert(columns(p).visible_cells() > 0);
    }
    if exists|j: int| down(p).covers(j) {
        let j = choose|j: int| down(p).covers(j);
        assert(rows(p).visible_cells() > 0);
    }
    if p.placement.render.viewport_col >= 0 && p.placement.render.viewport_row >= 0 {
        lemma_nothing_cut(columns(p));
        lemma_nothing_cut(rows(p));
    }
}

proof fn lemma_nothing_cut(axis: Axis)
    requires
        axis.viewport >= 0,
    ensures
        axis.visible_source_start() == axis.source_start,
{
    assert(0int * axis.cell_px == 0 && 0int * axis.full_source() == 0);
    assert(0int / axis.full_target() == 0) by (nonlinear_arith)
        requires
            axis.full_target() >= 1,
    ;
}

/// A placement of which no cell is cut off shows the image from exactly where it asks to, in the
/// cells where it asks to be, with its offset into the first one. One that does not reach beyond
/// the end of its area either, and that is no larger than its cells, shows all that it asks for, as
/// far as the image goes.
pub proof fn law_an_uncut_placement_is_shown_as_it_is(p: HostPlacement)
    requires
        clip_fits(p),
        spec_clip(p) is Some,
    ensures
        ({
            let c = (spec_clip(p)->0).0;
            let r = p.placement.render;
            &&& r.viewport_col >= 0 ==> c.source_x == r.source_x && c.x == p.area.x
                + r.viewport_col && c.x_offset == p.placement.x_offset
            &&& r.viewport_row >= 0 ==> c.source_y == r.source_y && c.y == p.area.y
                + r.viewport_row && c.y_offset == p.placement.y_offset
            &&& r.viewport_col >= 0 && r.viewport_col + r.grid_cols <= p.area.width && 0
                < r.grid_cols * p.cell_size.width_px <= u32::MAX && r.pixel_width <= r.grid_cols
                * p.cell_size.width_px ==> c.cols == r.grid_cols && c.source_width == min_int(
                across(p).asked,
                p.placement.image_width - r.source_x,
            )
            &&& r.viewport_row >= 0 && r.viewport_row + r.grid_rows <= p.area.height && 0
                < r.grid_rows * p.cell_size.height_px <= u32::MAX && r.pixel_height <= r.grid_rows
                * p.cell_size.height_px ==> c.rows == r.grid_rows && c.source_height == min_int(
                down(p).asked,
                p.placement.image_height - r.source_y,
            )
        }),
{
    let r = p.placement.render;
    if r.viewport_col >= 0 {
        lemma_nothing_cut(columns(p));
        if r.viewport_col + r.grid_cols <= p.area.width && 0 < r.grid_cols * p.cell_size.width_px
            <= u32::MAX && r.pixel_width <= r.grid_cols * p.cell_size.width_px {
            lemma_all_shown(columns(p));
        }
    }
    if r.viewport_row >= 0 {
        lemma_nothing_cut(rows(p));
        if r.viewport_row + r.grid_rows <= p.area.height && 0 < r.grid_rows * p.cell_size.height_px
            <= u32::MAX && r.pixel_height <= r.grid_rows * p.cell_size.height_px {
            lemma_all_shown(rows(p));
        }
    }
}

proof fn lemma_all_shown(axis: Axis)
    requires
        axis.viewport >= 0,
        axis.viewport + axis.grid <= axis.extent,
        0 < axis.grid * axis.cell_px <= u32::MAX,
        axis.target_px <= axis.grid * axis.cell_px,
        axis.visible_cells() > 0,
    ensures
        axis.visible_cells() == axis.grid,
        axis.visible_source() == min_int(
            max_int(axis.full_source(), 1),
            max_int(axis.image_px - axis.visible_source_start(), 0),
        ),
{
    let whole = axis.grid * axis.cell_px;
    let asked = axis.full_source();
    assert(whole * asked / whole == asked) by (nonlinear_arith)
        requires
            0 < whole,
            0 <= asked,
    ;
}

/// Two placements that differ only in where the part that they show starts are cut alike: what is
/// shown of one lies as far from what is shown of the other as they ask.
pub proof fn law_the_source_moves_with_the_request(
    p: HostPlacement,
    q: HostPlacement,
    right: int,
    lower: int,
)
    requires
        clip_fits(p),
        clip_fits(q),
        spec_clip(p) is Some,
        spec_clip(q) is Some,
        q.area == p.area,
        q.cell_size == p.cell_size,
        q.placement.image_width == p.placement.image_width,
        q.placement.image_height == p.placement.image_height,
        q.placement.render.source_x == p.placement.render.source_x + right,
        q.placement.render.source_y == p.placement.render.source_y + lower,
        q.placement.render == (crate::kitty_graphics::model::KittyPlacementRenderInfo {
            source_x: q.placement.render.source_x,
            source_y: q.placement.render.source_y,
            ..p.placement.render
        }),
    ensures
        (spec_clip(q)->0).0.source_x == (spec_clip(p)->0).0.source_x + right,
        (spec_clip(q)->0).0.source_y == (spec_clip(p)->0).0.source_y + lower,
{
    assert(columns(q) == (Axis { source_start: columns(q).source_start, ..columns(p) }));
    assert(rows(q) == (Axis { source_start: rows(q).source_start, ..rows(p) }));
}

} // verus!
