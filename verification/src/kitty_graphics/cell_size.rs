//! The pixel size of one character cell of the host terminal.

use crate::layout::Rect;
use vstd::prelude::*;

verus! {

/// The narrowest and the widest a real terminal cell gets.
pub const MIN_WIDTH_PX: u32 = 5;

pub const MAX_WIDTH_PX: u32 = 128;

pub const MIN_HEIGHT_PX: u32 = 10;

pub const MAX_HEIGHT_PX: u32 = 256;

/// The size of a cell in pixels; `0x0` stands for a size nobody has reported.
#[derive(Debug, Clone, Copy, PartialEq, Eq, Structural)]
pub struct HostCellSize {
    pub width_px: u32,
    pub height_px: u32,
}

impl Default for HostCellSize {
    fn default() -> (size: Self)
        ensures
            size == (HostCellSize { width_px: 0, height_px: 0 }),
    {
        HostCellSize { width_px: 0, height_px: 0 }
    }
}

/// The size of the whole host terminal, in cells and in pixels.
#[derive(Debug, Clone, Copy, PartialEq, Eq, Structural)]
pub struct WindowSize {
    pub columns: u16,
    pub rows: u16,
    pub width: u16,
    pub height: u16,
}

pub open spec fn max_int(a: int, b: int) -> int {
    if a >= b {
        a
    } else {
        b
    }
}

impl HostCellSize {
    /// The cell that is assumed when nothing on the machine tells one.
    pub open spec fn spec_fallback() -> HostCellSize {
        HostCellSize { width_px: 8, height_px: 16 }
    }

    #[verifier::when_used_as_spec(spec_fallback)]
    pub fn fallback() -> (size: Self)
        ensures
            size == Self::spec_fallback(),
    {
        HostCellSize { width_px: 8, height_px: 16 }
    }

    /// A size that a terminal really draws in: each side inside its bounds, and the height
    /// between 1.05 and 4 times the width.
    pub open spec fn plausible(self) -> bool {
        &&& MIN_WIDTH_PX <= self.width_px <= MAX_WIDTH_PX
        &&& MIN_HEIGHT_PX <= self.height_px <= MAX_HEIGHT_PX
        &&& 105 * self.width_px <= 100 * self.height_px
        &&& self.height_px <= 4 * self.width_px
    }

    pub open spec fn known(self) -> bool {
        self.width_px > 0 && self.height_px > 0
    }

    /// The cell itself where it is plausible, the fallback where it is not.
    pub open spec fn believable(self) -> HostCellSize {
        if self.plausible() {
            self
        } else {
            Self::fallback()
        }
    }

    pub fn is_plausible(self) -> (plausible: bool)
        ensures
            plausible == self.plausible(),
    {
        if self.width_px < MIN_WIDTH_PX || self.width_px > MAX_WIDTH_PX || self.height_px
            < MIN_HEIGHT_PX || self.height_px > MAX_HEIGHT_PX {
            return false;
        }
        105 * self.width_px <= 100 * self.height_px && self.height_px <= 4 * self.width_px
    }

    pub fn or_fallback(self) -> (size: Self)
        ensures
            size == self.believable(),
    {
        if self.is_plausible() {
            self
        } else {
            Self::fallback()
        }
    }

    /// What every reported cell passes on the way in. An unknown cell stays unknown; a
    /// known one that is no real cell is replaced whole.
    pub fn plausible_or_unknown(self) -> (size: Self)
        ensures
            size == if self.known() {
                self.believable()
            } else {
                self
            },
    {
        if self.is_known() {
            self.or_fallback()
        } else {
            self
        }
    }

    pub fn is_known(self) -> (known: bool)
        ensures
            known == self.known(),
    {
        self.width_px > 0 && self.height_px > 0
    }

    /// The cell that divides `window` evenly: pixels by cells, at least one pixel each way.
    pub open spec fn derived_from(window: WindowSize) -> HostCellSize
        recommends
            window.columns > 0,
            window.rows > 0,
    {
        HostCellSize {
            width_px: max_int(window.width as int / window.columns as int, 1) as u32,
            height_px: max_int(window.height as int / window.rows as int, 1) as u32,
        }
    }

    /// The cell a terminal of the given size has, for drawing into `area`: none where the
    /// terminal reports no pixels or a size that gives no plausible cell.
    pub fn try_from_terminal(window: WindowSize, area: Rect) -> (size: Option<Self>)
        ensures
            size is Some <==> window.columns > 0 && window.rows > 0 && window.width > 0
                && window.height > 0 && Self::derived_from(window).plausible(),
            size is Some ==> size->0 == (if area.spec_is_empty() {
                HostCellSize { width_px: 0, height_px: 0 }
            } else {
                Self::derived_from(window)
            }),
    {
        if window.columns == 0 || window.rows == 0 || window.width == 0 || window.height == 0 {
            return None;
        }
        let width: u32 = window.width as u32 / window.columns as u32;
        let height: u32 = window.height as u32 / window.rows as u32;
        let derived = HostCellSize {
            width_px: if width > 1 {
                width
            } else {
                1
            },
            height_px: if height > 1 {
                height
            } else {
                1
            },
        };
        if !derived.is_plausible() {
            return None;
        }
        Some(derived.for_area(area))
    }

    /// The cell to draw into `area` with when the terminal tells none.
    pub fn fallback_for_area(area: Rect) -> (size: Self)
        ensures
            size == if area.spec_is_empty() {
                HostCellSize { width_px: 0, height_px: 0 }
            } else {
                Self::fallback()
            },
    {
        Self::fallback().for_area(area)
    }

    /// This cell, or the unknown one where `area` covers nothing.
    pub fn for_area(self, area: Rect) -> (size: Self)
        ensures
            size == if area.spec_is_empty() {
                HostCellSize { width_px: 0, height_px: 0 }
            } else {
                self
            },
    {
        if area.is_empty() {
            return HostCellSize { width_px: 0, height_px: 0 };
        }
        self
    }
}

/// The fallback is itself a plausible cell.
pub proof fn law_fallback_is_plausible()
    ensures
        HostCellSize::fallback().plausible(),
{
}

/// Whatever is reported, a known cell comes out plausible and an unknown one unknown.
pub proof fn law_believable_is_plausible(size: HostCellSize)
    ensures
        size.believable().plausible(),
        size.believable().known(),
        size.plausible() ==> size.believable() == size,
{
}

/// A cell is believed where it is 5 to 128 pixels wide and 10 to 256 high, and higher than wide by
/// at least a twentieth, but at most four times as high.
pub proof fn law_what_a_cell_can_be(size: HostCellSize)
    ensures
        size.plausible() <==> {
            &&& 5 <= size.width_px <= 128
            &&& 10 <= size.height_px <= 256
            &&& 20 * (size.height_px - size.width_px) >= size.width_px
            &&& size.height_px <= 4 * size.width_px
        },
        size.believable() == size || size.believable() == (HostCellSize {
            width_px: 8,
            height_px: 16,
        }),
{
}

/// A cell is as large as it can be while all columns and all rows have room in the window, and it
/// has at least a pixel each way.
pub proof fn law_cells_divide_the_window(window: WindowSize)
    requires
        window.columns > 0,
        window.rows > 0,
    ensures
        ({
            let size = HostCellSize::derived_from(window);
            &&& window.width >= window.columns ==> size.width_px * window.columns <= window.width
            &&& window.height >= window.rows ==> size.height_px * window.rows <= window.height
            &&& (size.width_px + 1) * window.columns > window.width
            &&& (size.height_px + 1) * window.rows > window.height
            &&& size.width_px >= 1 && size.height_px >= 1
            &&& window.width < window.columns ==> size.width_px == 1
            &&& window.height < window.rows ==> size.height_px == 1
        }),
{
    lemma_share(window.width as int, window.columns as int);
    lemma_share(window.height as int, window.rows as int);
}

proof fn lemma_share(pixels: int, cells: int)
    requires
        0 <= pixels <= u16::MAX,
        0 < cells,
    ensures
        ({
            let size = max_int(pixels / cells, 1);
            &&& 1 <= size <= u16::MAX
            &&& pixels >= cells ==> size * cells <= pixels
            &&& (size + 1) * cells > pixels
            &&& pixels < cells ==> size == 1
        }),
{
    let q = pixels / cells;
    assert(q * cells <= pixels < (q + 1) * cells && 0 <= q <= pixels) by (nonlinear_arith)
        requires
            0 <= pixels,
            0 < cells,
            q == pixels / cells,
    ;
    assert(pixels >= cells ==> q >= 1) by (nonlinear_arith)
        requires
            0 < cells,
            pixels < (q + 1) * cells,
    ;
    assert(pixels < cells ==> q == 0) by (nonlinear_arith)
        requires
            0 < cells,
            0 <= q,
            q * cells <= pixels,
    ;
    assert(q == 0 ==> 2 * cells > pixels) by (nonlinear_arith)
        requires
            0 < cells,
            pixels < (q + 1) * cells,
    ;
}

} // verus!
