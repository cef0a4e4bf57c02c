//! The size of the terminal and of its cells, as far as the client knows them.

use crate::client::protocol::RawInputEvent;
use crate::kitty_graphics::cell_size::{HostCellSize, WindowSize};
use vstd::prelude::*;

verus! {

/// The request for the cell size in pixels.
pub const HOST_CELL_SIZE_QUERY: &'static str = "\x1b[16t";

/// Columns, rows, and the pixel size of a cell; zero pixels mean that nothing is known.
pub type Geometry = (u16, u16, u32, u32);

/// The cell that delegated scenes are drawn against: the reported one through the same gate that
/// the server puts it through.
pub fn rasterisation_cell_size(width_px: u32, height_px: u32) -> (size: HostCellSize)
    ensures
        size == ({
            let reported = HostCellSize { width_px, height_px };
            if reported.known() {
                reported.believable()
            } else {
                reported
            }
        }),
{
    HostCellSize { width_px, height_px }.plausible_or_unknown()
}

/// The cell that divides the window evenly, where the terminal tells its size in pixels.
pub open spec fn divided(window: Option<WindowSize>) -> Option<(u32, u32)> {
    match window {
        Some(size) => if size.columns == 0 || size.rows == 0 || size.width == 0 || size.height
            == 0 {
            None
        } else {
            Some(
                (
                    HostCellSize::derived_from(size).width_px,
                    HostCellSize::derived_from(size).height_px,
                ),
            )
        },
        None => None,
    }
}

pub fn ioctl_cell_size(window: Option<WindowSize>) -> (size: Option<(u32, u32)>)
    ensures
        size == divided(window),
{
    match window {
        Some(size) => {
            if size.columns == 0 || size.rows == 0 || size.width == 0 || size.height == 0 {
                return None;
            }
            let width: u32 = size.width as u32 / size.columns as u32;
            let height: u32 = size.height as u32 / size.rows as u32;
            Some(
                (
                    if width > 1 {
                        width
                    } else {
                        1
                    },
                    if height > 1 {
                        height
                    } else {
                        1
                    },
                ),
            )
        },
        None => None,
    }
}

/// Whether a cell was told, and is one that a terminal can have.
pub open spec fn told(pair: Option<(u32, u32)>) -> bool {
    match pair {
        Some((width_px, height_px)) => HostCellSize { width_px, height_px }.plausible(),
        None => false,
    }
}

/// The cell to draw with: the terminal's own answer before the division of its window, and that
/// before an assumption, each only where it can be a cell at all.
pub open spec fn spec_best_known(
    ioctl: Option<(u32, u32)>,
    reported: Option<(u32, u32)>,
) -> (u32, u32) {
    if told(reported) {
        reported->0
    } else if told(ioctl) {
        ioctl->0
    } else {
        (8, 16)
    }
}

fn is_told(pair: Option<(u32, u32)>) -> (plausible: bool)
    ensures
        plausible == told(pair),
{
    match pair {
        Some((width_px, height_px)) => HostCellSize { width_px, height_px }.is_plausible(),
        None => false,
    }
}

pub fn best_known_cell_size(ioctl: Option<(u32, u32)>, reported: Option<(u32, u32)>) -> (size: (
    u32,
    u32,
))
    ensures
        size == spec_best_known(ioctl, reported),
{
    if is_told(reported) {
        if let Some(size) = reported {
            return size;
        }
    }
    if is_told(ioctl) {
        if let Some(size) = ioctl {
            return size;
        }
    }
    (8, 16)
}

/// Both sides of a cell in one number.
pub fn pack_cell_size(width_px: u32, height_px: u32) -> (packed: u64)
    ensures
        packed == width_px * 0x1_0000_0000 + height_px,
{
    assert(((width_px as u64) << 32u64) | (height_px as u64) == width_px * 0x1_0000_0000u64
        + height_px) by (bit_vector);
    ((width_px as u64) << 32) | (height_px as u64)
}

/// The sides that a number holds; half a cell is none.
pub open spec fn unpacked(packed: u64) -> Option<(u32, u32)> {
    let width_px = (packed / 0x1_0000_0000) as u32;
    let height_px = (packed % 0x1_0000_0000) as u32;
    if width_px > 0 && height_px > 0 {
        Some((width_px, height_px))
    } else {
        None
    }
}

pub fn unpack_cell_size(packed: u64) -> (size: Option<(u32, u32)>)
    ensures
        size == unpacked(packed),
{
    assert(packed >> 32u64 == packed / 0x1_0000_0000u64) by (bit_vector);
    assert(packed & 0xffff_ffffu64 == packed % 0x1_0000_0000u64) by (bit_vector);
    let width_px: u32 = (packed >> 32) as u32;
    let height_px: u32 = (packed & 0xffff_ffff) as u32;
    if width_px > 0 && height_px > 0 {
        Some((width_px, height_px))
    } else {
        None
    }
}

/// Packing a whole cell and unpacking it gives the cell; a cell without a side is lost.
pub proof fn law_packing_round_trip(width_px: u32, height_px: u32)
    ensures
        unpacked((width_px * 0x1_0000_0000 + height_px) as u64) == (if width_px > 0 && height_px
            > 0 {
            Some((width_px, height_px))
        } else {
            None
        }),
{
}

/// The terminal's size, 80 by 24 where it is unknown, and the best known cell. Without graphics
/// nothing is said of pixels.
pub fn current_terminal_geometry(
    kitty_graphics_enabled: bool,
    size: Option<(u16, u16)>,
    window: Option<WindowSize>,
    reported_cell_size: u64,
) -> (geometry: Geometry)
    ensures
        ({
            let cells = match size {
                Some(cells) => cells,
                None => (80u16, 24u16),
            };
            let cell = spec_best_known(divided(window), unpacked(reported_cell_size));
            geometry == (if kitty_graphics_enabled {
                (cells.0, cells.1, cell.0, cell.1)
            } else {
                (cells.0, cells.1, 0u32, 0u32)
            })
        }),
{
    let (cols, rows): (u16, u16) = match size {
        Some(cells) => cells,
        None => (80, 24),
    };
    if !kitty_graphics_enabled {
        return (cols, rows, 0, 0);
    }
    let (width, height): (u32, u32) = best_known_cell_size(
        ioctl_cell_size(window),
        unpack_cell_size(reported_cell_size),
    );
    (cols, rows, width, height)
}

/// Whether a size is to be reported: when it changed, and when the terminal signalled a resize
/// even if it came back to the same size.
pub fn resize_report_required(signalled: bool, new_size: Geometry, last_size: Geometry) -> (required:
    bool)
    ensures
        required == (signalled || new_size != last_size),
{
    signalled || new_size.0 != last_size.0 || new_size.1 != last_size.1 || new_size.2
        != last_size.2 || new_size.3 != last_size.3
}

/// The cell size that the terminal reported last among `events`.
pub open spec fn last_reported(events: Seq<RawInputEvent>) -> Option<(u32, u32)>
    decreases events.len(),
{
    if events.len() == 0 {
        None
    } else {
        match events.last() {
            RawInputEvent::HostCellSizeReport { width_px, height_px } => Some(
                (width_px, height_px),
            ),
            _ => last_reported(events.drop_last()),
        }
    }
}

pub fn reported_cell_size_from_events(events: &[RawInputEvent]) -> (size: Option<(u32, u32)>)
    ensures
        size == last_reported(events@),
{
    let mut len: usize = events.len();
    assert(events@.take(len as int) =~= events@);
    while len > 0
        invariant
            len <= events@.len(),
            last_reported(events@) == last_reported(events@.take(len as int)),
        decreases len,
    {
        assert(events@.take(len as int).last() == events@[len - 1]);
        assert(events@.take(len as int).drop_last() =~= events@.take(len - 1));
        if let RawInputEvent::HostCellSizeReport { width_px, height_px } = events[len - 1] {
            return Some((width_px, height_px));
        }
        len -= 1;
    }
    None
}

/// Whether the terminal is asked for its cell size: whenever graphics are on, however believable
/// the size of its window looks.
pub fn host_cell_size_query_required(kitty_graphics_enabled: bool) -> (required: bool)
    ensures
        required == kitty_graphics_enabled,
{
    kitty_graphics_enabled
}

/// The cell that is drawn with is always one that a terminal can have.
pub proof fn law_best_known_is_plausible(ioctl: Option<(u32, u32)>, reported: Option<(u32, u32)>)
    ensures
        ({
            let (width_px, height_px) = spec_best_known(ioctl, reported);
            HostCellSize { width_px, height_px }.plausible()
        }),
        told(reported) ==> spec_best_known(ioctl, reported) == reported->0,
{
}

/// The terminal's own answer comes before the division of its window, and that before an assumed
/// cell of 8 by 16; an answer that can be no cell is passed over.
pub proof fn law_the_terminals_answer_comes_first(
    ioctl: Option<(u32, u32)>,
    reported: Option<(u32, u32)>,
)
    ensures
        ({
            let best = spec_best_known(ioctl, reported);
            &&& reported is Some && HostCellSize {
                width_px: (reported->0).0,
                height_px: (reported->0).1,
            }.plausible() ==> best == reported->0
            &&& !told(reported) && ioctl is Some && HostCellSize {
                width_px: (ioctl->0).0,
                height_px: (ioctl->0).1,
            }.plausible() ==> best == ioctl->0
            &&& !told(reported) && !told(ioctl) ==> best == (8u32, 16u32)
            &&& reported is None ==> !told(reported)
        }),
{
}

/// A window that tells its size in pixels tells the size of a cell: as large as it can be while all
/// columns and rows have room. A window without cells or pixels tells nothing.
pub proof fn law_a_window_tells_its_cell(window: WindowSize)
    ensures
        divided(Some(window)) is Some <==> window.columns > 0 && window.rows > 0 && window.width > 0
            && window.height > 0,
        divided(Some(window)) matches Some((width, height)) ==> {
            &&& window.width >= window.columns ==> width * window.columns <= window.width < (width
                + 1) * window.columns
            &&& window.height >= window.rows ==> height * window.rows <= window.height < (height
                + 1) * window.rows
        },
        divided(None) is None,
{
    if window.columns > 0 && window.rows > 0 {
        crate::kitty_graphics::cell_size::law_cells_divide_the_window(window);
    }
}

/// Of several reports the last one counts, whatever comes between them; without a report nothing is
/// known.
pub proof fn law_the_last_report_counts(
    before: Seq<RawInputEvent>,
    width_px: u32,
    height_px: u32,
    others: Seq<RawInputEvent>,
)
    requires
        forall|i: int| 0 <= i < others.len() ==> !(#[trigger] others[i] is HostCellSizeReport),
    ensures
        last_reported(
            before.push(RawInputEvent::HostCellSizeReport { width_px, height_px }) + others,
        ) == Some((width_px, height_px)),
        last_reported(others) is None,
    decreases others.len(),
{
    let all = before.push(RawInputEvent::HostCellSizeReport { width_px, height_px }) + others;
    if others.len() == 0 {
        assert(all.last() == RawInputEvent::HostCellSizeReport { width_px, height_px });
    } else {
        let short = others.drop_last();
        assert(all.last() == others[others.len() - 1]);
        assert(all.drop_last() =~= before.push(
            RawInputEvent::HostCellSizeReport { width_px, height_px },
        ) + short);
        assert forall|i: int| 0 <= i < short.len() implies !(
        #[trigger] short[i] is HostCellSizeReport) by {
            assert(short[i] == others[i]);
        }
        law_the_last_report_counts(before, width_px, height_px, short);
    }
}

} // verus!
