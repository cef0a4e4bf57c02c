//! The data that the graphics modules work on.

use crate::kitty_graphics::cell_size::HostCellSize;
use crate::layout::{PaneId, Rect};
use vstd::prelude::*;

verus! {

/// The pixel formats that the Kitty graphics protocol transmits.
#[derive(Debug, Clone, Copy, PartialEq, Eq, Structural)]
pub enum KittyImageFormat {
    Rgb,
    Rgba,
    Png,
}

/// The pixel formats that a client publishes a layer in.
#[derive(Debug, Clone, Copy, PartialEq, Eq, Structural)]
pub enum PaneGraphicsFormat {
    Png,
    Rgb,
    Rgba,
}

/// How a pane's own image is to be shown: its size on the grid, its place in the viewport,
/// and the part of the image that is shown (a size of zero meaning the whole of it).
#[derive(Debug, Clone, Copy, PartialEq, Eq, Structural)]
pub struct KittyPlacementRenderInfo {
    pub pixel_width: u32,
    pub pixel_height: u32,
    pub grid_cols: u32,
    pub grid_rows: u32,
    pub viewport_col: i32,
    pub viewport_row: i32,
    pub source_x: u32,
    pub source_y: u32,
    pub source_width: u32,
    pub source_height: u32,
}

/// One image of a terminal and where it stands. `data` may be left out when the host has the
/// image already; `data_len` and `data_fingerprint` always describe the whole of it.
#[derive(Debug)]
pub struct KittyImagePlacement {
    pub image_id: u32,
    pub placement_id: u32,
    pub z: i32,
    pub x_offset: u32,
    pub y_offset: u32,
    pub image_width: u32,
    pub image_height: u32,
    pub format: KittyImageFormat,
    pub data_len: usize,
    pub data_fingerprint: u64,
    pub data: Vec<u8>,
    pub render: KittyPlacementRenderInfo,
}

/// Further frames that loop after an image's own, each shown for `frame_gap_ms`.
#[derive(Debug)]
pub struct GraphicsAnimation {
    pub frame_gap_ms: u32,
    pub frames: Vec<Vec<u8>>,
}

/// Where a layer goes inside the rectangle of its surface; a grid size of zero fills it.
#[derive(Debug, Clone, Copy, PartialEq, Eq, Structural)]
pub struct PaneGraphicsPlacementParams {
    pub viewport_col: i32,
    pub viewport_row: i32,
    pub grid_cols: u32,
    pub grid_rows: u32,
    pub z: i32,
}

impl Default for PaneGraphicsPlacementParams {
    fn default() -> (params: Self)
        ensures
            params == (PaneGraphicsPlacementParams {
                viewport_col: 0,
                viewport_row: 0,
                grid_cols: 0,
                grid_rows: 0,
                z: 0,
            }),
    {
        PaneGraphicsPlacementParams {
            viewport_col: 0,
            viewport_row: 0,
            grid_cols: 0,
            grid_rows: 0,
            z: 0,
        }
    }
}

/// An image published over a pane or over a part of the chrome.
#[derive(Debug)]
pub struct GraphicsLayer {
    pub format: PaneGraphicsFormat,
    pub image_width: u32,
    pub image_height: u32,
    pub data: Vec<u8>,
    pub data_fingerprint: u64,
    pub render: PaneGraphicsPlacementParams,
    pub animation: Option<GraphicsAnimation>,
}

/// The surface that a placement is anchored to. Surfaces with different owners have different
/// identities, so that none replaces the image of another.
#[derive(Debug, Clone, Copy, PartialEq, Eq, Structural, Hash)]
pub enum HostSurfaceId {
    Pane(PaneId),
    Sidebar,
    SignalTray,
    /// One of the sidebar's own cards, by its slot in the tree.
    SidebarCards(u16),
    SidebarParticleField,
    BackgroundScene,
    BackgroundEffects,
}

/// What a placement's image comes from.
#[derive(Debug, Clone, Copy, PartialEq, Eq, Structural, Hash)]
pub enum HostSourceKey {
    /// An image of the program that runs in a pane.
    Terminal { pane_id: PaneId, image_id: u32 },
    /// A layer published over `surface`.
    Layer { surface: HostSurfaceId },
}

/// What tells one image's content from another's.
#[derive(Debug, Clone, Copy, PartialEq, Eq, Structural, Hash)]
pub struct ImageSignature {
    pub image_width: u32,
    pub image_height: u32,
    pub format_code: u32,
    pub data_len: usize,
    pub data_fingerprint: u64,
}

/// Everything that decides how a placement looks on screen.
#[derive(Debug, Clone, Copy, PartialEq, Eq, Structural, Hash)]
pub struct PlacementSignature {
    pub x: u16,
    pub y: u16,
    pub cols: u32,
    pub rows: u32,
    pub source_x: u32,
    pub source_y: u32,
    pub source_width: u32,
    pub source_height: u32,
    pub x_offset: u32,
    pub y_offset: u32,
    pub z: i32,
    pub scrollback_offset: u32,
}

/// The visible part of a placement: the cells it takes on screen and the part of the image
/// that is shown in them.
#[derive(Debug, Clone, Copy, PartialEq, Eq, Structural)]
pub struct ClippedPlacement {
    pub x: u16,
    pub y: u16,
    pub cols: u32,
    pub rows: u32,
    pub source_x: u32,
    pub source_y: u32,
    pub source_width: u32,
    pub source_height: u32,
    pub x_offset: u32,
    pub y_offset: u32,
}

/// One image that should be on the host screen, inside `area`.
#[derive(Debug)]
pub struct HostPlacement {
    pub surface: HostSurfaceId,
    pub area: Rect,
    pub cell_size: HostCellSize,
    pub source_key: HostSourceKey,
    pub placement: KittyImagePlacement,
    pub scrollback_offset: u32,
    pub animation: Option<GraphicsAnimation>,
}

/// Which workspace and tab are on screen.
#[derive(Debug, Clone, Copy, PartialEq, Eq, Structural)]
pub struct HostViewKey {
    pub workspace_index: usize,
    pub tab_index: usize,
}

/// The number that stands for a format in the protocol.
pub open spec fn spec_format_code(format: KittyImageFormat) -> u32 {
    match format {
        KittyImageFormat::Rgb => 24,
        KittyImageFormat::Rgba => 32,
        KittyImageFormat::Png => 100,
    }
}

pub fn kitty_format_code(format: KittyImageFormat) -> (code: u32)
    ensures
        code == spec_format_code(format),
{
    match format {
        KittyImageFormat::Rgb => 24,
        KittyImageFormat::Rgba => 32,
        KittyImageFormat::Png => 100,
    }
}

/// The protocol's name for a published layer's format.
pub open spec fn spec_kitty_format(format: PaneGraphicsFormat) -> KittyImageFormat {
    match format {
        PaneGraphicsFormat::Png => KittyImageFormat::Png,
        PaneGraphicsFormat::Rgb => KittyImageFormat::Rgb,
        PaneGraphicsFormat::Rgba => KittyImageFormat::Rgba,
    }
}

pub fn pane_graphics_kitty_format(format: PaneGraphicsFormat) -> (kitty: KittyImageFormat)
    ensures
        kitty == spec_kitty_format(format),
{
    match format {
        PaneGraphicsFormat::Png => KittyImageFormat::Png,
        PaneGraphicsFormat::Rgb => KittyImageFormat::Rgb,
        PaneGraphicsFormat::Rgba => KittyImageFormat::Rgba,
    }
}

impl GraphicsAnimation {
    /// The same frames.
    pub open spec fn same(self, other: GraphicsAnimation) -> bool {
        &&& self.frame_gap_ms == other.frame_gap_ms
        &&& self.frames@.len() == other.frames@.len()
        &&& forall|i: int|
            0 <= i < self.frames@.len() ==> #[trigger] self.frames@[i]@ == other.frames@[i]@
    }

    pub fn duplicate(&self) -> (copy: Self)
        ensures
            copy.same(*self),
    {
        let mut frames: Vec<Vec<u8>> = Vec::new();
        let mut i: usize = 0;
        while i < self.frames.len()
            invariant
                i <= self.frames@.len(),
                frames@.len() == i,
                forall|j: int| 0 <= j < i ==> #[trigger] frames@[j]@ == self.frames@[j]@,
            decreases self.frames@.len() - i,
        {
            let frame = duplicate_bytes(&self.frames[i]);
            frames.push(frame);
            i += 1;
        }
        GraphicsAnimation { frame_gap_ms: self.frame_gap_ms, frames }
    }
}

impl GraphicsLayer {
    /// The same image in the same place.
    pub open spec fn same(self, other: GraphicsLayer) -> bool {
        &&& self.format == other.format
        &&& self.image_width == other.image_width
        &&& self.image_height == other.image_height
        &&& self.data@ == other.data@
        &&& self.data_fingerprint == other.data_fingerprint
        &&& self.render == other.render
        &&& match (self.animation, other.animation) {
            (Some(a), Some(b)) => a.same(b),
            (None, None) => true,
            _ => false,
        }
    }

    pub fn duplicate(&self) -> (copy: Self)
        ensures
            copy.same(*self),
    {
        GraphicsLayer {
            format: self.format,
            image_width: self.image_width,
            image_height: self.image_height,
            data: duplicate_bytes(&self.data),
            data_fingerprint: self.data_fingerprint,
            render: self.render,
            animation: match &self.animation {
                Some(animation) => Some(animation.duplicate()),
                None => None,
            },
        }
    }
}

/// The same bytes in a vector of their own.
pub fn duplicate_bytes(bytes: &Vec<u8>) -> (copy: Vec<u8>)
    ensures
        copy@ == bytes@,
{
    let mut copy: Vec<u8> = Vec::new();
    crate::text::push_bytes(&mut copy, bytes.as_slice());
    assert(copy@ =~= bytes@);
    copy
}

/// The protocol's numbers for the formats, and that a layer keeps the format that it is published in.
pub proof fn law_formats_have_their_numbers(format: PaneGraphicsFormat)
    ensures
        spec_format_code(KittyImageFormat::Rgb) == 24,
        spec_format_code(KittyImageFormat::Rgba) == 32,
        spec_format_code(KittyImageFormat::Png) == 100,
        spec_kitty_format(format) is Png <==> format is Png,
        spec_kitty_format(format) is Rgb <==> format is Rgb,
        spec_kitty_format(format) is Rgba <==> format is Rgba,
{
}

} // verus!
