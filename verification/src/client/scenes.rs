//! Scenes that the client draws itself: which of what was drawn goes to the terminal.

use crate::kitty_graphics::model::{
    GraphicsLayer, PaneGraphicsFormat, PaneGraphicsPlacementParams,
};
use crate::layout::Rect;
use vstd::prelude::*;

verus! {

/// How far a scene of the signal tray came.
#[derive(Debug, Clone, Copy, PartialEq, Eq, Structural)]
pub enum TrayProgress {
    /// The message held no scene.
    NotDecoded,
    /// The scene is the one that is on screen.
    Unchanged,
    /// There is nothing to draw.
    NothingDrawn,
    /// What was drawn looks like what is on screen.
    Refused,
    /// What was drawn could not be made a layer.
    NoLayer,
    /// A layer is ready.
    Layer,
}

/// What follows for the tray.
#[derive(Debug, Clone, Copy, PartialEq, Eq, Structural)]
pub struct TrayOutcome {
    /// Hand the layer to the terminal.
    pub encode: bool,
    /// Remember the scene, so that the same one is not drawn again.
    pub remember_scene: bool,
    /// Forget what was taken for published, since it never went out.
    pub forget_published: bool,
}

/// A scene is remembered once it was drawn, whether or not it goes out; what was taken for
/// published is forgotten where it does not.
pub fn tray_outcome(progress: TrayProgress) -> (outcome: TrayOutcome)
    ensures
        outcome.encode == (progress == TrayProgress::Layer),
        outcome.remember_scene == (progress == TrayProgress::Refused || progress
            == TrayProgress::NoLayer || progress == TrayProgress::Layer),
        outcome.forget_published == (progress == TrayProgress::NoLayer),
{
    match progress {
        TrayProgress::NotDecoded | TrayProgress::Unchanged | TrayProgress::NothingDrawn => {
            TrayOutcome { encode: false, remember_scene: false, forget_published: false }
        },
        TrayProgress::Refused => TrayOutcome {
            encode: false,
            remember_scene: true,
            forget_published: false,
        },
        TrayProgress::NoLayer => TrayOutcome {
            encode: false,
            remember_scene: true,
            forget_published: true,
        },
        TrayProgress::Layer => TrayOutcome {
            encode: true,
            remember_scene: true,
            forget_published: false,
        },
    }
}

/// Pixels in the form in which they are transmitted.
#[derive(Debug)]
pub struct EncodedPixels {
    pub format: PaneGraphicsFormat,
    pub data: Vec<u8>,
    pub fingerprint: u64,
}

/// The ambient picture: refused because it looks like the one on screen, or accepted and encoded
/// as far as that worked.
#[derive(Debug)]
pub enum AmbientRaster {
    Refused,
    Accepted(Option<EncodedPixels>),
}

/// The background as it was handed to the terminal last.
pub struct BackgroundSurface {
    pub previous_ambient_layer: Option<GraphicsLayer>,
}

/// What is handed to the terminal: the ambient picture, and over it the effects where there are
/// any, both filling `grid`.
pub struct BackgroundPass {
    pub grid: Rect,
    pub ambient: GraphicsLayer,
    pub effects: Option<GraphicsLayer>,
}

/// A picture that fills the screen at depth `z`.
pub open spec fn is_full_layer(
    layer: GraphicsLayer,
    pixels: EncodedPixels,
    width: u32,
    height: u32,
    z: int,
) -> bool {
    &&& layer.format == pixels.format
    &&& layer.image_width == width
    &&& layer.image_height == height
    &&& layer.data@ == pixels.data@
    &&& layer.data_fingerprint == pixels.fingerprint
    &&& layer.render.viewport_col == 0
    &&& layer.render.viewport_row == 0
    &&& layer.render.grid_cols == 0
    &&& layer.render.grid_rows == 0
    &&& layer.render.z == z
    &&& layer.animation is None
}

fn full_layer(pixels: EncodedPixels, width: u32, height: u32, z: i32) -> (layer: GraphicsLayer)
    ensures
        is_full_layer(layer, pixels, width, height, z as int),
{
    GraphicsLayer {
        format: pixels.format,
        image_width: width,
        image_height: height,
        data: pixels.data,
        data_fingerprint: pixels.fingerprint,
        render: PaneGraphicsPlacementParams {
            viewport_col: 0,
            viewport_row: 0,
            grid_cols: 0,
            grid_rows: 0,
            z,
        },
        animation: None,
    }
}

impl BackgroundSurface {
    pub fn new() -> (surface: Self)
        ensures
            surface.previous_ambient_layer is None,
    {
        BackgroundSurface { previous_ambient_layer: None }
    }

    /// Whether a scene leads to anything on the terminal: it has a size, and its ambient picture
    /// is either a new one that could be encoded or the one that is there already.
    pub open spec fn shows(self, width: u32, height: u32, ambient: AmbientRaster) -> bool {
        width != 0 && height != 0 && match ambient {
            AmbientRaster::Refused => self.previous_ambient_layer is Some,
            AmbientRaster::Accepted(pixels) => pixels is Some,
        }
    }

    /// What a scene of `width` by `height` pixels puts on a screen of `reported_size` cells. An
    /// ambient picture that was refused stays the one before it, so that the surface never reads
    /// as withdrawn; effects are shown whenever there are any.
    pub fn pass(
        &mut self,
        reported_size: (u16, u16),
        width: u32,
        height: u32,
        ambient: AmbientRaster,
        effects: Option<EncodedPixels>,
    ) -> (pass: Option<BackgroundPass>)
        ensures
            pass is Some <==> old(self).shows(width, height, ambient),
            pass is None ==> *final(self) == *old(self),
            pass matches Some(pass) ==> {
                &&& pass.grid == (Rect {
                    x: 0,
                    y: 0,
                    width: reported_size.0,
                    height: reported_size.1,
                })
                &&& match ambient {
                    AmbientRaster::Refused => {
                        &&& *final(self) == *old(self)
                        &&& pass.ambient.same(old(self).previous_ambient_layer->0)
                    },
                    AmbientRaster::Accepted(pixels) => {
                        &&& is_full_layer(pass.ambient, pixels->0, width, height, -2)
                        &&& final(self).previous_ambient_layer is Some
                        &&& final(self).previous_ambient_layer->0.same(pass.ambient)
                    },
                }
                &&& match effects {
                    Some(pixels) => pass.effects is Some && is_full_layer(
                        pass.effects->0,
                        pixels,
                        width,
                        height,
                        -1,
                    ),
                    None => pass.effects is None,
                }
            },
    {
        if width == 0 || height == 0 {
            return None;
        }
        let ambient_layer = match ambient {
            AmbientRaster::Refused => match &self.previous_ambient_layer {
                Some(layer) => layer.duplicate(),
                None => {
                    return None;
                },
            },
            AmbientRaster::Accepted(pixels) => match pixels {
                Some(pixels) => {
                    let layer = full_layer(pixels, width, height, -2);
                    self.previous_ambient_layer = Some(layer.duplicate());
                    layer
                },
                None => {
                    return None;
                },
            },
        };
        let effects_layer = match effects {
            Some(pixels) => Some(full_layer(pixels, width, height, -1)),
            None => None,
        };
        Some(
            BackgroundPass {
                grid: Rect::new(0, 0, reported_size.0, reported_size.1),
                ambient: ambient_layer,
                effects: effects_layer,
            },
        )
    }
}

/// A picture that fills the screen is transmitted as it was drawn, starts in the top left corner, has
/// no grid of its own and does not move; pictures at different depths are different layers.
pub proof fn law_a_full_picture_is_sent_as_drawn(
    layer: GraphicsLayer,
    other: GraphicsLayer,
    pixels: EncodedPixels,
    width: u32,
    height: u32,
    z: int,
    w: int,
)
    requires
        is_full_layer(layer, pixels, width, height, z),
        is_full_layer(other, pixels, width, height, w),
    ensures
        layer.image_width == width && layer.image_height == height,
        layer.data@ == pixels.data@ && layer.data_fingerprint == pixels.fingerprint,
        layer.format == pixels.format,
        layer.render.viewport_col == 0 && layer.render.viewport_row == 0,
        layer.render.grid_cols == 0 && layer.render.grid_rows == 0,
        layer.animation is None,
        layer.render.z == other.render.z <==> z == w,
        layer.render.z < other.render.z <==> z < w,
        layer.render.z == z,
{
}

/// A scene without pixels shows nothing. Any other shows its own picture where that could be encoded,
/// and the one before it where it was refused, if there was one.
pub proof fn law_what_a_scene_shows(
    surface: BackgroundSurface,
    layer: GraphicsLayer,
    pixels: EncodedPixels,
    width: u32,
    height: u32,
)
    ensures
        !surface.shows(0, height, AmbientRaster::Refused),
        !surface.shows(width, 0, AmbientRaster::Refused),
        !surface.shows(0, height, AmbientRaster::Accepted(Some(pixels))),
        !surface.shows(width, 0, AmbientRaster::Accepted(Some(pixels))),
        !surface.shows(width, height, AmbientRaster::Accepted(None)),
        width > 0 && height > 0 ==> surface.shows(
            width,
            height,
            AmbientRaster::Accepted(Some(pixels)),
        ),
        surface.previous_ambient_layer is None ==> !surface.shows(
            width,
            height,
            AmbientRaster::Refused,
        ),
        surface.previous_ambient_layer is Some && width > 0 && height > 0 ==> surface.shows(
            width,
            height,
            AmbientRaster::Refused,
        ),
{
}

} // verus!
