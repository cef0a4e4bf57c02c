//! Which images should be on the host screen.

use crate::kitty_graphics::cell_size::HostCellSize;
use crate::kitty_graphics::clip;
use crate::kitty_graphics::clip::{clipped_placement, placement_fits, Axis};
use crate::kitty_graphics::encode;
use crate::kitty_graphics::encode::{encode_commands, GraphicsCommand};
use crate::kitty_graphics::identity;
use crate::kitty_graphics::identity::{host_image_id_for_signature, layer_host_image_id};
use crate::kitty_graphics::model;
use crate::kitty_graphics::model::{
    duplicate_bytes, kitty_format_code, pane_graphics_kitty_format, GraphicsLayer, HostPlacement,
    HostSourceKey, HostSurfaceId, HostViewKey, ImageSignature, KittyImagePlacement,
    KittyPlacementRenderInfo,
};
use crate::kitty_graphics::update;
use crate::kitty_graphics::update::{
    image_is_uploaded, plan_graphics_update, HostGraphicsCache,
};
use crate::layout::{PaneId, Rect};
use crate::text;
use crate::text::{push_bytes, push_text};
use std::collections::HashMap;
use vstd::prelude::*;

verus! {

/// A layer and the rectangle that the layout gives it.
pub struct SurfaceLayer {
    pub area: Rect,
    pub layer: GraphicsLayer,
}

/// The terminal that runs in a pane: how far it is scrolled back, where that is known, and the
/// images it shows.
pub struct PaneRuntime {
    pub offset_from_bottom: Option<usize>,
    pub images: Vec<KittyImagePlacement>,
}

/// A pane on screen.
pub struct PaneGraphics {
    pub id: PaneId,
    pub inner_rect: Rect,
    pub layer: Option<GraphicsLayer>,
    pub runtime: Option<PaneRuntime>,
}

/// What matters of a workspace here: its active tab, and whether there is one.
pub struct WorkspaceTabs {
    pub active_tab_index: usize,
    pub has_active_tab: bool,
}

/// Everything that decides which images are on screen. The cards are in the order of their
/// slots, the panes in the order of the layout.
pub struct GraphicsScene {
    pub terminal_mode: bool,
    pub active: Option<usize>,
    pub workspaces: Vec<WorkspaceTabs>,
    pub sidebar: Option<SurfaceLayer>,
    pub signal_tray: Option<SurfaceLayer>,
    pub particle_field: Option<SurfaceLayer>,
    pub background_scene: Option<SurfaceLayer>,
    pub background_effects: Option<SurfaceLayer>,
    pub cards: Vec<SurfaceLayer>,
    pub card_shapes: bool,
    pub card_layers_published: bool,
    pub panes: Vec<PaneGraphics>,
}

/// One image of a scene: a layer over a surface, or an image of the terminal in a pane.
pub enum SceneItem<'a> {
    Layer { surface: HostSurfaceId, area: Rect, layer: &'a GraphicsLayer },
    Image { pane: &'a PaneGraphics, offset: Option<usize>, image: &'a KittyImagePlacement },
}

/// A layer that is there, under the identity `surface`.
pub open spec fn optional_item(surface: HostSurfaceId, layer: Option<SurfaceLayer>) -> Seq<
    SceneItem<'static>,
> {
    match layer {
        Some(at) => seq![SceneItem::Layer { surface, area: at.area, layer: &at.layer }],
        None => Seq::empty(),
    }
}

/// The identity of the card in slot `slot`; slots past the last number share it.
pub open spec fn card_surface(slot: int) -> HostSurfaceId {
    HostSurfaceId::SidebarCards(
        if slot <= u16::MAX {
            slot as u16
        } else {
            u16::MAX
        },
    )
}

/// The first `count` cards.
pub open spec fn card_items(cards: Seq<SurfaceLayer>, count: nat) -> Seq<SceneItem<'static>> {
    Seq::new(
        count,
        |slot: int|
            SceneItem::Layer {
                surface: card_surface(slot),
                area: cards[slot].area,
                layer: &cards[slot].layer,
            },
    )
}

/// Cards that stand for themselves as transparent shapes are withheld from a pass that did not
/// lay its rows out with them; sheets cover the rows they stand for and are never withheld.
pub open spec fn cards_shown(scene: GraphicsScene) -> bool {
    !scene.card_shapes || scene.card_layers_published
}

/// The layers over the chrome, in the order in which they are placed.
pub open spec fn surface_items(scene: GraphicsScene) -> Seq<SceneItem<'static>> {
    optional_item(HostSurfaceId::Sidebar, scene.sidebar) + optional_item(
        HostSurfaceId::SignalTray,
        scene.signal_tray,
    ) + optional_item(HostSurfaceId::SidebarParticleField, scene.particle_field) + optional_item(
        HostSurfaceId::BackgroundScene,
        scene.background_scene,
    ) + optional_item(HostSurfaceId::BackgroundEffects, scene.background_effects) + (
    if cards_shown(scene) {
        card_items(scene.cards@, scene.cards@.len())
    } else {
        Seq::empty()
    })
}

/// The first `count` images of the terminal in a pane.
pub open spec fn image_items(pane: &PaneGraphics, runtime: PaneRuntime, count: nat) -> Seq<
    SceneItem<'static>,
> {
    Seq::new(
        count,
        |i: int|
            SceneItem::Image { pane, offset: runtime.offset_from_bottom, image: &runtime.images@[i] },
    )
}

/// A pane's own layer, then the images of its terminal.
pub open spec fn pane_items(pane: &PaneGraphics) -> Seq<SceneItem<'static>> {
    (match pane.layer {
        Some(layer) => seq![
            SceneItem::Layer {
                surface: HostSurfaceId::Pane(pane.id),
                area: pane.inner_rect,
                layer: &layer,
            },
        ],
        None => Seq::empty(),
    }) + (match pane.runtime {
        Some(runtime) => image_items(pane, runtime, runtime.images@.len()),
        None => Seq::empty(),
    })
}

/// The items of the first `count` panes.
pub open spec fn panes_items(panes: Seq<PaneGraphics>, count: nat) -> Seq<SceneItem<'static>>
    decreases count,
{
    if count == 0 {
        Seq::empty()
    } else {
        panes_items(panes, (count - 1) as nat) + pane_items(&panes[count - 1])
    }
}

/// Whether the active workspace has an active tab.
pub open spec fn has_active_tab(scene: GraphicsScene) -> bool {
    match scene.active {
        Some(index) => index < scene.workspaces@.len()
            && scene.workspaces@[index as int].has_active_tab,
        None => false,
    }
}

/// All images of a scene: the chrome's whether or not there is a tab, the panes' only with one.
pub open spec fn scene_items(scene: GraphicsScene) -> Seq<SceneItem<'static>> {
    surface_items(scene) + (if has_active_tab(scene) {
        panes_items(scene.panes@, scene.panes@.len())
    } else {
        Seq::empty()
    })
}

/// How a layer is placed: over its whole area unless it names a grid of its own.
pub open spec fn layer_render(layer: GraphicsLayer, area: Rect) -> KittyPlacementRenderInfo {
    KittyPlacementRenderInfo {
        pixel_width: layer.image_width,
        pixel_height: layer.image_height,
        grid_cols: if layer.render.grid_cols == 0 {
            area.width as u32
        } else {
            layer.render.grid_cols
        },
        grid_rows: if layer.render.grid_rows == 0 {
            area.height as u32
        } else {
            layer.render.grid_rows
        },
        viewport_col: layer.render.viewport_col,
        viewport_row: layer.render.viewport_row,
        source_x: 0,
        source_y: 0,
        source_width: 0,
        source_height: 0,
    }
}

/// The content of a layer.
pub open spec fn layer_content(layer: GraphicsLayer) -> ImageSignature {
    ImageSignature {
        image_width: layer.image_width,
        image_height: layer.image_height,
        format_code: model::spec_format_code(model::spec_kitty_format(layer.format)),
        data_len: layer.data@.len() as usize,
        data_fingerprint: layer.data_fingerprint,
    }
}

/// The area, the placing and the image size of an item: all that decides what is visible.
pub open spec fn item_area(item: SceneItem<'static>) -> Rect {
    match item {
        SceneItem::Layer { area, .. } => area,
        SceneItem::Image { pane, .. } => pane.inner_rect,
    }
}

pub open spec fn item_render(item: SceneItem<'static>) -> KittyPlacementRenderInfo {
    match item {
        SceneItem::Layer { area, layer, .. } => layer_render(*layer, area),
        SceneItem::Image { image, .. } => image.render,
    }
}

pub open spec fn item_columns(item: SceneItem<'static>, cell_size: HostCellSize) -> Axis {
    Axis {
        viewport: item_render(item).viewport_col,
        grid: item_render(item).grid_cols,
        extent: item_area(item).width,
        cell_px: cell_size.width_px,
        target_px: item_render(item).pixel_width,
        source_start: item_render(item).source_x,
        source_px: item_render(item).source_width,
        image_px: match item {
            SceneItem::Layer { layer, .. } => layer.image_width,
            SceneItem::Image { image, .. } => image.image_width,
        },
    }
}

pub open spec fn item_rows(item: SceneItem<'static>, cell_size: HostCellSize) -> Axis {
    Axis {
        viewport: item_render(item).viewport_row,
        grid: item_render(item).grid_rows,
        extent: item_area(item).height,
        cell_px: cell_size.height_px,
        target_px: item_render(item).pixel_height,
        source_start: item_render(item).source_y,
        source_px: item_render(item).source_height,
        image_px: match item {
            SceneItem::Layer { layer, .. } => layer.image_height,
            SceneItem::Image { image, .. } => image.image_height,
        },
    }
}

pub open spec fn item_visible(item: SceneItem<'static>, cell_size: HostCellSize) -> bool {
    clip::axes_visible(item_columns(item, cell_size), item_rows(item, cell_size))
}

pub open spec fn item_fits(item: SceneItem<'static>, cell_size: HostCellSize) -> bool {
    update::axes_fit(
        item_columns(item, cell_size),
        item_rows(item, cell_size),
        item_area(item).x,
        item_area(item).y,
    )
}

/// Every image of the scene has coordinates that fit.
pub open spec fn scene_fits(scene: GraphicsScene, cell_size: HostCellSize) -> bool {
    forall|i: int|
        0 <= i < scene_items(scene).len() ==> item_fits(#[trigger] scene_items(scene)[i], cell_size)
}

/// `p` is the placement of a layer over `area`. Its data and its animation come along when they
/// are asked for and the image is not known to be uploaded.
pub open spec fn is_layer_placement(
    p: HostPlacement,
    surface: HostSurfaceId,
    area: Rect,
    cell_size: HostCellSize,
    layer: GraphicsLayer,
    uploaded: Map<u32, ImageSignature>,
    include_data: bool,
) -> bool {
    let known = update::held(
        uploaded,
        identity::spec_layer_host_image_id(surface, layer_content(layer)),
    ) == Some(layer_content(layer));
    let send = include_data && !known;
    &&& p.surface == surface
    &&& p.area == area
    &&& p.cell_size == cell_size
    &&& p.source_key == HostSourceKey::Layer { surface }
    &&& p.scrollback_offset == 0
    &&& p.placement.image_id == 1
    &&& p.placement.placement_id == 1
    &&& p.placement.z == layer.render.z
    &&& p.placement.x_offset == 0
    &&& p.placement.y_offset == 0
    &&& p.placement.image_width == layer.image_width
    &&& p.placement.image_height == layer.image_height
    &&& p.placement.format == model::spec_kitty_format(layer.format)
    &&& p.placement.data_len == layer.data@.len()
    &&& p.placement.data_fingerprint == layer.data_fingerprint
    &&& p.placement.data@ == (if send {
        layer.data@
    } else {
        Seq::empty()
    })
    &&& p.placement.render == layer_render(layer, area)
    &&& match (p.animation, layer.animation) {
        (Some(copied), Some(animation)) => send && copied.same(animation),
        (None, Some(_)) => !send,
        (None, None) => true,
        (Some(_), None) => false,
    }
}

/// `p` is the placement of an image of a pane's terminal. Its data comes along when it is asked
/// for and the image is not known to be uploaded.
pub open spec fn is_image_placement(
    p: HostPlacement,
    pane: PaneGraphics,
    offset: Option<usize>,
    cell_size: HostCellSize,
    image: KittyImagePlacement,
    uploaded: Map<u32, ImageSignature>,
    include_data: bool,
) -> bool {
    let content = identity::signature_of(image, model::spec_format_code(image.format));
    let known = update::held(
        uploaded,
        identity::spec_host_image_id(HostSurfaceId::Pane(pane.id), content),
    ) == Some(content);
    &&& p.surface == HostSurfaceId::Pane(pane.id)
    &&& p.area == pane.inner_rect
    &&& p.cell_size == cell_size
    &&& p.source_key == HostSourceKey::Terminal { pane_id: pane.id, image_id: image.image_id }
    &&& p.scrollback_offset == match offset {
        Some(lines) => lines as u32,
        None => 0,
    }
    &&& p.animation is None
    &&& p.placement.image_id == image.image_id
    &&& p.placement.placement_id == image.placement_id
    &&& p.placement.z == image.z
    &&& p.placement.x_offset == image.x_offset
    &&& p.placement.y_offset == image.y_offset
    &&& p.placement.image_width == image.image_width
    &&& p.placement.image_height == image.image_height
    &&& p.placement.format == image.format
    &&& p.placement.data_len == image.data_len
    &&& p.placement.data_fingerprint == image.data_fingerprint
    &&& p.placement.data@ == (if include_data && !known {
        image.data@
    } else {
        Seq::empty()
    })
    &&& p.placement.render == image.render
}

/// `p` is the placement of `item`.
pub open spec fn is_placement_of(
    p: HostPlacement,
    item: SceneItem<'static>,
    cell_size: HostCellSize,
    uploaded: Map<u32, ImageSignature>,
    include_data: bool,
) -> bool {
    match item {
        SceneItem::Layer { surface, area, layer } => is_layer_placement(
            p,
            surface,
            area,
            cell_size,
            *layer,
            uploaded,
            include_data,
        ),
        SceneItem::Image { pane, offset, image } => is_image_placement(
            p,
            *pane,
            offset,
            cell_size,
            *image,
            uploaded,
            include_data,
        ),
    }
}

/// `placements` are the placements of the items of a scene, one each, in order, with the data
/// that the terminal lacks.
pub open spec fn are_placements_of(
    placements: Seq<HostPlacement>,
    scene: GraphicsScene,
    cell_size: HostCellSize,
    uploaded: Map<u32, ImageSignature>,
) -> bool {
    &&& placements.len() == scene_items(scene).len()
    &&& forall|i: int|
        0 <= i < placements.len() ==> is_placement_of(
            #[trigger] placements[i],
            scene_items(scene)[i],
            cell_size,
            uploaded,
            true,
        )
}

/// The layers over the chrome, in the order in which they are placed.
pub fn surface_layer_placement_targets<'a>(scene: &'a GraphicsScene) -> (targets: Vec<
    SceneItem<'a>,
>)
    ensures
        targets@ == surface_items(*scene),
{
    let mut targets: Vec<SceneItem<'a>> = Vec::new();
    push_optional(&mut targets, HostSurfaceId::Sidebar, &scene.sidebar);
    push_optional(&mut targets, HostSurfaceId::SignalTray, &scene.signal_tray);
    push_optional(&mut targets, HostSurfaceId::SidebarParticleField, &scene.particle_field);
    push_optional(&mut targets, HostSurfaceId::BackgroundScene, &scene.background_scene);
    push_optional(&mut targets, HostSurfaceId::BackgroundEffects, &scene.background_effects);
    let ghost before = targets@;
    if !scene.card_shapes || scene.card_layers_published {
        let mut slot: usize = 0;
        while slot < scene.cards.len()
            invariant
                slot <= scene.cards@.len(),
                targets@ == before + card_items(scene.cards@, slot as nat),
            decreases scene.cards@.len() - slot,
        {
            let card = &scene.cards[slot];
            let number: u16 = if slot <= u16::MAX as usize {
                slot as u16
            } else {
                u16::MAX
            };
            targets.push(
                SceneItem::Layer {
                    surface: HostSurfaceId::SidebarCards(number),
                    area: card.area,
                    layer: &card.layer,
                },
            );
            slot += 1;
            assert(targets@ =~= before + card_items(scene.cards@, slot as nat));
        }
    }
    assert(targets@ =~= surface_items(*scene));
    targets
}

fn push_optional<'a>(
    targets: &mut Vec<SceneItem<'a>>,
    surface: HostSurfaceId,
    layer: &'a Option<SurfaceLayer>,
)
    ensures
        final(targets)@ == old(targets)@ + optional_item(surface, *layer),
{
    match layer {
        Some(at) => targets.push(SceneItem::Layer { surface, area: at.area, layer: &at.layer }),
        None => {},
    }
    assert(targets@ =~= old(targets)@ + optional_item(surface, *layer));
}

/// The items of a scene.
pub fn items_of<'a>(scene: &'a GraphicsScene) -> (items: Vec<SceneItem<'a>>)
    ensures
        items@ == scene_items(*scene),
{
    let mut items = surface_layer_placement_targets(scene);
    let ghost before = items@;
    if !active_tab_exists(scene) {
        assert(items@ =~= scene_items(*scene));
        return items;
    }
    let mut i: usize = 0;
    assert(items@ =~= before + panes_items(scene.panes@, 0));
    while i < scene.panes.len()
        invariant
            i <= scene.panes@.len(),
            items@ == before + panes_items(scene.panes@, i as nat),
        decreases scene.panes@.len() - i,
    {
        let pane = &scene.panes[i];
        let ghost so_far = items@;
        match &pane.layer {
            Some(layer) => items.push(
                SceneItem::Layer {
                    surface: HostSurfaceId::Pane(pane.id),
                    area: pane.inner_rect,
                    layer,
                },
            ),
            None => {},
        }
        let ghost with_layer = items@;
        match &pane.runtime {
            Some(runtime) => {
                let mut j: usize = 0;
                assert(items@ =~= with_layer + image_items(pane, *runtime, 0));
                while j < runtime.images.len()
                    invariant
                        j <= runtime.images@.len(),
                        items@ == with_layer + image_items(pane, *runtime, j as nat),
                    decreases runtime.images@.len() - j,
                {
                    items.push(
                        SceneItem::Image {
                            pane,
                            offset: runtime.offset_from_bottom,
                            image: &runtime.images[j],
                        },
                    );
                    j += 1;
                    assert(items@ =~= with_layer + image_items(pane, *runtime, j as nat));
                }
            },
            None => {},
        }
        assert(items@ =~= so_far + pane_items(pane));
        assert(items@ =~= before + panes_items(scene.panes@, (i + 1) as nat));
        i += 1;
    }
    assert(items@ =~= scene_items(*scene));
    items
}

fn active_tab_exists(scene: &GraphicsScene) -> (exists_: bool)
    ensures
        exists_ == has_active_tab(*scene),
{
    match scene.active {
        Some(index) => index < scene.workspaces.len() && scene.workspaces[index].has_active_tab,
        None => false,
    }
}

/// Which workspace and tab are shown, where the active workspace exists.
pub fn active_view_key(scene: &GraphicsScene) -> (key: Option<HostViewKey>)
    ensures
        key == view_of(*scene),
{
    match scene.active {
        Some(index) => if index < scene.workspaces.len() {
            Some(
                HostViewKey {
                    workspace_index: index,
                    tab_index: scene.workspaces[index].active_tab_index,
                },
            )
        } else {
            None
        },
        None => None,
    }
}

pub open spec fn view_of(scene: GraphicsScene) -> Option<HostViewKey> {
    match scene.active {
        Some(index) => if index < scene.workspaces@.len() {
            Some(
                HostViewKey {
                    workspace_index: index,
                    tab_index: scene.workspaces@[index as int].active_tab_index,
                },
            )
        } else {
            None
        },
        None => None,
    }
}

/// The placement of a layer over `area`.
pub fn layer_host_placement(
    surface: HostSurfaceId,
    area: Rect,
    cell_size: HostCellSize,
    layer: &GraphicsLayer,
    uploaded_images: &HashMap<u32, ImageSignature>,
    include_data: bool,
) -> (p: HostPlacement)
    ensures
        is_layer_placement(
            p,
            surface,
            area,
            cell_size,
            *layer,
            uploaded_images@,
            include_data,
        ),
{
    let format = pane_graphics_kitty_format(layer.format);
    let content = ImageSignature {
        image_width: layer.image_width,
        image_height: layer.image_height,
        format_code: kitty_format_code(format),
        data_len: layer.data.len(),
        data_fingerprint: layer.data_fingerprint,
    };
    let host_id: u32 = layer_host_image_id(surface, content);
    let known = image_is_uploaded(uploaded_images, host_id, content);
    let send = include_data && !known;
    let data = if send {
        duplicate_bytes(&layer.data)
    } else {
        Vec::new()
    };
    let animation = match &layer.animation {
        Some(animation) => if send {
            Some(animation.duplicate())
        } else {
            None
        },
        None => None,
    };
    let render = layer.render;
    HostPlacement {
        surface,
        area,
        cell_size,
        source_key: HostSourceKey::Layer { surface },
        scrollback_offset: 0,
        animation,
        placement: KittyImagePlacement {
            image_id: 1,
            placement_id: 1,
            z: render.z,
            x_offset: 0,
            y_offset: 0,
            image_width: layer.image_width,
            image_height: layer.image_height,
            format,
            data_len: layer.data.len(),
            data_fingerprint: layer.data_fingerprint,
            data,
            render: KittyPlacementRenderInfo {
                pixel_width: layer.image_width,
                pixel_height: layer.image_height,
                grid_cols: if render.grid_cols == 0 {
                    area.width as u32
                } else {
                    render.grid_cols
                },
                grid_rows: if render.grid_rows == 0 {
                    area.height as u32
                } else {
                    render.grid_rows
                },
                viewport_col: render.viewport_col,
                viewport_row: render.viewport_row,
                source_x: 0,
                source_y: 0,
                source_width: 0,
                source_height: 0,
            },
        },
    }
}

fn image_host_placement(
    pane: &PaneGraphics,
    offset: Option<usize>,
    cell_size: HostCellSize,
    image: &KittyImagePlacement,
    uploaded_images: &HashMap<u32, ImageSignature>,
    include_data: bool,
) -> (p: HostPlacement)
    ensures
        is_image_placement(
            p,
            *pane,
            offset,
            cell_size,
            *image,
            uploaded_images@,
            include_data,
        ),
{
    let content = ImageSignature {
        image_width: image.image_width,
        image_height: image.image_height,
        format_code: kitty_format_code(image.format),
        data_len: image.data_len,
        data_fingerprint: image.data_fingerprint,
    };
    let host_id: u32 = host_image_id_for_signature(HostSurfaceId::Pane(pane.id), content);
    let known = image_is_uploaded(uploaded_images, host_id, content);
    let data = if include_data && !known {
        duplicate_bytes(&image.data)
    } else {
        Vec::new()
    };
    HostPlacement {
        surface: HostSurfaceId::Pane(pane.id),
        area: pane.inner_rect,
        cell_size,
        source_key: HostSourceKey::Terminal { pane_id: pane.id, image_id: image.image_id },
        scrollback_offset: match offset {
            Some(lines) => #[verifier::truncate] (lines as u32),
            None => 0,
        },
        animation: None,
        placement: KittyImagePlacement {
            image_id: image.image_id,
            placement_id: image.placement_id,
            z: image.z,
            x_offset: image.x_offset,
            y_offset: image.y_offset,
            image_width: image.image_width,
            image_height: image.image_height,
            format: image.format,
            data_len: image.data_len,
            data_fingerprint: image.data_fingerprint,
            data,
            render: image.render,
        },
    }
}

fn placement_of(
    item: &SceneItem<'_>,
    cell_size: HostCellSize,
    uploaded_images: &HashMap<u32, ImageSignature>,
    include_data: bool,
) -> (p: HostPlacement)
    ensures
        is_placement_of(p, *item, cell_size, uploaded_images@, include_data),
        clip::columns(p) == item_columns(*item, cell_size),
        clip::rows(p) == item_rows(*item, cell_size),
        p.area == item_area(*item),
{
    match item {
        SceneItem::Layer { surface, area, layer } => layer_host_placement(
            *surface,
            *area,
            cell_size,
            layer,
            uploaded_images,
            include_data,
        ),
        SceneItem::Image { pane, offset, image } => image_host_placement(
            pane,
            *offset,
            cell_size,
            image,
            uploaded_images,
            include_data,
        ),
    }
}

/// The placements of everything that a scene shows, with the image data that the terminal lacks.
pub fn collect_visible_placements(
    scene: &GraphicsScene,
    cell_size: HostCellSize,
    uploaded_images: &HashMap<u32, ImageSignature>,
) -> (placements: Vec<HostPlacement>)
    ensures
        are_placements_of(placements@, *scene, cell_size, uploaded_images@),
        forall|i: int|
            0 <= i < placements@.len() ==> {
                &&& clip::columns(#[trigger] placements@[i]) == item_columns(
                    scene_items(*scene)[i],
                    cell_size,
                )
                &&& clip::rows(placements@[i]) == item_rows(scene_items(*scene)[i], cell_size)
                &&& placements@[i].area == item_area(scene_items(*scene)[i])
            },
{
    let items = items_of(scene);
    let mut placements: Vec<HostPlacement> = Vec::new();
    let mut i: usize = 0;
    while i < items.len()
        invariant
            i <= items@.len(),
            items@ == scene_items(*scene),
            placements@.len() == i,
            forall|j: int|
                0 <= j < i ==> is_placement_of(
                    #[trigger] placements@[j],
                    scene_items(*scene)[j],
                    cell_size,
                    uploaded_images@,
                    true,
                ),
            forall|j: int|
                0 <= j < i ==> {
                    &&& clip::columns(#[trigger] placements@[j]) == item_columns(
                        scene_items(*scene)[j],
                        cell_size,
                    )
                    &&& clip::rows(placements@[j]) == item_rows(scene_items(*scene)[j], cell_size)
                    &&& placements@[j].area == item_area(scene_items(*scene)[j])
                },
        decreases items@.len() - i,
    {
        let p = placement_of(&items[i], cell_size, uploaded_images, true);
        placements.push(p);
        i += 1;
    }
    placements
}

/// Whether every image of a scene has coordinates that fit the integers they are kept in.
pub fn graphics_fit(scene: &GraphicsScene, cell_size: HostCellSize) -> (fits: bool)
    ensures
        fits == scene_fits(*scene, cell_size),
{
    let items = items_of(scene);
    let uploaded: HashMap<u32, ImageSignature> = HashMap::new();
    let mut i: usize = 0;
    while i < items.len()
        invariant
            i <= items@.len(),
            items@ == scene_items(*scene),
            forall|j: int| 0 <= j < i ==> item_fits(#[trigger] scene_items(*scene)[j], cell_size),
        decreases items@.len() - i,
    {
        let p = placement_of(&items[i], cell_size, &uploaded, false);
        if !placement_fits(&p) {
            assert(!item_fits(scene_items(*scene)[i as int], cell_size));
            return false;
        }
        i += 1;
    }
    true
}

/// Something of a scene would be drawn: never outside terminal mode, nor while the cell size is
/// unknown.
pub open spec fn draws_anything(scene: GraphicsScene, cell_size: HostCellSize) -> bool {
    scene.terminal_mode && cell_size.known() && exists|i: int|
        0 <= i < scene_items(scene).len() && item_visible(
            #[trigger] scene_items(scene)[i],
            cell_size,
        )
}

/// Whether anything of a scene would be drawn.
pub fn has_visible_pane_graphics(scene: &GraphicsScene, cell_size: HostCellSize) -> (visible: bool)
    requires
        scene.terminal_mode && cell_size.known() ==> scene_fits(*scene, cell_size),
    ensures
        visible == draws_anything(*scene, cell_size),
{
    if !scene.terminal_mode || !cell_size.is_known() {
        return false;
    }
    let items = items_of(scene);
    let uploaded: HashMap<u32, ImageSignature> = HashMap::new();
    let mut i: usize = 0;
    while i < items.len()
        invariant
            i <= items@.len(),
            items@ == scene_items(*scene),
            scene.terminal_mode && cell_size.known(),
            scene_fits(*scene, cell_size),
            forall|j: int|
                0 <= j < i ==> !item_visible(#[trigger] scene_items(*scene)[j], cell_size),
        decreases items@.len() - i,
    {
        let p = placement_of(&items[i], cell_size, &uploaded, false);
        assert(item_fits(scene_items(*scene)[i as int], cell_size));
        if clipped_placement(&p).is_some() {
            assert(item_visible(scene_items(*scene)[i as int], cell_size));
            return true;
        }
        i += 1;
    }
    false
}

/// Something is drawn exactly where one of the collected placements is visible, whatever images the
/// terminal has: who only asks and who collects agree.
pub proof fn law_what_is_drawn_is_collected(
    scene: GraphicsScene,
    cell_size: HostCellSize,
    uploaded: Map<u32, ImageSignature>,
    placements: Seq<HostPlacement>,
)
    requires
        are_placements_of(placements, scene, cell_size, uploaded),
    ensures
        draws_anything(scene, cell_size) <==> scene.terminal_mode && cell_size.known() && exists|
            i: int,
        |
            0 <= i < placements.len() && clip::visible(#[trigger] placements[i]),
{
    let items = scene_items(scene);
    assert forall|i: int| 0 <= i < placements.len() implies clip::visible(#[trigger] placements[i])
        == item_visible(items[i], cell_size) by {
        assert(clip::columns(placements[i]) =~= item_columns(items[i], cell_size));
        assert(clip::rows(placements[i]) =~= item_rows(items[i], cell_size));
    }
    if exists|i: int| 0 <= i < items.len() && item_visible(#[trigger] items[i], cell_size) {
        let i = choose|i: int| 0 <= i < items.len() && item_visible(#[trigger] items[i], cell_size);
        assert(clip::visible(placements[i]));
    }
    if exists|i: int| 0 <= i < placements.len() && clip::visible(#[trigger] placements[i]) {
        let i = choose|i: int| 0 <= i < placements.len() && clip::visible(#[trigger] placements[i]);
        assert(item_visible(items[i], cell_size));
    }
}

/// The placements of a scene, and the commands that bring the host terminal to show them.
pub struct GraphicsPlan {
    pub placements: Vec<HostPlacement>,
    pub commands: Vec<GraphicsCommand>,
}

/// A plan shows a scene and leads from one cache to the other. Outside terminal mode, and while
/// the cell size is unknown, it takes every image back.
pub open spec fn plans(
    plan: GraphicsPlan,
    scene: GraphicsScene,
    cell_size: HostCellSize,
    before: HostGraphicsCache,
    after: HostGraphicsCache,
) -> bool {
    if scene.terminal_mode && cell_size.known() {
        let state = update::spec_update(
            before.state(),
            plan.placements@,
            before.view != view_of(scene),
        );
        &&& are_placements_of(plan.placements@, scene, cell_size, before.images@)
        &&& plan.commands@ == state.commands
        &&& after.images@ == state.images
        &&& after.placements@ == state.placements
        &&& after.sources@ == state.sources
        &&& after.view == view_of(scene)
    } else {
        &&& plan.placements@.len() == 0
        &&& update::orders_deletion(plan.commands@, before.images@)
        &&& after.images@ == Map::<u32, ImageSignature>::empty()
        &&& after.placements@.len() == 0
        &&& after.sources@.len() == 0
        &&& after.view is None
    }
}

/// Works out how to bring the host terminal to show a scene.
pub fn plan_local_pane_graphics(
    scene: &GraphicsScene,
    cell_size: HostCellSize,
    cache: &mut HostGraphicsCache,
) -> (plan: GraphicsPlan)
    requires
        old(cache).wf(),
        scene.terminal_mode && cell_size.known() ==> scene_fits(*scene, cell_size),
    ensures
        plans(plan, *scene, cell_size, *old(cache), *final(cache)),
        final(cache).wf(),
        update::commands_fit(plan.commands@, plan.placements@),
{
    if !scene.terminal_mode || !cell_size.is_known() {
        return GraphicsPlan { placements: Vec::new(), commands: cache.clear_commands() };
    }
    let view_key = active_view_key(scene);
    let placements = collect_visible_placements(scene, cell_size, &cache.images);
    assert forall|i: int| 0 <= i < placements@.len() implies update::placement_fits(
        #[trigger] placements@[i],
    ) by {
        assert(item_fits(scene_items(*scene)[i], cell_size));
    }
    let view_changed = cache.update_view(view_key);
    let commands = plan_graphics_update(placements.as_slice(), view_changed, cache);
    GraphicsPlan { placements, commands }
}

/// The escapes that bring the host terminal to show a scene, the images travelling inside the
/// stream. Outside terminal mode, and while the cell size is unknown, every image is taken back
/// instead.
pub fn encode_local_pane_graphics(
    scene: &GraphicsScene,
    cell_size: HostCellSize,
    cache: &mut HostGraphicsCache,
) -> (bytes: Vec<u8>)
    requires
        old(cache).wf(),
        scene.terminal_mode && cell_size.known() ==> scene_fits(*scene, cell_size),
    ensures
        final(cache).wf(),
        !(scene.terminal_mode && cell_size.known()) ==> {
            &&& update::deletes_all(bytes@, old(cache).images@)
            &&& final(cache).images@ == Map::<u32, ImageSignature>::empty()
            &&& final(cache).placements@.len() == 0
            &&& final(cache).sources@.len() == 0
            &&& final(cache).view is None
        },
        scene.terminal_mode && cell_size.known() ==> {
            &&& final(cache).view == view_of(*scene)
            &&& exists|placements: Seq<HostPlacement>|
                #[trigger]
                are_placements_of(placements, *scene, cell_size, old(cache).images@)
                    && shows(
                    *old(cache),
                    placements,
                    old(cache).view != view_of(*scene),
                    bytes@,
                    *final(cache),
                )
        },
{
    let plan = plan_local_pane_graphics(scene, cell_size, cache);
    let mut bytes: Vec<u8> = Vec::new();
    let staged: Vec<Option<String>> = Vec::new();
    encode_commands(
        &mut bytes,
        plan.commands.as_slice(),
        plan.placements.as_slice(),
        staged.as_slice(),
    );
    proof {
        let written = encode::commands_bytes(
            plan.commands@,
            plan.placements@,
            staged@,
            plan.commands@.len(),
        );
        assert(bytes@ =~= written);
        assert(staged@ =~= Seq::empty());
        if scene.terminal_mode && cell_size.known() {
            assert(shows(
                *old(cache),
                plan.placements@,
                old(cache).view != view_of(*scene),
                bytes@,
                *cache,
            ));
        } else {
            assert(plan.placements@ =~= Seq::empty());
            let ids = choose|ids: Seq<u32>| #[trigger]
                update::lists(ids, old(cache).images@) && plan.commands@
                    == update::deletion_commands(ids);
            update::law_deletions_are_commands(ids, ids.len());
        }
    }
    bytes
}

/// A pass over `placements` writes `bytes` and leads from one cache to the other.
pub open spec fn shows(
    before: HostGraphicsCache,
    placements: Seq<HostPlacement>,
    view_changed: bool,
    bytes: Seq<u8>,
    after: HostGraphicsCache,
) -> bool {
    let state = update::spec_update(before.state(), placements, view_changed);
    &&& bytes == encode::commands_bytes(
        state.commands,
        placements,
        Seq::empty(),
        state.commands.len(),
    )
    &&& after.images@ == state.images
    &&& after.placements@ == state.placements
    &&& after.sources@ == state.sources
}

/// The graphics escapes between a saving and a restoring of the cursor; nothing around nothing.
pub open spec fn framed(bytes: Seq<u8>) -> Seq<u8> {
    if bytes.len() == 0 {
        Seq::empty()
    } else {
        text::utf8("\x1b7") + bytes + text::utf8("\x1b8")
    }
}

pub fn frame_graphics(bytes: &[u8]) -> (out: Vec<u8>)
    ensures
        out@ == framed(bytes@),
{
    let mut out: Vec<u8> = Vec::new();
    if bytes.len() > 0 {
        push_text(&mut out, "\x1b7");
        push_bytes(&mut out, bytes);
        push_text(&mut out, "\x1b8");
    }
    assert(out@ =~= framed(bytes@));
    out
}

/// One where something is there, and zero where it is not.
pub open spec fn count_if(there: bool) -> nat {
    if there {
        1
    } else {
        0
    }
}

/// Whatever stands in one of several lists stands in all of them together.
proof fn lemma_parts_are_there(
    a: Seq<SceneItem<'static>>,
    b: Seq<SceneItem<'static>>,
    i: int,
    j: int,
)
    ensures
        0 <= i < a.len() ==> (a + b).contains(a[i]),
        0 <= j < b.len() ==> (a + b).contains(b[j]),
{
    if 0 <= i < a.len() {
        assert((a + b)[i] == a[i]);
    }
    if 0 <= j < b.len() {
        assert((a + b)[a.len() + j] == b[j]);
    }
}

/// What stands in a list stands in it when more follows.
proof fn lemma_stays_there(a: Seq<SceneItem<'static>>, b: Seq<SceneItem<'static>>, item: SceneItem<'static>)
    requires
        a.contains(item),
    ensures
        (a + b).contains(item),
{
    let i = choose|i: int| 0 <= i < a.len() && a[i] == item;
    assert((a + b)[i] == item);
}

/// Every layer of the chrome is shown under the identity of its own surface, in its own area, with
/// a tab or without; and each card that is shown under its slot. There is nothing else in the
/// chrome, and no card where the cards are shapes that were not laid out.
pub proof fn law_the_chrome_shows_its_layers(scene: GraphicsScene, slot: int)
    ensures
        ({
            let items = scene_items(scene);
            let cards = !scene.card_shapes || scene.card_layers_published;
            &&& scene.sidebar matches Some(at) ==> items.contains(
                SceneItem::Layer {
                    surface: HostSurfaceId::Sidebar,
                    area: at.area,
                    layer: &at.layer,
                },
            )
            &&& scene.signal_tray matches Some(at) ==> items.contains(
                SceneItem::Layer {
                    surface: HostSurfaceId::SignalTray,
                    area: at.area,
                    layer: &at.layer,
                },
            )
            &&& scene.particle_field matches Some(at) ==> items.contains(
                SceneItem::Layer {
                    surface: HostSurfaceId::SidebarParticleField,
                    area: at.area,
                    layer: &at.layer,
                },
            )
            &&& scene.background_scene matches Some(at) ==> items.contains(
                SceneItem::Layer {
                    surface: HostSurfaceId::BackgroundScene,
                    area: at.area,
                    layer: &at.layer,
                },
            )
            &&& scene.background_effects matches Some(at) ==> items.contains(
                SceneItem::Layer {
                    surface: HostSurfaceId::BackgroundEffects,
                    area: at.area,
                    layer: &at.layer,
                },
            )
            &&& cards && 0 <= slot < scene.cards@.len() && slot <= u16::MAX ==> items.contains(
                SceneItem::Layer {
                    surface: HostSurfaceId::SidebarCards(slot as u16),
                    area: scene.cards@[slot].area,
                    layer: &scene.cards@[slot].layer,
                },
            )
            &&& surface_items(scene).len() == count_if(scene.sidebar is Some) + count_if(
                scene.signal_tray is Some,
            ) + count_if(scene.particle_field is Some) + count_if(scene.background_scene is Some)
                + count_if(scene.background_effects is Some) + (if cards {
                scene.cards@.len()
            } else {
                0
            })
        }),
{
    let none = Seq::<SceneItem<'static>>::empty();
    let a = optional_item(HostSurfaceId::Sidebar, scene.sidebar);
    let b = optional_item(HostSurfaceId::SignalTray, scene.signal_tray);
    let c = optional_item(HostSurfaceId::SidebarParticleField, scene.particle_field);
    let d = optional_item(HostSurfaceId::BackgroundScene, scene.background_scene);
    let e = optional_item(HostSurfaceId::BackgroundEffects, scene.background_effects);
    let f = if cards_shown(scene) {
        card_items(scene.cards@, scene.cards@.len())
    } else {
        none
    };
    let g = if has_active_tab(scene) {
        panes_items(scene.panes@, scene.panes@.len())
    } else {
        none
    };
    let two = a + b;
    let three = two + c;
    let four = three + d;
    let five = four + e;
    let six = five + f;
    assert(scene_items(scene) == six + g);
    lemma_parts_are_there(a, b, 0, 0);
    lemma_parts_are_there(two, c, 0, 0);
    lemma_parts_are_there(three, d, 0, 0);
    lemma_parts_are_there(four, e, 0, 0);
    lemma_parts_are_there(five, f, 0, slot);
    if scene.sidebar is Some {
        lemma_stays_there(two, c, a[0]);
        lemma_stays_there(three, d, a[0]);
        lemma_stays_there(four, e, a[0]);
        lemma_stays_there(five, f, a[0]);
        lemma_stays_there(six, g, a[0]);
    }
    if scene.signal_tray is Some {
        lemma_stays_there(two, c, b[0]);
        lemma_stays_there(three, d, b[0]);
        lemma_stays_there(four, e, b[0]);
        lemma_stays_there(five, f, b[0]);
        lemma_stays_there(six, g, b[0]);
    }
    if scene.particle_field is Some {
        lemma_stays_there(three, d, c[0]);
        lemma_stays_there(four, e, c[0]);
        lemma_stays_there(five, f, c[0]);
        lemma_stays_there(six, g, c[0]);
    }
    if scene.background_scene is Some {
        lemma_stays_there(four, e, d[0]);
        lemma_stays_there(five, f, d[0]);
        lemma_stays_there(six, g, d[0]);
    }
    if scene.background_effects is Some {
        lemma_stays_there(five, f, e[0]);
        lemma_stays_there(six, g, e[0]);
    }
    if cards_shown(scene) && 0 <= slot < scene.cards@.len() {
        lemma_stays_there(six, g, f[slot]);
    }
}

proof fn lemma_panes_items(panes: Seq<PaneGraphics>, count: nat, i: int, j: int)
    requires
        0 <= i < count <= panes.len(),
        0 <= j < pane_items(&panes[i]).len(),
    ensures
        panes_items(panes, count).contains(pane_items(&panes[i])[j]),
    decreases count,
{
    let before = panes_items(panes, (count - 1) as nat);
    let own = pane_items(&panes[count - 1]);
    let item = pane_items(&panes[i])[j];
    let all = panes_items(panes, count);
    if i < count - 1 {
        lemma_panes_items(panes, (count - 1) as nat, i, j);
        let n = choose|n: int| 0 <= n < before.len() && before[n] == item;
        assert(all[n] == item);
    } else {
        assert(all[before.len() + j] == item);
    }
}

/// With an active tab every pane shows its own layer in its own rectangle, and every image of its
/// terminal, with the pane's scrolling; without one no pane shows anything.
pub proof fn law_panes_show_their_images(scene: GraphicsScene, i: int, j: int)
    requires
        0 <= i < scene.panes@.len(),
    ensures
        ({
            let items = scene_items(scene);
            let pane = scene.panes@[i];
            let tab = scene.active is Some && scene.active->0 < scene.workspaces@.len()
                && scene.workspaces@[scene.active->0 as int].has_active_tab;
            &&& !tab ==> items == surface_items(scene)
            &&& tab && pane.layer is Some ==> items.contains(
                SceneItem::Layer {
                    surface: HostSurfaceId::Pane(pane.id),
                    area: pane.inner_rect,
                    layer: &pane.layer->0,
                },
            )
            &&& tab && pane.runtime is Some && 0 <= j < pane.runtime->0.images@.len()
                ==> items.contains(
                SceneItem::Image {
                    pane: &pane,
                    offset: pane.runtime->0.offset_from_bottom,
                    image: &pane.runtime->0.images@[j],
                },
            )
            &&& panes_items(scene.panes@, (i + 1) as nat).len() == panes_items(
                scene.panes@,
                i as nat,
            ).len() + count_if(pane.layer is Some) + (match pane.runtime {
                Some(runtime) => runtime.images@.len(),
                None => 0,
            })
            &&& panes_items(scene.panes@, 0).len() == 0
        }),
{
    let items = scene_items(scene);
    let pane = scene.panes@[i];
    let chrome = surface_items(scene);
    let own = pane_items(&pane);
    if !has_active_tab(scene) {
        assert(items =~= chrome);
    } else {
        let panes = panes_items(scene.panes@, scene.panes@.len());
        assert(items == chrome + panes);
        if pane.layer is Some {
            lemma_panes_items(scene.panes@, scene.panes@.len(), i, 0);
            let n = choose|n: int| 0 <= n < panes.len() && panes[n] == own[0];
            assert(items[chrome.len() + n] == own[0]);
        }
        if pane.runtime is Some && 0 <= j < pane.runtime->0.images@.len() {
            let at = j + count_if(pane.layer is Some);
            lemma_panes_items(scene.panes@, scene.panes@.len(), i, at);
            let n = choose|n: int| 0 <= n < panes.len() && panes[n] == own[at];
            assert(items[chrome.len() + n] == own[at]);
        }
    }
}

/// A layer is placed as it was published: over its whole area or the grid that it names, at its own
/// place and depth, with the whole of its image; its data and its animation come along where the
/// terminal does not have the image.
pub proof fn law_a_layer_is_placed_as_published(
    p: HostPlacement,
    surface: HostSurfaceId,
    area: Rect,
    cell_size: HostCellSize,
    layer: GraphicsLayer,
    uploaded: Map<u32, ImageSignature>,
)
    requires
        is_layer_placement(p, surface, area, cell_size, layer, uploaded, true),
    ensures
        p.surface == surface,
        p.source_key == (HostSourceKey::Layer { surface }),
        p.area == area,
        p.cell_size == cell_size,
        p.scrollback_offset == 0,
        p.placement.z == layer.render.z,
        p.placement.image_width == layer.image_width,
        p.placement.image_height == layer.image_height,
        p.placement.data_len == layer.data@.len(),
        p.placement.data_fingerprint == layer.data_fingerprint,
        p.placement.format is Png <==> layer.format is Png,
        p.placement.format is Rgb <==> layer.format is Rgb,
        p.placement.render.viewport_col == layer.render.viewport_col,
        p.placement.render.viewport_row == layer.render.viewport_row,
        layer.render.grid_cols > 0 ==> p.placement.render.grid_cols == layer.render.grid_cols,
        layer.render.grid_cols == 0 ==> p.placement.render.grid_cols == area.width,
        layer.render.grid_rows > 0 ==> p.placement.render.grid_rows == layer.render.grid_rows,
        layer.render.grid_rows == 0 ==> p.placement.render.grid_rows == area.height,
        p.placement.render.pixel_width == layer.image_width,
        p.placement.render.pixel_height == layer.image_height,
        p.placement.render.source_x == 0 && p.placement.render.source_y == 0,
        p.placement.render.source_width == 0 && p.placement.render.source_height == 0,
        p.placement.x_offset == 0 && p.placement.y_offset == 0,
        p.placement.data@ == layer.data@ || p.placement.data@.len() == 0,
        uploaded.len() == 0 && uploaded.dom().finite() ==> p.placement.data@ == layer.data@ && (
        layer.animation is Some ==> p.animation is Some && p.animation->0.frame_gap_ms
            == layer.animation->0.frame_gap_ms && p.animation->0.frames@.len()
            == layer.animation->0.frames@.len()),
        p.animation is Some ==> layer.animation is Some,
{
}

/// An image of a pane's terminal is placed as the terminal has it, in the pane's rectangle, under the
/// pane's own identity.
pub proof fn law_an_image_is_placed_as_the_terminal_has_it(
    p: HostPlacement,
    pane: PaneGraphics,
    offset: Option<usize>,
    cell_size: HostCellSize,
    image: KittyImagePlacement,
    uploaded: Map<u32, ImageSignature>,
)
    requires
        is_image_placement(p, pane, offset, cell_size, image, uploaded, true),
    ensures
        p.surface == HostSurfaceId::Pane(pane.id),
        p.source_key == (HostSourceKey::Terminal { pane_id: pane.id, image_id: image.image_id }),
        p.area == pane.inner_rect,
        p.cell_size == cell_size,
        offset matches Some(lines) ==> (lines <= u32::MAX ==> p.scrollback_offset == lines),
        offset is None ==> p.scrollback_offset == 0,
        p.placement.image_id == image.image_id,
        p.placement.placement_id == image.placement_id,
        p.placement.z == image.z,
        p.placement.x_offset == image.x_offset,
        p.placement.y_offset == image.y_offset,
        p.placement.image_width == image.image_width,
        p.placement.image_height == image.image_height,
        p.placement.format == image.format,
        p.placement.data_len == image.data_len,
        p.placement.data_fingerprint == image.data_fingerprint,
        p.placement.render == image.render,
        p.animation is None,
        p.placement.data@ == image.data@ || p.placement.data@.len() == 0,
        uploaded.len() == 0 && uploaded.dom().finite() ==> p.placement.data@ == image.data@,
{
}

/// The view is the active workspace and its active tab, so another workspace or another tab is
/// another view; without an active workspace there is none.
pub proof fn law_the_view_is_workspace_and_tab(scene: GraphicsScene)
    ensures
        view_of(scene) is Some <==> scene.active is Some && scene.active->0
            < scene.workspaces@.len(),
        view_of(scene) matches Some(view) ==> view.workspace_index == scene.active->0
            && view.tab_index == scene.workspaces@[scene.active->0 as int].active_tab_index,
{
}

/// Graphics are written between a saving and a restoring of the cursor, and nothing is written around
/// nothing.
pub proof fn law_the_cursor_comes_back(bytes: Seq<u8>)
    ensures
        bytes.len() > 0 ==> framed(bytes) == seq![27u8, 55u8] + bytes + seq![27u8, 56u8],
        bytes.len() == 0 ==> framed(bytes).len() == 0,
{
    reveal_strlit("\x1b7");
    reveal_strlit("\x1b8");
    vstd::utf8::is_ascii_chars_encode_utf8("\x1b7"@);
    vstd::utf8::is_ascii_chars_encode_utf8("\x1b8"@);
    assert(text::utf8("\x1b7") =~= seq![27u8, 55u8]);
    assert(text::utf8("\x1b8") =~= seq![27u8, 56u8]);
}

/// Where nothing can be shown, because the screen is not the terminal's or its cells are unknown,
/// every image is taken back, each once, and nothing is remembered.
pub proof fn law_everything_is_taken_back(
    plan: GraphicsPlan,
    scene: GraphicsScene,
    cell_size: HostCellSize,
    before: HostGraphicsCache,
    after: HostGraphicsCache,
    id: u32,
)
    requires
        plans(plan, scene, cell_size, before, after),
        !scene.terminal_mode || cell_size.width_px == 0 || cell_size.height_px == 0,
    ensures
        plan.placements@.len() == 0,
        before.images@.contains_key(id) <==> plan.commands@.contains(
            GraphicsCommand::DeleteImage { host_id: id },
        ),
        plan.commands@.no_duplicates(),
        forall|n: int|
            0 <= n < plan.commands@.len() ==> #[trigger] plan.commands@[n] is DeleteImage,
        !after.images@.contains_key(id),
        after.placements@.len() == 0,
        after.sources@.len() == 0,
        after.view is None,
{
    let ids = choose|ids: Seq<u32>| #[trigger]
        update::lists(ids, before.images@) && plan.commands@ == update::deletion_commands(ids);
    assert(ids.to_set().contains(id) <==> before.images@.contains_key(id));
    if before.images@.contains_key(id) {
        let n = choose|n: int| 0 <= n < ids.len() && ids[n] == id;
        assert(plan.commands@[n] == (GraphicsCommand::DeleteImage { host_id: id }));
    }
    if plan.commands@.contains(GraphicsCommand::DeleteImage { host_id: id }) {
        let n = choose|n: int|
            0 <= n < plan.commands@.len() && plan.commands@[n] == (GraphicsCommand::DeleteImage {
                host_id: id,
            });
        assert(ids[n] == id);
    }
}

/// A pass takes a change of view for one exactly where workspace or tab are not those of the pass
/// before, and remembers those of its own.
pub proof fn law_a_change_of_view_is_noticed(
    plan: GraphicsPlan,
    scene: GraphicsScene,
    cell_size: HostCellSize,
    before: HostGraphicsCache,
    after: HostGraphicsCache,
)
    requires
        plans(plan, scene, cell_size, before, after),
        scene.terminal_mode,
        cell_size.width_px > 0 && cell_size.height_px > 0,
    ensures
        before.view != after.view ==> plan.commands@ == update::spec_update(
            before.state(),
            plan.placements@,
            true,
        ).commands,
        before.view == after.view ==> plan.commands@ == update::spec_update(
            before.state(),
            plan.placements@,
            false,
        ).commands,
        after.view == view_of(scene),
{
}

/// The data of a pane's image comes along exactly where the terminal does not hold that very image
/// under the id that the image will have.
pub proof fn law_data_comes_where_it_is_missing(
    p: HostPlacement,
    pane: PaneGraphics,
    offset: Option<usize>,
    cell_size: HostCellSize,
    image: KittyImagePlacement,
    uploaded: Map<u32, ImageSignature>,
)
    requires
        is_image_placement(p, pane, offset, cell_size, image, uploaded, true),
    ensures
        update::held(uploaded, update::image_id_of(p)) == Some(update::content_of(p))
            ==> p.placement.data@.len() == 0,
        update::held(uploaded, update::image_id_of(p)) != Some(update::content_of(p))
            ==> p.placement.data@ == image.data@,
{
    assert(update::content_of(p) == identity::signature_of(
        image,
        model::spec_format_code(image.format),
    ));
}

/// The data of a layer, and its animation, stay behind only where the terminal holds the very same
/// image, under an id with the top bit set.
pub proof fn law_a_layer_brings_what_nobody_holds(
    p: HostPlacement,
    surface: HostSurfaceId,
    area: Rect,
    cell_size: HostCellSize,
    layer: GraphicsLayer,
    uploaded: Map<u32, ImageSignature>,
)
    requires
        is_layer_placement(p, surface, area, cell_size, layer, uploaded, true),
        forall|id: u32|
            id >= 0x8000_0000 && #[trigger] uploaded.contains_key(id) ==> uploaded[id]
                != update::content_of(p),
    ensures
        p.placement.data@ == layer.data@,
        p.animation is Some <==> layer.animation is Some,
{
    let content = layer_content(layer);
    assert(update::content_of(p) == content) by {
        assert(layer.data@.len() as usize == p.placement.data_len);
    }
    let hash = identity::image_hash(surface, content) as u32;
    assert((0x8000_0000u32 | (hash & !0x8000_0000u32)) >= 0x8000_0000u32) by (bit_vector);
    assert(identity::spec_layer_host_image_id(surface, content) >= 0x8000_0000);
}

} // verus!
