use base64::Engine;
use herdr::kitty_graphics::cell_size::HostCellSize;
use herdr::kitty_graphics::clip::clipped_placement;
use herdr::kitty_graphics::encode::{
    encode_animation_frames, encode_arm_animation, encode_delete_image, encode_display_placement,
    encode_command, encode_commands, encode_transmit_frame, encode_upload_image,
    encode_upload_image_via_file, staging_step, GraphicsCommand, StagingStep, KITTY_CHUNK_BYTES,
};
use herdr::kitty_graphics::identity::{
    host_image_id, host_image_id_for_signature, host_placement_id, layer_host_image_id,
    HOST_IMAGE_ID_BASE, PANE_GRAPHICS_IMAGE_ID_BIT,
};
use herdr::kitty_graphics::model::{
    kitty_format_code, GraphicsAnimation, GraphicsLayer, HostPlacement, HostSourceKey,
    HostSurfaceId, ImageSignature, KittyImageFormat, KittyImagePlacement, KittyPlacementRenderInfo,
    PaneGraphicsFormat, PaneGraphicsPlacementParams,
};
use herdr::kitty_graphics::scene::{
    collect_visible_placements, encode_local_pane_graphics, graphics_fit,
    has_visible_pane_graphics, layer_host_placement, plan_local_pane_graphics, GraphicsScene, SurfaceLayer,
};
use herdr::kitty_graphics::terminal::{
    host_graphics_locality_for_env, host_terminal_kind_for_env, preferred_card_pixel_format_for,
    preferred_local_pixel_format, HostTerminalKind,
};
use herdr::kitty_graphics::update::{encode_graphics_update, image_signature, HostGraphicsCache};
use herdr::layout::{PaneId, Rect};
use std::collections::hash_map::DefaultHasher;
use std::collections::HashMap;
use std::hash::{Hash, Hasher};

const Z_BELOW_BACKGROUND: i32 = -1_073_741_825;

fn test_placement(viewport_col: i32, viewport_row: i32) -> HostPlacement {
    HostPlacement {
        surface: HostSurfaceId::Pane(PaneId::from_raw(1)),
        area: Rect::new(0, 0, 20, 10),
        cell_size: HostCellSize {
            width_px: 10,
            height_px: 10,
        },
        source_key: HostSourceKey::Terminal {
            pane_id: PaneId::from_raw(1),
            image_id: 7,
        },
        scrollback_offset: 0,
        animation: None,
        placement: KittyImagePlacement {
            image_id: 7,
            placement_id: 3,
            z: 0,
            x_offset: 0,
            y_offset: 0,
            image_width: 30,
            image_height: 30,
            format: KittyImageFormat::Rgba,
            data_len: 30 * 30 * 4,
            data_fingerprint: 42,
            data: vec![255; 30 * 30 * 4],
            render: KittyPlacementRenderInfo {
                pixel_width: 0,
                pixel_height: 0,
                grid_cols: 3,
                grid_rows: 3,
                viewport_col,
                viewport_row,
                source_x: 0,
                source_y: 0,
                source_width: 0,
                source_height: 0,
            },
        },
    }
}

fn pane_layer_placement(viewport_col: i32, viewport_row: i32) -> HostPlacement {
    let mut placement = test_placement(viewport_col, viewport_row);
    placement.source_key = HostSourceKey::Layer {
        surface: placement.surface,
    };
    placement
}

fn test_cell_size() -> HostCellSize {
    HostCellSize {
        width_px: 10,
        height_px: 10,
    }
}

fn layer(
    format: PaneGraphicsFormat,
    image_width: u32,
    image_height: u32,
    data: Vec<u8>,
    render: PaneGraphicsPlacementParams,
) -> GraphicsLayer {
    let mut hasher = DefaultHasher::new();
    data.hash(&mut hasher);
    GraphicsLayer {
        format,
        image_width,
        image_height,
        data_fingerprint: hasher.finish(),
        data,
        render,
        animation: None,
    }
}

/// A terminal without workspaces: chrome does not depend on a live tab.
fn scene() -> GraphicsScene {
    GraphicsScene {
        terminal_mode: true,
        active: None,
        workspaces: Vec::new(),
        sidebar: None,
        signal_tray: None,
        particle_field: None,
        background_scene: None,
        background_effects: None,
        cards: Vec::new(),
        card_shapes: true,
        card_layers_published: false,
        panes: Vec::new(),
    }
}

fn app_with_sidebar(sidebar_rect: Rect, placement: PaneGraphicsPlacementParams) -> GraphicsScene {
    let mut app = scene();
    app.sidebar = Some(SurfaceLayer {
        area: sidebar_rect,
        layer: layer(
            PaneGraphicsFormat::Rgba,
            200,
            200,
            vec![7; 200 * 200 * 4],
            placement,
        ),
    });
    app
}

fn sidebar_card_layer(rect: Rect) -> SurfaceLayer {
    SurfaceLayer {
        area: rect,
        layer: layer(
            PaneGraphicsFormat::Rgba,
            u32::from(rect.width) * test_cell_size().width_px,
            u32::from(rect.height) * test_cell_size().height_px,
            vec![3; 8],
            PaneGraphicsPlacementParams {
                grid_cols: u32::from(rect.width),
                grid_rows: u32::from(rect.height),
                ..Default::default()
            },
        ),
    }
}

#[test]
fn a_cell_no_font_could_draw_in_is_refused() {
    for (width_px, height_px) in [(2, 8), (3, 9), (4, 12), (1, 1), (2, 12)] {
        assert!(
            !HostCellSize {
                width_px,
                height_px
            }
            .is_plausible(),
            "{width_px}x{height_px} was accepted as a terminal cell"
        );
    }
}

#[test]
fn the_cells_real_terminals_have_are_accepted() {
    for (width_px, height_px) in [
        (8, 16),  // the fallback, and a common 1x cell
        (12, 24), // the captain's
        (6, 13),
        (7, 15),
        (10, 21),
        (20, 42), // a HiDPI terminal reporting physical pixels
        (24, 48),
    ] {
        assert!(
            HostCellSize {
                width_px,
                height_px
            }
            .is_plausible(),
            "{width_px}x{height_px} was refused"
        );
    }
    assert!(HostCellSize::fallback().is_plausible());
}

#[test]
fn a_refused_cell_falls_back_whole() {
    let bogus = HostCellSize {
        width_px: 2,
        height_px: 16,
    };
    assert_eq!(bogus.or_fallback(), HostCellSize::fallback());
    let good = HostCellSize {
        width_px: 12,
        height_px: 24,
    };
    assert_eq!(good.or_fallback(), good);
}

#[test]
fn a_stale_pty_width_never_yields_a_shrinking_cell_at_the_widths_it_was_seen_at() {
    const STALE_PTY_WIDTH_PX: u32 = 800;
    const STALE_PTY_HEIGHT_PX: u32 = 1080;

    let mut derived_widths = Vec::new();
    let mut handed_to_the_card = Vec::new();
    for columns in [200u32, 250, 300, 350, 390] {
        let rows = 40;
        let derived = HostCellSize {
            width_px: (STALE_PTY_WIDTH_PX / columns).max(1),
            height_px: (STALE_PTY_HEIGHT_PX / rows).max(1),
        };
        assert!(
            !derived.is_plausible(),
            "a {}px cell derived at {columns} columns must be refused",
            derived.width_px
        );
        derived_widths.push(derived.width_px);
        handed_to_the_card.push(derived.or_fallback());
    }

    assert!(
        derived_widths.first() > derived_widths.last(),
        "the sweep must actually reproduce the shrink: {derived_widths:?}"
    );
    assert!(
        handed_to_the_card.windows(2).all(|pair| pair[0] == pair[1]),
        "the cell handed to the card path must not track window width: {handed_to_the_card:?}"
    );
    assert_eq!(handed_to_the_card[0], HostCellSize::fallback());
}

#[test]
fn a_reported_host_cell_is_taken_whole() {
    let reported = HostCellSize {
        width_px: 9,
        height_px: 18,
    };
    assert!(reported.is_plausible());
    assert_eq!(reported.or_fallback(), reported);
}

#[test]
fn terminal_placement_id_preserves_legacy_identity() {
    let placement = test_placement(0, 0);
    let mut legacy = DefaultHasher::new();
    PaneId::from_raw(1).raw().hash(&mut legacy);
    placement.placement.image_id.hash(&mut legacy);
    placement.placement.placement_id.hash(&mut legacy);
    let expected = 1 + ((legacy.finish() as u32) % 900_000);

    assert_eq!(
        host_placement_id(placement.source_key, &placement.placement),
        expected
    );
    assert_ne!(
        host_placement_id(
            HostSourceKey::Layer {
                surface: placement.surface,
            },
            &placement.placement,
        ),
        expected
    );
}

#[test]
fn pane_graphics_image_ids_are_disjoint_from_terminal_image_ids() {
    let placement = test_placement(0, 0);
    let signature = image_signature(&placement, kitty_format_code(placement.placement.format));
    let terminal_id = host_image_id_for_signature(placement.surface, signature);
    let pane_graphics_id = layer_host_image_id(placement.surface, signature);

    assert_eq!(terminal_id & PANE_GRAPHICS_IMAGE_ID_BIT, 0);
    assert_ne!(pane_graphics_id & PANE_GRAPHICS_IMAGE_ID_BIT, 0);
}

#[test]
fn clipped_placement_handles_positive_viewport_without_wrapping() {
    let placement = test_placement(2, 2);
    let (clipped, _) = clipped_placement(&placement).expect("visible placement");

    assert_eq!(clipped.x, 2);
    assert_eq!(clipped.y, 2);
    assert_eq!(clipped.cols, 3);
    assert_eq!(clipped.rows, 3);
    assert_eq!(clipped.source_x, 0);
    assert_eq!(clipped.source_y, 0);
}

#[test]
fn clipped_placement_crops_negative_viewport_offsets() {
    let placement = test_placement(-1, -1);
    let (clipped, _) = clipped_placement(&placement).expect("partially visible placement");

    assert_eq!(clipped.x, 0);
    assert_eq!(clipped.y, 0);
    assert_eq!(clipped.cols, 2);
    assert_eq!(clipped.rows, 2);
    assert_eq!(clipped.source_x, 10);
    assert_eq!(clipped.source_y, 10);
}

#[test]
fn pane_graphics_layer_defaults_to_full_pane_grid() {
    let pane_id = PaneId::from_raw(9);
    let inner_rect = Rect::new(2, 1, 8, 3);
    let layer = layer(
        PaneGraphicsFormat::Rgba,
        80,
        30,
        vec![255; 80 * 30 * 4],
        PaneGraphicsPlacementParams::default(),
    );

    let placement = layer_host_placement(
        HostSurfaceId::Pane(pane_id),
        inner_rect,
        HostCellSize {
            width_px: 10,
            height_px: 10,
        },
        &layer,
        &HashMap::new(),
        true,
    );
    let (clipped, format_code) = clipped_placement(&placement).expect("visible layer");

    assert_eq!(format_code, 32);
    assert_eq!(clipped.x, 2);
    assert_eq!(clipped.y, 1);
    assert_eq!(clipped.cols, 8);
    assert_eq!(clipped.rows, 3);
    assert_eq!(placement.placement.data.len(), 80 * 30 * 4);
}

#[test]
fn sidebar_layer_anchors_to_the_sidebar_rect_and_fills_it() {
    let app = app_with_sidebar(
        Rect::new(0, 0, 26, 20),
        PaneGraphicsPlacementParams::default(),
    );
    let placements = collect_visible_placements(&app, test_cell_size(), &HashMap::new());

    assert_eq!(placements.len(), 1);
    let placement = &placements[0];
    assert_eq!(placement.surface, HostSurfaceId::Sidebar);
    assert_eq!(
        placement.source_key,
        HostSourceKey::Layer {
            surface: HostSurfaceId::Sidebar,
        }
    );
    let (clipped, _) = clipped_placement(placement).expect("visible sidebar layer");
    assert_eq!((clipped.x, clipped.y), (0, 0));
    assert_eq!((clipped.cols, clipped.rows), (26, 20));
}

#[test]
fn sidebar_layer_clips_to_the_sidebar_and_never_spills_into_panes() {
    let app = app_with_sidebar(
        Rect::new(4, 2, 26, 20),
        PaneGraphicsPlacementParams {
            viewport_col: 6,
            viewport_row: 5,
            grid_cols: 200,
            grid_rows: 200,
            z: 0,
        },
    );
    let placements = collect_visible_placements(&app, test_cell_size(), &HashMap::new());
    let (clipped, _) = clipped_placement(&placements[0]).expect("visible sidebar layer");

    assert_eq!((clipped.x, clipped.y), (10, 7));
    assert_eq!(u32::from(clipped.x) + clipped.cols, 4 + 26);
    assert_eq!(u32::from(clipped.y) + clipped.rows, 2 + 20);
}

#[test]
fn sidebar_layer_disappears_when_the_sidebar_has_no_width() {
    let app = app_with_sidebar(
        Rect::default(),
        PaneGraphicsPlacementParams::default(),
    );
    let placements = collect_visible_placements(&app, test_cell_size(), &HashMap::new());

    assert_eq!(placements.len(), 1, "the layer is still stored");
    assert!(
        clipped_placement(&placements[0]).is_none(),
        "but nothing is drawn"
    );
    assert!(!has_visible_pane_graphics(&app, test_cell_size()));
}

#[test]
fn sidebar_layer_z_reaches_the_emitted_placement() {
    for z in [
        0,
        -1,
        Z_BELOW_BACKGROUND,
        i32::MIN,
    ] {
        let app = app_with_sidebar(
            Rect::new(0, 0, 26, 20),
            PaneGraphicsPlacementParams {
                z,
                ..Default::default()
            },
        );
        let mut cache = HostGraphicsCache::default();
        let bytes = encode_local_pane_graphics(&app, test_cell_size(), &mut cache);
        let emitted = String::from_utf8_lossy(&bytes).into_owned();

        assert!(emitted.contains("a=t"), "z={z} uploads the image");
        assert!(
            emitted.contains(&format!(",z={z},")),
            "z={z} reaches the placement control: {emitted:?}"
        );
    }
}

#[test]
fn dropping_the_sidebar_layer_deletes_its_host_image() {
    let mut app = app_with_sidebar(
        Rect::new(0, 0, 26, 20),
        PaneGraphicsPlacementParams::default(),
    );
    let mut cache = HostGraphicsCache::default();
    let bytes = encode_local_pane_graphics(&app, test_cell_size(), &mut cache);
    assert!(String::from_utf8_lossy(&bytes).contains("a=t"));
    let host_id = *cache.images.keys().next().expect("uploaded host image");

    app.sidebar = None;
    let bytes = encode_local_pane_graphics(&app, test_cell_size(), &mut cache);

    assert!(String::from_utf8_lossy(&bytes).contains(&format!("a=d,d=I,i={host_id}")));
    assert!(cache.is_empty());
}

#[test]
fn sidebar_and_pane_layers_never_share_a_host_id() {
    let signature = ImageSignature {
        image_width: 4,
        image_height: 4,
        format_code: 32,
        data_len: 64,
        data_fingerprint: 11,
    };
    let pane = HostSurfaceId::Pane(PaneId::from_raw(1));

    assert_ne!(
        layer_host_image_id(pane, signature),
        layer_host_image_id(HostSurfaceId::Sidebar, signature)
    );
    assert_ne!(
        host_placement_id(
            HostSourceKey::Layer { surface: pane },
            &test_placement(0, 0).placement,
        ),
        host_placement_id(
            HostSourceKey::Layer {
                surface: HostSurfaceId::Sidebar,
            },
            &test_placement(0, 0).placement,
        )
    );
}

#[test]
fn the_sidebar_cards_are_a_second_placement_beside_a_client_layer() {
    let mut app = app_with_sidebar(
        Rect::new(0, 0, 26, 20),
        PaneGraphicsPlacementParams {
            z: Z_BELOW_BACKGROUND,
            ..Default::default()
        },
    );
    app.cards = vec![sidebar_card_layer(Rect::new(1, 2, 20, 12))];
    app.card_layers_published = true;

    let placements = collect_visible_placements(&app, test_cell_size(), &HashMap::new());
    assert_eq!(placements.len(), 2);

    let cards = placements
        .iter()
        .find(|placement| placement.surface == HostSurfaceId::SidebarCards(0))
        .expect("the sidebar's own cards reach the pipeline");
    assert_eq!(
        cards.source_key,
        HostSourceKey::Layer {
            surface: HostSurfaceId::SidebarCards(0),
        }
    );
    let (clipped, _) = clipped_placement(cards).expect("the cards are visible");
    assert_eq!((clipped.x, clipped.y), (1, 2));
    assert_eq!((clipped.cols, clipped.rows), (20, 12));

    let client = placements
        .iter()
        .find(|placement| placement.surface == HostSurfaceId::Sidebar)
        .expect("the client's own layer is still there");
    assert_ne!(
        host_image_id(cards.surface, &cards.placement),
        host_image_id(client.surface, &client.placement)
    );
    assert_ne!(
        host_placement_id(cards.source_key, &cards.placement),
        host_placement_id(client.source_key, &client.placement)
    );
}

#[test]
fn the_sidebar_cards_are_visible_without_an_active_workspace() {
    let mut app = scene();
    app.active = None;
    app.cards = vec![sidebar_card_layer(Rect::new(0, 1, 24, 10))];
    app.card_layers_published = true;

    assert!(has_visible_pane_graphics(&app, test_cell_size()));
}

#[test]
fn dropping_the_sidebar_cards_deletes_their_host_image() {
    let mut app = scene();
    app.cards = vec![sidebar_card_layer(Rect::new(0, 1, 24, 10))];
    app.card_layers_published = true;

    let mut cache = HostGraphicsCache::default();
    let bytes = encode_local_pane_graphics(&app, test_cell_size(), &mut cache);
    assert!(String::from_utf8_lossy(&bytes).contains("a=t"));
    let host_id = *cache.images.keys().next().expect("uploaded host image");

    app.cards.clear();
    let bytes = encode_local_pane_graphics(&app, test_cell_size(), &mut cache);
    assert!(String::from_utf8_lossy(&bytes).contains(&format!("a=d,d=I,i={host_id}")));
    assert!(cache.is_empty());
}

#[test]
fn pane_graphics_layer_full_pane_grid_tracks_pane_resize() {
    let layer = layer(
        PaneGraphicsFormat::Rgba,
        80,
        30,
        vec![255; 80 * 30 * 4],
        PaneGraphicsPlacementParams::default(),
    );
    let cell_size = HostCellSize {
        width_px: 10,
        height_px: 10,
    };
    let pane_id = PaneId::from_raw(9);

    let wide_rect = Rect::new(2, 1, 20, 10);
    let wide_placement = layer_host_placement(
        HostSurfaceId::Pane(pane_id),
        wide_rect,
        cell_size,
        &layer,
        &HashMap::new(),
        true,
    );
    let (wide_clipped, _) = clipped_placement(&wide_placement).expect("visible layer");
    assert_eq!(wide_clipped.cols, 20);
    assert_eq!(wide_clipped.rows, 10);

    let narrow_rect = Rect::new(2, 1, 6, 4);
    let narrow_placement = layer_host_placement(
        HostSurfaceId::Pane(pane_id),
        narrow_rect,
        cell_size,
        &layer,
        &HashMap::new(),
        true,
    );
    let (narrow_clipped, _) = clipped_placement(&narrow_placement).expect("visible layer");
    assert_eq!(narrow_clipped.cols, 6);
    assert_eq!(narrow_clipped.rows, 4);
}

#[test]
fn graphics_update_uploads_once_then_repositions_only() {
    let mut cache = HostGraphicsCache::default();
    let mut bytes = Vec::new();
    let placement = test_placement(0, 0);

    encode_graphics_update(
        &mut bytes,
        &[placement],
        false,
        &mut cache,
    );
    let first = String::from_utf8_lossy(&bytes);
    assert!(first.contains("a=t"));
    assert!(first.contains("a=p"));

    bytes.clear();
    let same = test_placement(0, 0);
    encode_graphics_update(
        &mut bytes,
        &[same],
        false,
        &mut cache,
    );
    assert!(bytes.is_empty());

    let mut z_changed = test_placement(0, 0);
    z_changed.placement.z = 1;
    encode_graphics_update(
        &mut bytes,
        &[z_changed],
        false,
        &mut cache,
    );
    let z_changed_bytes = String::from_utf8_lossy(&bytes);
    assert!(!z_changed_bytes.contains("a=t"));
    assert!(z_changed_bytes.contains("a=p"));

    bytes.clear();
    let moved = test_placement(0, 1);
    encode_graphics_update(
        &mut bytes,
        &[moved],
        false,
        &mut cache,
    );
    let moved_bytes = String::from_utf8_lossy(&bytes);
    assert!(!moved_bytes.contains("a=t"));
    assert!(moved_bytes.contains("a=p"));
}

#[test]
fn encode_transmit_frame_emits_a_f_with_dims_format_and_gap() {
    let mut out = Vec::new();
    encode_transmit_frame(&mut out, 42, 32, 10, 20, 600, &[1, 2, 3, 4]);
    let text = String::from_utf8_lossy(&out);
    assert!(text.starts_with("\x1b_Ga=f,i=42,f=32,s=10,v=20,z=600,q=2"));
}

#[test]
fn encode_transmit_frame_repeats_a_f_on_every_continuation_chunk() {
    let mut out = Vec::new();
    let data = vec![7u8; KITTY_CHUNK_BYTES * 2 + 100];
    encode_transmit_frame(&mut out, 42, 32, 100, 100, 600, &data);
    let text = String::from_utf8_lossy(&out);
    let chunks: Vec<&str> = text.split("\x1b_G").filter(|s| !s.is_empty()).collect();
    assert_eq!(chunks.len(), 3, "3072*2+100 bytes needs 3 chunks");
    assert!(chunks[0].starts_with("a=f,i=42,f=32,s=100,v=100,z=600,q=2,m=1;"));
    assert!(
        chunks[1].starts_with("m=1,a=f;"),
        "continuation chunk missing the required a=f repeat: {:?}",
        chunks[1]
    );
    assert!(
        chunks[2].starts_with("m=0,a=f;"),
        "final continuation chunk missing the required a=f repeat: {:?}",
        chunks[2]
    );
}

#[test]
fn encode_upload_image_continuation_chunks_stay_bare() {
    let mut out = Vec::new();
    let mut placement = test_placement(0, 0);
    placement.placement.data = vec![7u8; KITTY_CHUNK_BYTES * 2 + 100];
    encode_upload_image(
        &mut out,
        &placement,
        kitty_format_code(placement.placement.format), 42, None);
    let text = String::from_utf8_lossy(&out);
    let chunks: Vec<&str> = text.split("\x1b_G").filter(|s| !s.is_empty()).collect();
    assert_eq!(chunks.len(), 3);
    assert!(chunks[1].starts_with("m=1;"), "{:?}", chunks[1]);
    assert!(chunks[2].starts_with("m=0;"), "{:?}", chunks[2]);
}

#[test]
fn encode_arm_animation_sets_root_gap_before_starting_loop_playback() {
    let mut out = Vec::new();
    encode_arm_animation(&mut out, 42, 600);
    let text = String::from_utf8_lossy(&out);
    let root_gap = "\x1b_Ga=a,i=42,r=1,z=600,q=2;\x1b\\";
    let play = "\x1b_Ga=a,i=42,s=3,v=1,q=2;\x1b\\";
    assert!(
        text.starts_with(root_gap),
        "the root frame carries no gap of its own by spec, so it must be set before the \
         loop-back leg plays"
    );
    assert!(text.ends_with(play));
}

#[test]
fn encode_animation_frames_is_a_noop_with_no_extra_frames() {
    let mut out = Vec::new();
    encode_animation_frames(
        &mut out,
        1,
        32,
        10,
        10,
        &GraphicsAnimation {
            frame_gap_ms: 100,
            frames: Vec::new(),
        },
    );
    assert!(
        out.is_empty(),
        "a layer that opted into animation but has no extra frames must not arm playback \
         it never uploaded frames for"
    );
}

#[test]
fn animated_layer_transmits_frames_and_arms_playback_exactly_once() {
    let mut cache = HostGraphicsCache::default();
    let mut bytes = Vec::new();

    fn animation() -> GraphicsAnimation {
        GraphicsAnimation {
            frame_gap_ms: 100,
            frames: vec![vec![9; 20 * 20 * 4], vec![10; 20 * 20 * 4]],
        }
    }

    let mut placement = test_placement(0, 0);
    placement.animation = Some(animation());

    encode_graphics_update(
        &mut bytes,
        &[placement],
        false,
        &mut cache,
    );
    let first = String::from_utf8_lossy(&bytes);
    assert!(
        first.contains("a=t"),
        "the root frame still uploads via the existing path"
    );
    assert_eq!(
        first.matches("a=f").count(),
        2,
        "one a=f per extra loop frame"
    );
    assert!(
        first.contains("a=a"),
        "playback armed after the frames land"
    );
    assert!(
        first.contains("s=3,v=1"),
        "loop mode armed, not just the root gap set"
    );

    bytes.clear();
    let mut same = test_placement(0, 0);
    same.animation = Some(animation());
    encode_graphics_update(
        &mut bytes,
        &[same],
        false,
        &mut cache,
    );
    assert!(
        bytes.is_empty(),
        "an unchanged animated layer re-arms nothing on a later pass"
    );
}

#[test]
fn view_change_redisplays_unchanged_visible_placement() {
    let mut cache = HostGraphicsCache::default();
    let mut bytes = Vec::new();
    let placement = test_placement(0, 0);

    encode_graphics_update(
        &mut bytes,
        &[placement],
        false,
        &mut cache,
    );
    assert_eq!(cache.placements.len(), 1);

    bytes.clear();
    let same = test_placement(0, 0);
    encode_graphics_update(
        &mut bytes,
        &[same],
        true,
        &mut cache,
    );
    let redisplay = String::from_utf8_lossy(&bytes);
    assert!(!redisplay.contains("a=t"));
    assert!(redisplay.contains("a=p"));
    assert_eq!(cache.placements.len(), 1);
}

#[test]
fn surface_reset_deletes_then_reuploads_and_redisplays_placement() {
    let mut cache = HostGraphicsCache::default();
    let mut bytes = Vec::new();
    let placement = test_placement(0, 0);

    encode_graphics_update(
        &mut bytes,
        &[placement],
        false,
        &mut cache,
    );
    assert_eq!(cache.images.len(), 1);
    assert_eq!(cache.placements.len(), 1);

    bytes = cache.clear_bytes();
    let same = test_placement(0, 0);
    encode_graphics_update(
        &mut bytes,
        &[same],
        false,
        &mut cache,
    );

    let redisplay = String::from_utf8_lossy(&bytes);
    assert!(redisplay.contains("a=d,d=I"));
    assert!(redisplay.contains("a=t"));
    assert!(redisplay.contains("a=p"));
    assert_eq!(cache.images.len(), 1);
    assert_eq!(cache.placements.len(), 1);
}

#[test]
fn scrollback_offset_change_redisplays_placement() {
    let mut cache = HostGraphicsCache::default();
    let mut bytes = Vec::new();
    let placement = test_placement(0, 0);

    encode_graphics_update(
        &mut bytes,
        &[placement],
        false,
        &mut cache,
    );

    bytes.clear();
    let mut scrolled = test_placement(0, 0);
    scrolled.scrollback_offset = 3;
    encode_graphics_update(
        &mut bytes,
        &[scrolled],
        false,
        &mut cache,
    );
    let redisplay = String::from_utf8_lossy(&bytes);
    assert!(!redisplay.contains("a=t"));
    assert!(redisplay.contains("a=p"));
}

#[test]
fn empty_image_data_does_not_mark_image_uploaded() {
    let mut cache = HostGraphicsCache::default();
    let mut bytes = Vec::new();
    let mut placement = test_placement(0, 0);
    placement.placement.data.clear();

    encode_graphics_update(
        &mut bytes,
        &[placement],
        false,
        &mut cache,
    );

    assert!(bytes.is_empty());
    assert!(cache.images.is_empty());
    assert!(cache.placements.is_empty());
}

#[test]
fn same_image_signature_reuses_host_upload_across_source_image_ids() {
    let mut cache = HostGraphicsCache::default();
    let mut bytes = Vec::new();
    let first = test_placement(0, 0);

    encode_graphics_update(
        &mut bytes,
        &[first],
        false,
        &mut cache,
    );
    assert_eq!(cache.images.len(), 1);
    assert_eq!(cache.placements.len(), 1);

    bytes.clear();
    let mut same_image_new_source_id = test_placement(0, 0);
    same_image_new_source_id.placement.image_id = 8;
    same_image_new_source_id.placement.placement_id = 4;
    same_image_new_source_id.placement.data.clear();
    encode_graphics_update(
        &mut bytes,
        &[same_image_new_source_id],
        false,
        &mut cache,
    );

    let reused = String::from_utf8_lossy(&bytes);
    assert!(!reused.contains("a=t"));
    assert!(reused.contains("a=p"));
    assert_eq!(cache.images.len(), 1);
    assert_eq!(cache.placements.len(), 1);
}

#[test]
fn replaced_image_content_deletes_superseded_host_image() {
    let mut cache = HostGraphicsCache::default();
    let mut bytes = Vec::new();
    let first = test_placement(0, 0);

    encode_graphics_update(
        &mut bytes,
        &[first],
        false,
        &mut cache,
    );
    assert_eq!(cache.images.len(), 1);
    let superseded_host_id = *cache.images.keys().next().expect("uploaded host image");

    bytes.clear();
    let mut changed = test_placement(0, 0);
    changed.placement.data_fingerprint = 43;
    encode_graphics_update(
        &mut bytes,
        &[changed],
        false,
        &mut cache,
    );

    let update = String::from_utf8_lossy(&bytes);
    assert!(update.contains("a=t"), "changed content re-uploads");
    assert!(
        update.contains(&format!("a=d,d=I,i={superseded_host_id}")),
        "superseded host image is deleted"
    );
    assert_eq!(cache.images.len(), 1);
    assert_eq!(cache.placements.len(), 1);
}

#[test]
fn shared_host_image_survives_while_another_source_references_it() {
    fn twin_placement() -> HostPlacement {
        let mut twin = test_placement(5, 5);
        twin.placement.image_id = 8;
        twin.placement.placement_id = 4;
        twin.source_key = HostSourceKey::Terminal {
            pane_id: PaneId::from_raw(1),
            image_id: twin.placement.image_id,
        };
        twin
    }

    let mut cache = HostGraphicsCache::default();
    let mut bytes = Vec::new();

    encode_graphics_update(
        &mut bytes,
        &[test_placement(0, 0), twin_placement()],
        false,
        &mut cache,
    );
    assert_eq!(cache.images.len(), 1, "same content dedups to one host image");

    bytes.clear();
    let mut changed = test_placement(0, 0);
    changed.placement.data_fingerprint = 43;
    encode_graphics_update(
        &mut bytes,
        &[changed, twin_placement()],
        false,
        &mut cache,
    );

    let update = String::from_utf8_lossy(&bytes);
    assert!(!update.contains("a=d,d=I"), "shared host image survives");
    assert_eq!(cache.images.len(), 2);
}

#[test]
fn stale_source_entry_does_not_block_superseded_image_delete() {
    fn twin_placement() -> HostPlacement {
        let mut twin = test_placement(5, 5);
        twin.placement.image_id = 8;
        twin.placement.placement_id = 4;
        twin.source_key = HostSourceKey::Terminal {
            pane_id: PaneId::from_raw(1),
            image_id: twin.placement.image_id,
        };
        twin
    }

    let mut cache = HostGraphicsCache::default();
    let mut bytes = Vec::new();

    encode_graphics_update(
        &mut bytes,
        &[test_placement(0, 0), twin_placement()],
        false,
        &mut cache,
    );
    assert_eq!(cache.images.len(), 1);
    assert_eq!(cache.sources.len(), 2);
    let shared_host_id = *cache.images.keys().next().expect("uploaded host image");

    bytes.clear();
    let mut changed = test_placement(0, 0);
    changed.placement.data_fingerprint = 43;
    encode_graphics_update(
        &mut bytes,
        &[changed],
        false,
        &mut cache,
    );

    let update = String::from_utf8_lossy(&bytes);
    assert!(
        update.contains(&format!("a=d,d=I,i={shared_host_id}")),
        "old host image is deleted once its last live source moves on"
    );
    assert_eq!(cache.images.len(), 1);
    assert_eq!(cache.sources.len(), 1);
}

#[test]
fn stale_placement_deletes_placement_not_image_immediately() {
    let mut cache = HostGraphicsCache::default();
    let mut bytes = Vec::new();
    let placement = test_placement(0, 0);

    encode_graphics_update(
        &mut bytes,
        &[placement],
        false,
        &mut cache,
    );
    assert_eq!(cache.placements.len(), 1);

    bytes.clear();
    encode_graphics_update(
        &mut bytes,
        &[],
        false,
        &mut cache,
    );
    let delete = String::from_utf8_lossy(&bytes);
    assert!(delete.contains("a=d,d=i"));
    assert!(!delete.contains("d=I"));
    assert!(cache.placements.is_empty());
    assert_eq!(cache.images.len(), 1);
}

#[test]
fn removed_pane_layer_deletes_unreferenced_host_image() {
    let mut cache = HostGraphicsCache::default();
    let mut bytes = Vec::new();
    encode_graphics_update(
        &mut bytes,
        &[pane_layer_placement(0, 0)],
        false,
        &mut cache,
    );
    let host_id = *cache.images.keys().next().expect("uploaded pane layer");

    bytes.clear();
    encode_graphics_update(
        &mut bytes,
        &[],
        false,
        &mut cache,
    );

    let delete = String::from_utf8_lossy(&bytes);
    assert!(delete.contains(&format!("a=d,d=I,i={host_id}")));
    assert!(cache.images.is_empty());
    assert!(cache.placements.is_empty());
    assert!(cache.sources.is_empty());
}

#[test]
fn clipped_pane_layer_deletes_unreferenced_host_image() {
    let mut cache = HostGraphicsCache::default();
    let mut bytes = Vec::new();
    encode_graphics_update(
        &mut bytes,
        &[pane_layer_placement(0, 0)],
        false,
        &mut cache,
    );
    let host_id = *cache.images.keys().next().expect("uploaded pane layer");

    bytes.clear();
    encode_graphics_update(
        &mut bytes,
        &[pane_layer_placement(100, 100)],
        false,
        &mut cache,
    );

    let delete = String::from_utf8_lossy(&bytes);
    assert!(delete.contains(&format!("a=d,d=I,i={host_id}")));
    assert!(cache.images.is_empty());
    assert!(cache.placements.is_empty());
    assert!(cache.sources.is_empty());
}

#[test]
fn clipped_terminal_source_retains_identity_for_later_content_replacement() {
    let mut cache = HostGraphicsCache::default();
    let mut bytes = Vec::new();
    encode_graphics_update(
        &mut bytes,
        &[test_placement(0, 0)],
        false,
        &mut cache,
    );
    let original_host_id = *cache.images.keys().next().expect("uploaded terminal image");

    bytes.clear();
    encode_graphics_update(
        &mut bytes,
        &[test_placement(100, 100)],
        false,
        &mut cache,
    );
    assert_eq!(cache.images.len(), 1);
    assert_eq!(cache.sources.len(), 1);

    bytes.clear();
    let mut changed = test_placement(0, 0);
    changed.placement.data_fingerprint = 43;
    encode_graphics_update(
        &mut bytes,
        &[changed],
        false,
        &mut cache,
    );

    let update = String::from_utf8_lossy(&bytes);
    assert!(update.contains(&format!("a=d,d=I,i={original_host_id}")));
    assert_eq!(cache.images.len(), 1);
    assert_eq!(cache.sources.len(), 1);
}

#[test]
fn removed_pane_layer_preserves_image_shared_with_terminal_source() {
    let mut cache = HostGraphicsCache::default();
    let mut bytes = Vec::new();
    encode_graphics_update(
        &mut bytes,
        &[pane_layer_placement(0, 0), test_placement(4, 0)],
        false,
        &mut cache,
    );
    assert_eq!(cache.images.len(), 1);

    bytes.clear();
    encode_graphics_update(
        &mut bytes,
        &[test_placement(4, 0)],
        false,
        &mut cache,
    );

    let update = String::from_utf8_lossy(&bytes);
    assert!(!update.contains("a=d,d=I"));
    assert_eq!(cache.images.len(), 1);
    assert_eq!(cache.placements.len(), 1);
    assert_eq!(cache.sources.len(), 1);
}

#[test]
fn view_change_deletes_stale_placement_immediately() {
    let mut cache = HostGraphicsCache::default();
    let mut bytes = Vec::new();
    let placement = test_placement(0, 0);

    encode_graphics_update(
        &mut bytes,
        &[placement],
        false,
        &mut cache,
    );
    bytes.clear();
    encode_graphics_update(
        &mut bytes,
        &[],
        true,
        &mut cache,
    );

    let delete = String::from_utf8_lossy(&bytes);
    assert!(delete.contains("a=d,d=i"));
    assert!(cache.placements.is_empty());
}

#[test]
fn identifies_rio_from_term_program_case_insensitively() {
    assert_eq!(
        host_terminal_kind_for_env(Some("rio"), None, false),
        HostTerminalKind::Rio
    );
    assert_eq!(
        host_terminal_kind_for_env(Some("Rio"), None, false),
        HostTerminalKind::Rio
    );
}

#[test]
fn identifies_kitty_from_window_id_or_term() {
    assert_eq!(
        host_terminal_kind_for_env(None, None, true),
        HostTerminalKind::Kitty
    );
    assert_eq!(
        host_terminal_kind_for_env(None, Some("xterm-kitty"), false),
        HostTerminalKind::Kitty
    );
}

#[test]
fn rio_term_program_wins_over_a_stray_kitty_marker() {
    assert_eq!(
        host_terminal_kind_for_env(Some("rio"), Some("xterm-kitty"), true),
        HostTerminalKind::Rio
    );
}

#[test]
fn unidentified_terminals_are_other() {
    assert_eq!(
        host_terminal_kind_for_env(None, None, false),
        HostTerminalKind::Other
    );
    assert_eq!(
        host_terminal_kind_for_env(Some("WezTerm"), Some("xterm-256color"), false),
        HostTerminalKind::Other
    );
}

#[test]
fn locality_is_established_only_with_no_ssh_markers() {
    assert!(host_graphics_locality_for_env(false, false, false));
    assert!(!host_graphics_locality_for_env(true, false, false));
    assert!(!host_graphics_locality_for_env(false, true, false));
    assert!(!host_graphics_locality_for_env(false, false, true));
    assert!(!host_graphics_locality_for_env(true, true, true));
}

#[test]
fn preferred_local_pixel_format_matches_measured_terminals() {
    assert_eq!(
        preferred_local_pixel_format(HostTerminalKind::Rio),
        Some(KittyImageFormat::Rgba)
    );
    assert_eq!(
        preferred_local_pixel_format(HostTerminalKind::Kitty),
        Some(KittyImageFormat::Rgb)
    );
    assert_eq!(preferred_local_pixel_format(HostTerminalKind::Other), None);
}

#[test]
fn card_format_stays_png_when_local_transport_disabled() {
    assert_eq!(
        preferred_card_pixel_format_for(false, true, HostTerminalKind::Rio, true),
        PaneGraphicsFormat::Png
    );
}

#[test]
fn card_format_stays_png_when_locality_not_established() {
    assert_eq!(
        preferred_card_pixel_format_for(true, false, HostTerminalKind::Rio, true),
        PaneGraphicsFormat::Png
    );
}

#[test]
fn card_format_upgrades_rio_to_rgba_regardless_of_opacity() {
    assert_eq!(
        preferred_card_pixel_format_for(true, true, HostTerminalKind::Rio, false),
        PaneGraphicsFormat::Rgba
    );
    assert_eq!(
        preferred_card_pixel_format_for(true, true, HostTerminalKind::Rio, true),
        PaneGraphicsFormat::Rgba
    );
}

#[test]
fn card_format_upgrades_kitty_to_rgb_only_when_opaque() {
    assert_eq!(
        preferred_card_pixel_format_for(true, true, HostTerminalKind::Kitty, true),
        PaneGraphicsFormat::Rgb
    );
    assert_eq!(
        preferred_card_pixel_format_for(true, true, HostTerminalKind::Kitty, false),
        PaneGraphicsFormat::Png,
        "a translucent card handed to f=24 would clip every soft edge to opaque"
    );
}

#[test]
fn card_format_is_the_documented_safe_default_for_an_unknown_terminal() {
    assert_eq!(
        preferred_card_pixel_format_for(true, true, HostTerminalKind::Other, true),
        PaneGraphicsFormat::Png
    );
}

#[test]
fn deleting_an_id_with_no_staged_file_does_not_error() {
    let mut bytes = Vec::new();
    encode_delete_image(&mut bytes, 555_104);
    assert!(String::from_utf8_lossy(&bytes).contains("a=d,d=I"));
}

#[test]
fn a_card_sliding_past_the_panel_edge_is_cropped_at_it() {
    let panel = Rect::new(0, 1, 26, 20);
    let mut app = scene();
    app.card_layers_published = true;
    app.card_shapes = true;

    let mut card = sidebar_card_layer(Rect::new(2, 3, 20, 6));
    card.area = panel;
    card.layer.render.viewport_col = 18;
    card.layer.render.viewport_row = 2;
    app.cards = vec![card];

    let placements = collect_visible_placements(&app, test_cell_size(), &HashMap::new());
    let (clipped, _) = clipped_placement(&placements[0]).expect("a card part-way in");
    assert_eq!((clipped.x, clipped.y), (18, 3));
    assert_eq!(
        u32::from(clipped.x) + clipped.cols,
        u32::from(panel.x) + u32::from(panel.width),
        "a sliding card reached past the panel and over the panes"
    );
    assert_eq!(clipped.source_x, 0);
    assert_eq!(
        clipped.source_width,
        clipped.cols * test_cell_size().width_px
    );

    app.cards[0].layer.render.viewport_col = 40;
    let placements = collect_visible_placements(&app, test_cell_size(), &HashMap::new());
    assert!(
        clipped_placement(&placements[0]).is_none(),
        "a card clear of the panel was still drawn somewhere"
    );
}

#[test]
fn sidebar_particle_field_arms_playback_through_the_full_pipeline() {
    let mut app = scene();
    let mut field = layer(
        PaneGraphicsFormat::Rgba,
        4,
        4,
        vec![1; 4 * 4 * 4],
        PaneGraphicsPlacementParams {
            z: -1,
            ..Default::default()
        },
    );
    field.animation = Some(GraphicsAnimation {
        frame_gap_ms: 100,
        frames: vec![vec![2; 4 * 4 * 4], vec![3; 4 * 4 * 4]],
    });
    app.particle_field = Some(SurfaceLayer {
        area: Rect::new(0, 0, 26, 20),
        layer: field,
    });

    let mut cache = HostGraphicsCache::default();
    let bytes = encode_local_pane_graphics(&app, test_cell_size(), &mut cache);
    let text = String::from_utf8_lossy(&bytes);
    assert!(text.contains("a=t"), "root frame uploaded");
    assert_eq!(
        text.matches("a=f").count(),
        2,
        "both loop frames transmitted"
    );
    assert!(text.contains("s=3,v=1"), "playback armed");

    let bytes = encode_local_pane_graphics(&app, test_cell_size(), &mut cache);
    assert!(
        bytes.is_empty(),
        "an unchanged wash writes nothing on the next pass \u{2014} the terminal owns the clock"
    );
}

#[test]
fn file_transport_control_string_is_a_single_unchunked_sequence() {
    let mut bytes = Vec::new();
    let path = "/tmp/herdr-kitty-graphics-1/42.kitty";
    encode_upload_image_via_file(&mut bytes, path, 32, 10, 20, 42);
    let encoded = String::from_utf8_lossy(&bytes);

    assert!(encoded.starts_with("\x1b_Ga=t,t=f,f=32,s=10,v=20,i=42,q=2,m=0;"));
    assert!(encoded.ends_with("\x1b\\"));
    assert_eq!(
        encoded.matches("\x1b_G").count(),
        1,
        "must be exactly one escape sequence, never chunked like t=d payloads"
    );
    assert!(
        !encoded.contains(",m=1"),
        "a base64-encoded path is always small; KITTY_CHUNK_BYTES must not apply here"
    );

    let expected_path_b64 =
        base64::engine::general_purpose::STANDARD.encode(path.as_bytes());
    assert!(encoded.contains(&expected_path_b64));
}

#[test]
fn upload_uses_local_file_transport_when_enabled_and_local() {
    let placement = test_placement(0, 0);
    let mut bytes = Vec::new();
    let host_id = 555_201;

    assert!(encode_upload_image(
        &mut bytes,
        &placement,
        32,
        host_id,
        Some("/tmp/555201.kitty")
    ));
    let encoded = String::from_utf8_lossy(&bytes);
    assert!(
        encoded.contains("t=f"),
        "expected file transport: {encoded}"
    );
    assert!(!encoded.contains("t=d"));
}

#[test]
fn upload_keeps_direct_transport_when_locality_not_established() {
    let placement = test_placement(0, 0);
    let mut bytes = Vec::new();
    let host_id = 555_202;

    assert!(encode_upload_image(&mut bytes, &placement, 32, host_id, None));
    let encoded = String::from_utf8_lossy(&bytes);
    assert!(encoded.contains("t=d"));
    assert!(!encoded.contains("t=f"));
}

#[test]
fn upload_of_empty_data_stages_no_file_and_reports_failure() {
    let mut placement = test_placement(0, 0);
    placement.placement.data.clear();
    let mut bytes = Vec::new();
    let host_id = 555_204;

    assert!(!encode_upload_image(&mut bytes, &placement, 32, host_id, None));
    assert!(!encode_upload_image(&mut bytes, &placement, 32, host_id, Some("/tmp/x")));
    assert!(bytes.is_empty());
}

#[test]
fn pane_host_ids_are_unchanged_by_the_surface_generalisation() {
    let signature = ImageSignature {
        image_width: 4,
        image_height: 4,
        format_code: 32,
        data_len: 64,
        data_fingerprint: 11,
    };
    let pane_id = PaneId::from_raw(17);

    let mut legacy = DefaultHasher::new();
    pane_id.raw().hash(&mut legacy);
    signature.hash(&mut legacy);
    let legacy = legacy.finish();

    assert_eq!(
        host_image_id_for_signature(HostSurfaceId::Pane(pane_id), signature),
        HOST_IMAGE_ID_BASE + ((legacy as u32) % 900_000)
    );
    assert_eq!(
        layer_host_image_id(HostSurfaceId::Pane(pane_id), signature),
        PANE_GRAPHICS_IMAGE_ID_BIT | ((legacy as u32) & !PANE_GRAPHICS_IMAGE_ID_BIT)
    );
}

#[test]
fn a_large_payload_grows_by_a_third_and_its_controls() {
    let mut placement = pane_layer_placement(0, 0);
    placement.placement.format = KittyImageFormat::Png;
    placement.placement.image_width = 1;
    placement.placement.image_height = 1;
    placement.placement.data = vec![1_u8; 1 << 20];
    placement.placement.data_len = placement.placement.data.len();
    let (clipped, format_code) = clipped_placement(&placement).expect("visible placement");
    let host_id = host_image_id(placement.surface, &placement.placement);
    let mut encoded = Vec::new();

    assert!(encode_upload_image(&mut encoded, &placement, format_code, host_id, None));
    encode_display_placement(&mut encoded, clipped, host_id, 1, 0);

    let chunks = (1usize << 20).div_ceil(KITTY_CHUNK_BYTES);
    assert!(encoded.len() > (1 << 20) / 3 * 4);
    assert!(encoded.len() < (1 << 20) / 3 * 4 + 16 * chunks + 200);
}

#[test]
fn cards_that_were_not_laid_out_are_withheld() {
    let mut app = scene();
    app.cards = vec![sidebar_card_layer(Rect::new(1, 2, 20, 12))];
    assert!(collect_visible_placements(&app, test_cell_size(), &HashMap::new()).is_empty());
    app.card_shapes = false;
    assert_eq!(collect_visible_placements(&app, test_cell_size(), &HashMap::new()).len(), 1);
}

#[test]
fn an_unknown_cell_shows_nothing() {
    let app = app_with_sidebar(Rect::new(0, 0, 26, 20), PaneGraphicsPlacementParams::default());
    let mut cache = HostGraphicsCache::default();
    let unknown = HostCellSize {
        width_px: 0,
        height_px: 0,
    };
    assert!(encode_local_pane_graphics(&app, unknown, &mut cache).is_empty());
    assert!(!has_visible_pane_graphics(&app, unknown));
}

#[test]
fn a_frame_is_wrapped_in_a_saved_cursor() {
    assert_eq!(herdr::kitty_graphics::scene::frame_graphics(b""), b"");
    assert_eq!(herdr::kitty_graphics::scene::frame_graphics(b"x"), b"\x1b7x\x1b8");
}

#[test]
fn upload_keeps_direct_transport_when_feature_flag_is_off() {
    let placement = test_placement(0, 0);
    let mut bytes = Vec::new();
    let host_id = 555_203;
    let upload = GraphicsCommand::Upload {
        placement: 0,
        format_code: 32,
        host_id,
    };
    let placements = [placement];

    assert_eq!(
        staging_step(upload, &placements, false, true),
        StagingStep::Nothing
    );
    encode_command(&mut bytes, upload, &placements, None);
    let encoded = String::from_utf8_lossy(&bytes);
    assert!(
        encoded.contains("t=d"),
        "t=d must stay the default until the experimental flag is turned on"
    );
}

#[test]
fn images_are_staged_for_a_local_terminal_alone() {
    let mut placements = [test_placement(0, 0)];
    let upload = GraphicsCommand::Upload {
        placement: 0,
        format_code: 32,
        host_id: 9,
    };
    assert_eq!(
        staging_step(upload, &placements, true, true),
        StagingStep::Write {
            placement: 0,
            host_id: 9
        }
    );
    assert_eq!(
        staging_step(upload, &placements, true, false),
        StagingStep::Nothing
    );
    assert_eq!(
        staging_step(GraphicsCommand::DeleteImage { host_id: 9 }, &placements, false, false),
        StagingStep::Remove { host_id: 9 }
    );
    placements[0].placement.data.clear();
    assert_eq!(
        staging_step(upload, &placements, true, true),
        StagingStep::Nothing
    );
}

#[test]
fn a_staged_image_is_read_from_its_file() {
    let app = app_with_sidebar(Rect::new(0, 0, 26, 20), PaneGraphicsPlacementParams::default());
    let mut inline_cache = HostGraphicsCache::default();
    let inline = encode_local_pane_graphics(&app, test_cell_size(), &mut inline_cache);
    let mut cache = HostGraphicsCache::default();
    assert!(graphics_fit(&app, test_cell_size()));
    let plan = plan_local_pane_graphics(&app, test_cell_size(), &mut cache);
    let mut direct = Vec::new();
    encode_commands(&mut direct, &plan.commands, &plan.placements, &[]);
    assert_eq!(direct, inline);
    let staged: Vec<Option<String>> = plan
        .commands
        .iter()
        .map(|command| match staging_step(*command, &plan.placements, true, true) {
            StagingStep::Write { host_id, .. } => Some(format!("/tmp/{host_id}.kitty")),
            _ => None,
        })
        .collect();
    assert!(staged.iter().any(Option::is_some));
    let mut bytes = Vec::new();
    encode_commands(&mut bytes, &plan.commands, &plan.placements, &staged);
    let encoded = String::from_utf8_lossy(&bytes);
    assert!(encoded.contains("t=f"));
    assert!(!encoded.contains("t=d"));
    assert_eq!(cache.images, inline_cache.images);

    let unknown = HostCellSize {
        width_px: 0,
        height_px: 0,
    };
    let plan = plan_local_pane_graphics(&app, unknown, &mut cache);
    assert!(plan.placements.is_empty());
    let mut bytes = Vec::new();
    encode_commands(&mut bytes, &plan.commands, &plan.placements, &[]);
    assert_eq!(bytes, inline_cache.clear_bytes());
    assert!(cache.is_empty());
}

#[test]
fn coordinates_past_the_screen_do_not_fit() {
    let mut app = app_with_sidebar(
        Rect::new(u16::MAX, 0, 26, 20),
        PaneGraphicsPlacementParams::default(),
    );
    assert!(!graphics_fit(&app, test_cell_size()));
    app.sidebar = None;
    assert!(graphics_fit(&app, test_cell_size()));
}

#[test]
fn an_image_that_is_placed_twice_settles() {
    let mut twin = test_placement(5, 5);
    twin.placement.placement_id = 9;
    let mut cache = HostGraphicsCache::default();
    let mut bytes = Vec::new();
    encode_graphics_update(&mut bytes, &[test_placement(0, 0), twin], false, &mut cache);
    assert_eq!(cache.images.len(), 1);
    assert_eq!(cache.placements.len(), 2);
    let images = cache.images.clone();

    let mut again = test_placement(5, 5);
    again.placement.placement_id = 9;
    again.placement.data.clear();
    let mut first = test_placement(0, 0);
    first.placement.data.clear();
    bytes.clear();
    encode_graphics_update(&mut bytes, &[first, again], false, &mut cache);
    assert!(bytes.is_empty(), "the terminal holds the image, so the data may be left out");
    assert_eq!(cache.images, images);
    assert_eq!(cache.placements.len(), 2);
}

#[test]
fn an_image_that_nobody_brings_is_passed_over() {
    let mut cache = HostGraphicsCache::default();
    for _ in 0..2 {
        let mut empty = test_placement(0, 0);
        empty.placement.data.clear();
        let mut bytes = Vec::new();
        encode_graphics_update(&mut bytes, &[empty], false, &mut cache);
        assert!(bytes.is_empty());
        assert!(cache.is_empty());
    }
}

#[test]
fn only_wanted_placements_stay_and_each_has_its_image() {
    let mut other = test_placement(5, 5);
    other.placement.placement_id = 9;
    let kept = (
        host_image_id(other.surface, &other.placement),
        host_placement_id(other.source_key, &other.placement),
    );
    let mut cache = HostGraphicsCache::default();
    let mut bytes = Vec::new();
    encode_graphics_update(&mut bytes, &[test_placement(0, 0), other], false, &mut cache);
    assert_eq!(cache.placements.len(), 2);

    let mut other = test_placement(5, 5);
    other.placement.placement_id = 9;
    let hidden = test_placement(500, 0);
    encode_graphics_update(&mut bytes, &[hidden, other], false, &mut cache);
    let keys: Vec<(u32, u32)> = cache.placements.iter().map(|entry| entry.0).collect();
    assert_eq!(keys, vec![kept]);
    assert!(cache.images.contains_key(&kept.0));
}

#[test]
fn who_asks_and_who_collects_agree() {
    let mut shown = scene();
    shown.cards = vec![sidebar_card_layer(Rect::new(0, 1, 24, 10))];
    shown.card_layers_published = true;
    let mut unpublished = scene();
    unpublished.cards = vec![sidebar_card_layer(Rect::new(0, 1, 24, 10))];
    let mut off_screen = scene();
    off_screen.cards = vec![sidebar_card_layer(Rect::new(0, 1, 0, 0))];
    off_screen.card_layers_published = true;
    for (app, visible) in [(shown, true), (unpublished, false), (off_screen, false)] {
        let placements = collect_visible_placements(&app, test_cell_size(), &HashMap::new());
        let collected = placements.iter().any(|p| clipped_placement(p).is_some());
        assert_eq!(collected, visible);
        assert_eq!(has_visible_pane_graphics(&app, test_cell_size()), visible);
    }
}
