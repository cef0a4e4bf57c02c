use herdr::grid_raster::font::{font_search_order, FontPlatform};
use herdr::grid_raster::surface::{
    glyph_is_worth_drawing, plan_cell, region_ground, resolve_cell_colors, surface_size, CellStyle,
    GridRaster, ThemeColors,
};

const UNTOLD: ThemeColors = ThemeColors {
    foreground: None,
    background: None,
};

fn plain() -> CellStyle {
    CellStyle {
        foreground: None,
        background: None,
        underline: None,
        bold: false,
        dim: false,
        reversed: false,
        hidden: false,
        underlined: false,
        crossed_out: false,
    }
}

fn pixel(raster: &GridRaster, x: u32, y: u32) -> (u8, u8, u8, u8) {
    let index = ((y as usize) * (raster.width as usize) + x as usize) * 4;
    (
        raster.rgba[index],
        raster.rgba[index + 1],
        raster.rgba[index + 2],
        raster.rgba[index + 3],
    )
}

/// Counts pixels that are not the cell background.
fn ink(raster: &GridRaster, bg: (u8, u8, u8)) -> usize {
    raster
        .rgba
        .chunks_exact(4)
        .filter(|px| (px[0], px[1], px[2]) != bg)
        .count()
}

/// Draws a row of equal cells without glyphs.
fn row_of(cols: u16, style: CellStyle) -> GridRaster {
    let mut raster = GridRaster::new(cols, 1, 9, 19).expect("a sane cell");
    for col in 0..cols {
        let plan = plan_cell(" ", &style, &UNTOLD);
        raster.fill_cell(col, 0, 9, 19, plan.colors.bg);
        raster.draw_rules(col, 0, 9, 19, 14, &plan);
    }
    raster
}

#[test]
fn the_surface_is_exactly_the_region_in_whole_cells() {
    let raster = GridRaster::new(20, 5, 9, 19).expect("a sane cell");
    assert_eq!(raster.width, 20 * 9);
    assert_eq!(raster.height, 5 * 19);
    assert_eq!(
        raster.rgba.len(),
        (20 * 9 * 5 * 19 * 4) as usize,
        "RGBA8 is four bytes per pixel with no padding"
    );
}

#[test]
fn every_pixel_is_opaque() {
    let plan = plan_cell("h", &plain(), &UNTOLD);
    let grounds = vec![Some(plan.colors.bg); 16];
    let mut raster = region_ground(8, 2, 9, 19, &grounds, &UNTOLD).expect("a sane cell");
    for row in 0..2 {
        for col in 0..8 {
            raster.draw_rules(col, row, 9, 19, 14, &plan);
        }
    }
    assert!(
        raster.rgba.chunks_exact(4).all(|px| px[3] == 0xff),
        "a transparent pixel would let the covered text show through and double-draw"
    );
}

#[test]
fn a_cell_background_fills_its_whole_cell() {
    let raster = row_of(
        2,
        CellStyle {
            background: Some((0x20, 0x80, 0xc0)),
            ..plain()
        },
    );
    for y in 0..19 {
        for x in 0..18 {
            assert_eq!(
                pixel(&raster, x, y),
                (0x20, 0x80, 0xc0, 0xff),
                "cell background should cover ({x},{y}) with no gaps"
            );
        }
    }
}

#[test]
fn reversed_swaps_foreground_and_background() {
    let colors = resolve_cell_colors(
        &CellStyle {
            foreground: Some((0xff, 0x00, 0x00)),
            background: Some((0x00, 0x00, 0xff)),
            reversed: true,
            ..plain()
        },
        &UNTOLD,
    );
    assert_eq!(colors.fg, (0x00, 0x00, 0xff));
    assert_eq!(colors.bg, (0xff, 0x00, 0x00));
}

#[test]
fn reset_resolves_to_the_host_theme_rather_than_to_a_hole() {
    let host = ThemeColors {
        foreground: Some((0xab, 0xcd, 0xef)),
        background: Some((0x01, 0x02, 0x03)),
    };
    let colors = resolve_cell_colors(&plain(), &host);
    assert_eq!(colors.fg, (0xab, 0xcd, 0xef));
    assert_eq!(colors.bg, (0x01, 0x02, 0x03));
}

#[test]
fn dim_moves_the_foreground_toward_the_background() {
    let colors = resolve_cell_colors(
        &CellStyle {
            foreground: Some((0xff, 0xff, 0xff)),
            background: Some((0x00, 0x00, 0x00)),
            dim: true,
            ..plain()
        },
        &UNTOLD,
    );
    assert!(
        colors.fg.0 < 0xff && colors.fg.0 > 0x00,
        "dim should land between the two, not at either end: {:?}",
        colors.fg
    );
    assert_eq!(colors.fg, (0x80, 0x80, 0x80));
}

#[test]
fn hidden_text_draws_no_ink() {
    let hidden = CellStyle {
        hidden: true,
        underlined: true,
        crossed_out: true,
        ..plain()
    };
    let plan = plan_cell("p", &hidden, &UNTOLD);
    assert!(!plan.glyphs);
    assert_eq!(plan.underline, None);
    assert_eq!(plan.strike, None);
    assert!(plan_cell("p", &plain(), &UNTOLD).glyphs);
}

#[test]
fn underline_draws_a_rule_across_the_cell() {
    let style = CellStyle {
        foreground: Some((0xff, 0xff, 0xff)),
        background: Some((0x00, 0x00, 0x00)),
        ..plain()
    };
    let plain_ink = ink(&row_of(4, style), (0, 0, 0));
    let underlined_ink = ink(
        &row_of(
            4,
            CellStyle {
                underlined: true,
                ..style
            },
        ),
        (0, 0, 0),
    );
    assert_eq!(plain_ink, 0, "blank cells have no ink to begin with");
    assert_eq!(
        underlined_ink,
        4 * 9,
        "the rule should span every column of all four cells"
    );
}

#[test]
fn an_empty_region_is_refused() {
    assert!(GridRaster::new(0, 4, 9, 19).is_none());
    assert!(GridRaster::new(8, 0, 9, 19).is_none());
}

#[test]
fn a_degenerate_cell_size_is_refused_rather_than_allocating() {
    assert!(GridRaster::new(8, 4, 0, 19).is_none());
    assert!(GridRaster::new(8, 4, 9, 0).is_none());
    assert_eq!(surface_size(1, 1, 32_768, 1), Some((32_768, 1)));
    assert_eq!(surface_size(1, 1, 32_769, 1), None);
    assert_eq!(surface_size(u16::MAX, 1, u32::MAX, 1), None);
}

#[test]
fn lines_lie_in_their_rows() {
    let style = CellStyle {
        foreground: Some((9, 9, 9)),
        background: Some((1, 1, 1)),
        underline: Some((5, 6, 7)),
        underlined: true,
        crossed_out: true,
        ..plain()
    };
    let raster = row_of(1, style);
    for y in 0..19 {
        let expected = match y {
            15 => (5, 6, 7, 255),
            9 => (9, 9, 9, 255),
            _ => (1, 1, 1, 255),
        };
        assert_eq!(pixel(&raster, 0, y), expected, "row {y}");
        assert_eq!(pixel(&raster, 8, y), expected, "row {y}");
    }
}

#[test]
fn an_underline_leaves_the_last_row_of_its_cell() {
    let style = CellStyle {
        underlined: true,
        ..plain()
    };
    let plan = plan_cell(" ", &style, &UNTOLD);
    for baseline in [16, 17, 18, 19, u32::MAX] {
        let mut raster = GridRaster::new(1, 2, 9, 19).expect("a sane cell");
        raster.draw_rules(0, 0, 9, 19, baseline, &plan);
        assert_eq!(pixel(&raster, 0, 17), (0xd0, 0xd0, 0xd0, 255));
        assert_eq!(pixel(&raster, 0, 18), (0, 0, 0, 0));
        assert_eq!(pixel(&raster, 0, 19), (0, 0, 0, 0));
    }
    for cell_height in [1, 2] {
        let mut raster = GridRaster::new(1, 1, 9, cell_height).expect("a sane cell");
        raster.draw_rules(0, 0, 9, cell_height, 0, &plan);
        assert_eq!(pixel(&raster, 0, 0), (0xd0, 0xd0, 0xd0, 255));
        assert_eq!(ink(&raster, (0, 0, 0)), 9);
    }
}

#[test]
fn a_rule_below_the_surface_is_not_drawn() {
    let mut raster = GridRaster::new(1, 1, 4, 4).expect("a sane cell");
    raster.draw_rule(0, 4, 4, (1, 2, 3));
    assert_eq!(ink(&raster, (0, 0, 0)), 0);
    raster.draw_rule(0, 4, 3, (1, 2, 3));
    assert_eq!(ink(&raster, (0, 0, 0)), 4);
}

#[test]
fn a_glyph_beside_the_surface_is_cut_off() {
    let mut raster = GridRaster::new(2, 1, 4, 4).expect("a sane cell");
    for (x, y) in [(-1, 0), (0, -1), (8, 0), (0, 4), (i32::MIN, i32::MAX)] {
        assert_eq!(raster.color_at(x, y), None);
        raster.put_at(x, y, (9, 9, 9));
    }
    assert_eq!(ink(&raster, (0, 0, 0)), 0);
    raster.put_at(7, 3, (1, 2, 3));
    assert_eq!(raster.color_at(7, 3), Some((1, 2, 3)));
    assert_eq!(pixel(&raster, 7, 3), (1, 2, 3, 255));
    assert_eq!(ink(&raster, (0, 0, 0)), 1);
}

#[test]
fn blank_symbols_leave_no_ink() {
    assert!(!glyph_is_worth_drawing("", false));
    assert!(!glyph_is_worth_drawing(" \u{3000}", false));
    assert!(glyph_is_worth_drawing(" x", false));
    assert!(!glyph_is_worth_drawing("x", true));
}

#[test]
fn an_underline_without_a_colour_is_ink() {
    let style = CellStyle {
        foreground: Some((1, 2, 3)),
        underlined: true,
        bold: true,
        ..plain()
    };
    let plan = plan_cell("x", &style, &UNTOLD);
    assert_eq!(plan.underline, Some((1, 2, 3)));
    assert_eq!(plan.strike, None);
    assert!(plan.bold);
    assert_eq!(plan.colors.bg, (0x10, 0x10, 0x10));
}

#[test]
fn the_configured_typeface_is_tried_first() {
    let paths = font_search_order(Some("/my/face.ttf"), FontPlatform::Unix);
    assert_eq!(paths.len(), 10);
    assert_eq!(paths[0], "/my/face.ttf");
    assert_eq!(paths[1], "/usr/share/fonts/truetype/dejavu/DejaVuSansMono.ttf");
    assert_eq!(font_search_order(Some(""), FontPlatform::MacOs).len(), 4);
    assert_eq!(
        font_search_order(None, FontPlatform::Windows)[1],
        "C:\\Windows\\Fonts\\consola.ttf"
    );
}

#[test]
fn a_cell_outside_the_grid_has_the_terminals_background() {
    let theme = ThemeColors {
        foreground: None,
        background: Some((1, 2, 3)),
    };
    let grounds = [Some((9, 8, 7)), None, None, Some((4, 5, 6))];
    let raster = region_ground(2, 2, 3, 2, &grounds, &theme).expect("a sane cell");
    assert_eq!(pixel(&raster, 0, 0), (9, 8, 7, 255));
    assert_eq!(pixel(&raster, 2, 1), (9, 8, 7, 255));
    assert_eq!(pixel(&raster, 3, 0), (1, 2, 3, 255));
    assert_eq!(pixel(&raster, 0, 2), (1, 2, 3, 255));
    assert_eq!(pixel(&raster, 5, 3), (4, 5, 6, 255));
    let untold = region_ground(1, 1, 3, 2, &[None], &UNTOLD).expect("a sane cell");
    assert_eq!(pixel(&untold, 2, 1), (0x10, 0x10, 0x10, 255));
    assert!(region_ground(0, 1, 3, 2, &[], &UNTOLD).is_none());
}
