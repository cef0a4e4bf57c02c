use herdr::grid_raster::cell_shapes::{shape_for, CellShape, Rect};
use herdr::grid_raster::tables::{box_weights, quadrants_of};

/// Total coverage over a whole cell, in parts of 256 of a pixel.
fn ink(shape: &CellShape, w: u32, h: u32) -> u32 {
    let mut total = 0;
    for y in 0..h {
        for x in 0..w {
            total += shape.coverage(x, y);
        }
    }
    total
}

const CELLS: [(u32, u32); 4] = [(10, 21), (9, 19), (14, 18), (4, 8)];

#[test]
fn the_full_block_covers_every_pixel_of_its_cell() {
    for (w, h) in CELLS {
        let shape = shape_for('\u{2588}', w, h).expect("the full block is drawn here");
        for y in 0..h {
            for x in 0..w {
                assert_eq!(
                    shape.coverage(x, y),
                    256,
                    "{w}x{h}: full block leaves pixel ({x}, {y}) uncovered, which is the \
                     seam between two stacked blocks"
                );
            }
        }
    }
}

#[test]
fn a_vertical_rule_reaches_both_cell_edges() {
    for (w, h) in CELLS {
        for ch in ['\u{2502}', '\u{2503}', '\u{253C}'] {
            let shape = shape_for(ch, w, h).expect("a vertical arm is drawn here");
            let lit = |y: u32| (0..w).any(|x| shape.coverage(x, y) > 0);
            assert!(
                lit(0) && lit(h - 1),
                "{w}x{h}: {ch:?} does not reach both cell edges, so a stacked pair breaks"
            );
            let columns = |y: u32| (0..w).filter(|&x| shape.coverage(x, y) > 0).count();
            assert_eq!(columns(0), columns(h - 1), "{w}x{h}: {ch:?} changes width");
        }
    }
}

#[test]
fn a_horizontal_rule_reaches_both_cell_edges() {
    for (w, h) in CELLS {
        for ch in ['\u{2500}', '\u{2501}', '\u{253C}'] {
            let shape = shape_for(ch, w, h).expect("a horizontal arm is drawn here");
            let lit = |x: u32| (0..h).any(|y| shape.coverage(x, y) > 0);
            assert!(
                lit(0) && lit(w - 1),
                "{w}x{h}: {ch:?} does not reach both cell edges, so a run of them breaks"
            );
        }
    }
}

#[test]
fn a_corner_reaches_the_edges_its_arms_point_at_and_no_others() {
    let (w, h) = (10, 21);
    let shape = shape_for('\u{250C}', w, h).expect("the corner is drawn here");
    let col = |x: u32| (0..h).any(|y| shape.coverage(x, y) > 0);
    let row = |y: u32| (0..w).any(|x| shape.coverage(x, y) > 0);
    assert!(col(w - 1), "no ink at the right edge");
    assert!(row(h - 1), "no ink at the bottom edge");
    assert!(!col(0), "ink at the left edge, where no arm points");
    assert!(!row(0), "ink at the top edge, where no arm points");
}

#[test]
fn a_corner_joins_its_own_arms() {
    for (w, h) in CELLS {
        let shape = shape_for('\u{250C}', w, h).expect("the corner is drawn here");
        let mid_y = (0..h)
            .find(|&y| shape.coverage(w - 1, y) > 0)
            .expect("the horizontal arm reaches the right edge");
        let mid_x = (0..w)
            .find(|&x| shape.coverage(x, h - 1) > 0)
            .expect("the vertical arm reaches the bottom edge");
        assert!(
            shape.coverage(mid_x, mid_y) > 0,
            "{w}x{h}: the corner has a notch where its arms should meet"
        );
    }
}

#[test]
fn a_stub_stops_at_the_middle() {
    let (w, h) = (10, 21);
    let shape = shape_for('\u{2574}', w, h).expect("the left stub is drawn here");
    assert!(
        (0..h).any(|y| shape.coverage(0, y) > 0),
        "the stub does not start at the left edge"
    );
    assert!(
        (0..h).all(|y| shape.coverage(w - 1, y) == 0),
        "the stub runs to the right edge, so it is a full rule, not a stub"
    );
}

#[test]
fn heavy_is_thicker_than_light() {
    for (w, h) in CELLS {
        let light = shape_for('\u{2502}', w, h).expect("light vertical");
        let heavy = shape_for('\u{2503}', w, h).expect("heavy vertical");
        assert!(
            ink(&heavy, w, h) > ink(&light, w, h),
            "{w}x{h}: the heavy vertical is not thicker than the light one"
        );
    }
}

#[test]
fn the_eighth_blocks_step_evenly() {
    let (w, h) = (16, 32);
    let mut previous = 0;
    for step in 1..=8u32 {
        let ch = char::from_u32(0x2580 + step).expect("a block element");
        let shape = shape_for(ch, w, h).expect("the lower eighths are drawn here");
        let filled = ink(&shape, w, h);
        let expected = w * h * 256 * step / 8;
        assert_eq!(filled, expected, "{ch:?}");
        assert!(
            filled > previous,
            "{ch:?} is not taller than the step below"
        );
        previous = filled;
    }
}

#[test]
fn the_half_blocks_tile_into_a_whole_one() {
    for (w, h) in CELLS {
        for (a, b) in [('\u{2580}', '\u{2584}'), ('\u{258C}', '\u{2590}')] {
            let first = shape_for(a, w, h).expect("a half block");
            let second = shape_for(b, w, h).expect("its opposite half");
            for y in 0..h {
                for x in 0..w {
                    let total = first.coverage(x, y) + second.coverage(x, y);
                    assert!(
                        total == 256,
                        "{w}x{h}: {a:?} and {b:?} cover pixel ({x}, {y}) {total} times, so \
                         they overlap or leave a gap"
                    );
                }
            }
        }
    }
}

#[test]
fn the_quadrants_tile_into_a_whole_cell() {
    let (w, h) = (10, 20);
    let corners = ['\u{2598}', '\u{259D}', '\u{2596}', '\u{2597}'];
    for y in 0..h {
        for x in 0..w {
            let total: u32 = corners
                .iter()
                .map(|&ch| shape_for(ch, w, h).expect("a quadrant").coverage(x, y))
                .sum();
            assert!(
                total == 256,
                "the four quadrants cover pixel ({x}, {y}) {total} times"
            );
        }
    }
}

#[test]
fn the_shades_are_ordered_and_partial() {
    let (w, h) = (10, 21);
    let mut previous = 0;
    for ch in ['\u{2591}', '\u{2592}', '\u{2593}'] {
        let shape = shape_for(ch, w, h).expect("a shade block");
        let coverage = shape.coverage(w / 2, h / 2);
        assert!(
            coverage > previous && coverage < 256,
            "{ch:?} covers {coverage}, which is not a partial tone above the one before it"
        );
        previous = coverage;
    }
}

#[test]
fn the_characters_this_module_declines_keep_the_font_path() {
    for ch in [
        '\u{2504}', '\u{250A}', '\u{254C}', '\u{2550}', '\u{2551}', '\u{2554}', '\u{256C}',
        '\u{256D}', '\u{2570}', '\u{2571}', '\u{2573}', 'A', ' ', '\u{25CF}',
    ] {
        assert!(
            shape_for(ch, 10, 21).is_none(),
            "{ch:?} should be left to the font"
        );
    }
}

#[test]
fn a_degenerate_cell_is_declined_rather_than_drawn() {
    assert!(shape_for('\u{2588}', 0, 21).is_none());
    assert!(shape_for('\u{2588}', 10, 0).is_none());
}

#[test]
fn every_weight_in_the_table_is_a_known_stroke() {
    for (index, weights) in (0u32..128).map(|i| box_weights(0x2500 + i)).enumerate() {
        for weight in weights.iter() {
            assert!(
                *weight <= 2,
                "U+{:04X} has an unknown stroke weight {weight}",
                0x2500 + index
            );
        }
    }
}

#[test]
fn every_drawn_box_character_produces_ink() {
    for (index, weights) in (0u32..128).map(|i| box_weights(0x2500 + i)).enumerate() {
        if weights.iter().all(|w| *w == 0) {
            continue;
        }
        let ch = char::from_u32(0x2500 + index as u32).expect("a box drawing character");
        for (w, h) in CELLS {
            let shape = shape_for(ch, w, h).expect("a weighted row is drawn");
            assert!(
                ink(&shape, w, h) > 0,
                "{w}x{h}: {ch:?} draws nothing despite having arms"
            );
        }
    }
}

#[test]
fn every_block_element_produces_ink() {
    for code in 0x2580..=0x259Fu32 {
        let ch = char::from_u32(code).expect("a block element");
        let shape = shape_for(ch, 10, 21).expect("the whole block range is drawn");
        assert!(ink(&shape, 10, 21) > 0, "{ch:?} draws nothing");
    }
}

#[test]
fn a_light_cross_has_exact_sides() {
    let shape = shape_for('\u{253C}', 10, 21).expect("drawn");
    let rect = |x0: u64, y0: u64, x1: u64, y1: u64| Rect {
        x0: 8 * x0,
        y0: 8 * y0,
        x1: 8 * x1,
        y1: 8 * y1,
    };
    assert_eq!(
        shape.rects,
        vec![
            rect(0, 10, 5, 11),
            rect(4, 10, 10, 11),
            rect(4, 0, 5, 11),
            rect(4, 10, 5, 21),
        ]
    );
    assert_eq!(shape.alpha, 4);
}

#[test]
fn stacked_lines_join_without_a_seam() {
    for (w, h) in CELLS {
        for (above, below) in [('\u{2502}', '\u{253C}'), ('\u{2503}', '\u{254B}'), ('\u{2577}', '\u{2575}')] {
            let above = shape_for(above, w, h).expect("drawn");
            let below = shape_for(below, w, h).expect("drawn");
            for x in 0..w {
                assert_eq!(above.coverage(x, h - 1), below.coverage(x, 0), "{w}x{h} at {x}");
            }
        }
    }
}

#[test]
fn heavy_lines_are_twice_as_thick() {
    for (w, h) in [(8, 8), (16, 40), (100, 90)] {
        let light = shape_for('\u{2502}', w, h).expect("drawn");
        let heavy = shape_for('\u{2503}', w, h).expect("drawn");
        assert_eq!(ink(&heavy, w, h), 2 * ink(&light, w, h));
    }
}

#[test]
fn an_edge_of_an_odd_cell_is_partly_covered() {
    let shape = shape_for('\u{2584}', 3, 5).expect("drawn");
    assert_eq!(shape.coverage(0, 1), 0);
    assert_eq!(shape.coverage(0, 2), 128);
    assert_eq!(shape.coverage(0, 3), 256);
    assert_eq!(shape_for('\u{2589}', 1, 1).expect("drawn").coverage(0, 0), 224);
    assert_eq!(shape_for('\u{2594}', 1, 1).expect("drawn").coverage(0, 0), 32);
    assert_eq!(shape_for('\u{2595}', 1, 1).expect("drawn").coverage(0, 0), 32);
}

#[test]
fn the_largest_cell_has_no_overflow() {
    let shape = shape_for('\u{259F}', u32::MAX, u32::MAX).expect("drawn");
    assert_eq!(shape.coverage(u32::MAX - 1, u32::MAX - 1), 256);
    assert_eq!(shape.coverage(0, 0), 0);
    assert!(shape_for('\u{254B}', u32::MAX, 1).is_some());
}

#[test]
fn quarters_are_named_as_they_look() {
    assert_eq!(quadrants_of(0x2598), [true, false, false, false]);
    assert_eq!(quadrants_of(0x259A), [true, false, false, true]);
    assert_eq!(box_weights(0x2500), [0, 0, 1, 1]);
    assert_eq!(box_weights(0x257F), [2, 1, 0, 0]);
}

#[test]
fn what_two_rectangles_cover_counts_once() {
    let shape = shape_for('\u{259B}', 9, 18).expect("drawn");
    assert_eq!(shape.coverage(4, 0), 256);
    assert_eq!(shape.coverage(4, 8), 256);
    assert_eq!(shape.coverage(4, 9), 128);
    assert_eq!(shape.coverage(5, 9), 0);
    let crossed = shape_for('\u{253C}', 10, 21).expect("drawn");
    assert_eq!(crossed.coverage(4, 10), 256);
    let twice = CellShape {
        rects: vec![
            Rect { x0: 0, y0: 0, x1: 6, y1: 8 },
            Rect { x0: 4, y0: 0, x1: 7, y1: 4 },
        ],
        alpha: 2,
    };
    assert_eq!(twice.coverage(0, 0), (48 + 4) * 2);
}

#[test]
fn three_quarters_and_the_fourth_are_a_whole_cell() {
    for (w, h) in CELLS {
        for (a, b) in [
            ('\u{259B}', '\u{2597}'),
            ('\u{259C}', '\u{2596}'),
            ('\u{2599}', '\u{259D}'),
            ('\u{259F}', '\u{2598}'),
            ('\u{259A}', '\u{259E}'),
        ] {
            let first = shape_for(a, w, h).expect("drawn");
            let second = shape_for(b, w, h).expect("drawn");
            for y in 0..h {
                for x in 0..w {
                    assert_eq!(first.coverage(x, y) + second.coverage(x, y), 256);
                }
            }
        }
    }
}
