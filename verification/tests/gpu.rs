use herdr::gpu::bloom::{dispatches, lay_out, split_readback, Dispatch};
use herdr::gpu::scene::{declined, Curve, Declined, PassFailure, Splat, Tile};
use herdr::gpu::Gate;

fn curve() -> Curve {
    Curve {
        steps_per_px: 8.0f32.to_bits(),
        peak: 0.38f32.to_bits(),
        near_weight: 1.0f32.to_bits(),
        far_weight: 0.0f32.to_bits(),
        paint_floor: 0.002f32.to_bits(),
    }
}

fn bits(values: [f32; 4]) -> [u32; 4] {
    values.map(f32::to_bits)
}

fn splat(bounds: [u32; 4], columns: usize) -> Splat {
    Splat {
        rect: bits([10.0, 10.0, 80.0, 80.0]),
        radius: 6.0f32.to_bits(),
        near_sigma: 2.0f32.to_bits(),
        far_sigma: 3.0f32.to_bits(),
        max_step: 60,
        bounds,
        columns: vec![bits([0.0, 0.0, 0.0, 1.0]); columns],
    }
}

#[test]
fn the_two_cost_models_count_different_pixels() {
    let tile = Tile {
        width: 100,
        height: 100,
        splats: vec![splat([0, 0, 50, 50], 50), splat([0, 0, 50, 50], 50)],
    };
    assert_eq!(tile.pixels(), 10_000, "the GPU visits every pixel");
    assert_eq!(
        tile.cpu_pixels(),
        10_000 + 2 * 2_500,
        "the CPU walks each splat's own box, then composites the image once"
    );
}

#[test]
fn the_gate_is_shut_on_a_plain_unix_process() {
    assert!(
        !Gate::new().enabled(None, false, true),
        "a plain Unix process opened the GPU gate; every other test in this \
         repository is then measuring a path production would not take"
    );
    assert!(!Gate::new().enabled(None, true, false));
    assert!(Gate::new().enabled(None, true, true));
}

#[test]
fn the_variable_overrides_the_platform() {
    let gate = Gate::new();
    for word in ["1", "true", "force"] {
        assert!(gate.enabled(Some(word), false, false));
    }
    for word in ["0", "false"] {
        assert!(!gate.enabled(Some(word), true, true));
    }
    assert!(gate.enabled(Some("yes"), true, true));
    assert!(!gate.enabled(Some("yes"), true, false));
    assert!(gate.ignore_cost_model(Some("force")));
    assert!(!gate.ignore_cost_model(Some("1")));
    assert!(!gate.ignore_cost_model(None));
}

#[test]
fn a_pin_overrides_the_variable() {
    let mut gate = Gate::new();
    gate.pin_backend(true);
    assert!(gate.enabled(Some("0"), false, false));
    assert!(gate.ignore_cost_model(None));
    gate.pin_backend(false);
    assert!(!gate.enabled(Some("1"), true, true));
    assert!(!gate.ignore_cost_model(None));
}

#[test]
fn a_batch_is_laid_out_word_by_word() {
    let tiles = vec![
        Tile {
            width: 3,
            height: 2,
            splats: vec![splat([1, 2, 3, 4], 2)],
        },
        Tile {
            width: 5,
            height: 1,
            splats: vec![splat([0, 0, 1, 1], 1), splat([9, 8, 7, 6], 0)],
        },
    ];
    let batch = lay_out(&tiles, curve(), 256, 1 << 20).expect("fits");
    assert_eq!(batch.stride, 256);
    assert_eq!(batch.tiles.len(), 512);
    assert_eq!(batch.splats.len(), 3 * 64);
    assert_eq!(batch.columns.len(), 3 * 16);
    assert_eq!(batch.pixel_bytes, (6 + 5) * 4);
    let word = |bytes: &[u8], at: usize| {
        u32::from_le_bytes([bytes[at], bytes[at + 1], bytes[at + 2], bytes[at + 3]])
    };
    let words = |bytes: &[u8], at: usize| -> Vec<u32> {
        (0..4).map(|i| word(bytes, at + 4 * i)).collect()
    };
    assert_eq!(words(&batch.tiles, 0), vec![3, 2, 0, 1]);
    assert_eq!(words(&batch.tiles, 16), vec![0, 0, 0, 0]);
    assert_eq!(
        words(&batch.tiles, 32),
        bits([8.0, 0.38, 1.0, 0.0]).to_vec()
    );
    assert_eq!(word(&batch.tiles, 48), 0.002f32.to_bits());
    assert!(batch.tiles[52..256].iter().all(|byte| *byte == 0));
    assert_eq!(words(&batch.tiles, 256), vec![5, 1, 1, 2]);
    assert_eq!(words(&batch.tiles, 272), vec![6, 0, 0, 0]);
    assert_eq!(words(&batch.splats, 0), bits([10.0, 10.0, 80.0, 80.0]).to_vec());
    assert_eq!(words(&batch.splats, 16), bits([6.0, 2.0, 3.0, 0.0]).to_vec());
    assert_eq!(words(&batch.splats, 32), vec![1, 2, 3, 4]);
    assert_eq!(words(&batch.splats, 48), vec![60, 0, 0, 0]);
    assert_eq!(words(&batch.splats, 64 + 48), vec![60, 2, 0, 0]);
    assert_eq!(words(&batch.splats, 128 + 48), vec![60, 3, 0, 0]);
    assert_eq!(words(&batch.columns, 32), bits([0.0, 0.0, 0.0, 1.0]).to_vec());
}

#[test]
fn a_batch_without_splats_has_buffers_all_the_same() {
    let tiles = vec![Tile {
        width: 0,
        height: 7,
        splats: Vec::new(),
    }];
    let batch = lay_out(&tiles, curve(), 4, 64).expect("fits");
    assert_eq!(batch.stride, 64);
    assert_eq!(batch.tiles.len(), 64);
    assert_eq!(batch.splats, vec![0; 64]);
    assert_eq!(batch.columns, vec![0; 16]);
    assert_eq!(batch.pixel_bytes, 4);
    assert_eq!(dispatches(&tiles, 64), Ok(Vec::new()));
}

#[test]
fn a_batch_that_is_too_large_is_declined() {
    let tile = |width: u32, height: u32| Tile {
        width,
        height,
        splats: Vec::new(),
    };
    assert_eq!(lay_out(&[tile(4, 4)], curve(), 4, 64).map(|batch| batch.pixel_bytes), Ok(64));
    assert_eq!(lay_out(&[tile(4, 4)], curve(), 4, 63).err(), Some(Declined::TooLarge));
    assert_eq!(
        lay_out(&[tile(u32::MAX, u32::MAX)], curve(), 4, u64::MAX).err(),
        Some(Declined::TooLarge)
    );
    assert_eq!(
        lay_out(&[tile(65_536, 65_536), tile(1, 1)], curve(), 4, u64::MAX).err(),
        Some(Declined::TooLarge)
    );
    let lit = Tile {
        width: 1,
        height: 1,
        splats: vec![splat([0, 0, 1, 1], 5)],
    };
    assert_eq!(lay_out(&[lit], curve(), 4, 79).err(), Some(Declined::TooLarge));
}

#[test]
fn every_image_gets_its_own_run() {
    let tile = |width: u32, height: u32| Tile {
        width,
        height,
        splats: Vec::new(),
    };
    assert_eq!(
        dispatches(&[tile(8, 9), tile(0, 5), tile(1, u32::MAX)], 256),
        Ok(vec![
            Dispatch {
                offset: 0,
                groups_x: 1,
                groups_y: 2
            },
            Dispatch {
                offset: 512,
                groups_x: 1,
                groups_y: 536_870_912
            },
        ])
    );
    assert_eq!(
        dispatches(&[tile(1, 1), tile(1, 1), tile(1, 1)], u32::MAX),
        Err(Declined::TooLarge)
    );
}

#[test]
fn what_comes_back_is_shared_out_in_order() {
    let tile = |width: u32, height: u32| Tile {
        width,
        height,
        splats: Vec::new(),
    };
    let mapped: Vec<u8> = (0..24).collect();
    let images = split_readback(&[tile(1, 2), tile(0, 3), tile(3, 1)], &mapped);
    assert_eq!(images, vec![mapped[0..8].to_vec(), Vec::new(), mapped[8..20].to_vec()]);
    assert_eq!(images.concat(), mapped[..20].to_vec());
    assert!(split_readback(&[], &[]).is_empty());
}

#[test]
fn every_reason_says_what_happened() {
    assert_eq!(Declined::NoDevice.message(), "no GPU device");
    assert_eq!(
        Declined::TooLarge.message(),
        "batch larger than the device will bind"
    );
    assert_eq!(
        Declined::NotBuilt.message(),
        "built without the gpu-raster feature"
    );
    assert_eq!(
        declined(PassFailure::Validation("x".to_string())).message(),
        "GPU pass failed: x"
    );
    assert_eq!(
        declined(PassFailure::ShaderNotBuilt),
        Declined::Failed("the bloom shader would not build".to_string())
    );
    assert_eq!(
        declined(PassFailure::NeverRead),
        Declined::Failed("readback never completed".to_string())
    );
    assert_eq!(declined(PassFailure::NoDevice), Declined::NoDevice);
    assert_eq!(
        declined(PassFailure::Poll("p".to_string())),
        Declined::Failed("p".to_string())
    );
    assert_eq!(
        declined(PassFailure::Read("r".to_string())),
        Declined::Failed("r".to_string())
    );
}

#[test]
fn a_box_without_extent_costs_nothing() {
    let tile = Tile {
        width: u32::MAX,
        height: 1,
        splats: vec![splat([5, 5, 5, 9], 0), splat([9, 0, 3, 9], 0), splat([0, 0, 2, 3], 0)],
    };
    assert_eq!(tile.cpu_pixels(), u64::from(u32::MAX) + 6);
}
