use engine::fft::keeps_bin;
use engine::types::{FrequencyRange, BlurOptions, FaceDetectionOptions, FourierOptions};
use engine::flo::flo_header;
use engine::diffeo::compose_warp;
use engine::temporal::{crossfade_pixel, keyframe_mask};
use engine::batch::{BatchProgress, ProcessingResult};
use std::path::PathBuf;
use engine::block::{copy_blocks, interpolate_block_edges, shuffle_indices, blend_pixels, BlockScrambler};
use engine::composite::{composite_regions, crop, region_mask};
use engine::fft::{get_optimal_fft_size, hermitian_mirror, is_canonical_bin, is_power_of_two, padding_source_index, reflect_index};
use engine::image::{Pixel, PixelBuffer};
use engine::pixel::{apply_pixel_swaps, scramble_pixels, swap_count, PixelSwap};
use engine::region::{apply_nms, iou_exceeds, select_face_regions, sort_by_confidence, FaceRegion, NMS_IOU_THRESHOLD};
use engine::temporal::{fresh_weight, is_keyframe, FrameAction, TemporalController, TemporalOptions};
use engine::types::{BackgroundMode, BlockOptions, EngineError, PaddingMode, ScrambleOptions, ScrambleType, ONE};
use engine::warp::{apply_warp, identity_warp, warp_image, FlowField, SUBPIXEL};

fn px(v: u8) -> Pixel {
    Pixel { r: v, g: v, b: v, a: 255 }
}

fn gradient(w: u32, h: u32) -> PixelBuffer {
    let mut pixels = Vec::new();
    for i in 0..(w * h) {
        pixels.push(Pixel { r: (i % 256) as u8, g: ((i * 7) % 256) as u8, b: ((i * 13) % 256) as u8, a: 255 });
    }
    PixelBuffer::from_pixels(w, h, pixels).unwrap()
}

fn solid(w: u32, h: u32, p: Pixel) -> PixelBuffer {
    PixelBuffer::from_pixels(w, h, vec![p; (w * h) as usize]).unwrap()
}

fn region(x1: u32, y1: u32, x2: u32, y2: u32, confidence: u32) -> FaceRegion {
    FaceRegion { x1, y1, x2, y2, confidence }
}

#[test]
fn pixel_scramble_zero_intensity_is_identity() {
    let img = gradient(16, 9);
    let out = scramble_pixels(&img, 0, 42).unwrap();
    assert_eq!(out, img);
    let out = scramble_pixels(&img, 0, 12345).unwrap();
    assert_eq!(out, img);
}

#[test]
fn pixel_scramble_keeps_the_pixels() {
    let img = gradient(16, 16);
    let out = scramble_pixels(&img, ONE, 7).unwrap();
    assert_eq!(out.width, 16);
    assert_eq!(out.height, 16);
    let mut a: Vec<(u8, u8, u8)> = img.pixels.iter().map(|p| (p.r, p.g, p.b)).collect();
    let mut b: Vec<(u8, u8, u8)> = out.pixels.iter().map(|p| (p.r, p.g, p.b)).collect();
    assert_ne!(a, b);
    a.sort();
    b.sort();
    assert_eq!(a, b);
}

#[test]
fn swap_count_scales_with_intensity() {
    assert_eq!(swap_count(100, 100, ONE / 2), 5000);
    assert_eq!(swap_count(100, 100, 0), 0);
    assert_eq!(swap_count(3, 3, ONE / 2), 4);
    assert_eq!(swap_count(10, 10, 2 * ONE), 200);
}

#[test]
fn explicit_swaps_are_applied_in_order() {
    let img = PixelBuffer::from_pixels(3, 1, vec![px(1), px(2), px(3)]).unwrap();
    let swaps = vec![
        PixelSwap { x1: 0, y1: 0, x2: 2, y2: 0 },
        PixelSwap { x1: 0, y1: 0, x2: 1, y2: 0 },
    ];
    let out = apply_pixel_swaps(&img, &swaps);
    assert_eq!(out.pixels, vec![px(2), px(3), px(1)]);
}

#[test]
fn shuffle_is_a_permutation() {
    let draws = vec![3, 3, 0, 1];
    let perm = shuffle_indices(4, &draws);
    // [0,1,2,3] -> swap(0,3) [3,1,2,0] -> swap(1,3) [3,0,2,1]
    // -> swap(2,0) [2,0,3,1] -> swap(3,1) [2,1,3,0]
    assert_eq!(perm, vec![2, 1, 3, 0]);
    let mut sorted = perm.clone();
    sorted.sort();
    assert_eq!(sorted, vec![0, 1, 2, 3]);
}

#[test]
fn block_scramble_index_array_is_a_permutation_for_any_seed() {
    for seed in 0..20u64 {
        let img = gradient(10, 7);
        let opts = BlockOptions { block_size: (3, 2), interpolate_edges: false, padding_mode: PaddingMode::Zero };
        let mut s = BlockScrambler::new(opts, seed);
        let out = s.scramble(&img).unwrap();
        assert_eq!((out.width, out.height), (10, 7));
    }
}

#[test]
fn block_copy_moves_whole_blocks() {
    let img = PixelBuffer::from_pixels(4, 2, (0..8).map(|v| px(v as u8 + 1)).collect()).unwrap();
    // two 2x2 blocks, swapped
    let out = copy_blocks(&img, 2, 2, &vec![1, 0]);
    let v: Vec<u8> = out.pixels.iter().map(|p| p.r).collect();
    assert_eq!(v, vec![3, 4, 1, 2, 7, 8, 5, 6]);
}

#[test]
fn block_copy_clips_partial_blocks() {
    // width 3 with blocks of 2: a full block and a one-column block
    let img = PixelBuffer::from_pixels(3, 1, vec![px(1), px(2), px(3)]).unwrap();
    let out = copy_blocks(&img, 2, 1, &vec![1, 0]);
    // block 0 (cols 0-1) goes to block 1 (col 2, clipped); block 1 (col 2) goes to col 0
    assert_eq!(out.pixels, vec![px(3), Pixel::transparent(), px(1)]);
}

#[test]
fn seams_are_blended_rows_then_columns() {
    let img = PixelBuffer::from_pixels(2, 2, vec![px(0), px(100), px(50), px(200)]).unwrap();
    let out = interpolate_block_edges(&img, 1, 1);
    // rows: row 0 = avg(row0,row1) = [25, 150]; row 1 kept = [50, 200]
    // columns: col 0 = avg(col0,col1) = [87, 125]
    let v: Vec<u8> = out.pixels.iter().map(|p| p.r).collect();
    assert_eq!(v, vec![87, 150, 125, 200]);
    assert_eq!(blend_pixels(px(255), px(0)).r, 127);
}

#[test]
fn block_scramble_rejects_zero_block_size() {
    let img = gradient(4, 4);
    let opts = BlockOptions { block_size: (0, 2), interpolate_edges: true, padding_mode: PaddingMode::Reflect };
    let mut s = BlockScrambler::new(opts, 1);
    assert_eq!(s.scramble(&img), Err(EngineError::InvalidInput));
}

#[test]
fn seeded_runs_on_a_solid_image_are_identical() {
    let img = solid(64, 64, Pixel { r: 10, g: 20, b: 30, a: 255 });
    let a = scramble_pixels(&img, ONE, 99).unwrap();
    let b = scramble_pixels(&img, ONE, 99).unwrap();
    assert_eq!(a.to_rgba(), b.to_rgba());
    let opts = BlockOptions::default();
    let a = BlockScrambler::new(opts, 99).scramble(&img).unwrap();
    let b = BlockScrambler::new(opts, 99).scramble(&img).unwrap();
    assert_eq!(a.to_rgba(), b.to_rgba());
    assert_eq!(a, img);
}

#[test]
fn seeded_runs_on_a_gradient_are_identical() {
    let img = gradient(64, 64);
    let a = scramble_pixels(&img, ONE / 2, 5).unwrap();
    let b = scramble_pixels(&img, ONE / 2, 5).unwrap();
    assert_eq!(a, b);
    let opts = BlockOptions { block_size: (8, 8), interpolate_edges: true, padding_mode: PaddingMode::Reflect };
    let a = BlockScrambler::new(opts, 5).scramble(&img).unwrap();
    let b = BlockScrambler::new(opts, 5).scramble(&img).unwrap();
    assert_eq!(a, b);
}

#[test]
fn rgba_round_trip() {
    let raw: Vec<u8> = (0..24).collect();
    let img = PixelBuffer::from_rgba(3, 2, &raw).unwrap();
    assert_eq!(img.get(1, 0), Pixel { r: 4, g: 5, b: 6, a: 7 });
    assert_eq!(img.to_rgba(), raw);
    assert!(PixelBuffer::from_rgba(3, 3, &raw).is_none());
    assert!(PixelBuffer::from_pixels(2, 2, vec![px(0)]).is_none());
}

#[test]
fn region_expand_example() {
    let r = region(10, 10, 30, 30, 900_000);
    let e = r.expand(2 * ONE, 100, 100);
    assert_eq!(e, region(0, 0, 40, 40, 900_000));
}

#[test]
fn region_expand_clamps_high_side() {
    let r = region(80, 80, 100, 100, 1);
    let e = r.expand(2 * ONE, 100, 100);
    assert_eq!(e, region(70, 70, 100, 100, 1));
    // factors of at most one leave the box as it is
    assert_eq!(r.expand(ONE / 2, 100, 100), r);
}

#[test]
fn region_basics() {
    let r = region(5, 6, 15, 26, 800_000);
    assert_eq!(r.dimensions(), (10, 20));
    assert!(r.is_valid_for_scrambling(800_000));
    assert!(!r.is_valid_for_scrambling(800_001));
}

#[test]
fn iou_threshold_is_strict() {
    let a = region(0, 0, 10, 10, 1);
    let b = region(0, 0, 10, 10, 1);
    assert!(iou_exceeds(&a, &b, NMS_IOU_THRESHOLD));
    // overlap 50, union 150: one third
    let c = region(5, 0, 15, 10, 1);
    assert!(!iou_exceeds(&a, &c, NMS_IOU_THRESHOLD));
    // overlap 80, union 120: two thirds
    let d = region(0, 2, 10, 12, 1);
    assert!(iou_exceeds(&a, &d, NMS_IOU_THRESHOLD));
    // exactly one half is not above one half: overlap 100 / union 200
    let e = region(0, 0, 10, 20, 1);
    assert!(!iou_exceeds(&a, &e, NMS_IOU_THRESHOLD));
    let far = region(50, 50, 60, 60, 1);
    assert!(!iou_exceeds(&a, &far, 0));
}

#[test]
fn nms_keeps_the_stronger_of_two_overlapping_boxes() {
    let strong = region(0, 0, 10, 10, 900_000);
    let weak = region(0, 1, 10, 11, 800_000);
    let kept = apply_nms(sort_by_confidence(&vec![weak, strong]), NMS_IOU_THRESHOLD);
    assert_eq!(kept, vec![strong]);
    let kept = apply_nms(sort_by_confidence(&vec![strong, weak]), NMS_IOU_THRESHOLD);
    assert_eq!(kept, vec![strong]);
}

#[test]
fn nms_keeps_separate_boxes() {
    let a = region(0, 0, 10, 10, 700_000);
    let b = region(20, 20, 30, 30, 900_000);
    let kept = apply_nms(sort_by_confidence(&vec![a, b]), NMS_IOU_THRESHOLD);
    assert_eq!(kept, vec![b, a]);
}

#[test]
fn sort_is_stable() {
    let a = region(0, 0, 1, 1, 5);
    let b = region(1, 1, 2, 2, 5);
    let c = region(2, 2, 3, 3, 9);
    assert_eq!(sort_by_confidence(&vec![a, b, c]), vec![c, a, b]);
}

#[test]
fn selection_filters_expands_and_suppresses() {
    let dets = vec![
        region(10, 10, 30, 30, 950_000),
        region(11, 11, 31, 31, 900_000),  // suppressed by the first
        region(60, 60, 70, 70, 500_000),  // below the threshold
        region(40, 40, 40, 50, 990_000),  // degenerate
        region(70, 10, 90, 30, 800_000),
    ];
    let out = select_face_regions(&dets, 700_000, Some(2 * ONE), 100, 100);
    assert_eq!(out, vec![region(0, 0, 40, 40, 950_000), region(60, 0, 100, 40, 800_000)]);
    let out = select_face_regions(&dets, 700_000, None, 100, 100);
    assert_eq!(out, vec![region(10, 10, 30, 30, 950_000), region(70, 10, 90, 30, 800_000)]);
    assert!(select_face_regions(&vec![], 0, None, 10, 10).is_empty());
}

#[test]
fn composite_include_and_exclude() {
    let img = solid(4, 4, px(9));
    let r = region(1, 1, 3, 3, 1);
    let c = crop(&img, &r);
    assert_eq!((c.width, c.height), (2, 2));
    let patch = solid(2, 2, px(200));
    let inc = composite_regions(&img, &vec![r], &vec![patch.clone()], BackgroundMode::Include).unwrap();
    assert_eq!(inc.get(0, 0), px(9));
    assert_eq!(inc.get(1, 1), px(200));
    assert_eq!(inc.get(2, 2), px(200));
    assert_eq!(inc.get(3, 3), px(9));
    let exc = composite_regions(&img, &vec![r], &vec![patch.clone()], BackgroundMode::Exclude).unwrap();
    assert_eq!(exc.get(0, 0), Pixel::transparent());
    assert_eq!(exc.get(2, 1), px(200));
    assert_eq!(
        composite_regions(&img, &vec![r], &vec![], BackgroundMode::Include),
        Err(EngineError::InvalidInput)
    );
    // no regions: the image itself, or a blank canvas
    assert_eq!(composite_regions(&img, &vec![], &vec![], BackgroundMode::Include).unwrap(), img);
    let blank = composite_regions(&img, &vec![], &vec![], BackgroundMode::Exclude).unwrap();
    assert!(blank.pixels.iter().all(|p| *p == Pixel::transparent()));
}

#[test]
fn block_face_variant_only_touches_regions() {
    let img = gradient(8, 8);
    let opts = BlockOptions { block_size: (2, 2), interpolate_edges: false, padding_mode: PaddingMode::Zero };
    let mut s = BlockScrambler::new(opts, 3);
    let r = region(2, 2, 6, 6, 1);
    let out = s.scramble_with_face_detection(&img, &vec![r], BackgroundMode::Include).unwrap();
    for y in 0..8 {
        for x in 0..8 {
            if !(2..6).contains(&x) || !(2..6).contains(&y) {
                assert_eq!(out.get(x, y), img.get(x, y));
            }
        }
    }
    let out = s.scramble_with_face_detection(&img, &vec![r], BackgroundMode::Exclude).unwrap();
    assert_eq!(out.get(0, 0), Pixel::transparent());
    let outside = region(6, 6, 10, 10, 1);
    assert_eq!(
        s.scramble_with_face_detection(&img, &vec![outside], BackgroundMode::Include),
        Err(EngineError::InvalidInput)
    );
}

#[test]
fn mask_marks_region_pixels() {
    let m = region_mask(&vec![region(1, 0, 2, 2, 1)], 3, 2);
    assert_eq!(m, vec![false, true, false, false, true, false]);
}

#[test]
fn zero_flow_warp_is_identity() {
    let img = gradient(5, 4);
    let flow = FlowField { width: 5, height: 4, data: vec![0; 40] };
    assert_eq!(warp_image(&img, &flow).unwrap(), img);
}

#[test]
fn whole_pixel_flow_shifts_and_clamps() {
    let img = PixelBuffer::from_pixels(3, 1, vec![px(10), px(20), px(30)]).unwrap();
    let s = SUBPIXEL as i32;
    let flow = FlowField { width: 3, height: 1, data: vec![s, s, s, 0, 0, 0] };
    let out = warp_image(&img, &flow).unwrap();
    assert_eq!(out.pixels, vec![px(20), px(30), px(30)]);
}

#[test]
fn half_pixel_flow_interpolates() {
    let img = PixelBuffer::from_pixels(2, 1, vec![px(10), px(21)]).unwrap();
    let h = (SUBPIXEL / 2) as i32;
    let flow = FlowField { width: 2, height: 1, data: vec![h, 0, 0, 0] };
    let out = warp_image(&img, &flow).unwrap();
    // 15.5 rounds to 16
    assert_eq!(out.pixels[0].r, 16);
    assert_eq!(out.pixels[1].r, 21);
}

#[test]
fn warp_rejects_mismatched_flow() {
    let img = gradient(5, 4);
    let flow = FlowField { width: 4, height: 5, data: vec![0; 40] };
    assert_eq!(warp_image(&img, &flow), Err(EngineError::InvalidInput));
    let flow = FlowField { width: 5, height: 4, data: vec![0; 39] };
    assert_eq!(warp_image(&img, &flow), Err(EngineError::InvalidInput));
}

#[test]
fn identity_warp_resamples_to_the_input() {
    let img = gradient(6, 5);
    let (wx, wy) = identity_warp(6, 5);
    assert_eq!(wx[7], SUBPIXEL);
    assert_eq!(wy[7], SUBPIXEL);
    assert_eq!(apply_warp(&img, &wx, &wy).unwrap(), img);
    assert_eq!(apply_warp(&img, &wx, &vec![]), Err(EngineError::InvalidInput));
}

#[test]
fn fft_sizes() {
    assert!(is_power_of_two(1));
    assert!(is_power_of_two(64));
    assert!(!is_power_of_two(0));
    assert!(!is_power_of_two(96));
    assert_eq!(get_optimal_fft_size(0), 1);
    assert_eq!(get_optimal_fft_size(1), 1);
    assert_eq!(get_optimal_fft_size(100), 128);
    assert_eq!(get_optimal_fft_size(128), 128);
    assert_eq!(get_optimal_fft_size(129), 256);
}

#[test]
fn reflection_and_padding() {
    let seq: Vec<usize> = (0..9).map(|x| reflect_index(x, 4)).collect();
    assert_eq!(seq, vec![0, 1, 2, 3, 2, 1, 0, 1, 2]);
    assert_eq!(reflect_index(5, 1), 0);
    assert_eq!(reflect_index(5, 0), 0);
    assert_eq!(padding_source_index(PaddingMode::Zero, 1, 5, 3, 3), None);
    assert_eq!(padding_source_index(PaddingMode::Zero, 1, 2, 3, 3), Some((1, 2)));
    assert_eq!(padding_source_index(PaddingMode::Wrap, 4, 5, 3, 3), Some((1, 2)));
    assert_eq!(padding_source_index(PaddingMode::Reflect, 4, 5, 3, 3), Some((0, 1)));
}

#[test]
fn hermitian_pairs() {
    assert_eq!(hermitian_mirror(0, 0, 8), (0, 0));
    assert_eq!(hermitian_mirror(1, 3, 8), (7, 5));
    assert_eq!(hermitian_mirror(0, 4, 8), (0, 4));
    assert!(is_canonical_bin(0, 0, 8));
    assert!(is_canonical_bin(1, 3, 8));
    assert!(!is_canonical_bin(7, 5, 8));
    let mut canonical = 0;
    for y in 0..8 {
        for x in 0..8 {
            if is_canonical_bin(y, x, 8) {
                canonical += 1;
            }
        }
    }
    // 4 self-mirrored bins and 30 pairs
    assert_eq!(canonical, 34);
}

#[test]
fn keyframe_schedule() {
    for k in 0..5 {
        assert!(is_keyframe(0, k));
    }
    for i in 0..20 {
        assert!(is_keyframe(i, 1));
    }
    assert!(is_keyframe(10, 5));
    assert!(!is_keyframe(11, 5));
    assert!(!is_keyframe(5, 0));
}

#[test]
fn fresh_weights_near_keyframes() {
    // interval 10, blend 2, out of 3 parts
    assert_eq!(fresh_weight(1, 10, 2), 2);
    assert_eq!(fresh_weight(2, 10, 2), 1);
    assert_eq!(fresh_weight(3, 10, 2), 0);
    assert_eq!(fresh_weight(7, 10, 2), 0);
    assert_eq!(fresh_weight(8, 10, 2), 1);
    assert_eq!(fresh_weight(9, 10, 2), 2);
    assert_eq!(fresh_weight(5, 10, 0), 0);
    // no interval: only the frames after the first blend
    assert_eq!(fresh_weight(1, 0, 2), 2);
    assert_eq!(fresh_weight(100, 0, 2), 0);
}

#[test]
fn controller_with_interval_one_never_warps() {
    let mut c = TemporalController::new(TemporalOptions { keyframe_interval: 1, blend_frames: 0 });
    let img = gradient(4, 4);
    for _ in 0..5 {
        assert_eq!(c.next_action(), FrameAction::Keyframe);
        let flow = FlowField { width: 4, height: 4, data: vec![0; 32] };
        assert_eq!(c.finish_inter_frame(img.clone(), &flow, None), Err(EngineError::InvalidInput));
        let out = c.finish_keyframe(img.clone(), img.clone(), None).unwrap();
        assert_eq!(out, img);
    }
    assert_eq!(c.state.frame_index, 5);
}

#[test]
fn controller_first_frame_is_a_keyframe() {
    for k in [0u32, 1, 3, 30] {
        let mut c = TemporalController::new(TemporalOptions { keyframe_interval: k, blend_frames: 2 });
        assert_eq!(c.next_action(), FrameAction::Keyframe);
        let img = gradient(3, 3);
        let flow = FlowField { width: 3, height: 3, data: vec![0; 18] };
        assert_eq!(c.finish_inter_frame(img.clone(), &flow, None), Err(EngineError::InvalidInput));
    }
}

#[test]
fn controller_warps_masks_and_blends() {
    let mut c = TemporalController::new(TemporalOptions { keyframe_interval: 4, blend_frames: 1 });
    let original = solid(2, 1, px(0));
    let scrambled = PixelBuffer::from_pixels(2, 1, vec![px(100), px(200)]).unwrap();
    let mask = vec![true, false];
    c.finish_keyframe(original.clone(), scrambled, Some(mask)).unwrap();
    // frame 1: fresh weight 1 of 2
    assert_eq!(c.next_action(), FrameAction::InterFrame { fresh_weight: 1 });
    let current = solid(2, 1, px(50));
    let flow = FlowField { width: 2, height: 1, data: vec![0; 4] };
    assert_eq!(c.finish_inter_frame(current.clone(), &flow, None), Err(EngineError::InvalidInput));
    let fresh = solid(2, 1, px(0));
    let out = c.finish_inter_frame(current.clone(), &flow, Some(fresh)).unwrap();
    // pixel 0: warped 100 crossfaded with 0 -> 50; pixel 1: original 50 with 0 -> 25
    assert_eq!(out.pixels[0].r, 50);
    assert_eq!(out.pixels[1].r, 25);
    assert_eq!(out.pixels[0].a, 255);
    // frame 2: no blending, the previous result is warped
    assert_eq!(c.next_action(), FrameAction::InterFrame { fresh_weight: 0 });
    let out2 = c.finish_inter_frame(current.clone(), &flow, None).unwrap();
    assert_eq!(out2.pixels[0].r, 50);
    assert_eq!(out2.pixels[1].r, 50);
    assert_eq!(c.state.frame_index, 3);
    // mismatched flow is refused and leaves the state alone
    let bad = FlowField { width: 1, height: 2, data: vec![0; 4] };
    let fresh = solid(2, 1, px(0));
    assert_eq!(c.finish_inter_frame(current, &bad, Some(fresh)), Err(EngineError::InvalidInput));
    assert_eq!(c.state.frame_index, 3);
}

#[test]
fn inter_frame_before_keyframe_is_a_defect() {
    let mut c = TemporalController::new(TemporalOptions { keyframe_interval: 5, blend_frames: 0 });
    c.state.frame_index = 1;
    let img = gradient(2, 2);
    let flow = FlowField { width: 2, height: 2, data: vec![0; 8] };
    assert_eq!(c.finish_inter_frame(img, &flow, None), Err(EngineError::MissingKeyframe));
}

#[test]
fn frequency_bands() {
    // n = 8: Nyquist radius 4; bin (0, 2) has radius 2 = one half
    assert!(keeps_bin(FrequencyRange::All, 3, 5, 8));
    assert!(keeps_bin(FrequencyRange::LowPass(ONE / 2), 0, 2, 8));
    assert!(!keeps_bin(FrequencyRange::LowPass(ONE / 2), 0, 3, 8));
    assert!(keeps_bin(FrequencyRange::HighPass(ONE / 2), 0, 2, 8));
    assert!(!keeps_bin(FrequencyRange::HighPass(ONE / 2), 0, 1, 8));
    // bin (0, 7) is the frequency -1
    assert!(!keeps_bin(FrequencyRange::HighPass(ONE / 2), 0, 7, 8));
    assert!(keeps_bin(FrequencyRange::BandPass { low: ONE / 4, high: ONE / 2 }, 1, 1, 8));
    assert!(!keeps_bin(FrequencyRange::BandPass { low: ONE / 4, high: ONE / 2 }, 0, 0, 8));
}

#[test]
fn flo_header_bytes() {
    let h = flo_header(640, 480).unwrap();
    assert_eq!(h, vec![0x50, 0x49, 0x45, 0x48, 0x80, 0x02, 0, 0, 0xE0, 0x01, 0, 0]);
    assert_eq!(&h[0..4], &202021.25f32.to_le_bytes());
    assert_eq!(flo_header(1 << 31, 1), Err(EngineError::InvalidInput));
}

#[test]
fn zero_field_composes_to_identity() {
    let (wx, wy) = compose_warp(4, 3, &vec![0; 12], &vec![0; 12], 5).unwrap();
    assert_eq!((wx.clone(), wy.clone()), identity_warp(4, 3));
    let img = gradient(4, 3);
    assert_eq!(apply_warp(&img, &wx, &wy).unwrap(), img);
    assert_eq!(compose_warp(4, 3, &vec![0; 11], &vec![0; 12], 1), Err(EngineError::InvalidInput));
}

#[test]
fn one_pixel_field_step_composes() {
    let s = SUBPIXEL as i32;
    // every pixel moves one to the right; the last column is clamped
    let (wx, _) = compose_warp(3, 1, &vec![s, s, s], &vec![0, 0, 0], 1).unwrap();
    assert_eq!(wx, vec![SUBPIXEL, 2 * SUBPIXEL, 2 * SUBPIXEL]);
    let (wx, _) = compose_warp(3, 1, &vec![s, s, s], &vec![0, 0, 0], 2).unwrap();
    assert_eq!(wx, vec![2 * SUBPIXEL, 2 * SUBPIXEL, 2 * SUBPIXEL]);
}

#[test]
fn crossfade_rounds_to_nearest() {
    let p = crossfade_pixel(px(0), px(255), 1, 3);
    assert_eq!(p.r, 85);
    let p = crossfade_pixel(px(100), px(0), 0, 3);
    assert_eq!(p.r, 100);
    let p = crossfade_pixel(px(1), px(2), 1, 2);
    assert_eq!(p.r, 2);
}

#[test]
fn batch_records() {
    let ok = ProcessingResult::new(PathBuf::from("a.png"), PathBuf::from("out/a.png"), None);
    assert!(ok.success);
    let bad = ProcessingResult::new(PathBuf::from("b.png"), PathBuf::from("out/b.png"), Some("broken".to_string()));
    assert!(!bad.success);
    assert_eq!(bad.error.as_deref(), Some("broken"));
    let p = BatchProgress::step(4, 2, PathBuf::from("b.png"));
    assert_eq!((p.total_files, p.processed_files), (4, 2));
    let f = BatchProgress::finished(4);
    assert_eq!(f.processed_files, 4);
    assert!(f.current_file.is_none());
}

#[test]
fn option_defaults() {
    let s = ScrambleOptions::default();
    assert_eq!(s.scramble_type, ScrambleType::Pixel);
    assert_eq!(s.intensity, ONE / 2);
    assert!(s.seed.is_none());
    let f = FourierOptions::default();
    assert_eq!(f.frequency_range, FrequencyRange::All);
    assert_eq!(f.padding_mode, PaddingMode::Reflect);
    assert_eq!(BlockOptions::default().block_size, (32, 32));
    assert_eq!(BlurOptions::default().sigma, 5 * ONE);
    let d = FaceDetectionOptions::default();
    assert_eq!(d.confidence_threshold, 700_000);
    assert_eq!(d.background_mode, BackgroundMode::Include);
}

#[test]
fn well_formedness_and_copies() {
    let img = gradient(3, 2);
    assert!(img.is_well_formed());
    let bad = PixelBuffer { width: 3, height: 3, pixels: vec![px(0); 6] };
    assert!(!bad.is_well_formed());
    assert_eq!(img.duplicate(), img);
    let mut m = img.clone();
    m.set(2, 1, px(77));
    assert_eq!(m.get(2, 1), px(77));
    assert_eq!(m.get(1, 1), img.get(1, 1));
    assert_eq!(PixelBuffer::new(2, 2).pixels, vec![Pixel::transparent(); 4]);
}

#[test]
fn keyframe_masks() {
    assert_eq!(keyframe_mask(None, 3, 2), None);
    assert_eq!(keyframe_mask(Some(&vec![]), 3, 2), None);
    let m = keyframe_mask(Some(&vec![region(0, 1, 2, 2, 1)]), 3, 2).unwrap();
    assert_eq!(m, vec![false, false, false, true, true, false]);
}

#[test]
fn empty_images_are_refused() {
    let empty = PixelBuffer::new(0, 5);
    assert_eq!(scramble_pixels(&empty, ONE, 1), Err(EngineError::InvalidInput));
    let mut s = BlockScrambler::new(BlockOptions::default(), 1);
    assert_eq!(s.scramble(&empty), Err(EngineError::InvalidInput));
    assert_eq!(s.scramble_with_face_detection(&empty, &vec![], BackgroundMode::Include), Err(EngineError::InvalidInput));
    let flow = FlowField { width: 0, height: 5, data: vec![] };
    assert_eq!(warp_image(&empty, &flow), Err(EngineError::InvalidInput));
    assert_eq!(apply_warp(&empty, &vec![], &vec![]), Err(EngineError::InvalidInput));
    assert_eq!(compose_warp(0, 5, &vec![], &vec![], 1), Err(EngineError::InvalidInput));
    let mut c = TemporalController::new(TemporalOptions { keyframe_interval: 1, blend_frames: 0 });
    assert_eq!(c.finish_keyframe(empty.clone(), empty.clone(), None), Err(EngineError::InvalidInput));
    assert_eq!(c.state.frame_index, 0);
}

#[test]
fn one_colour_image_survives_any_warp() {
    let img = solid(6, 4, Pixel { r: 3, g: 140, b: 250, a: 255 });
    let wx: Vec<i64> = (0..24).map(|i| (i * 97 % 1500) as i64 - 200).collect();
    let wy: Vec<i64> = (0..24).map(|i| (i * 61 % 900) as i64 - 100).collect();
    assert_eq!(apply_warp(&img, &wx, &wy).unwrap(), img);
    let flow = FlowField { width: 6, height: 4, data: (0..48).map(|i| (i * 37 % 300) - 150).collect() };
    assert_eq!(warp_image(&img, &flow).unwrap(), img);
}

#[test]
fn whole_tiles_are_permuted_when_blocks_divide() {
    let img = gradient(8, 6);
    let opts = BlockOptions { block_size: (4, 3), interpolate_edges: false, padding_mode: PaddingMode::Zero };
    for seed in 0..10u64 {
        let out = BlockScrambler::new(opts, seed).scramble(&img).unwrap();
        let mut a: Vec<(u8, u8, u8, u8)> = img.pixels.iter().map(|p| (p.r, p.g, p.b, p.a)).collect();
        let mut b: Vec<(u8, u8, u8, u8)> = out.pixels.iter().map(|p| (p.r, p.g, p.b, p.a)).collect();
        a.sort();
        b.sort();
        assert_eq!(a, b);
    }
}
