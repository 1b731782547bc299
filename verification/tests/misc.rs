use voxelcraft::harness::vantage::{Content, STD_HEIGHT, STD_WIDTH};
use voxelcraft::harness::Recipe;
use voxelcraft::idle::{FrameKind, IdleRepaint};
use voxelcraft::lod::Residency;
use voxelcraft::render::{pairs_for, tile_field_overflows, tile_grid, PairDemand, MAX_PAIRS};
use voxelcraft::scene::on;
use voxelcraft::settings::Grade;
use voxelcraft::text::{decimal_string, hex_digit, push_decimal};
use voxelcraft::voxel::{cell_bit, dense_index, VOL};

#[test]
fn grade_index_and_label() {
    assert_eq!(Grade::Natural.index(), 0);
    assert_eq!(Grade::Warm.index(), 1);
    assert_eq!(Grade::Cine.index(), 2);
    assert_eq!(Grade::Natural.label(), "Natural");
    assert_eq!(Grade::Warm.label(), "Warm");
    assert_eq!(Grade::Cine.label(), "Cinema");
}

#[test]
fn grade_steps_round_the_three() {
    assert_eq!(Grade::Natural.step(1), Grade::Warm);
    assert_eq!(Grade::Cine.step(1), Grade::Natural);
    assert_eq!(Grade::Natural.step(-1), Grade::Cine);
    assert_eq!(Grade::Warm.step(-4), Grade::Natural);
    assert_eq!(Grade::Warm.step(3), Grade::Warm);
    assert_eq!(Grade::Warm.step(5).step(-5), Grade::Warm);
}

#[test]
fn pairs_for_has_a_floor_and_a_ceiling() {
    assert_eq!(pairs_for((160, 90)), MAX_PAIRS);
    assert_eq!(pairs_for((480, 270)), 480 * 270 * 16);
    assert_eq!(pairs_for((0, 0)), MAX_PAIRS);
    assert_eq!(pairs_for((100_000, 100_000)), u32::MAX / 2);
}

#[test]
fn pair_demand_overflow_is_the_worst_pass() {
    let d = PairDemand { select: 10, deferred: 30, recover: 20, cap: 25 };
    assert!(d.overflowed());
    assert_eq!(d.worst(), 30);
    let d = PairDemand { select: 10, deferred: 25, recover: 20, cap: 25 };
    assert!(!d.overflowed());
    assert_eq!(d.worst(), 25);
}

#[test]
fn text_digits() {
    assert_eq!(hex_digit(0), "0");
    assert_eq!(hex_digit(11), "b");
    assert_eq!(hex_digit(15), "f");
    assert_eq!(decimal_string(0), "0");
    assert_eq!(decimal_string(1280), "1280");
    assert_eq!(decimal_string(u64::MAX), "18446744073709551615");
    let mut s = String::from("w=");
    push_decimal(&mut s, 720);
    assert_eq!(s, "w=720");
}

#[test]
fn voxel_addressing() {
    assert_eq!(dense_index(0, 0, 0), 0);
    assert_eq!(dense_index(1, 0, 0), 1);
    assert_eq!(dense_index(0, 0, 1), 64);
    assert_eq!(dense_index(0, 1, 0), 4096);
    assert_eq!(dense_index(63, 63, 63), VOL - 1);
    assert_eq!(cell_bit(1, 2, 3), 1 + 8 + 48);
    assert_eq!(cell_bit(3, 3, 3), 63);
}

#[test]
fn residency() {
    assert!(!Residency::Absent.is_resident());
    assert!(Residency::Empty.is_resident());
    assert!(Residency::Solid.is_resident());
}

#[test]
fn switches_print_on_and_off() {
    assert_eq!(on(true), "on");
    assert_eq!(on(false), "off");
}

#[test]
fn content_labels() {
    assert_eq!(Content::Water.label(), "water");
    assert_eq!(Content::Land.label(), "land");
    assert_eq!(Content::Sky.label(), "sky");
    assert_eq!(Content::Mixed.label(), "mixed");
}

#[test]
fn recipe_args() {
    let r = Recipe::default();
    assert_eq!((r.width, r.height, r.taa), (STD_WIDTH, STD_HEIGHT, false));
    assert_eq!(r.args(), vec!["--width", "1280", "--height", "720", "--no-taa"]);
    let r = Recipe { width: 640, height: 360, taa: true };
    assert_eq!(r.args(), vec!["--width", "640", "--height", "360"]);
}

#[test]
fn idle_first_frame_renders_then_still_frames_repaint() {
    let mut d = IdleRepaint::new();
    assert_eq!(d.classify(false, false, 7), FrameKind::Render);
    assert_eq!(d.classify(true, false, 7), FrameKind::Repaint);
    assert_eq!(d.classify(true, false, 7), FrameKind::Repaint);
    assert_eq!(d.repaints, 2);
    assert_eq!(d.classify(true, false, 8), FrameKind::Render);
    assert_eq!(d.classify(false, false, 8), FrameKind::Render);
    d.invalidate();
    assert_eq!(d.classify(true, false, 8), FrameKind::Render);
}

#[test]
fn idle_live_fields_render_every_second_frame() {
    let mut d = IdleRepaint::new();
    assert_eq!(d.classify(true, true, 0), FrameKind::Render);
    assert_eq!(d.classify(true, true, 0), FrameKind::Repaint);
    assert_eq!(d.classify(true, true, 0), FrameKind::Render);
    assert_eq!(d.classify(true, true, 0), FrameKind::Repaint);
    assert_eq!(d.last_sun, Some(0));
}

#[test]
fn tile_grid_counts_part_tiles() {
    assert_eq!(tile_grid((1280, 720)), (160, 90));
    assert_eq!(tile_grid((1281, 721)), (161, 91));
    assert_eq!(tile_grid((0, 7)), (0, 1));
    assert_eq!(tile_grid((u32::MAX, 8)), (0x2000_0000, 1));
}

#[test]
fn tile_field_overflow() {
    assert!(!tile_field_overflows((1024, 512)));
    assert!(tile_field_overflows((1024, 513)));
    assert!(tile_field_overflows((u32::MAX, u32::MAX)));
    assert!(!tile_field_overflows(tile_grid((3840, 2160))));
}

#[test]
fn a_full_repaint_counter_still_renders_a_changed_frame() {
    let mut r = IdleRepaint { last_sun: Some(3), repaints: u32::MAX };
    assert_eq!(r.classify(false, true, 3), FrameKind::Render);
    assert_eq!(r.repaints, 0);
    let mut r = IdleRepaint { last_sun: Some(3), repaints: u32::MAX };
    assert_eq!(r.classify(true, false, 4), FrameKind::Render);
    assert_eq!(r.last_sun, Some(4));
}
