use voxelcraft::pools::{grow_cap, upload_ranges, MIN_CAP};

#[test]
fn grow_cap_doubles_until_it_fits() {
    assert_eq!(grow_cap(MIN_CAP, 10), MIN_CAP);
    assert_eq!(grow_cap(MIN_CAP, MIN_CAP), MIN_CAP);
    assert_eq!(grow_cap(MIN_CAP, 3_000_000), 4 * MIN_CAP);
    assert_eq!(grow_cap(256, 257), 512);
}

#[test]
fn upload_ranges_merges_close_runs_and_sorts() {
    let mut dirty = vec![(10u32, 2u32), (0, 1), (2000, 1)];
    let w = upload_ranges(&mut dirty, 4, 100_000);
    assert!(dirty.is_empty());
    assert_eq!(w, Some(vec![(0, 48), (8000, 8004)]));
}

#[test]
fn upload_ranges_clips_to_the_pool() {
    let mut dirty = vec![(2000u32, 1u32), (5000, 4)];
    let w = upload_ranges(&mut dirty, 4, 8002);
    assert_eq!(w, Some(vec![(8000, 8002)]));
}

#[test]
fn upload_ranges_aligns_to_four_bytes() {
    let mut dirty = vec![(1u32, 1u32)];
    assert_eq!(upload_ranges(&mut dirty, 3, 1000), Some(vec![(0, 8)]));
}

#[test]
fn upload_ranges_gives_up_on_too_many_runs() {
    let mut dirty: Vec<(u32, u32)> = (0..600u32).map(|i| (i * 10_000, 1)).collect();
    assert_eq!(upload_ranges(&mut dirty, 4, u32::MAX as u64), None);
    assert!(dirty.is_empty());
    let mut dirty: Vec<(u32, u32)> = (0..512u32).map(|i| (i * 10_000, 1)).collect();
    let w = upload_ranges(&mut dirty, 4, u32::MAX as u64).unwrap();
    assert_eq!(w.len(), 512);
    assert_eq!(w[1], (40_000, 40_004));
}

#[test]
fn upload_ranges_of_nothing_writes_nothing() {
    let mut dirty: Vec<(u32, u32)> = Vec::new();
    assert_eq!(upload_ranges(&mut dirty, 4, 64), Some(vec![]));
}

#[test]
fn upload_ranges_takes_wide_elements() {
    let elem: u64 = 1 << 40;
    let mut dirty = vec![(2, 1), (0, 1)];
    let w = upload_ranges(&mut dirty, elem, u64::MAX - 3).unwrap();
    assert_eq!(w, vec![(0, elem), (2 * elem, 3 * elem)]);
}
