use voxelcraft::edits::{chunk_of_block, chunk_of_key, key_of_chunk, local_index, save_bytes, Edits};
use voxelcraft::journal::decode;
use voxelcraft::voxel::{dense_index, VOL};

#[test]
fn blocks_fall_in_the_chunk_below_them() {
    assert_eq!(chunk_of_block((0, 0, 0)), (0, 0, 0));
    assert_eq!(chunk_of_block((63, 64, -1)), (0, 1, -1));
    assert_eq!(chunk_of_block((-64, -65, 130)), (-1, -2, 2));
    assert_eq!(local_index((-1, 65, 2)), dense_index(63, 1, 2) as u32);
}

#[test]
fn chunk_keys_round_trip() {
    for c in [(0, 0, 0), (-1, 2, -3), (i32::MIN, i32::MAX, 7)] {
        assert_eq!(chunk_of_key(key_of_chunk(c)), c);
    }
}

#[test]
fn a_later_edit_replaces_an_earlier_one() {
    let mut e = Edits::new();
    e.record((1, 2, 3), 5);
    e.record((1, 2, 3), 7);
    e.record((70, 2, 3), 9);
    assert_eq!(e.chunks(), 2);
    let mut all = e.entries();
    all.sort();
    assert_eq!(all, vec![((0, 0, 0), dense_index(1, 2, 3) as u32, 7), ((1, 0, 0), dense_index(6, 2, 3) as u32, 9)]);
}

#[test]
fn apply_writes_only_its_chunks_edits() {
    let mut e = Edits::new();
    e.record((1, 2, 3), 5);
    e.record((-1, 0, 0), 6);
    let mut dense = vec![1u16; VOL];
    assert_eq!(e.apply((0, 0, 0), &mut dense), 1);
    assert_eq!(dense[dense_index(1, 2, 3)], 5);
    assert_eq!(dense.iter().filter(|&&b| b != 1).count(), 1);
    let mut other = vec![0u16; VOL];
    assert_eq!(e.apply((3, 0, 0), &mut other), 0);
    assert!(other.iter().all(|&b| b == 0));
}

#[test]
fn saved_records_load_back() {
    let mut e = Edits::new();
    e.record((1, 2, 3), 5);
    e.record((-70, 200, 9), 6);
    e.record((1, 2, 3), 8);
    let recs = e.records();
    assert_eq!(recs.len(), 2);
    let back = Edits::from_records(&recs);
    let (mut a, mut b) = (e.entries(), back.entries());
    a.sort();
    b.sort();
    assert_eq!(a, b);
    let mut r: Vec<(i32, i32, i32, u16)> = recs.iter().map(|r| (r.x, r.y, r.z, r.id)).collect();
    r.sort();
    assert_eq!(r, vec![(-70, 200, 9, 6), (1, 2, 3, 8)]);
}

#[test]
fn a_saved_session_reads_back_in_journal_order() {
    let mut e = Edits::new();
    e.record((5, 1, 0), 3);
    e.record((-2, 7, 4), 9);
    e.record((5, 0, 0), 4);
    e.record((5, 1, -3), 2);
    let bytes = save_bytes(e.records(), 11, 64, None, None).unwrap();
    let j = decode(&bytes, 11, 64).unwrap();
    assert_eq!(j.player, None);
    assert_eq!(j.bar, None);
    assert_eq!((j.recovered, j.torn), (0, 0));
    let order: Vec<(i32, i32, i32, u16)> = j.records.iter().map(|r| (r.x, r.y, r.z, r.id)).collect();
    assert_eq!(order, vec![(-2, 7, 4, 9), (5, 1, -3, 2), (5, 0, 0, 4), (5, 1, 0, 3)]);
    let back = Edits::from_records(&j.records);
    let (mut a, mut b) = (e.entries(), back.entries());
    a.sort();
    b.sort();
    assert_eq!(a, b);
}
