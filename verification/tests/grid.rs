use voxelcraft::lod::histogram;
use voxelcraft::render::grid_span;

#[test]
fn a_finest_chunk_covers_one_cell() {
    assert_eq!(grid_span((0, 0, 0), 0, (0, 0, 0)), Some(((0, 0, 0), (1, 1, 1))));
    assert_eq!(grid_span((5, 3, 9), 0, (2, 0, 4)), Some(((3, 3, 5), (4, 4, 6))));
}

#[test]
fn a_coarse_chunk_covers_its_span() {
    assert_eq!(grid_span((1, 0, 2), 2, (-2, 0, 0)), Some(((6, 0, 8), (10, 4, 12))));
}

#[test]
fn spans_are_clipped_to_the_grid() {
    assert_eq!(grid_span((7, 1, 0), 2, (0, 0, 0)), Some(((28, 4, 0), (32, 8, 4))));
    assert_eq!(grid_span((-1, 0, -1), 3, (-4, 0, -4)), Some(((0, 0, 0), (4, 8, 4))));
}

#[test]
fn chunks_off_the_grid_have_no_span() {
    assert_eq!(grid_span((-1, 0, 0), 0, (0, 0, 0)), None);
    assert_eq!(grid_span((0, 2, 0), 2, (0, 0, 0)), None);
    assert_eq!(grid_span((8, 0, 0), 2, (0, 0, 0)), None);
}

#[test]
fn histogram_counts_each_level() {
    assert_eq!(histogram(&vec![0, 2, 2, 1, 2], 3), vec![1, 1, 3, 0]);
    assert_eq!(histogram(&vec![], 2), vec![0, 0, 0]);
    let h = histogram(&vec![4, 4, 0, 1], 4);
    assert_eq!(h.iter().sum::<usize>(), 4);
}
