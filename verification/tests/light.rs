use voxelcraft::block::{AIR, GLOWSTONE, STONE, WATER};
use voxelcraft::light::{
    block_level, block_of, compute, open_columns, pack, relight, sky_of, LightData, UNIFORM_BIT,
};
use voxelcraft::voxel::{dense_index, VOL};

/// The packed cell of voxel `(x, y, z)`, read back out of the brick layout.
fn cell(d: &LightData, x: usize, y: usize, z: usize) -> u16 {
    if let Some(u) = d.uniform {
        return u;
    }
    let ci = x / 4 + (y / 4) * 16 + (z / 4) * 256;
    let e = d.cells[ci];
    if e & UNIFORM_BIT != 0 {
        return (e & 0xFFFF) as u16;
    }
    let bit = x % 4 + (y % 4) * 4 + (z % 4) * 16;
    let w = d.bricks[e as usize][bit / 2];
    if bit % 2 == 0 {
        (w & 0xFFFF) as u16
    } else {
        (w >> 16) as u16
    }
}

#[test]
fn pack_places_each_nibble() {
    assert_eq!(pack(15, [0, 0, 0]), 0xF000);
    assert_eq!(pack(3, [10, 11, 12]), 0x3ABC);
    assert_eq!(pack(0, [0x1F, 0x2E, 0x3D]), 0x0FED);
}

#[test]
fn unpack_reads_each_nibble() {
    assert_eq!(sky_of(0x3ABC), 3);
    assert_eq!(block_of(0x3ABC), [10, 11, 12]);
    assert_eq!(block_level(0x3ABC), 12);
    assert_eq!(block_level(0x0F21), 15);
    assert_eq!(block_level(0xF000), 0);
}

#[test]
fn pack_roundtrip_on_values() {
    for sky in 0..16u8 {
        let b = pack(sky, [7, 0, 15]);
        assert_eq!(sky_of(b), sky);
        assert_eq!(block_of(b), [7, 0, 15]);
    }
}

#[test]
fn open_columns_compares_heights() {
    let mut h = [0i32; 4096];
    h[0] = 64;
    h[1] = 65;
    h[4095] = -100;
    let v = open_columns(&h, 64);
    assert_eq!(v.len(), 4096);
    assert!(v[0]);
    assert!(!v[1]);
    assert!(v[4095]);
}

#[test]
fn compute_open_air_chunk_is_uniform_full_sky() {
    let dense = vec![AIR; VOL];
    let open = vec![true; 4096];
    let d = compute(&dense, &open);
    assert_eq!(d.uniform, Some(0xF000));
    assert!(d.cells.is_empty() && d.bricks.is_empty());
}

#[test]
fn compute_buried_dark_chunk_is_uniform_dark() {
    let dense = vec![STONE; VOL];
    let open = vec![false; 4096];
    let d = compute(&dense, &open);
    assert_eq!(d.uniform, Some(0));
    assert!(d.cells.is_empty() && d.bricks.is_empty());
}

#[test]
fn compute_floods_a_lamp_one_level_a_step() {
    let mut dense = vec![AIR; VOL];
    dense[dense_index(10, 10, 10)] = GLOWSTONE;
    let open = vec![false; 4096];
    let d = compute(&dense, &open);
    assert_eq!(d.uniform, None);
    assert_eq!(d.cells.len(), 4096);
    assert_eq!(cell(&d, 10, 10, 10), pack(0, [15, 13, 9]));
    assert_eq!(cell(&d, 11, 10, 10), pack(0, [14, 12, 8]));
    assert_eq!(cell(&d, 10, 13, 10), pack(0, [12, 10, 6]));
    assert_eq!(cell(&d, 12, 11, 10), pack(0, [12, 10, 6]));
    assert_eq!(cell(&d, 40, 10, 10), 0);
}

#[test]
fn compute_pours_sky_down_an_open_column() {
    let dense = vec![AIR; VOL];
    let mut open = vec![false; 4096];
    open[5 + 5 * 64] = true;
    let d = compute(&dense, &open);
    assert_eq!(cell(&d, 5, 0, 5), pack(15, [0, 0, 0]));
    assert_eq!(cell(&d, 5, 63, 5), pack(15, [0, 0, 0]));
    assert_eq!(cell(&d, 6, 0, 5), pack(14, [0, 0, 0]));
    assert_eq!(cell(&d, 5, 30, 8), pack(12, [0, 0, 0]));
}

#[test]
fn compute_stone_roof_shades_the_column() {
    let mut dense = vec![AIR; VOL];
    dense[dense_index(5, 40, 5)] = STONE;
    dense[dense_index(5, 50, 5)] = WATER;
    let mut open = vec![false; 4096];
    open[5 + 5 * 64] = true;
    let d = compute(&dense, &open);
    assert_eq!(cell(&d, 5, 60, 5), pack(15, [0, 0, 0]));
    assert_eq!(cell(&d, 5, 45, 5), pack(14, [0, 0, 0]));
    assert_eq!(cell(&d, 5, 40, 5), 0);
}

#[test]
fn compute_sky_dims_a_level_per_block_of_water() {
    let mut dense = vec![AIR; VOL];
    for y in 60..63 {
        dense[dense_index(5, y, 5)] = WATER;
    }
    let mut open = vec![false; 4096];
    open[5 + 5 * 64] = true;
    let d = compute(&dense, &open);
    assert_eq!(sky_of(cell(&d, 5, 63, 5)), 15);
    assert_eq!(sky_of(cell(&d, 5, 62, 5)), 15);
    assert_eq!(sky_of(cell(&d, 5, 61, 5)), 14);
    assert_eq!(sky_of(cell(&d, 5, 59, 5)), 12);
    assert_eq!(sky_of(cell(&d, 5, 10, 5)), 12);
}

#[test]
fn compute_mixes_two_lamps_channel_by_channel() {
    let mut dense = vec![AIR; VOL];
    dense[dense_index(10, 10, 10)] = GLOWSTONE;
    dense[dense_index(14, 10, 10)] = 21;
    let open = vec![false; 4096];
    let d = compute(&dense, &open);
    let c = cell(&d, 12, 10, 10);
    assert_eq!(block_of(c), [13, 11, 13]);
    assert_eq!(block_level(c), 13);
    let c = cell(&d, 11, 10, 10);
    assert_eq!(block_of(c), [14, 12, 12]);
    assert_eq!(block_level(c), 14);
}

#[test]
fn relight_opens_columns_at_the_chunk_top() {
    let dense = vec![AIR; VOL];
    let low = [0i32; 4096];
    let d = relight(&dense, &low, 0);
    assert_eq!(d.uniform, Some(pack(15, [0, 0, 0])));
    let high = [1000i32; 4096];
    let d = relight(&dense, &high, 0);
    assert_eq!(d.uniform, Some(0));
}

#[test]
fn relight_is_compute_over_the_open_columns() {
    let mut dense = vec![AIR; VOL];
    for x in 0..64 {
        for z in 0..64 {
            dense[dense_index(x, 10, z)] = STONE;
        }
    }
    dense[dense_index(5, 3, 5)] = GLOWSTONE;
    let mut heights = [50i32; 4096];
    heights[7] = 200;
    let a = relight(&dense, &heights, 100);
    let b = compute(&dense, &open_columns(&heights, 164));
    assert_eq!(a.uniform, b.uniform);
    assert_eq!(a.cells, b.cells);
    assert_eq!(a.bricks, b.bricks);
    assert_eq!(block_level(cell(&a, 5, 3, 5)), 15);
    assert_eq!(block_level(cell(&a, 7, 3, 5)), 13);
}

#[test]
fn compute_settles_a_lattice_of_lamps() {
    let mut dense = vec![AIR; VOL];
    for x in (4..64).step_by(8) {
        for y in (4..64).step_by(8) {
            for z in (4..64).step_by(8) {
                dense[dense_index(x, y, z)] = GLOWSTONE;
            }
        }
    }
    let open = vec![false; 4096];
    let d = compute(&dense, &open);
    assert_eq!(d.uniform, None);
    assert_eq!(cell(&d, 4, 4, 4), pack(0, [15, 13, 9]));
    assert_eq!(cell(&d, 6, 4, 4), pack(0, [13, 11, 7]));
    assert_eq!(cell(&d, 8, 8, 8), pack(0, [3, 1, 0]));
    assert_eq!(cell(&d, 0, 0, 0), pack(0, [3, 1, 0]));
    assert_eq!(cell(&d, 63, 63, 63), pack(0, [6, 4, 0]));
    assert_eq!(block_level(cell(&d, 40, 41, 42)), 6);
    assert_eq!(block_level(cell(&d, 43, 43, 43)), 12);
}
