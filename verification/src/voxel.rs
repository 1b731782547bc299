//! Chunk-local voxel addressing: a chunk is 64^3 voxels stored x-fastest, then z, then y,
//! and split into 4^3 bricks for the light pool.

use vstd::prelude::*;

verus! {

/// Voxels in one chunk.
pub const VOL: usize = 262144;

/// Dense index of the voxel at chunk-local `(x, y, z)`: x in bits 0..6, z in 6..12, y above.
pub open spec fn dense_index_spec(x: int, y: int, z: int) -> int {
    x + z * 64 + y * 4096
}

/// The chunk-local coordinates of a dense index.
pub open spec fn x_of(i: int) -> int {
    i % 64
}

pub open spec fn z_of(i: int) -> int {
    (i / 64) % 64
}

pub open spec fn y_of(i: int) -> int {
    i / 4096
}

pub fn dense_index(x: usize, y: usize, z: usize) -> (i: usize)
    requires
        x < 64,
        y < 64,
        z < 64,
    ensures
        i == dense_index_spec(x as int, y as int, z as int),
        i < VOL,
{
    x + z * 64 + y * 4096
}

/// A dense index and its coordinates name the same voxel.
pub proof fn lemma_coords(i: int)
    requires
        0 <= i < VOL,
    ensures
        0 <= x_of(i) < 64,
        0 <= y_of(i) < 64,
        0 <= z_of(i) < 64,
        dense_index_spec(x_of(i), y_of(i), z_of(i)) == i,
{
}

/// Coordinates survive a round trip through the dense index.
pub proof fn lemma_index_coords(x: int, y: int, z: int)
    requires
        0 <= x < 64,
        0 <= y < 64,
        0 <= z < 64,
    ensures
        x_of(dense_index_spec(x, y, z)) == x,
        y_of(dense_index_spec(x, y, z)) == y,
        z_of(dense_index_spec(x, y, z)) == z,
        0 <= dense_index_spec(x, y, z) < VOL,
{
}

/// Bit position of a voxel inside its 4^3 brick: x fastest, then y, then z.
pub open spec fn cell_bit_spec(vx: int, vy: int, vz: int) -> int {
    vx + vy * 4 + vz * 16
}

pub fn cell_bit(vx: u32, vy: u32, vz: u32) -> (b: u32)
    requires
        vx < 4,
        vy < 4,
        vz < 4,
    ensures
        b == cell_bit_spec(vx as int, vy as int, vz as int),
        b < 64,
{
    vx + vy * 4 + vz * 16
}

} // verus!
