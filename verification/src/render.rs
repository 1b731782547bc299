//! The renderer's pair budget: how many (tile, chunk) pairs tile selection may emit for
//! a frame, and whether a frame asked for more than that; and the coarse occupancy grid
//! round the camera that chunks are entered into.

use vstd::prelude::*;

verus! {

/// Screen tiles are this many pixels on a side.
pub const TILE: u32 = 8;
pub const MAX_CHUNKS: usize = 8191;
/// The floor of the pair buffer.
pub const MAX_PAIRS: u32 = 0x10_0000;
pub const PAIRS_PER_TILE: u64 = 16;
pub const TILE_ID_BITS: u32 = 19;
pub const MAX_TILES: u32 = 0x8_0000;
pub const MARCH_MAX_ITERS: u32 = 512;
/// The phrase the renderer prints when tile selection overflowed the pair buffer.
pub const TRUNCATION_MARK: &'static str = "pair list truncated";
pub const OVERSIZE_MARK: &'static str = "tile index overflows the pair word";

/// Bits of the pipeline word the shaders branch on.
pub const FLAG_HIZ: u32 = 1;
pub const FLAG_HEATMAP: u32 = 2;
pub const FLAG_SHADOWS: u32 = 4;
pub const FLAG_AO: u32 = 8;
pub const FLAG_WATER_REFLECT: u32 = 16;
pub const FLAG_WATER_REFRACT: u32 = 32;
pub const FLAG_UNDERWATER: u32 = 64;
pub const FLAG_TINT: u32 = 128;
pub const FLAG_FOLIAGE: u32 = 256;
pub const FLAG_WAVES: u32 = 512;
pub const FLAG_WAVE_ANISO: u32 = 1024;
pub const FLAG_WAVE_SHOAL: u32 = 2048;
pub const FLAG_WAVE_FILL: u32 = 4096;
pub const FLAG_TERRAIN_SHAFTS: u32 = 8192;
pub const FLAG_TEX_VARIATION: u32 = 16384;
pub const FLAG_DISTANT_SHADOWS: u32 = 32768;
pub const FLAG_LEAF_CUTOUT: u32 = 65536;
pub const FLAG_GLASS: u32 = 131072;
pub const FLAG_WATER_SHADOW_CUT: u32 = 262144;
pub const FLAG_LEAF_THIN: u32 = 524288;
pub const FLAG_FLAT_SECONDARY: u32 = 1048576;
pub const FLAG_WATER_FAR: u32 = 2097152;
pub const FLAG_WATER_DARK: u32 = 4194304;
pub const FLAG_SNELL: u32 = 8388608;
pub const FLAG_PROBE_TAP: u32 = 16777216;
pub const FLAG_PROBE_AMBIENT: u32 = 33554432;
pub const FLAG_PROBE_CUBE: u32 = 67108864;
pub const FLAG_PROBE_BOUNCE: u32 = 134217728;
pub const FLAG_LIGHT_RGB: u32 = 268435456;
pub const FLAG_PROBE_SUN: u32 = 536870912;
pub const FLAG_PROBE_SUN_HIGH: u32 = 1073741824;
pub const FLAG_SKY_TINT: u32 = 2147483648;

/// Bits of the second pipeline word.
pub const FLAG_HI_SKY_SPECULAR: u32 = 1;
pub const FLAG_HI_FULL_MARCH: u32 = 2;
pub const FLAG_HI_EMITTER_WORLD: u32 = 4;
pub const FLAG_HI_SHORE_WET: u32 = 8;
pub const FLAG_HI_SHORE_FOAM: u32 = 16;
pub const FLAG_HI_WATER_SEC: u32 = 32;
pub const FLAG_HI_CAUSTICS: u32 = 64;
pub const FLAG_HI_GLASS_REFLECT: u32 = 128;
pub const FLAG_HI_SNELL_BEND: u32 = 256;
pub const FLAG_HI_TINT_BALANCE: u32 = 512;
pub const FLAG_HI_SKY_LOOK: u32 = 1024;
pub const FLAG_HI_SKY_COOL: u32 = 2048;
pub const FLAG_HI_WATER_LOOK: u32 = 4096;
pub const FLAG_HI_FOLIAGE_RICH: u32 = 8192;
pub const FLAG_HI_CANOPY_RELIEF: u32 = 16384;
pub const FLAG_HI_WIND_SWAY: u32 = 32768;
pub const FLAG_HI_SOFT_SHADOWS: u32 = 65536;
pub const FLAG_HI_COMPACT_SHADE_HIT: u32 = 131072;
pub const FLAG_HI_ISOLATE_GLASS: u32 = 262144;
pub const FLAG_HI_SHADOW_PASS: u32 = 524288;
pub const FLAG_HI_LEGACY_LIGHTING: u32 = 1048576;
pub const FLAG_HI_LEGACY_WATER: u32 = 2097152;
pub const FLAG_HI_SOFT_HQ: u32 = 4194304;
pub const FLAG_HI_DEBUG_A: u32 = 8388608;
pub const FLAG_HI_DEBUG_B: u32 = 16777216;
pub const FLAG_HI_DEBUG_C: u32 = 33554432;
pub const FLAG_HI_SUN_NARROW: u32 = 67108864;
pub const FLAG_HI_SUN_WIDE: u32 = 134217728;

/// The pair buffer for a grid of `tiles`: sixteen pairs a tile, never below
/// [`MAX_PAIRS`], never above half the `u32` range.
pub open spec fn pairs_spec(tx: u32, ty: u32) -> u32 {
    let want = tx * ty * PAIRS_PER_TILE;
    let lo = if want >= MAX_PAIRS { want } else { MAX_PAIRS as int };
    (if lo <= u32::MAX / 2 { lo } else { (u32::MAX / 2) as int }) as u32
}

pub fn pairs_for(tiles: (u32, u32)) -> (n: u32)
    requires
        tiles.0 * tiles.1 * PAIRS_PER_TILE <= u64::MAX,
    ensures
        n == pairs_spec(tiles.0, tiles.1),
{
    assert(tiles.0 * tiles.1 <= u64::MAX) by (nonlinear_arith)
        requires
            tiles.0 * tiles.1 * 16 <= u64::MAX,
    ;
    let want = (tiles.0 as u64) * (tiles.1 as u64) * PAIRS_PER_TILE;
    let lo = if want >= MAX_PAIRS as u64 { want } else { MAX_PAIRS as u64 };
    let hi = (u32::MAX as u64) / 2;
    (if lo <= hi { lo } else { hi }) as u32
}

/// Screen tiles along one axis of `n` pixels: a part tile counts.
pub open spec fn tiles_along(n: u32) -> u32 {
    ((n as int + TILE - 1) / (TILE as int)) as u32
}

/// The tile grid of a `size` frame.
pub fn tile_grid(size: (u32, u32)) -> (t: (u32, u32))
    ensures
        t == (tiles_along(size.0), tiles_along(size.1)),
{
    (size.0 / TILE + if size.0 % TILE != 0 { 1 } else { 0 }, size.1 / TILE + if size.1 % TILE != 0 {
        1
    } else {
        0
    })
}

/// Whether a tile grid has more tiles than the pair word's tile field can index.
pub fn tile_field_overflows(tiles: (u32, u32)) -> (b: bool)
    ensures
        b == (tiles.0 * tiles.1 > MAX_TILES),
{
    assert((tiles.0 as u64) * (tiles.1 as u64) <= u64::MAX) by (nonlinear_arith)
        requires
            tiles.0 <= u32::MAX,
            tiles.1 <= u32::MAX,
    ;
    (tiles.0 as u64) * (tiles.1 as u64) > MAX_TILES as u64
}

/// Every tile grid of a frame can be sized for pairs: its pair demand fits the count.
pub proof fn law_tile_grids_can_be_sized(size: (u32, u32))
    ensures
        tiles_along(size.0) * tiles_along(size.1) * PAIRS_PER_TILE <= u64::MAX,
{
    let a = tiles_along(size.0);
    let b = tiles_along(size.1);
    assert(a <= 0x2000_0000 && b <= 0x2000_0000);
    assert(a * b * 16 <= 0x2000_0000 * 0x2000_0000 * 16) by (nonlinear_arith)
        requires
            a <= 0x2000_0000,
            b <= 0x2000_0000,
    ;
}

/// What the three pair-emitting passes asked for in one frame, against the buffer.
#[derive(Clone, Copy, Debug)]
pub struct PairDemand {
    pub select: u32,
    pub deferred: u32,
    pub recover: u32,
    pub cap: u32,
}

impl PairDemand {
    pub fn overflowed(&self) -> (b: bool)
        ensures
            b == (self.select > self.cap || self.deferred > self.cap || self.recover > self.cap),
    {
        self.select > self.cap || self.deferred > self.cap || self.recover > self.cap
    }

    pub open spec fn worst_spec(&self) -> u32 {
        let m = if self.select >= self.deferred { self.select } else { self.deferred };
        if m >= self.recover { m } else { self.recover }
    }

    pub fn worst(&self) -> (w: u32)
        ensures
            w == self.worst_spec(),
    {
        let m = if self.select >= self.deferred { self.select } else { self.deferred };
        if m >= self.recover { m } else { self.recover }
    }
}

/// A frame overflowed exactly when its worst pass asked for more than the buffer holds.
pub proof fn law_overflow_is_worst_over_cap(d: PairDemand)
    ensures
        (d.select > d.cap || d.deferred > d.cap || d.recover > d.cap) <==> d.worst_spec() > d.cap,
{
}

// ------------------------------------------------------------------ the occupancy grid

/// The coarse grid round the camera, in finest chunks along x, y and z.
pub const GRID_X: u32 = 32;
pub const GRID_Y: u32 = 8;
pub const GRID_Z: u32 = 32;

/// The finest chunks a chunk of level `lod` spans along one side.
pub open spec fn chunk_span(lod: u8) -> int {
    vstd::arithmetic::power2::pow2(lod as nat) as int
}

/// Along one axis: the cells `lo..hi` of a grid `n` cells long that a chunk at `p`, spanning
/// `span` cells, covers once the grid starts at `g`.
pub open spec fn axis_span(p: int, span: int, g: int, n: int) -> (int, int) {
    let base = p * span - g;
    (if base > 0 { base } else { 0 }, if base + span < n { base + span } else { n })
}

/// Whether the chunk at `p` of level `lod` can be placed along an axis without leaving `i32`.
pub open spec fn axis_fits(p: i32, lod: u8, g: i32) -> bool {
    &&& i32::MIN <= p * chunk_span(lod) <= i32::MAX
    &&& i32::MIN <= p * chunk_span(lod) - g
    &&& p * chunk_span(lod) - g + chunk_span(lod) <= i32::MAX
}

fn axis_cells(p: i32, span: i32, g: i32, n: i32) -> (r: (i32, i32))
    requires
        span > 0,
        i32::MIN <= p * span <= i32::MAX,
        i32::MIN <= p * span - g,
        p * span - g + span <= i32::MAX,
    ensures
        r.0 == axis_span(p as int, span as int, g as int, n as int).0,
        r.1 == axis_span(p as int, span as int, g as int, n as int).1,
{
    let base = p * span - g;
    let lo = if base > 0 { base } else { 0 };
    let hi = if base + span < n { base + span } else { n };
    (lo, hi)
}

/// The grid cells `lo..hi` (x, y, z) that the chunk at `pos` of level `lod` covers, with the
/// grid starting at `gmin`; `None` when it misses the grid.
pub fn grid_span(pos: (i32, i32, i32), lod: u8, gmin: (i32, i32, i32)) -> (r: Option<
    ((i32, i32, i32), (i32, i32, i32)),
>)
    requires
        lod < 31,
        axis_fits(pos.0, lod, gmin.0),
        axis_fits(pos.1, lod, gmin.1),
        axis_fits(pos.2, lod, gmin.2),
    ensures
        ({
            let span = chunk_span(lod);
            let x = axis_span(pos.0 as int, span, gmin.0 as int, GRID_X as int);
            let y = axis_span(pos.1 as int, span, gmin.1 as int, GRID_Y as int);
            let z = axis_span(pos.2 as int, span, gmin.2 as int, GRID_Z as int);
            match r {
                Some((lo, hi)) => x.0 < x.1 && y.0 < y.1 && z.0 < z.1 && lo.0 == x.0 && hi.0 == x.1
                    && lo.1 == y.0 && hi.1 == y.1 && lo.2 == z.0 && hi.2 == z.1,
                None => !(x.0 < x.1 && y.0 < y.1 && z.0 < z.1),
            }
        }),
{
    let mut span: i32 = 1;
    let mut i: u8 = 0;
    proof {
        vstd::arithmetic::power2::lemma_pow2(0);
        vstd::arithmetic::power::lemma_pow0(2);
    }
    while i < lod
        invariant
            i <= lod < 31,
            span as int == vstd::arithmetic::power2::pow2(i as nat),
        decreases lod - i,
    {
        proof {
            vstd::arithmetic::power2::lemma_pow2_unfold((i + 1) as nat);
            vstd::arithmetic::power2::lemma_pow2_strictly_increases((i + 1) as nat, 31);
            vstd::arithmetic::power2::lemma2_to64();
        }
        span = span * 2;
        i += 1;
    }
    proof {
        vstd::arithmetic::power2::lemma_pow2_pos(lod as nat);
    }
    let x = axis_cells(pos.0, span, gmin.0, 32);
    let y = axis_cells(pos.1, span, gmin.1, 8);
    let z = axis_cells(pos.2, span, gmin.2, 32);
    if x.0 < x.1 && y.0 < y.1 && z.0 < z.1 {
        Some(((x.0, y.0, z.0), (x.1, y.1, z.1)))
    } else {
        None
    }
}

} // verus!
