//! Sky and block light: a 15-level flood fill over one chunk, stored in 4^3 bricks with
//! uniform cells collapsed to a single half-word.
//!
//! A light cell is two bytes: sky in the top nibble, then block red, green and blue. Each
//! block channel is flooded independently, so a lamp's three channels decrement in
//! lockstep and `max(r, g, b)` is the scalar level a single-channel flood would hold.

use vstd::prelude::*;
use crate::block::{self, BlockId, AIR, WATER};
use crate::voxel::{self, VOL};

verus! {

pub const CELLS: usize = 4096;
/// A brick is 64 cells of two bytes, two cells to a word.
pub const BRICK_WORDS: usize = 32;
pub const MAX_LEVEL: u8 = 15;
/// Marks a cell-table entry as an inline uniform value rather than a brick index.
pub const UNIFORM_BIT: u32 = 0x8000_0000;

/// Packed light cell: sky in bits 12..16, then block red, green and blue a nibble each.
pub open spec fn pack_spec(sky: u8, blk: [u8; 3]) -> u16 {
    (((sky as u16) << 12u16) | (((blk[0] as u16) & 0xFu16) << 8u16) | (((blk[1] as u16)
        & 0xFu16) << 4u16) | ((blk[2] as u16) & 0xFu16)) as u16
}

pub open spec fn sky_spec(b: u16) -> u8 {
    (b >> 12u16) as u8
}

pub open spec fn block_spec(b: u16) -> [u8; 3] {
    [((b >> 8u16) & 0xFu16) as u8, ((b >> 4u16) & 0xFu16) as u8, (b & 0xFu16) as u8]
}

pub fn pack(sky: u8, blk: [u8; 3]) -> (b: u16)
    ensures
        b == pack_spec(sky, blk),
{
    ((sky as u16) << 12u16) | ((blk[0] as u16 & 0xF) << 8u16) | ((blk[1] as u16 & 0xF) << 4u16)
        | (blk[2] as u16 & 0xF)
}

pub fn sky_of(b: u16) -> (s: u8)
    ensures
        s == sky_spec(b),
        s <= MAX_LEVEL,
{
    assert((b >> 12u16) <= 15) by (bit_vector);
    (b >> 12u16) as u8
}

pub fn block_of(b: u16) -> (c: [u8; 3])
    ensures
        c == block_spec(b),
        c[0] <= MAX_LEVEL && c[1] <= MAX_LEVEL && c[2] <= MAX_LEVEL,
{
    assert(((b >> 8u16) & 0xFu16) <= 15 && ((b >> 4u16) & 0xFu16) <= 15 && (b & 0xFu16) <= 15)
        by (bit_vector);
    [((b >> 8u16) & 0xF) as u8, ((b >> 4u16) & 0xF) as u8, (b & 0xF) as u8]
}

pub open spec fn max3(a: u8, b: u8, c: u8) -> u8 {
    let m = if a >= b { a } else { b };
    if m >= c { m } else { c }
}

/// The scalar block level: the largest of the three channels.
pub fn block_level(b: u16) -> (l: u8)
    ensures
        l == max3(block_spec(b)[0], block_spec(b)[1], block_spec(b)[2]),
{
    let c = block_of(b);
    let m = if c[0] >= c[1] { c[0] } else { c[1] };
    if m >= c[2] { m } else { c[2] }
}

/// Unpacking a packed cell gives back its sky level and the low nibble of each channel.
pub proof fn law_pack_roundtrip(sky: u8, blk: [u8; 3])
    requires
        sky <= MAX_LEVEL,
    ensures
        sky_spec(pack_spec(sky, blk)) == sky,
        block_spec(pack_spec(sky, blk))[0] == blk[0] & 0xF,
        block_spec(pack_spec(sky, blk))[1] == blk[1] & 0xF,
        block_spec(pack_spec(sky, blk))[2] == blk[2] & 0xF,
{
    let (r, g, b) = (blk[0], blk[1], blk[2]);
    assert({
        let p = (((sky as u16) << 12u16) | (((r as u16) & 0xFu16) << 8u16) | (((g as u16)
            & 0xFu16) << 4u16) | ((b as u16) & 0xFu16)) as u16;
        &&& (p >> 12u16) as u8 == sky
        &&& ((p >> 8u16) & 0xFu16) as u8 == r & 0xF
        &&& ((p >> 4u16) & 0xFu16) as u8 == g & 0xF
        &&& (p & 0xFu16) as u8 == b & 0xF
    }) by (bit_vector)
        requires
            sky <= 15,
    ;
}

/// Which columns of a chunk see open sky, given the terrain height of each column above
/// it. `chunk_top` is the internal y of the voxel just above the chunk.
pub fn open_columns(heights: &[i32; 4096], chunk_top: i32) -> (v: Vec<bool>)
    ensures
        v@.len() == 4096,
        forall|j: int| 0 <= j < 4096 ==> v@[j] == (heights[j] <= chunk_top),
{
    let mut v: Vec<bool> = Vec::with_capacity(4096);
    let mut j: usize = 0;
    while j < 4096
        invariant
            j <= 4096,
            v@.len() == j,
            forall|k: int| 0 <= k < j ==> v@[k] == (heights[k] <= chunk_top),
        decreases 4096 - j,
    {
        v.push(heights[j] <= chunk_top);
        j += 1;
    }
    v
}


// ------------------------------------------------------------------ the flood fill

/// Whether the voxel at `n` stops the flood: sun shadow casters for the sky flood, opaque
/// blocks for block light. Water stops neither.
pub open spec fn blocked(dense: Seq<u16>, n: int, sunlight: bool) -> bool {
    if sunlight {
        block::shadows_sun(dense[n])
    } else {
        block::block_def(dense[n]).opaque
    }
}

/// The neighbour of voxel `i` in direction `d` (`-x +x -y +y -z +z`), if inside the chunk.
pub open spec fn nbr(i: int, d: int) -> Option<int> {
    if d == 0 {
        if voxel::x_of(i) > 0 { Some(i - 1) } else { None }
    } else if d == 1 {
        if voxel::x_of(i) < 63 { Some(i + 1) } else { None }
    } else if d == 2 {
        if voxel::y_of(i) > 0 { Some(i - 4096) } else { None }
    } else if d == 3 {
        if voxel::y_of(i) < 63 { Some(i + 4096) } else { None }
    } else if d == 4 {
        if voxel::z_of(i) > 0 { Some(i - 64) } else { None }
    } else {
        if voxel::z_of(i) < 63 { Some(i + 64) } else { None }
    }
}

/// A neighbour does not want a level one below `li`: it is absent, blocked, or has it.
pub open spec fn nb_ok(level: Seq<u8>, dense: Seq<u16>, sunlight: bool, li: int, nb: Option<int>) -> bool {
    match nb {
        Some(n) => blocked(dense, n, sunlight) || level[n] >= li - 1,
        None => true,
    }
}

/// Voxel `i` has nothing left to give: its level is at most 1, or every open neighbour
/// already holds at least one less.
pub open spec fn settled(level: Seq<u8>, dense: Seq<u16>, sunlight: bool, i: int) -> bool {
    let li = level[i] as int;
    li <= 1 || (nb_ok(level, dense, sunlight, li, nbr(i, 0)) && nb_ok(level, dense, sunlight, li, nbr(i, 1))
        && nb_ok(level, dense, sunlight, li, nbr(i, 2)) && nb_ok(level, dense, sunlight, li, nbr(i, 3))
        && nb_ok(level, dense, sunlight, li, nbr(i, 4)) && nb_ok(level, dense, sunlight, li, nbr(i, 5)))
}

/// Every voxel of the chunk is settled: no open neighbour is more than one level darker.
pub open spec fn is_fixpoint(level: Seq<u8>, dense: Seq<u16>, sunlight: bool) -> bool {
    forall|i: int| 0 <= i < VOL ==> #[trigger] settled(level, dense, sunlight, i)
}

pub open spec fn nb_level(level: Seq<u8>, nb: Option<int>) -> int {
    match nb {
        Some(n) => level[n] as int,
        None => 0,
    }
}

pub open spec fn max2(a: int, b: int) -> int {
    if a >= b { a } else { b }
}

/// The brightest neighbour of voxel `i`.
pub open spec fn max_nbr(level: Seq<u8>, i: int) -> int {
    max2(max2(max2(nb_level(level, nbr(i, 0)), nb_level(level, nbr(i, 1))), max2(nb_level(level, nbr(i, 2)),
        nb_level(level, nbr(i, 3)))), max2(nb_level(level, nbr(i, 4)), nb_level(level, nbr(i, 5))))
}

/// Voxel `i` holds its seed level, or is open and sits one step below a brighter neighbour:
/// the flood never invents light.
pub open spec fn supported(init: Seq<u8>, level: Seq<u8>, dense: Seq<u16>, sunlight: bool, i: int) -> bool {
    level[i] == init[i] || (!blocked(dense, i, sunlight) && level[i] + 1 <= max_nbr(level, i))
}

/// Voxel `i` is waiting in the work queue at or after position `head`.
pub open spec fn pending(q: Seq<u32>, head: int, i: int) -> bool {
    exists|k: int| head <= k < q.len() && q[k] == i
}

/// What the flood computes from seed levels `init`: never darker than the seed, never
/// above full level, and every raised voxel supported by a neighbour. A flood that ran to
/// the end of its work queue is also a fixpoint of the decrement-by-one rule
/// ([`is_fixpoint`]); one stopped at the work cap need not be.
pub open spec fn flooded(init: Seq<u8>, level: Seq<u8>, dense: Seq<u16>, sunlight: bool) -> bool {
    &&& level.len() == VOL
    &&& forall|k: int| 0 <= k < VOL ==> init[k] <= #[trigger] level[k] <= MAX_LEVEL
    &&& forall|k: int| 0 <= k < VOL ==> #[trigger] supported(init, level, dense, sunlight, k)
}

/// The state of the flood's bookkeeping between two voxels.
pub open spec fn flood_inv(init: Seq<u8>, level: Seq<u8>, dense: Seq<u16>, sunlight: bool, q: Seq<u32>, head: int) -> bool {
    &&& flooded(init, level, dense, sunlight)
    &&& 0 <= head <= q.len()
    &&& forall|k: int| 0 <= k < q.len() ==> #[trigger] q[k] < VOL
    &&& forall|j: int| 0 <= j < VOL && !#[trigger] settled(level, dense, sunlight, j) ==> pending(q, head, j)
}

pub open spec fn visit_level(level: Seq<u8>, dense: Seq<u16>, sunlight: bool, n: int, next: u8) -> Seq<u8> {
    if !blocked(dense, n, sunlight) && level[n] < next { level.update(n, next) } else { level }
}

pub open spec fn visit_queue(q: Seq<u32>, level: Seq<u8>, dense: Seq<u16>, sunlight: bool, n: int, next: u8) -> Seq<u32> {
    if !blocked(dense, n, sunlight) && level[n] < next { q.push(n as u32) } else { q }
}

/// Offering voxel `i`'s light, `next`, to its neighbour in direction `d`.
pub open spec fn offer_step(lq: (Seq<u8>, Seq<u32>), dense: Seq<u16>, sunlight: bool, i: int, d: int, next: u8) -> (
    Seq<u8>,
    Seq<u32>,
) {
    match nbr(i, d) {
        Some(n) => (visit_level(lq.0, dense, sunlight, n, next), visit_queue(lq.1, lq.0, dense, sunlight, n, next)),
        None => lq,
    }
}

/// Voxel `i` passing light `next` to its six neighbours in turn: -x, +x, -y, +y, -z, +z.
pub open spec fn spread(level: Seq<u8>, q: Seq<u32>, dense: Seq<u16>, sunlight: bool, i: int, next: u8) -> (
    Seq<u8>,
    Seq<u32>,
) {
    let s0 = offer_step((level, q), dense, sunlight, i, 0, next);
    let s1 = offer_step(s0, dense, sunlight, i, 1, next);
    let s2 = offer_step(s1, dense, sunlight, i, 2, next);
    let s3 = offer_step(s2, dense, sunlight, i, 3, next);
    let s4 = offer_step(s3, dense, sunlight, i, 4, next);
    offer_step(s4, dense, sunlight, i, 5, next)
}

/// The flood's run from its levels and work queue, with the entry at `head` next: each
/// entry taken in turn passes its light, one level darker, to its neighbours and queues
/// what it raised; the run ends when the queue is used up, or once more than twice the
/// chunk's volume of entries have been taken after one that passed light on. It gives
/// the levels, the queue, and how many entries were taken.
pub open spec fn flood_run(level: Seq<u8>, q: Seq<u32>, dense: Seq<u16>, sunlight: bool, head: int) -> (
    Seq<u8>,
    Seq<u32>,
    int,
)
    decreases (if head <= 2 * VOL { 1int } else { 0int }), (if head <= 2 * VOL { 2 * VOL + 1 - head } else {
        q.len() - head
    }),
{
    if head < 0 || head >= q.len() {
        (level, q, head)
    } else {
        let i = q[head] as int;
        let l = level[i];
        if l <= 1 {
            flood_run(level, q, dense, sunlight, head + 1)
        } else {
            let s = spread(level, q, dense, sunlight, i, (l - 1) as u8);
            if head + 1 > 2 * VOL {
                (s.0, s.1, head + 1)
            } else {
                flood_run(s.0, s.1, dense, sunlight, head + 1)
            }
        }
    }
}

/// One entry taken that passes its light on.
proof fn lemma_run_step(level: Seq<u8>, q: Seq<u32>, dense: Seq<u16>, sunlight: bool, head: int)
    requires
        0 <= head < q.len(),
        level[q[head] as int] > 1,
    ensures
        ({
            let s = spread(level, q, dense, sunlight, q[head] as int, (level[q[head] as int] - 1) as u8);
            flood_run(level, q, dense, sunlight, head) == if head + 1 > 2 * VOL {
                (s.0, s.1, head + 1)
            } else {
                flood_run(s.0, s.1, dense, sunlight, head + 1)
            }
        }),
{
}

/// Whether the flood from `level` and work queue `q` uses up its queue within its work cap.
pub open spec fn flood_settles(level: Seq<u8>, q: Seq<u32>, dense: Seq<u16>, sunlight: bool) -> bool {
    let r = flood_run(level, q, dense, sunlight, 0);
    r.2 >= r.1.len()
}

/// Blocks the flood entirely. Water does not: it is transparent to the fill and
/// attenuates only the vertical sky pour.
fn opaque(id: BlockId) -> (b: bool)
    ensures
        b == block::block_def(id).opaque,
{
    block::def(id).opaque
}

/// Offer level `next` to voxel `n`.
fn visit(level: &mut [u8], dense: &[BlockId], q: &mut Vec<u32>, n: usize, next: u8, sunlight: bool)
    requires
        n < VOL,
        old(level)@.len() == VOL,
        dense@.len() == VOL,
    ensures
        final(level)@ == visit_level(old(level)@, dense@, sunlight, n as int, next),
        final(q)@ == visit_queue(old(q)@, old(level)@, dense@, sunlight, n as int, next),
{
    let blk = if sunlight { block::casts_sun_shadow(dense[n]) } else { opaque(dense[n]) };
    if blk || level[n] >= next {
        return;
    }
    level[n] = next;
    q.push(n as u32);
}

proof fn lemma_nb_ok_mono(l0: Seq<u8>, l1: Seq<u8>, dense: Seq<u16>, sunlight: bool, li: int, nb: Option<int>)
    requires
        l0.len() == VOL,
        l1.len() == VOL,
        forall|k: int| 0 <= k < VOL ==> l0[k] <= #[trigger] l1[k],
        nb_ok(l0, dense, sunlight, li, nb),
        nb matches Some(n) ==> 0 <= n < VOL,
    ensures
        nb_ok(l1, dense, sunlight, li, nb),
{
    if let Some(n) = nb {
        assert(l0[n] <= l1[n]);
    }
}

proof fn lemma_nbr_in_chunk(i: int, d: int)
    requires
        0 <= i < VOL,
    ensures
        nbr(i, d) matches Some(n) ==> 0 <= n < VOL,
{
}

proof fn lemma_settled_mono(l0: Seq<u8>, l1: Seq<u8>, dense: Seq<u16>, sunlight: bool, j: int)
    requires
        0 <= j < VOL,
        l0.len() == VOL,
        l1.len() == VOL,
        forall|k: int| 0 <= k < VOL ==> l0[k] <= #[trigger] l1[k],
        l0[j] == l1[j],
        settled(l0, dense, sunlight, j),
    ensures
        settled(l1, dense, sunlight, j),
{
    if l0[j] > 1 {
        let li = l0[j] as int;
        lemma_nbr_in_chunk(j, 0);
        lemma_nb_ok_mono(l0, l1, dense, sunlight, li, nbr(j, 0));
        lemma_nbr_in_chunk(j, 1);
        lemma_nb_ok_mono(l0, l1, dense, sunlight, li, nbr(j, 1));
        lemma_nbr_in_chunk(j, 2);
        lemma_nb_ok_mono(l0, l1, dense, sunlight, li, nbr(j, 2));
        lemma_nbr_in_chunk(j, 3);
        lemma_nb_ok_mono(l0, l1, dense, sunlight, li, nbr(j, 3));
        lemma_nbr_in_chunk(j, 4);
        lemma_nb_ok_mono(l0, l1, dense, sunlight, li, nbr(j, 4));
        lemma_nbr_in_chunk(j, 5);
        lemma_nb_ok_mono(l0, l1, dense, sunlight, li, nbr(j, 5));
        assert(nb_ok(l1, dense, sunlight, li, nbr(j, 0)));
        assert(nb_ok(l1, dense, sunlight, li, nbr(j, 1)));
        assert(nb_ok(l1, dense, sunlight, li, nbr(j, 2)));
        assert(nb_ok(l1, dense, sunlight, li, nbr(j, 3)));
        assert(nb_ok(l1, dense, sunlight, li, nbr(j, 4)));
        assert(nb_ok(l1, dense, sunlight, li, nbr(j, 5)));
    }
}

proof fn lemma_max_nbr_mono(l0: Seq<u8>, l1: Seq<u8>, j: int)
    requires
        0 <= j < VOL,
        l0.len() == VOL,
        l1.len() == VOL,
        forall|k: int| 0 <= k < VOL ==> l0[k] <= #[trigger] l1[k],
    ensures
        max_nbr(l0, j) <= max_nbr(l1, j),
{
    lemma_nbr_in_chunk(j, 0);
    lemma_nbr_in_chunk(j, 1);
    lemma_nbr_in_chunk(j, 2);
    lemma_nbr_in_chunk(j, 3);
    lemma_nbr_in_chunk(j, 4);
    lemma_nbr_in_chunk(j, 5);
    assert(nb_level(l0, nbr(j, 0)) <= nb_level(l1, nbr(j, 0)));
    assert(nb_level(l0, nbr(j, 1)) <= nb_level(l1, nbr(j, 1)));
    assert(nb_level(l0, nbr(j, 2)) <= nb_level(l1, nbr(j, 2)));
    assert(nb_level(l0, nbr(j, 3)) <= nb_level(l1, nbr(j, 3)));
    assert(nb_level(l0, nbr(j, 4)) <= nb_level(l1, nbr(j, 4)));
    assert(nb_level(l0, nbr(j, 5)) <= nb_level(l1, nbr(j, 5)));
}

/// Direction `d` reversed.
pub open spec fn rev(d: int) -> int {
    if d % 2 == 0 { d + 1 } else { d - 1 }
}

/// The neighbour of voxel `i` in direction `d` is inside the chunk and holds level `k` or more.
pub open spec fn bright_nbr(level: Seq<u8>, i: int, d: int, k: int) -> bool {
    match nbr(i, d) {
        Some(n) => level[n] >= k,
        None => false,
    }
}

/// A voxel brighter than all of its neighbours' supply has a neighbour at least one
/// level brighter than it: `max_nbr` is one of the six.
proof fn lemma_brighter_neighbour(level: Seq<u8>, i: int, k: int)
    requires
        0 <= i < VOL,
        level.len() == VOL,
        k >= 1,
        max_nbr(level, i) >= k,
    ensures
        exists|d: int| 0 <= d < 6 && #[trigger] bright_nbr(level, i, d, k),
{
    let m = max_nbr(level, i);
    if nb_level(level, nbr(i, 0)) >= k {
        assert(bright_nbr(level, i, 0, k));
    } else if nb_level(level, nbr(i, 1)) >= k {
        assert(bright_nbr(level, i, 1, k));
    } else if nb_level(level, nbr(i, 2)) >= k {
        assert(bright_nbr(level, i, 2, k));
    } else if nb_level(level, nbr(i, 3)) >= k {
        assert(bright_nbr(level, i, 3, k));
    } else if nb_level(level, nbr(i, 4)) >= k {
        assert(bright_nbr(level, i, 4, k));
    } else {
        assert(nb_level(level, nbr(i, 5)) >= k);
        assert(bright_nbr(level, i, 5, k));
    }
}

/// A flood from `init` that is supported everywhere lies at or below any settled flood from
/// the same seeds, level by level from the top.
proof fn lemma_flood_below_settled(
    init: Seq<u8>,
    l1: Seq<u8>,
    l2: Seq<u8>,
    dense: Seq<u16>,
    sunlight: bool,
    k: int,
)
    requires
        flooded(init, l1, dense, sunlight),
        flooded(init, l2, dense, sunlight),
        is_fixpoint(l2, dense, sunlight),
        0 <= k <= 16,
    ensures
        forall|v: int| 0 <= v < VOL && l1[v] >= k ==> #[trigger] l1[v] <= l2[v],
    decreases 16 - k,
{
    if k < 16 {
        lemma_flood_below_settled(init, l1, l2, dense, sunlight, k + 1);
        assert forall|v: int| 0 <= v < VOL && l1[v] >= k implies #[trigger] l1[v] <= l2[v] by {
            if l1[v] == k && l1[v] > l2[v] {
                assert(init[v] <= l2[v]);
                assert(supported(init, l1, dense, sunlight, v));
                lemma_brighter_neighbour(l1, v, k + 1);
                let d = choose|d: int| 0 <= d < 6 && #[trigger] bright_nbr(l1, v, d, k + 1);
                let n = nbr(v, d)->0;
                lemma_nbr_in_chunk(v, d);
                assert(l1[n] <= l2[n]);
                lemma_nbr_rev(v, d);
                assert(settled(l2, dense, sunlight, n));
                let li = l2[n] as int;
                assert(nb_ok(l2, dense, sunlight, li, nbr(n, rev(d))));
            }
        }
    }
}

/// A settled flood is determined by its seeds: two floods from the same seeds that are
/// supported everywhere and settled everywhere hold the same level at every voxel. So a
/// lamp whose three channels are equal floods three equal channels wherever they settle.
pub proof fn law_settled_flood_is_unique(
    init: Seq<u8>,
    l1: Seq<u8>,
    l2: Seq<u8>,
    dense: Seq<u16>,
    sunlight: bool,
)
    requires
        flooded(init, l1, dense, sunlight),
        flooded(init, l2, dense, sunlight),
        is_fixpoint(l1, dense, sunlight),
        is_fixpoint(l2, dense, sunlight),
    ensures
        l1 == l2,
{
    lemma_flood_below_settled(init, l1, l2, dense, sunlight, 0);
    lemma_flood_below_settled(init, l2, l1, dense, sunlight, 0);
    assert(l1 =~= l2);
}

/// Voxel by voxel, the largest of three level fields.
pub open spec fn max_fields(a: Seq<u8>, b: Seq<u8>, c: Seq<u8>) -> Seq<u8> {
    Seq::new(VOL as nat, |k: int| max3(a[k], b[k], c[k]))
}

/// The voxel-by-voxel largest of three settled floods is itself a settled flood, from the
/// voxel-by-voxel largest of their seeds.
proof fn lemma_max_of_settled_floods(
    s0: Seq<u8>,
    s1: Seq<u8>,
    s2: Seq<u8>,
    l0: Seq<u8>,
    l1: Seq<u8>,
    l2: Seq<u8>,
    dense: Seq<u16>,
    sunlight: bool,
)
    requires
        flooded(s0, l0, dense, sunlight),
        flooded(s1, l1, dense, sunlight),
        flooded(s2, l2, dense, sunlight),
        is_fixpoint(l0, dense, sunlight),
        is_fixpoint(l1, dense, sunlight),
        is_fixpoint(l2, dense, sunlight),
    ensures
        flooded(max_fields(s0, s1, s2), max_fields(l0, l1, l2), dense, sunlight),
        is_fixpoint(max_fields(l0, l1, l2), dense, sunlight),
{
    let s = max_fields(s0, s1, s2);
    let m = max_fields(l0, l1, l2);
    assert forall|k: int| 0 <= k < VOL implies #[trigger] supported(s, m, dense, sunlight, k)
        && settled(m, dense, sunlight, k) by {
        assert(supported(s0, l0, dense, sunlight, k));
        assert(supported(s1, l1, dense, sunlight, k));
        assert(supported(s2, l2, dense, sunlight, k));
        assert(settled(l0, dense, sunlight, k));
        assert(settled(l1, dense, sunlight, k));
        assert(settled(l2, dense, sunlight, k));
        lemma_max_nbr_mono(l0, m, k);
        lemma_max_nbr_mono(l1, m, k);
        lemma_max_nbr_mono(l2, m, k);
        if m[k] == l0[k] {
            lemma_settled_mono(l0, m, dense, sunlight, k);
        } else if m[k] == l1[k] {
            lemma_settled_mono(l1, m, dense, sunlight, k);
        } else {
            lemma_settled_mono(l2, m, dense, sunlight, k);
        }
    }
    assert forall|k: int| 0 <= k < VOL implies s[k] <= #[trigger] m[k] <= MAX_LEVEL by {
        assert(s0[k] <= l0[k] <= MAX_LEVEL);
        assert(s1[k] <= l1[k] <= MAX_LEVEL);
        assert(s2[k] <= l2[k] <= MAX_LEVEL);
    }
    assert forall|k: int| 0 <= k < VOL implies #[trigger] settled(m, dense, sunlight, k) by {
        assert(supported(s, m, dense, sunlight, k) && settled(m, dense, sunlight, k));
    }
    assert forall|k: int| 0 <= k < VOL implies #[trigger] supported(s, m, dense, sunlight, k) by {
        assert(supported(s, m, dense, sunlight, k) && settled(m, dense, sunlight, k));
    }
}

/// The brightest of a lamp's three settled channel floods is, at every voxel, the settled
/// single-channel flood from each emitter's brightest channel: the scalar block level the
/// channels' maximum reports is exactly what one flood would hold.
pub proof fn law_brightest_channel_is_the_scalar_flood(
    s0: Seq<u8>,
    s1: Seq<u8>,
    s2: Seq<u8>,
    l0: Seq<u8>,
    l1: Seq<u8>,
    l2: Seq<u8>,
    l: Seq<u8>,
    dense: Seq<u16>,
)
    requires
        flooded(s0, l0, dense, false),
        flooded(s1, l1, dense, false),
        flooded(s2, l2, dense, false),
        is_fixpoint(l0, dense, false),
        is_fixpoint(l1, dense, false),
        is_fixpoint(l2, dense, false),
        flooded(max_fields(s0, s1, s2), l, dense, false),
        is_fixpoint(l, dense, false),
    ensures
        l == max_fields(l0, l1, l2),
{
    lemma_max_of_settled_floods(s0, s1, s2, l0, l1, l2, dense, false);
    law_settled_flood_is_unique(max_fields(s0, s1, s2), l, max_fields(l0, l1, l2), dense, false);
}

/// Stepping to a neighbour and back returns to the start.
proof fn lemma_nbr_rev(i: int, d: int)
    requires
        0 <= i < VOL,
        0 <= d < 6,
    ensures
        nbr(i, d) matches Some(n) ==> nbr(n, rev(d)) == Some(i),
{
}

/// One offer of `next` from voxel `i` to its neighbour in direction `d` keeps the flood's
/// bookkeeping, and leaves that neighbour no longer wanting light from `i`.
proof fn lemma_visit_step(
    init: Seq<u8>,
    l0: Seq<u8>,
    dense: Seq<u16>,
    sunlight: bool,
    q0: Seq<u32>,
    head: int,
    i: int,
    d: int,
    next: u8,
)
    requires
        flooded(init, l0, dense, sunlight),
        0 <= head <= q0.len(),
        forall|k: int| 0 <= k < q0.len() ==> #[trigger] q0[k] < VOL,
        forall|j: int| 0 <= j < VOL && j != i && !#[trigger] settled(l0, dense, sunlight, j) ==> pending(q0, head, j),
        0 <= i < VOL,
        0 <= d < 6,
        nbr(i, d) is Some,
        l0[i] == next + 1,
        dense.len() == VOL,
    ensures
        ({
            let n = nbr(i, d)->0;
            let l1 = visit_level(l0, dense, sunlight, n, next);
            let q1 = visit_queue(q0, l0, dense, sunlight, n, next);
            &&& flooded(init, l1, dense, sunlight)
            &&& forall|k: int| 0 <= k < q1.len() ==> #[trigger] q1[k] < VOL
            &&& forall|j: int| 0 <= j < VOL && j != i && !#[trigger] settled(l1, dense, sunlight, j) ==> pending(q1, head, j)
            &&& head <= q1.len()
            &&& l1[i] == l0[i]
            &&& forall|k: int| 0 <= k < VOL ==> l0[k] <= #[trigger] l1[k]
            &&& nb_ok(l1, dense, sunlight, l1[i] as int, nbr(i, d))
        }),
{
    let n = nbr(i, d)->0;
    lemma_nbr_in_chunk(i, d);
    let l1 = visit_level(l0, dense, sunlight, n, next);
    let q1 = visit_queue(q0, l0, dense, sunlight, n, next);
    if !blocked(dense, n, sunlight) && l0[n] < next {
        assert(l1 == l0.update(n, next));
        assert(q1 == q0.push(n as u32));
        assert forall|k: int| 0 <= k < VOL implies l0[k] <= #[trigger] l1[k] by {}
        // the raised voxel is supported by `i`
        lemma_nbr_rev(i, d);
        assert(nbr(n, rev(d)) == Some(i));
        assert(l1[i] == next + 1);
        assert(max_nbr(l1, n) >= l1[i]) by {
            let r = rev(d);
            assert(nb_level(l1, nbr(n, r)) == l1[i]);
            assert(0 <= r < 6);
        }
        assert forall|k: int| 0 <= k < VOL implies #[trigger] supported(init, l1, dense, sunlight, k) by {
            if k != n {
                assert(supported(init, l0, dense, sunlight, k));
                lemma_max_nbr_mono(l0, l1, k);
            }
        }
        assert forall|k: int| 0 <= k < VOL implies init[k] <= #[trigger] l1[k] <= MAX_LEVEL by {
            assert(init[k] <= l0[k] <= MAX_LEVEL);
        }
        assert forall|j: int| 0 <= j < VOL && j != i && !#[trigger] settled(l1, dense, sunlight, j)
            implies pending(q1, head, j) by {
            if j == n {
                assert(q1[q0.len() as int] == n);
            } else {
                if settled(l0, dense, sunlight, j) {
                    lemma_settled_mono(l0, l1, dense, sunlight, j);
                }
                assert(pending(q0, head, j));
                let k = choose|k: int| head <= k < q0.len() && q0[k] == j;
                assert(q1[k] == j);
            }
        }
        assert forall|k: int| 0 <= k < q1.len() implies #[trigger] q1[k] < VOL by {
            if k < q0.len() {
                assert(q1[k] == q0[k]);
            }
        }
    } else {
        assert(l1 == l0);
        assert(q1 == q0);
    }
}

/// Standard decrement-by-one flood fill over the six neighbours, chunk-local. Every
/// voxel that might still pass light on has to be in `queue`; light spreads from each
/// queued voxel to open neighbours one level darker, re-queuing whatever it raises.
/// The work is capped at twice the chunk's volume of dequeued entries, which the
/// fifteen-step reach of light does not come near in practice.
#[verifier::rlimit(40)]
fn flood(level: &mut [u8], dense: &[BlockId], queue: &mut Vec<u32>, sunlight: bool)
    requires
        old(level)@.len() == VOL,
        dense@.len() == VOL,
        forall|k: int| 0 <= k < VOL ==> #[trigger] old(level)@[k] <= MAX_LEVEL,
        forall|k: int| 0 <= k < old(queue)@.len() ==> #[trigger] old(queue)@[k] < VOL,
        forall|j: int| 0 <= j < VOL && !#[trigger] settled(old(level)@, dense@, sunlight, j)
            ==> pending(old(queue)@, 0, j),
    ensures
        flooded(old(level)@, final(level)@, dense@, sunlight),
        final(level)@ == flood_run(old(level)@, old(queue)@, dense@, sunlight, 0).0,
        final(queue)@ == flood_run(old(level)@, old(queue)@, dense@, sunlight, 0).1,
        flood_settles(old(level)@, old(queue)@, dense@, sunlight) ==> is_fixpoint(final(level)@, dense@, sunlight),
{
    let ghost init = level@;
    let ghost qs = queue@;
    let mut head: usize = 0;
    assert forall|k: int| 0 <= k < VOL implies #[trigger] supported(init, level@, dense@, sunlight, k) by {}
    loop
        invariant_except_break
            flood_run(init, qs, dense@, sunlight, 0) == flood_run(level@, queue@, dense@, sunlight, head as int),
        invariant
            flood_inv(init, level@, dense@, sunlight, queue@, head as int),
            dense@.len() == VOL,
        ensures
            flooded(init, level@, dense@, sunlight),
            flood_run(init, qs, dense@, sunlight, 0) == (level@, queue@, head as int),
            head >= queue@.len() ==> is_fixpoint(level@, dense@, sunlight),
        decreases (if head <= 2 * VOL { 1int } else { 0int }),
            (if head <= 2 * VOL { 2 * VOL + 1 - head } else { queue@.len() - head }),
    {
        if head >= queue.len() {
            assert forall|i: int| 0 <= i < VOL implies #[trigger] settled(level@, dense@, sunlight, i) by {
                if !settled(level@, dense@, sunlight, i) {
                    assert(pending(queue@, head as int, i));
                }
            }
            break;
        }
        let i = queue[head] as usize;
        let ghost h0 = head as int;
        head += 1;
        proof {
            assert forall|j: int| 0 <= j < VOL && j != i && !#[trigger] settled(level@, dense@, sunlight, j)
                implies pending(queue@, head as int, j) by {
                assert(pending(queue@, h0, j));
                let k = choose|k: int| h0 <= k < queue@.len() && queue@[k] == j;
                assert(k != h0);
            }
        }
        let l = level[i];
        if l <= 1 {
            assert(settled(level@, dense@, sunlight, i as int));
            assert(flood_run(level@, queue@, dense@, sunlight, h0) == flood_run(level@, queue@, dense@, sunlight, head as int));
            continue;
        }
        let next = l - 1;
        let ghost l_start = level@;
        let ghost q_start = queue@;
        offer(level, dense, queue, i, 0, next, sunlight, Ghost(init), Ghost(head as int));
        let ghost l0 = level@;
        let ghost p0 = (level@, queue@);
        offer(level, dense, queue, i, 1, next, sunlight, Ghost(init), Ghost(head as int));
        let ghost l1 = level@;
        let ghost p1 = (level@, queue@);
        offer(level, dense, queue, i, 2, next, sunlight, Ghost(init), Ghost(head as int));
        let ghost l2 = level@;
        let ghost p2 = (level@, queue@);
        offer(level, dense, queue, i, 3, next, sunlight, Ghost(init), Ghost(head as int));
        let ghost l3 = level@;
        let ghost p3 = (level@, queue@);
        offer(level, dense, queue, i, 4, next, sunlight, Ghost(init), Ghost(head as int));
        let ghost l4 = level@;
        let ghost p4 = (level@, queue@);
        offer(level, dense, queue, i, 5, next, sunlight, Ghost(init), Ghost(head as int));
        assert(p0 == offer_step((l_start, q_start), dense@, sunlight, i as int, 0, next));
        assert((level@, queue@) == spread(l_start, q_start, dense@, sunlight, i as int, next));
        proof {
            let li = l as int;
            let ii = i as int;
            lemma_nbr_in_chunk(ii, 0);
            lemma_nbr_in_chunk(ii, 1);
            lemma_nbr_in_chunk(ii, 2);
            lemma_nbr_in_chunk(ii, 3);
            lemma_nbr_in_chunk(ii, 4);
            lemma_nb_ok_mono(l0, level@, dense@, sunlight, li, nbr(ii, 0));
            lemma_nb_ok_mono(l1, level@, dense@, sunlight, li, nbr(ii, 1));
            lemma_nb_ok_mono(l2, level@, dense@, sunlight, li, nbr(ii, 2));
            lemma_nb_ok_mono(l3, level@, dense@, sunlight, li, nbr(ii, 3));
            lemma_nb_ok_mono(l4, level@, dense@, sunlight, li, nbr(ii, 4));
            assert(settled(level@, dense@, sunlight, ii));
        }
        proof {
            lemma_run_step(l_start, q_start, dense@, sunlight, h0);
        }
        if head > VOL * 2 {
            proof {
                if head >= queue@.len() {
                    assert forall|j: int| 0 <= j < VOL implies #[trigger] settled(level@, dense@, sunlight, j) by {
                        if !settled(level@, dense@, sunlight, j) {
                            assert(pending(queue@, head as int, j));
                        }
                    }
                }
            }
            break;
        }
    }
}

/// Offer voxel `i`'s light, one level down, to its neighbour in direction `d`.
fn offer(
    level: &mut [u8],
    dense: &[BlockId],
    queue: &mut Vec<u32>,
    i: usize,
    d: usize,
    next: u8,
    sunlight: bool,
    Ghost(init): Ghost<Seq<u8>>,
    Ghost(head): Ghost<int>,
)
    requires
        flooded(init, old(level)@, dense@, sunlight),
        0 <= head <= old(queue)@.len(),
        forall|k: int| 0 <= k < old(queue)@.len() ==> #[trigger] old(queue)@[k] < VOL,
        forall|j: int| 0 <= j < VOL && j != i && !#[trigger] settled(old(level)@, dense@, sunlight, j)
            ==> pending(old(queue)@, head, j),
        i < VOL,
        d < 6,
        old(level)@[i as int] == next + 1,
        dense@.len() == VOL,
    ensures
        flooded(init, final(level)@, dense@, sunlight),
        head <= final(queue)@.len(),
        forall|k: int| 0 <= k < final(queue)@.len() ==> #[trigger] final(queue)@[k] < VOL,
        forall|j: int| 0 <= j < VOL && j != i && !#[trigger] settled(final(level)@, dense@, sunlight, j)
            ==> pending(final(queue)@, head, j),
        final(level)@[i as int] == old(level)@[i as int],
        forall|k: int| 0 <= k < VOL ==> old(level)@[k] <= #[trigger] final(level)@[k],
        nb_ok(final(level)@, dense@, sunlight, next + 1, nbr(i as int, d as int)),
        (final(level)@, final(queue)@) == offer_step((old(level)@, old(queue)@), dense@, sunlight, i as int, d as int, next),
{
    let x = i % 64;
    let z = (i / 64) % 64;
    let y = i / 4096;
    let (has, n) = if d == 0 {
        (x > 0, if x > 0 { i - 1 } else { 0 })
    } else if d == 1 {
        (x < 63, i + 1)
    } else if d == 2 {
        (y > 0, if y > 0 { i - 4096 } else { 0 })
    } else if d == 3 {
        (y < 63, i + 4096)
    } else if d == 4 {
        (z > 0, if z > 0 { i - 64 } else { 0 })
    } else {
        (z < 63, i + 64)
    };
    if has {
        assert(nbr(i as int, d as int) == Some(n as int));
        proof {
            lemma_visit_step(init, level@, dense@, sunlight, queue@, head, i as int, d as int, next);
        }
        visit(level, dense, queue, n, next, sunlight);
    } else {
        assert(nbr(i as int, d as int) is None);
        assert forall|k: int| 0 <= k < VOL implies old(level)@[k] <= #[trigger] level@[k] by {}
    }
}


// ------------------------------------------------------------------ bricks

/// Result of lighting one chunk: a cell table plus the bricks it points at.
pub struct LightData {
    /// 4096 entries; bit 31 set means an inline uniform cell, else a brick index into
    /// `bricks`.
    pub cells: Vec<u32>,
    pub bricks: Vec<[u32; 32]>,
    /// Set when the whole chunk is one value, in which case `cells` is empty.
    pub uniform: Option<u16>,
}

/// The packed cell of voxel `i`, block channels read only when the chunk is `lit`.
pub open spec fn packed_at(sky: Seq<u8>, blk: Seq<Seq<u8>>, lit: bool, i: int) -> u16 {
    if lit {
        pack_spec(sky[i], [blk[0][i], blk[1][i], blk[2][i]])
    } else {
        pack_spec(sky[i], [0u8, 0u8, 0u8])
    }
}

/// The dense index of the voxel at bit `bit` of brick `ci`.
pub open spec fn brick_voxel(ci: int, bit: int) -> int {
    voxel::dense_index_spec((ci % 16) * 4 + bit % 4, ((ci / 16) % 16) * 4 + (bit / 4) % 4, (ci / 256) * 4 + bit / 16)
}

/// Every voxel of brick `ci` holds the value of its first.
pub open spec fn brick_uniform(p: spec_fn(int) -> u16, ci: int) -> bool {
    forall|bit: int| 0 <= bit < 64 ==> #[trigger] p(brick_voxel(ci, bit)) == p(brick_voxel(ci, 0))
}

/// Word `w` of brick `ci`: two cells, the even bit in the low half.
pub open spec fn brick_word(p: spec_fn(int) -> u16, ci: int, w: int) -> u32 {
    ((p(brick_voxel(ci, 2 * w)) as u32) | ((p(brick_voxel(ci, 2 * w + 1)) as u32) << 16u32)) as u32
}

pub open spec fn brick_words(p: spec_fn(int) -> u16, ci: int) -> Seq<u32> {
    Seq::new(32, |w: int| brick_word(p, ci, w))
}

/// The cell table and brick list for the first `n` bricks, in cell order.
pub open spec fn table(p: spec_fn(int) -> u16, n: nat) -> (Seq<u32>, Seq<Seq<u32>>)
    decreases n,
{
    if n == 0 {
        (Seq::empty(), Seq::empty())
    } else {
        let prev = table(p, (n - 1) as nat);
        let ci = n - 1;
        if brick_uniform(p, ci) {
            (prev.0.push((UNIFORM_BIT | (p(brick_voxel(ci, 0)) as u32)) as u32), prev.1)
        } else {
            (prev.0.push(prev.1.len() as u32), prev.1.push(brick_words(p, ci)))
        }
    }
}

/// The whole chunk is one value: every brick uniform, and each at the first voxel's value.
pub open spec fn chunk_uniform(p: spec_fn(int) -> u16) -> bool {
    uniform_prefix(p, CELLS as int)
}

/// The first `n` bricks are each uniform at the first voxel's value.
pub open spec fn uniform_prefix(p: spec_fn(int) -> u16, n: int) -> bool {
    forall|ci: int| 0 <= ci < n ==> #[trigger] brick_uniform(p, ci) && p(brick_voxel(ci, 0)) == p(0)
}

proof fn lemma_uniform_prefix_step(p: spec_fn(int) -> u16, n: int)
    requires
        n >= 0,
    ensures
        uniform_prefix(p, n + 1) == (uniform_prefix(p, n) && brick_uniform(p, n) && p(brick_voxel(n, 0)) == p(0)),
{
    if uniform_prefix(p, n) && brick_uniform(p, n) && p(brick_voxel(n, 0)) == p(0) {
        assert forall|ci: int| 0 <= ci < n + 1 implies #[trigger] brick_uniform(p, ci) && p(brick_voxel(ci, 0)) == p(0) by {
            if ci < n {
                assert(brick_uniform(p, ci) && p(brick_voxel(ci, 0)) == p(0));
            }
        }
    }
    if uniform_prefix(p, n + 1) {
        assert(brick_uniform(p, n) && p(brick_voxel(n, 0)) == p(0));
        assert forall|ci: int| 0 <= ci < n implies #[trigger] brick_uniform(p, ci) && p(brick_voxel(ci, 0)) == p(0) by {
            assert(brick_uniform(p, ci) && p(brick_voxel(ci, 0)) == p(0));
        }
    }
}

/// `d` is the brick encoding of the packed cells `p`.
pub open spec fn encodes(d: LightData, p: spec_fn(int) -> u16) -> bool {
    if chunk_uniform(p) {
        d.cells@.len() == 0 && d.bricks@.len() == 0 && d.uniform == Some(p(0))
    } else {
        let t = table(p, CELLS as nat);
        &&& d.uniform is None
        &&& d.cells@ == t.0
        &&& d.bricks@.len() == t.1.len()
        &&& forall|k: int| 0 <= k < t.1.len() ==> (#[trigger] d.bricks@[k])@ == t.1[k]
    }
}

proof fn lemma_table_len(p: spec_fn(int) -> u16, n: nat)
    ensures
        table(p, n).0.len() == n,
        table(p, n).1.len() <= n,
    decreases n,
{
    if n > 0 {
        lemma_table_len(p, (n - 1) as nat);
    }
}

/// Pack one brick: its 32 words, whether it is uniform, and its first value.
fn pack_brick(sky: &[u8], blk: &[Vec<u8>; 3], lit: bool, ci: usize) -> (r: ([u32; 32], bool, u16))
    requires
        ci < CELLS,
        sky@.len() == VOL,
        lit ==> blk[0]@.len() == VOL && blk[1]@.len() == VOL && blk[2]@.len() == VOL,
    ensures
        ({
            let p = |i: int| packed_at(sky@, seq![blk[0]@, blk[1]@, blk[2]@], lit, i);
            &&& r.0@ == brick_words(p, ci as int)
            &&& r.1 == brick_uniform(p, ci as int)
            &&& r.2 == p(brick_voxel(ci as int, 0))
        }),
{
    let ghost p = |i: int| packed_at(sky@, seq![blk[0]@, blk[1]@, blk[2]@], lit, i);
    let cx = ci % 16;
    let cy = (ci / 16) % 16;
    let cz = ci / 256;
    let mut brick = [0u32; 32];
    let mut uniform = true;
    let mut val: u16 = 0;
    let mut bit: usize = 0;
    while bit < 64
        invariant
            bit <= 64,
            ci < CELLS,
            cx == ci % 16,
            cy == (ci / 16) % 16,
            cz == ci / 256,
            sky@.len() == VOL,
            lit ==> blk[0]@.len() == VOL && blk[1]@.len() == VOL && blk[2]@.len() == VOL,
            p == (|i: int| packed_at(sky@, seq![blk[0]@, blk[1]@, blk[2]@], lit, i)),
            bit > 0 ==> val == p(brick_voxel(ci as int, 0)),
            uniform == (forall|t: int| 0 <= t < bit ==> #[trigger] p(brick_voxel(ci as int, t)) == p(brick_voxel(ci as int, 0))),
            forall|w: int| 0 <= w < bit / 2 ==> brick[w] == #[trigger] brick_word(p, ci as int, w),
            bit % 2 == 1 ==> brick[(bit / 2) as int] == p(brick_voxel(ci as int, bit - 1)) as u32,
            forall|w: int| (bit + 1) / 2 <= w < 32 ==> #[trigger] brick[w] == 0,
        decreases 64 - bit,
    {
        let vx = bit % 4;
        let vy = (bit / 4) % 4;
        let vz = bit / 16;
        let i = crate::voxel::dense_index(cx * 4 + vx, cy * 4 + vy, cz * 4 + vz);
        assert(i == brick_voxel(ci as int, bit as int));
        let b = if lit { pack(sky[i], [blk[0][i], blk[1][i], blk[2][i]]) } else { pack(sky[i], [0, 0, 0]) };
        assert(b == p(i as int));
        if bit == 0 {
            val = b;
        } else if b != val {
            uniform = false;
        }
        let w = bit / 2;
        let old_w = brick[w];
        let sh: u32 = ((bit % 2) * 16) as u32;
        let nw = old_w | ((b as u32) << sh);
        proof {
            if bit % 2 == 0 {
                assert(old_w == 0);
                assert(nw == b as u32) by (bit_vector)
                    requires
                        nw == old_w | ((b as u32) << sh),
                        old_w == 0,
                        sh == 0,
                ;
            } else {
                let lo = p(brick_voxel(ci as int, bit - 1));
                assert(old_w == lo as u32);
                assert(nw == ((lo as u32) | ((b as u32) << 16u32)) as u32) by (bit_vector)
                    requires
                        nw == old_w | ((b as u32) << sh),
                        old_w == lo as u32,
                        sh == 16,
                ;
                assert(2 * w == bit - 1 && 2 * w + 1 == bit);
            }
        }
        brick[w] = nw;
        bit += 1;
    }
    assert(brick@ =~= brick_words(p, ci as int));
    (brick, uniform, val)
}


/// The packed cells of a chunk, block channels read only when the chunk has any.
pub open spec fn cells_of(sky: Seq<u8>, blk: Seq<Seq<u8>>) -> spec_fn(int) -> u16 {
    |i: int| packed_at(sky, blk, blk[0].len() != 0, i)
}

/// Pack a chunk's light into the brick pool's layout. `blk` is three channels, each
/// either a chunk long or all three empty for a chunk with no emitter in it.
fn pack_bricks(sky: &[u8], blk: &[Vec<u8>; 3]) -> (d: LightData)
    requires
        sky@.len() == VOL,
        blk[0]@.len() == 0 || (blk[0]@.len() == VOL && blk[1]@.len() == VOL && blk[2]@.len() == VOL),
    ensures
        encodes(d, cells_of(sky@, seq![blk[0]@, blk[1]@, blk[2]@])),
{
    let lit = !blk[0].is_empty();
    let ghost p = cells_of(sky@, seq![blk[0]@, blk[1]@, blk[2]@]);
    let first = if lit { pack(sky[0], [blk[0][0], blk[1][0], blk[2][0]]) } else { pack(sky[0], [0, 0, 0]) };
    assert(first == p(0));
    let mut cells: Vec<u32> = Vec::with_capacity(CELLS);
    let mut bricks: Vec<[u32; 32]> = Vec::new();
    let mut uniform_chunk = true;
    let mut ci: usize = 0;
    while ci < CELLS
        invariant
            ci <= CELLS,
            sky@.len() == VOL,
            blk[0]@.len() == 0 || (blk[0]@.len() == VOL && blk[1]@.len() == VOL && blk[2]@.len() == VOL),
            lit == (blk[0]@.len() != 0),
            p == cells_of(sky@, seq![blk[0]@, blk[1]@, blk[2]@]),
            first == p(0),
            cells@ == table(p, ci as nat).0,
            bricks@.len() == table(p, ci as nat).1.len(),
            forall|k: int| 0 <= k < bricks@.len() ==> (#[trigger] bricks@[k])@ == table(p, ci as nat).1[k],
            uniform_chunk == uniform_prefix(p, ci as int),
        decreases CELLS - ci,
    {
        let (brick, uniform, val) = pack_brick(sky, blk, lit, ci);
        proof {
            lemma_table_len(p, ci as nat);
            let q = |i: int| packed_at(sky@, seq![blk[0]@, blk[1]@, blk[2]@], lit, i);
            assert(q =~= p);
            assert(uniform == brick_uniform(p, ci as int));
            assert(val == p(brick_voxel(ci as int, 0)));
            assert(brick@ == brick_words(p, ci as int));
        }
        let ghost was = uniform_chunk;
        if uniform {
            cells.push(UNIFORM_BIT | val as u32);
            if val != first {
                uniform_chunk = false;
            }
        } else {
            assert(bricks@.len() <= CELLS);
            cells.push(bricks.len() as u32);
            bricks.push(brick);
            uniform_chunk = false;
        }
        proof {
            let t = table(p, (ci + 1) as nat);
            assert(t == {
                let prev = table(p, ci as nat);
                if brick_uniform(p, ci as int) {
                    (prev.0.push((UNIFORM_BIT | (p(brick_voxel(ci as int, 0)) as u32)) as u32), prev.1)
                } else {
                    (prev.0.push(prev.1.len() as u32), prev.1.push(brick_words(p, ci as int)))
                }
            });
            assert forall|k: int| 0 <= k < bricks@.len() implies (#[trigger] bricks@[k])@ == t.1[k] by {}
            lemma_uniform_prefix_step(p, ci as int);
        }
        ci += 1;
    }
    if uniform_chunk {
        LightData { cells: Vec::new(), bricks: Vec::new(), uniform: Some(first) }
    } else {
        LightData { cells, bricks, uniform: None }
    }
}


// ------------------------------------------------------------------ one chunk

/// The sky level arriving at row `y` of column `(x, z)` from an open sky above: full at the
/// top, stopped by a sun shadow caster, one level lost per block of water passed through.
pub open spec fn arrive(dense: Seq<u16>, x: int, z: int, y: int) -> Option<u8>
    decreases 63 - y,
{
    if y >= 63 {
        Some(MAX_LEVEL)
    } else {
        match arrive(dense, x, z, y + 1) {
            None => None,
            Some(l) => {
                let above = dense[voxel::dense_index_spec(x, y + 1, z)];
                if block::shadows_sun(above) {
                    None
                } else if above == WATER {
                    if l == 0 { None } else { Some((l - 1) as u8) }
                } else {
                    Some(l)
                }
            },
        }
    }
}

/// The blocks of water above row `y` of column `(x, z)`, up to the top of the chunk.
pub open spec fn water_above(dense: Seq<u16>, x: int, z: int, y: int) -> nat
    decreases 63 - y,
{
    if y >= 63 {
        0
    } else {
        water_above(dense, x, z, y + 1) + if dense[voxel::dense_index_spec(x, y + 1, z)] == WATER {
            1nat
        } else {
            0nat
        }
    }
}

/// Nothing above row `y` of column `(x, z)` casts the sun's shadow.
pub open spec fn clear_above(dense: Seq<u16>, x: int, z: int, y: int) -> bool {
    forall|k: int| y < k <= 63 ==> !block::shadows_sun(#[trigger] dense[voxel::dense_index_spec(x, k, z)])
}

proof fn lemma_arrive_through_water(dense: Seq<u16>, x: int, z: int, y: int)
    requires
        y <= 63,
        clear_above(dense, x, z, y),
    ensures
        arrive(dense, x, z, y) == if water_above(dense, x, z, y) <= 15 {
            Some((15 - water_above(dense, x, z, y)) as u8)
        } else {
            None::<u8>
        },
    decreases 63 - y,
{
    if y < 63 {
        assert(clear_above(dense, x, z, y + 1));
        lemma_arrive_through_water(dense, x, z, y + 1);
        assert(!block::shadows_sun(dense[voxel::dense_index_spec(x, y + 1, z)]));
    }
}

/// Sky light poured down an open column dims one level per block of water above, and a
/// voxel under sixteen or more blocks of water gets none.
pub proof fn law_sky_dims_per_water_block(dense: Seq<u16>, x: int, z: int, y: int)
    requires
        y <= 63,
        clear_above(dense, x, z, y),
        !block::shadows_sun(dense[voxel::dense_index_spec(x, y, z)]),
    ensures
        column_seed(dense, x, z, y) == if water_above(dense, x, z, y) <= 15 {
            (15 - water_above(dense, x, z, y)) as u8
        } else {
            0u8
        },
{
    lemma_arrive_through_water(dense, x, z, y);
}

/// The sky level poured into row `y` of an open column before the flood.
pub open spec fn column_seed(dense: Seq<u16>, x: int, z: int, y: int) -> u8 {
    match arrive(dense, x, z, y) {
        Some(l) => if block::shadows_sun(dense[voxel::dense_index_spec(x, y, z)]) { 0 } else { l },
        None => 0,
    }
}

/// Whether the pour down column `(x, z)` reaches row `y` and queues its voxel: light
/// arrives there and the voxel casts no sun shadow.
pub open spec fn poured(dense: Seq<u16>, x: int, z: int, y: int) -> bool {
    arrive(dense, x, z, y) is Some && !block::shadows_sun(dense[voxel::dense_index_spec(x, y, z)])
}

/// The voxels of rows `y..64` of column `(x, z)` that the pour queues, from the top down.
pub open spec fn column_queue(dense: Seq<u16>, x: int, z: int, y: int) -> Seq<u32>
    decreases 64 - y,
{
    if y >= 64 {
        Seq::empty()
    } else {
        column_queue(dense, x, z, y + 1) + if poured(dense, x, z, y) {
            seq![voxel::dense_index_spec(x, y, z) as u32]
        } else {
            Seq::empty()
        }
    }
}

/// The sky flood's work queue after pouring the first `n` columns, in column order
/// (x fastest, then z), skipping the columns that see no sky.
pub open spec fn sky_queue(dense: Seq<u16>, open: Seq<bool>, n: int) -> Seq<u32>
    decreases n,
{
    if n <= 0 {
        Seq::empty()
    } else {
        sky_queue(dense, open, n - 1) + if open[n - 1] {
            column_queue(dense, x_col(n - 1), z_col(n - 1), 0)
        } else {
            Seq::empty()
        }
    }
}

pub open spec fn x_col(c: int) -> int {
    c % 64
}

pub open spec fn z_col(c: int) -> int {
    c / 64
}

/// Below a row that light does not reach past, nothing more is poured.
proof fn lemma_column_queue_rest(dense: Seq<u16>, x: int, z: int, y: int, r: int)
    requires
        0 <= r <= y,
        y == 0 || arrive(dense, x, z, y - 1) is None,
    ensures
        column_queue(dense, x, z, r) == column_queue(dense, x, z, y),
    decreases y - r,
{
    if r < y {
        lemma_column_queue_rest(dense, x, z, y, r + 1);
        lemma_arrive_none_below(dense, x, z, y - 1, r);
        assert(!poured(dense, x, z, r));
        assert(column_queue(dense, x, z, r) =~= column_queue(dense, x, z, r + 1));
    }
}

/// The voxels among the first `n` that emit light, in index order.
pub open spec fn emit_list(dense: Seq<u16>, n: int) -> Seq<u32>
    decreases n,
{
    if n <= 0 {
        Seq::empty()
    } else {
        emit_list(dense, n - 1) + if block::emits(dense[n - 1]) { seq![(n - 1) as u32] } else { Seq::empty() }
    }
}

/// The voxels among `e` whose channel `c` is lit, in the same order.
pub open spec fn keep_lit(e: Seq<u32>, dense: Seq<u16>, c: int) -> Seq<u32>
    decreases e.len(),
{
    if e.len() == 0 {
        Seq::empty()
    } else {
        keep_lit(e.drop_last(), dense, c) + if block::block_def(dense[e.last() as int]).light[c] > 0 {
            seq![e.last()]
        } else {
            Seq::empty()
        }
    }
}

/// Block light's work queue for channel `c`: every voxel whose channel `c` is lit, in index
/// order.
pub open spec fn light_queue(dense: Seq<u16>, c: int) -> Seq<u32> {
    keep_lit(emit_list(dense, VOL as int), dense, c)
}

/// The sky seed of voxel `i`: what falls straight down its column when the column is open.
pub open spec fn sky_seed(dense: Seq<u16>, open: Seq<bool>, i: int) -> u8 {
    let x = voxel::x_of(i);
    let z = voxel::z_of(i);
    if open[x + z * 64] { column_seed(dense, x, z, voxel::y_of(i)) } else { 0 }
}

pub open spec fn sky_seeds(dense: Seq<u16>, open: Seq<bool>) -> Seq<u8> {
    Seq::new(VOL as nat, |i: int| sky_seed(dense, open, i))
}

/// Channel `c` of each voxel's own emission.
pub open spec fn light_seeds(dense: Seq<u16>, c: int) -> Seq<u8> {
    Seq::new(VOL as nat, |i: int| block::block_def(dense[i]).light[c])
}

pub open spec fn any_emitter(dense: Seq<u16>) -> bool {
    exists|i: int| 0 <= i < VOL && block::emits(#[trigger] dense[i])
}

pub open spec fn all_air(dense: Seq<u16>) -> bool {
    forall|i: int| 0 <= i < VOL ==> #[trigger] dense[i] == AIR
}

pub open spec fn all_open(open: Seq<bool>) -> bool {
    forall|j: int| 0 <= j < open.len() ==> #[trigger] open[j]
}

pub open spec fn none_open(open: Seq<bool>) -> bool {
    forall|j: int| 0 <= j < open.len() ==> !#[trigger] open[j]
}

/// `level` is the flood from seed levels `init` and work queue `q`: where its run ends
/// ([`flood_run`]). It lies between the seeds and full level, raises only what a neighbour
/// supports, and is settled -- no open neighbour more than one level darker -- whenever
/// the run uses up its queue within the work cap ([`flood_settles`]).
pub open spec fn flood_result(init: Seq<u8>, q: Seq<u32>, level: Seq<u8>, dense: Seq<u16>, sunlight: bool) -> bool {
    &&& level == flood_run(init, q, dense, sunlight, 0).0
    &&& flooded(init, level, dense, sunlight)
    &&& flood_settles(init, q, dense, sunlight) ==> is_fixpoint(level, dense, sunlight)
}

/// `sky` and `blk` are what the chunk's floods give: the sky flood from the poured columns,
/// queued column by column from the top down, and -- when anything in the chunk emits --
/// one block flood per channel from the voxels lit in that channel, queued in index order,
/// with no channels at all otherwise (see [`flood_result`]). A settled flood is unique
/// ([`law_settled_flood_is_unique`]).
pub open spec fn lit_by(dense: Seq<u16>, open: Seq<bool>, sky: Seq<u8>, blk: Seq<Seq<u8>>) -> bool {
    &&& blk.len() == 3
    &&& flood_result(sky_seeds(dense, open), sky_queue(dense, open, 4096), sky, dense, true)
    &&& if any_emitter(dense) {
        &&& flood_result(light_seeds(dense, 0), light_queue(dense, 0), blk[0], dense, false)
        &&& flood_result(light_seeds(dense, 1), light_queue(dense, 1), blk[1], dense, false)
        &&& flood_result(light_seeds(dense, 2), light_queue(dense, 2), blk[2], dense, false)
    } else {
        blk[0].len() == 0 && blk[1].len() == 0 && blk[2].len() == 0
    }
}

/// The seeds of a single-channel block flood: each voxel's brightest channel.
pub open spec fn scalar_seeds(dense: Seq<u16>) -> Seq<u8> {
    max_fields(light_seeds(dense, 0), light_seeds(dense, 1), light_seeds(dense, 2))
}

/// Wherever each channel's flood uses up its queue within the work cap, a chunk's block
/// level -- the brightest of its three channels -- is at every voxel the settled
/// single-channel flood from each emitter's brightest channel: flooding the channels apart
/// changes no scalar level.
pub proof fn law_block_level_is_the_scalar_flood(
    dense: Seq<u16>,
    open: Seq<bool>,
    sky: Seq<u8>,
    blk: Seq<Seq<u8>>,
    l: Seq<u8>,
)
    requires
        lit_by(dense, open, sky, blk),
        any_emitter(dense),
        flood_settles(light_seeds(dense, 0), light_queue(dense, 0), dense, false),
        flood_settles(light_seeds(dense, 1), light_queue(dense, 1), dense, false),
        flood_settles(light_seeds(dense, 2), light_queue(dense, 2), dense, false),
        flooded(scalar_seeds(dense), l, dense, false),
        is_fixpoint(l, dense, false),
    ensures
        l == max_fields(blk[0], blk[1], blk[2]),
{
    law_brightest_channel_is_the_scalar_flood(
        light_seeds(dense, 0),
        light_seeds(dense, 1),
        light_seeds(dense, 2),
        blk[0],
        blk[1],
        blk[2],
        l,
        dense,
    );
}

proof fn lemma_arrive_none_below(dense: Seq<u16>, x: int, z: int, y: int, r: int)
    requires
        arrive(dense, x, z, y) is None,
        r <= y,
    ensures
        arrive(dense, x, z, r) is None,
    decreases y - r,
{
    if r < y {
        lemma_arrive_none_below(dense, x, z, y, r + 1);
    }
}

/// Pour the sky straight down one open column.
fn pour_column(dense: &[BlockId], sky: &mut Vec<u8>, queue: &mut Vec<u32>, x: usize, z: usize)
    requires
        dense@.len() == VOL,
        old(sky)@.len() == VOL,
        x < 64,
        z < 64,
        forall|y: int| 0 <= y < 64 ==> old(sky)@[#[trigger] voxel::dense_index_spec(x as int, y, z as int)] == 0,
        forall|k: int| 0 <= k < old(queue)@.len() ==> #[trigger] old(queue)@[k] < VOL,
    ensures
        final(sky)@.len() == VOL,
        forall|i: int| 0 <= i < VOL && (voxel::x_of(i) != x || voxel::z_of(i) != z) ==> #[trigger] final(sky)@[i] == old(sky)@[i],
        forall|y: int| 0 <= y < 64 ==> #[trigger] final(sky)@[voxel::dense_index_spec(x as int, y, z as int)]
            == column_seed(dense@, x as int, z as int, y),
        old(queue)@.len() <= final(queue)@.len() <= old(queue)@.len() + 64,
        final(queue)@ == old(queue)@ + column_queue(dense@, x as int, z as int, 0),
        forall|k: int| 0 <= k < old(queue)@.len() ==> #[trigger] final(queue)@[k] == old(queue)@[k],
        forall|k: int| 0 <= k < final(queue)@.len() ==> #[trigger] final(queue)@[k] < VOL,
        forall|y: int| 0 <= y < 64 && #[trigger] final(sky)@[voxel::dense_index_spec(x as int, y, z as int)] > 0
            ==> pending(final(queue)@, 0, voxel::dense_index_spec(x as int, y, z as int)),
{
    let ghost d = dense@;
    let ghost xi = x as int;
    let ghost zi = z as int;
    let mut level: u8 = MAX_LEVEL;
    let mut y: usize = 64;
    loop
        invariant_except_break
            0 < y <= 64,
            arrive(d, xi, zi, (y - 1) as int) == Some(level),
        invariant
            d == dense@,
            xi == x as int,
            zi == z as int,
            dense@.len() == VOL,
            sky@.len() == VOL,
            x < 64,
            z < 64,
            y <= 64,
            queue@.len() <= old(queue)@.len() + 64 - y,
            queue@ == old(queue)@ + column_queue(d, xi, zi, y as int),
            forall|i: int| 0 <= i < VOL && (voxel::x_of(i) != x || voxel::z_of(i) != z) ==> #[trigger] sky@[i] == old(sky)@[i],
            forall|r: int| y <= r < 64 ==> #[trigger] sky@[voxel::dense_index_spec(xi, r, zi)] == column_seed(d, xi, zi, r),
            forall|r: int| 0 <= r < y ==> #[trigger] sky@[voxel::dense_index_spec(xi, r, zi)] == 0,
            old(queue)@.len() <= queue@.len(),
            forall|k: int| 0 <= k < old(queue)@.len() ==> #[trigger] queue@[k] == old(queue)@[k],
            forall|k: int| 0 <= k < queue@.len() ==> #[trigger] queue@[k] < VOL,
            forall|r: int| y <= r < 64 && #[trigger] sky@[voxel::dense_index_spec(xi, r, zi)] > 0
                ==> pending(queue@, 0, voxel::dense_index_spec(xi, r, zi)),
        ensures
            sky@.len() == VOL,
            forall|i: int| 0 <= i < VOL && (voxel::x_of(i) != x || voxel::z_of(i) != z) ==> #[trigger] sky@[i] == old(sky)@[i],
            forall|r: int| 0 <= r < 64 ==> #[trigger] sky@[voxel::dense_index_spec(xi, r, zi)] == column_seed(d, xi, zi, r),
            old(queue)@.len() <= queue@.len() <= old(queue)@.len() + 64,
            queue@ == old(queue)@ + column_queue(d, xi, zi, 0),
            forall|k: int| 0 <= k < old(queue)@.len() ==> #[trigger] queue@[k] == old(queue)@[k],
            forall|k: int| 0 <= k < queue@.len() ==> #[trigger] queue@[k] < VOL,
            forall|r: int| 0 <= r < 64 && #[trigger] sky@[voxel::dense_index_spec(xi, r, zi)] > 0
                ==> pending(queue@, 0, voxel::dense_index_spec(xi, r, zi)),
        decreases y,
    {
        y -= 1;
        let i = voxel::dense_index(x, y, z);
        proof {
            voxel::lemma_index_coords(xi, y as int, zi);
        }
        if block::casts_sun_shadow(dense[i]) {
            proof {
                assert(arrive(d, xi, zi, y as int - 1) is None || y == 0);
                assert(!poured(d, xi, zi, y as int));
                assert(column_queue(d, xi, zi, y as int) =~= column_queue(d, xi, zi, y as int + 1));
                lemma_column_queue_rest(d, xi, zi, y as int, 0);
                assert forall|r: int| 0 <= r < 64 implies #[trigger] sky@[voxel::dense_index_spec(xi, r, zi)] == column_seed(d, xi, zi, r) by {
                    if r < y {
                        lemma_arrive_none_below(d, xi, zi, y as int - 1, r);
                    }
                }
            }
            break;
        }
        let ghost q0 = queue@;
        sky.set(i, level);
        queue.push(i as u32);
        proof {
            assert(poured(d, xi, zi, y as int));
            assert(queue@ =~= old(queue)@ + column_queue(d, xi, zi, y as int));
            assert forall|k: int| 0 <= k < old(queue)@.len() implies #[trigger] queue@[k] == old(queue)@[k] by {
                assert(queue@[k] == q0[k]);
            }
            assert forall|ii: int| 0 <= ii < VOL && (voxel::x_of(ii) != x || voxel::z_of(ii) != z) implies #[trigger] sky@[ii] == old(sky)@[ii] by {
                if ii == i {
                    voxel::lemma_index_coords(xi, y as int, zi);
                }
            }
            assert forall|r: int| y <= r < 64 && #[trigger] sky@[voxel::dense_index_spec(xi, r, zi)] > 0
                implies pending(queue@, 0, voxel::dense_index_spec(xi, r, zi)) by {
                if r == y {
                    assert(queue@[q0.len() as int] == i);
                } else {
                    voxel::lemma_index_coords(xi, r, zi);
                    assert(pending(q0, 0, voxel::dense_index_spec(xi, r, zi)));
                    let k = choose|k: int| 0 <= k < q0.len() && q0[k] == voxel::dense_index_spec(xi, r, zi);
                    assert(queue@[k] == q0[k]);
                }
            }
            assert forall|r: int| y <= r < 64 implies #[trigger] sky@[voxel::dense_index_spec(xi, r, zi)] == column_seed(d, xi, zi, r) by {
                voxel::lemma_index_coords(xi, r, zi);
            }
            assert forall|r: int| 0 <= r < y implies #[trigger] sky@[voxel::dense_index_spec(xi, r, zi)] == 0 by {
                voxel::lemma_index_coords(xi, r, zi);
            }
            assert forall|k: int| 0 <= k < queue@.len() implies #[trigger] queue@[k] < VOL by {
                if k < q0.len() {
                    assert(queue@[k] == q0[k]);
                }
            }
        }
        if dense[i] == WATER {
            if level == 0 {
                proof {
                    assert forall|r: int| 0 <= r < 64 implies #[trigger] sky@[voxel::dense_index_spec(xi, r, zi)] == column_seed(d, xi, zi, r) by {
                        if r < y {
                            lemma_arrive_none_below(d, xi, zi, y as int - 1, r);
                        }
                    }
                    lemma_column_queue_rest(d, xi, zi, y as int, 0);
                }
                break;
            }
            level -= 1;
        }
        if y == 0 {
            break;
        }
    }
}


/// Seed channel `c` of block light from the listed emitters.
fn seed_channel(dense: &[BlockId], emitters: &Vec<u32>, c: usize, level: &mut Vec<u8>, queue: &mut Vec<u32>)
    requires
        dense@.len() == VOL,
        c < 3,
        old(level)@.len() == VOL,
        forall|k: int| 0 <= k < VOL ==> #[trigger] old(level)@[k] == 0,
        forall|k: int| 0 <= k < emitters@.len() ==> #[trigger] emitters@[k] < VOL,
        forall|j: int| 0 <= j < VOL && block::emits(#[trigger] dense@[j]) ==> emitters@.contains(j as u32),
    ensures
        final(level)@ == light_seeds(dense@, c as int),
        final(queue)@.len() <= emitters@.len(),
        final(queue)@ == keep_lit(emitters@, dense@, c as int),
        forall|k: int| 0 <= k < final(queue)@.len() ==> #[trigger] final(queue)@[k] < VOL,
        forall|j: int| 0 <= j < VOL && #[trigger] final(level)@[j] > 0 ==> pending(final(queue)@, 0, j),
{
    queue.clear();
    let mut t: usize = 0;
    while t < emitters.len()
        invariant
            t <= emitters@.len(),
            queue@.len() <= t,
            queue@ == keep_lit(emitters@.take(t as int), dense@, c as int),
            dense@.len() == VOL,
            c < 3,
            level@.len() == VOL,
            forall|k: int| 0 <= k < emitters@.len() ==> #[trigger] emitters@[k] < VOL,
            forall|j: int| 0 <= j < VOL ==> #[trigger] level@[j] == 0 || level@[j] == block::block_def(dense@[j]).light[c as int],
            forall|k: int| 0 <= k < t ==> #[trigger] level@[emitters@[k] as int] == block::block_def(dense@[emitters@[k] as int]).light[c as int],
            forall|k: int| 0 <= k < queue@.len() ==> #[trigger] queue@[k] < VOL,
            forall|j: int| 0 <= j < VOL && #[trigger] level@[j] > 0 ==> pending(queue@, 0, j),
        decreases emitters@.len() - t,
    {
        let i = emitters[t] as usize;
        let e = block::def(dense[i]).light[c];
        assert(emitters@.take(t + 1).drop_last() =~= emitters@.take(t as int));
        assert(emitters@.take(t + 1).last() == emitters@[t as int]);
        if e > 0 {
            let ghost q0 = queue@;
            level.set(i, e);
            queue.push(i as u32);
            proof {
                assert forall|j: int| 0 <= j < VOL && #[trigger] level@[j] > 0 implies pending(queue@, 0, j) by {
                    if j == i {
                        assert(queue@[q0.len() as int] == i);
                    } else {
                        assert(pending(q0, 0, j));
                        let k = choose|k: int| 0 <= k < q0.len() && q0[k] == j;
                        assert(queue@[k] == q0[k]);
                    }
                }
                assert forall|k: int| 0 <= k < queue@.len() implies #[trigger] queue@[k] < VOL by {
                    if k < q0.len() {
                        assert(queue@[k] == q0[k]);
                    }
                }
            }
        }
        t += 1;
    }
    proof {
        assert forall|j: int| 0 <= j < VOL implies #[trigger] level@[j] == light_seeds(dense@, c as int)[j] by {
            if block::emits(dense@[j]) {
                assert(emitters@.contains(j as u32));
                let k = choose|k: int| 0 <= k < emitters@.len() && emitters@[k] == j as u32;
                assert(level@[emitters@[k] as int] == block::block_def(dense@[emitters@[k] as int]).light[c as int]);
            }
        }
        assert(level@ =~= light_seeds(dense@, c as int));
        assert(emitters@.take(emitters@.len() as int) =~= emitters@);
    }
}

/// Every voxel's own emission is at most full level.
proof fn lemma_light_bounded(id: u16)
    ensures
        block::block_def(id).light[0] <= MAX_LEVEL,
        block::block_def(id).light[1] <= MAX_LEVEL,
        block::block_def(id).light[2] <= MAX_LEVEL,
{
}

/// `d` is the light of a chunk of blocks `dense` whose columns see open sky as `open` says.
/// A chunk wholly above the terrain is uniformly full sky; a chunk with no sky and no
/// emitter uniformly dark; any other holds its floods, packed into bricks.
pub open spec fn lights(dense: Seq<u16>, open: Seq<bool>, d: LightData) -> bool {
    if all_open(open) && !any_emitter(dense) && all_air(dense) {
        d.cells@.len() == 0 && d.bricks@.len() == 0 && d.uniform == Some(pack_spec(MAX_LEVEL, [0u8, 0u8, 0u8]))
    } else if none_open(open) && !any_emitter(dense) {
        d.cells@.len() == 0 && d.bricks@.len() == 0 && d.uniform == Some(0u16)
    } else {
        exists|sky: Seq<u8>, blk: Seq<Seq<u8>>|
            #[trigger] lit_by(dense, open, sky, blk) && encodes(d, cells_of(sky, blk))
    }
}

/// Two results hold the same light: the same uniform value, cell table and bricks.
pub open spec fn same_light(a: LightData, b: LightData) -> bool {
    &&& a.uniform == b.uniform
    &&& a.cells@ == b.cells@
    &&& a.bricks@.len() == b.bricks@.len()
    &&& forall|k: int| 0 <= k < a.bricks@.len() ==> (#[trigger] a.bricks@[k])@ == b.bricks@[k]@
}

/// A chunk's light is fixed by its blocks and its open columns: two results that both light
/// the same chunk hold the same light. So lighting a chunk again after an edit
/// ([`relight`]) gives what [`compute`] gives for the same blocks and columns.
pub proof fn law_chunk_light_is_determined(dense: Seq<u16>, open: Seq<bool>, d1: LightData, d2: LightData)
    requires
        lights(dense, open, d1),
        lights(dense, open, d2),
    ensures
        same_light(d1, d2),
{
    if all_open(open) && !any_emitter(dense) && all_air(dense) {
    } else if none_open(open) && !any_emitter(dense) {
    } else {
        let (sky1, blk1) = choose|sky: Seq<u8>, blk: Seq<Seq<u8>>|
            #[trigger] lit_by(dense, open, sky, blk) && encodes(d1, cells_of(sky, blk));
        let (sky2, blk2) = choose|sky: Seq<u8>, blk: Seq<Seq<u8>>|
            #[trigger] lit_by(dense, open, sky, blk) && encodes(d2, cells_of(sky, blk));
        assert(sky1 == sky2);
        assert(blk1[0] == blk2[0]);
        assert(blk1[1] == blk2[1]);
        assert(blk1[2] == blk2[2]);
        assert(blk1 =~= blk2);
        let p = cells_of(sky1, blk1);
        if !chunk_uniform(p) {
            assert(d1.cells@ == d2.cells@);
        }
    }
    assert(d1.cells@ =~= d2.cells@);
}

/// Compute light for one chunk from its dense block array and which of its 64x64 columns
/// see open sky. A chunk wholly above the terrain is uniformly lit and a chunk with no sky
/// and no emitter uniformly dark; any other is poured, flooded and packed into bricks.
pub fn compute(dense: &[BlockId], above_open: &[bool]) -> (d: LightData)
    requires
        dense@.len() == VOL,
        above_open@.len() >= 4096 || (!any_emitter(dense@) && ((all_open(above_open@) && all_air(dense@))
            || none_open(above_open@))),
    ensures
        lights(dense@, above_open@, d),
{
    let mut any: bool = false;
    let mut j: usize = 0;
    while j < dense.len()
        invariant
            j <= dense@.len(),
            dense@.len() == VOL,
            any == exists|k: int| 0 <= k < j && block::emits(#[trigger] dense@[k]),
        decreases dense@.len() - j,
    {
        if block::is_emitter(dense[j]) {
            any = true;
        }
        j += 1;
    }
    let mut every_open = true;
    let mut no_open = true;
    let mut j: usize = 0;
    while j < above_open.len()
        invariant
            j <= above_open@.len(),
            every_open == forall|k: int| 0 <= k < j ==> #[trigger] above_open@[k],
            no_open == forall|k: int| 0 <= k < j ==> !#[trigger] above_open@[k],
        decreases above_open@.len() - j,
    {
        if above_open[j] {
            no_open = false;
        } else {
            every_open = false;
        }
        j += 1;
    }
    let mut air = true;
    let mut j: usize = 0;
    while j < dense.len()
        invariant
            j <= dense@.len(),
            air == forall|k: int| 0 <= k < j ==> #[trigger] dense@[k] == AIR,
        decreases dense@.len() - j,
    {
        if dense[j] != AIR {
            air = false;
        }
        j += 1;
    }
    if every_open && !any && air {
        return LightData { cells: Vec::new(), bricks: Vec::new(), uniform: Some(pack(MAX_LEVEL, [0, 0, 0])) };
    }
    if no_open && !any {
        return LightData { cells: Vec::new(), bricks: Vec::new(), uniform: Some(0) };
    }
    let mut sky: Vec<u8> = vec![0u8; VOL];
    let mut queue: Vec<u32> = Vec::with_capacity(4096);
    let mut z: usize = 0;
    while z < 64
        invariant
            z <= 64,
            dense@.len() == VOL,
            above_open@.len() >= 4096,
            sky@.len() == VOL,
            queue@.len() <= 4096 * z,
            queue@ == sky_queue(dense@, above_open@, 64 * z),
            forall|i: int| 0 <= i < VOL && voxel::z_of(i) >= z ==> #[trigger] sky@[i] == 0,
            forall|i: int| 0 <= i < VOL && voxel::z_of(i) < z ==> #[trigger] sky@[i] == sky_seed(dense@, above_open@, i),
            forall|k: int| 0 <= k < queue@.len() ==> #[trigger] queue@[k] < VOL,
            forall|i: int| 0 <= i < VOL && #[trigger] sky@[i] > 0 ==> pending(queue@, 0, i),
        decreases 64 - z,
    {
        let mut x: usize = 0;
        while x < 64
            invariant
                x <= 64,
                z < 64,
                queue@.len() <= 4096 * z + 64 * x,
                queue@ == sky_queue(dense@, above_open@, 64 * z + x),
                dense@.len() == VOL,
                above_open@.len() >= 4096,
                sky@.len() == VOL,
                forall|i: int| 0 <= i < VOL && (voxel::z_of(i) > z || (voxel::z_of(i) == z && voxel::x_of(i) >= x)) ==> #[trigger] sky@[i] == 0,
                forall|i: int| 0 <= i < VOL && (voxel::z_of(i) < z || (voxel::z_of(i) == z && voxel::x_of(i) < x)) ==> #[trigger] sky@[i] == sky_seed(dense@, above_open@, i),
                forall|k: int| 0 <= k < queue@.len() ==> #[trigger] queue@[k] < VOL,
                forall|i: int| 0 <= i < VOL && #[trigger] sky@[i] > 0 ==> pending(queue@, 0, i),
            decreases 64 - x,
        {
            proof {
                assert(x_col(64 * z + x) == x && z_col(64 * z + x) == z) by (nonlinear_arith)
                    requires
                        x < 64,
                ;
                assert(x + z * 64 == 64 * z + x);
            }
            if above_open[x + z * 64] {
                let ghost s0 = sky@;
                let ghost q0 = queue@;
                proof {
                    assert forall|y: int| 0 <= y < 64 implies s0[#[trigger] voxel::dense_index_spec(x as int, y, z as int)] == 0 by {
                        voxel::lemma_index_coords(x as int, y, z as int);
                    }
                }
                pour_column(dense, &mut sky, &mut queue, x, z);
                proof {
                    assert forall|i: int| 0 <= i < VOL && voxel::z_of(i) == z && voxel::x_of(i) == x implies #[trigger] sky@[i] == sky_seed(dense@, above_open@, i) by {
                        voxel::lemma_coords(i);
                        assert(sky@[voxel::dense_index_spec(x as int, voxel::y_of(i), z as int)] == column_seed(dense@, x as int, z as int, voxel::y_of(i)));
                    }
                    assert forall|i: int| 0 <= i < VOL && #[trigger] sky@[i] > 0 implies pending(queue@, 0, i) by {
                        if voxel::z_of(i) == z && voxel::x_of(i) == x {
                            voxel::lemma_coords(i);
                            assert(sky@[voxel::dense_index_spec(x as int, voxel::y_of(i), z as int)] > 0);
                        } else {
                            assert(s0[i] > 0);
                            assert(pending(q0, 0, i));
                            let k = choose|k: int| 0 <= k < q0.len() && q0[k] == i;
                            assert(queue@[k] == q0[k]);
                        }
                    }
                }
            } else {
                proof {
                    assert forall|i: int| 0 <= i < VOL && voxel::z_of(i) == z && voxel::x_of(i) == x implies #[trigger] sky@[i] == sky_seed(dense@, above_open@, i) by {
                    }
                }
            }
            x += 1;
        }
        z += 1;
    }
    proof {
        assert forall|i: int| 0 <= i < VOL implies #[trigger] sky@[i] == sky_seeds(dense@, above_open@)[i] by {
            voxel::lemma_coords(i);
        }
        assert(sky@ =~= sky_seeds(dense@, above_open@));
        assert forall|k: int| 0 <= k < VOL implies #[trigger] sky@[k] <= MAX_LEVEL by {
            lemma_arrive_bounded(dense@, voxel::x_of(k), voxel::z_of(k), voxel::y_of(k));
        }
    }
    let ghost sky0 = sky@;
    let ghost sq = queue@;
    assert(sq == sky_queue(dense@, above_open@, 4096));
    flood(sky.as_mut_slice(), dense, &mut queue, true);
    assert(flood_result(sky0, sq, sky@, dense@, true));
    let mut r: Vec<u8> = Vec::new();
    let mut g: Vec<u8> = Vec::new();
    let mut b: Vec<u8> = Vec::new();
    if any {
        let mut emitters: Vec<u32> = Vec::new();
        let mut j: usize = 0;
        while j < dense.len()
            invariant
                j <= dense@.len(),
                dense@.len() == VOL,
                emitters@.len() <= j,
                emitters@ == emit_list(dense@, j as int),
                forall|k: int| 0 <= k < emitters@.len() ==> #[trigger] emitters@[k] < VOL,
                forall|k: int| 0 <= k < j && block::emits(#[trigger] dense@[k]) ==> emitters@.contains(k as u32),
            decreases dense@.len() - j,
        {
            if block::is_emitter(dense[j]) {
                let ghost e0 = emitters@;
                emitters.push(j as u32);
                proof {
                    assert forall|k: int| 0 <= k < j + 1 && block::emits(#[trigger] dense@[k]) implies emitters@.contains(k as u32) by {
                        if k == j {
                            assert(emitters@[e0.len() as int] == k as u32);
                        } else {
                            assert(e0.contains(k as u32));
                            let t = choose|t: int| 0 <= t < e0.len() && e0[t] == k as u32;
                            assert(emitters@[t] == e0[t]);
                        }
                    }
                }
            }
            j += 1;
        }
        r = vec![0u8; VOL];
        g = vec![0u8; VOL];
        b = vec![0u8; VOL];
        seed_channel(dense, &emitters, 0, &mut r, &mut queue);
        proof { assert forall|k: int| 0 <= k < VOL implies #[trigger] r@[k] <= MAX_LEVEL by { lemma_light_bounded(dense@[k]); } }
        let ghost r0 = r@;
        let ghost rq = queue@;
        assert(rq == light_queue(dense@, 0));
        flood(r.as_mut_slice(), dense, &mut queue, false);
        assert(flood_result(r0, rq, r@, dense@, false));
        seed_channel(dense, &emitters, 1, &mut g, &mut queue);
        proof { assert forall|k: int| 0 <= k < VOL implies #[trigger] g@[k] <= MAX_LEVEL by { lemma_light_bounded(dense@[k]); } }
        let ghost g0 = g@;
        let ghost gq = queue@;
        assert(gq == light_queue(dense@, 1));
        flood(g.as_mut_slice(), dense, &mut queue, false);
        assert(flood_result(g0, gq, g@, dense@, false));
        seed_channel(dense, &emitters, 2, &mut b, &mut queue);
        proof { assert forall|k: int| 0 <= k < VOL implies #[trigger] b@[k] <= MAX_LEVEL by { lemma_light_bounded(dense@[k]); } }
        let ghost b0 = b@;
        let ghost bq = queue@;
        assert(bq == light_queue(dense@, 2));
        flood(b.as_mut_slice(), dense, &mut queue, false);
        assert(flood_result(b0, bq, b@, dense@, false));
    }
    let ghost blk_seq = seq![r@, g@, b@];
    let blk = [r, g, b];
    let d = pack_bricks(sky.as_slice(), &blk);
    proof {
        assert(lit_by(dense@, above_open@, sky@, blk_seq));
    }
    d
}

proof fn lemma_arrive_bounded(dense: Seq<u16>, x: int, z: int, y: int)
    ensures
        arrive(dense, x, z, y) matches Some(l) ==> l <= MAX_LEVEL,
    decreases 63 - y,
{
    if y < 63 {
        lemma_arrive_bounded(dense, x, z, y + 1);
    }
}

/// Which columns see open sky: those whose terrain height is at most `chunk_top`.
pub open spec fn columns_open(heights: Seq<i32>, chunk_top: int) -> Seq<bool> {
    Seq::new(4096, |j: int| heights[j] <= chunk_top)
}

/// Light a finest-level chunk again after an edit, from its blocks and the terrain height of
/// each of its columns; `origin_y` is the internal y of its lowest voxel layer.
pub fn relight(dense: &[BlockId], heights: &[i32; 4096], origin_y: i32) -> (d: LightData)
    requires
        dense@.len() == VOL,
        origin_y + 64 <= i32::MAX,
    ensures
        lights(dense@, columns_open(heights@, origin_y + 64), d),
{
    let open = open_columns(heights, origin_y + 64);
    assert(open@ =~= columns_open(heights@, origin_y + 64));
    compute(dense, open.as_slice())
}


// ------------------------------------------------------------------ what leaves do to light

/// Leaves, broadleaf and pine, are opaque and cast the sun's shadow: the block flood does not
/// pass them and the sky's pour stops on them.
pub proof fn law_leaves_are_opaque_and_shade()
    ensures
        block::block_def(block::LEAVES).opaque,
        block::shadows_sun(block::LEAVES),
        block::block_def(block::PINE_LEAVES).opaque,
        block::shadows_sun(block::PINE_LEAVES),
        forall|dense: Seq<u16>, n: int, sunlight: bool|
            #![trigger blocked(dense, n, sunlight)]
            dense[n] == block::LEAVES || dense[n] == block::PINE_LEAVES ==> blocked(dense, n, sunlight),
{
}

/// A block that casts the sun's shadow at row `k` of a column leaves no poured light below it.
proof fn lemma_arrive_stops_under(dense: Seq<u16>, x: int, z: int, k: int, y: int)
    requires
        0 <= k <= 63,
        y < k,
        block::shadows_sun(dense[voxel::dense_index_spec(x, k, z)]),
    ensures
        arrive(dense, x, z, y) is None,
{
    assert(arrive(dense, x, z, k - 1) is None);
    if y < k - 1 {
        lemma_arrive_none_below(dense, x, z, k - 1, y);
    }
}

/// Stepping to a neighbour changes the row by at most one and keeps the column otherwise.
proof fn lemma_nbr_rows(i: int, d: int)
    requires
        0 <= i < VOL,
        0 <= d < 6,
    ensures
        nbr(i, d) matches Some(n) ==> voxel::y_of(i) - 1 <= voxel::y_of(n) <= voxel::y_of(i) + 1 && 0 <= n < VOL
            && (voxel::y_of(n) != voxel::y_of(i) ==> voxel::x_of(n) == voxel::x_of(i) && voxel::z_of(n)
            == voxel::z_of(i)),
{
    voxel::lemma_coords(i);
    let x = voxel::x_of(i);
    let y = voxel::y_of(i);
    let z = voxel::z_of(i);
    if let Some(n) = nbr(i, d) {
        if d == 0 {
            voxel::lemma_index_coords(x - 1, y, z);
        } else if d == 1 {
            voxel::lemma_index_coords(x + 1, y, z);
        } else if d == 2 {
            voxel::lemma_index_coords(x, y - 1, z);
        } else if d == 3 {
            voxel::lemma_index_coords(x, y + 1, z);
        } else if d == 4 {
            voxel::lemma_index_coords(x, y, z - 1);
        } else {
            voxel::lemma_index_coords(x, y, z + 1);
        }
    }
}

/// Row `k` of the chunk is closed against the sun: every block in it casts the sun's shadow.
pub open spec fn closed_row(dense: Seq<u16>, k: int) -> bool {
    forall|x: int, z: int| 0 <= x < 64 && 0 <= z < 64 ==> block::shadows_sun(#[trigger] dense[voxel::dense_index_spec(x, k, z)])
}

/// Under a closed row the sky seeds nothing, and the row itself seeds nothing.
proof fn lemma_no_seed_under(dense: Seq<u16>, open: Seq<bool>, k: int, i: int)
    requires
        0 <= k <= 63,
        closed_row(dense, k),
        0 <= i < VOL,
        voxel::y_of(i) <= k,
    ensures
        sky_seed(dense, open, i) == 0,
{
    voxel::lemma_coords(i);
    let x = voxel::x_of(i);
    let z = voxel::z_of(i);
    assert(block::shadows_sun(dense[voxel::dense_index_spec(x, k, z)]));
    if voxel::y_of(i) < k {
        lemma_arrive_stops_under(dense, x, z, k, voxel::y_of(i));
    }
}

proof fn lemma_dark_under(dense: Seq<u16>, open: Seq<bool>, level: Seq<u8>, k: int, m: int)
    requires
        0 <= k <= 63,
        closed_row(dense, k),
        flooded(sky_seeds(dense, open), level, dense, true),
        1 <= m <= 16,
    ensures
        forall|i: int| 0 <= i < VOL && voxel::y_of(i) < k ==> #[trigger] level[i] == 0 || level[i] < m,
    decreases 16 - m,
{
    let init = sky_seeds(dense, open);
    if m < 16 {
        lemma_dark_under(dense, open, level, k, m + 1);
        assert forall|i: int| 0 <= i < VOL && voxel::y_of(i) < k implies #[trigger] level[i] == 0 || level[i] < m by {
            if level[i] != 0 && level[i] >= m {
                lemma_no_seed_under(dense, open, k, i);
                assert(init[i] == 0);
                assert(supported(init, level, dense, true, i));
                lemma_brighter_neighbour(level, i, m + 1);
                let d = choose|d: int| 0 <= d < 6 && #[trigger] bright_nbr(level, i, d, m + 1);
                lemma_nbr_rows(i, d);
                let n = nbr(i, d)->0;
                if voxel::y_of(n) < k {
                    assert(level[n] == 0 || level[n] < m + 1);
                } else {
                    voxel::lemma_coords(n);
                    assert(voxel::y_of(n) == k);
                    assert(block::shadows_sun(dense[voxel::dense_index_spec(voxel::x_of(n), k, voxel::z_of(n))]));
                    assert(blocked(dense, n, true));
                    assert(supported(init, level, dense, true, n));
                    lemma_no_seed_under(dense, open, k, n);
                    assert(level[n] == 0);
                }
            }
        }
    }
}

/// Sky light does not get under a closed canopy: when a whole row of the chunk casts the
/// sun's shadow -- a layer of leaves, say -- every voxel below it holds no sky light, in any
/// flood the sky seeds, and so in the light [`compute`] gives.
pub proof fn law_no_sky_under_a_closed_row(dense: Seq<u16>, open: Seq<bool>, level: Seq<u8>, k: int)
    requires
        0 <= k <= 63,
        closed_row(dense, k),
        flooded(sky_seeds(dense, open), level, dense, true),
    ensures
        forall|i: int| 0 <= i < VOL && voxel::y_of(i) < k ==> #[trigger] level[i] == 0,
{
    lemma_dark_under(dense, open, level, k, 1);
}

/// Under a canopy -- a whole row of leaves -- the sky flood leaves every voxel dark.
pub proof fn law_no_sky_under_a_leaf_canopy(dense: Seq<u16>, open: Seq<bool>, level: Seq<u8>, k: int)
    requires
        0 <= k <= 63,
        forall|x: int, z: int| 0 <= x < 64 && 0 <= z < 64 ==> #[trigger] dense[voxel::dense_index_spec(x, k, z)] == block::LEAVES,
        flooded(sky_seeds(dense, open), level, dense, true),
    ensures
        forall|i: int| 0 <= i < VOL && voxel::y_of(i) < k ==> #[trigger] level[i] == 0,
{
    law_leaves_are_opaque_and_shade();
    assert forall|x: int, z: int| 0 <= x < 64 && 0 <= z < 64 implies block::shadows_sun(
        #[trigger] dense[voxel::dense_index_spec(x, k, z)],
    ) by {
        assert(dense[voxel::dense_index_spec(x, k, z)] == block::LEAVES);
    }
    law_no_sky_under_a_closed_row(dense, open, level, k);
}
} // verus!
