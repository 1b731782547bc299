//! The block table: what each block id looks like, whether it fills its voxel, and
//! whether it emits or stops light.

use vstd::prelude::*;

pub mod perm;
pub mod tex;

verus! {

pub type BlockId = u16;

pub const AIR: BlockId = 0;
pub const STONE: BlockId = 1;
pub const DIRT: BlockId = 2;
pub const GRASS: BlockId = 3;
pub const SAND: BlockId = 4;
pub const GRAVEL: BlockId = 5;
pub const LOG: BlockId = 6;
pub const LEAVES: BlockId = 7;
pub const PLANKS: BlockId = 8;
pub const COBBLE: BlockId = 9;
pub const GLASS: BlockId = 10;
pub const GLOWSTONE: BlockId = 11;
pub const BEDROCK: BlockId = 12;
pub const WATER: BlockId = 13;
pub const SNOW: BlockId = 14;
pub const PODZOL: BlockId = 15;
pub const PINE_LEAVES: BlockId = 16;
pub const LICHEN: BlockId = 17;
pub const TALL_GRASS: BlockId = 18;
pub const MEADOW: BlockId = 19;
pub const MEADOW_SIDE: BlockId = 23;
pub const AMBER_LAMP: BlockId = 20;
pub const AZURE_LAMP: BlockId = 21;
pub const VERDANT_LAMP: BlockId = 22;
pub const GRASS_TALL: BlockId = 24;
pub const REEDS: BlockId = 25;
pub const BLOCK_COUNT: usize = 26;

/// Bits of a packed face word that hold the atlas layer; the permutation class sits above.
pub const FACE_LAYER_BITS: u32 = 16;
pub const FACE_LAYER_MASK: u32 = 65535;

/// Entries per block in [`face_table`]: the six faces, then the side face twice more.
pub const FACES_PER_BLOCK: usize = 8;

/// The default hotbar, slot by slot.
pub const SLOTS: usize = 10;
pub type Bar = [BlockId; SLOTS];

/// The default hotbar, slot by slot.
pub open spec fn hotbar() -> Bar {
    [STONE, DIRT, GRASS, SAND, PLANKS, LOG, LEAVES, COBBLE, GLASS, GLOWSTONE]
}

pub fn default_bar() -> (b: Bar)
    ensures
        b == hotbar(),
{
    [STONE, DIRT, GRASS, SAND, PLANKS, LOG, LEAVES, COBBLE, GLASS, GLOWSTONE]
}

/// The permutation class of an atlas layer, as the texture sampler is allowed to use it.
pub open spec fn perm_class_spec(layer: u32) -> u32 {
    if layer == tex::DIRT || layer == tex::GRASS_TOP || layer == tex::SAND || layer == tex::PODZOL
        || layer == tex::LEAVES || layer == tex::PINE_LEAVES || layer == tex::MEADOW_TOP {
        perm::D4
    } else if layer == tex::MEADOW_SIDE || layer == tex::GRASS_SIDE {
        perm::FLIP_U
    } else {
        perm::NONE
    }
}

/// The permutation class of each atlas layer.
pub fn perm_class(layer: u32) -> (c: u32)
    requires
        layer < tex::COUNT,
    ensures
        c == perm_class_spec(layer),
{
    if layer == tex::DIRT || layer == tex::GRASS_TOP || layer == tex::SAND || layer == tex::PODZOL
        || layer == tex::LEAVES || layer == tex::PINE_LEAVES || layer == tex::MEADOW_TOP {
        perm::D4
    } else if layer == tex::MEADOW_SIDE || layer == tex::GRASS_SIDE {
        perm::FLIP_U
    } else {
        perm::NONE
    }
}

/// A packed face word: the layer in the low 16 bits, its permutation class above them.
pub open spec fn pack_face_spec(layer: u32) -> u32 {
    (layer | (perm_class_spec(layer) << FACE_LAYER_BITS)) as u32
}

pub fn pack_face(layer: u32) -> (w: u32)
    requires
        layer < tex::COUNT,
    ensures
        w == pack_face_spec(layer),
        w & FACE_LAYER_MASK == layer,
        w >> FACE_LAYER_BITS == perm_class_spec(layer),
{
    let c = perm_class(layer);
    let w = layer | (c << FACE_LAYER_BITS);
    assert(w & 65535 == layer && w >> 16 == c) by (bit_vector)
        requires
            w == layer | (c << 16u32),
            layer < 27,
            c <= 2,
    ;
    w
}

#[derive(Clone, Copy, Debug)]
pub struct BlockDef {
    pub name: &'static str,
    pub faces: [u32; 6],
    pub solid: bool,
    pub opaque: bool,
    pub foliage: bool,
    pub cutout: bool,
    pub light: [u8; 3],
}

pub open spec fn spec_all(t: u32) -> [u32; 6] {
    [t, t, t, t, t, t]
}

pub open spec fn spec_column(side: u32, bottom: u32, top: u32) -> [u32; 6] {
    [side, side, bottom, top, side, side]
}

/// The same layer on all six faces.
pub fn all(t: u32) -> (f: [u32; 6])
    ensures
        f == spec_all(t),
{
    [t, t, t, t, t, t]
}

/// Sides, bottom and top, in face order `-x +x -y +y -z +z`.
pub fn column(side: u32, bottom: u32, top: u32) -> (f: [u32; 6])
    ensures
        f == spec_column(side, bottom, top),
{
    [side, side, bottom, top, side, side]
}

/// The table entry for a block id; ids past the table read as its last entry.
pub open spec fn block_def(id: u16) -> BlockDef {
    match id {
        0 => BlockDef { name: "air", faces: spec_all(0), solid: false, opaque: false, foliage: false, cutout: false, light: [0, 0, 0] },
        1 => BlockDef { name: "stone", faces: spec_all(tex::STONE), solid: true, opaque: true, foliage: false, cutout: false, light: [0, 0, 0] },
        2 => BlockDef { name: "dirt", faces: spec_all(tex::DIRT), solid: true, opaque: true, foliage: false, cutout: false, light: [0, 0, 0] },
        3 => BlockDef { name: "grass", faces: spec_column(tex::GRASS_SIDE, tex::DIRT, tex::GRASS_TOP), solid: true, opaque: true, foliage: false, cutout: false, light: [0, 0, 0] },
        4 => BlockDef { name: "sand", faces: spec_all(tex::SAND), solid: true, opaque: true, foliage: false, cutout: false, light: [0, 0, 0] },
        5 => BlockDef { name: "gravel", faces: spec_all(tex::GRAVEL), solid: true, opaque: true, foliage: false, cutout: false, light: [0, 0, 0] },
        6 => BlockDef { name: "log", faces: spec_column(tex::LOG_SIDE, tex::LOG_TOP, tex::LOG_TOP), solid: true, opaque: true, foliage: false, cutout: false, light: [0, 0, 0] },
        7 => BlockDef { name: "leaves", faces: spec_all(tex::LEAVES), solid: true, opaque: true, foliage: false, cutout: true, light: [0, 0, 0] },
        8 => BlockDef { name: "planks", faces: spec_all(tex::PLANKS), solid: true, opaque: true, foliage: false, cutout: false, light: [0, 0, 0] },
        9 => BlockDef { name: "cobblestone", faces: spec_all(tex::COBBLE), solid: true, opaque: true, foliage: false, cutout: false, light: [0, 0, 0] },
        10 => BlockDef { name: "glass", faces: spec_all(tex::GLASS), solid: true, opaque: false, foliage: false, cutout: false, light: [0, 0, 0] },
        11 => BlockDef { name: "glowstone", faces: spec_all(tex::GLOWSTONE), solid: true, opaque: true, foliage: false, cutout: false, light: [15, 13, 9] },
        12 => BlockDef { name: "bedrock", faces: spec_all(tex::BEDROCK), solid: true, opaque: true, foliage: false, cutout: false, light: [0, 0, 0] },
        13 => BlockDef { name: "water", faces: spec_all(tex::WATER), solid: false, opaque: false, foliage: false, cutout: false, light: [0, 0, 0] },
        14 => BlockDef { name: "snow", faces: spec_all(tex::SNOW), solid: true, opaque: true, foliage: false, cutout: false, light: [0, 0, 0] },
        15 => BlockDef { name: "podzol", faces: spec_all(tex::PODZOL), solid: true, opaque: true, foliage: false, cutout: false, light: [0, 0, 0] },
        16 => BlockDef { name: "pine leaves", faces: spec_all(tex::PINE_LEAVES), solid: true, opaque: true, foliage: false, cutout: true, light: [0, 0, 0] },
        17 => BlockDef { name: "lichen", faces: spec_all(tex::LICHEN), solid: true, opaque: true, foliage: false, cutout: false, light: [0, 0, 0] },
        18 => BlockDef { name: "tall grass", faces: spec_all(tex::TALL_GRASS), solid: false, opaque: false, foliage: true, cutout: false, light: [0, 0, 0] },
        19 => BlockDef { name: "meadow", faces: spec_column(tex::GRASS_SIDE, tex::DIRT, tex::MEADOW_TOP), solid: true, opaque: true, foliage: false, cutout: false, light: [0, 0, 0] },
        20 => BlockDef { name: "amber lamp", faces: spec_all(tex::AMBER_LAMP), solid: true, opaque: true, foliage: false, cutout: false, light: [15, 9, 3] },
        21 => BlockDef { name: "azure lamp", faces: spec_all(tex::AZURE_LAMP), solid: true, opaque: true, foliage: false, cutout: false, light: [3, 9, 15] },
        22 => BlockDef { name: "verdant lamp", faces: spec_all(tex::VERDANT_LAMP), solid: true, opaque: true, foliage: false, cutout: false, light: [4, 15, 6] },
        23 => BlockDef { name: "meadow-side", faces: spec_column(tex::MEADOW_SIDE, tex::DIRT, tex::MEADOW_TOP), solid: true, opaque: true, foliage: false, cutout: false, light: [0, 0, 0] },
        24 => BlockDef { name: "grass, tall", faces: spec_all(tex::GRASS_TALL), solid: false, opaque: false, foliage: true, cutout: false, light: [0, 0, 0] },
        _ => BlockDef { name: "reeds", faces: spec_all(tex::REEDS), solid: false, opaque: false, foliage: true, cutout: false, light: [0, 0, 0] },
    }
}

/// The definition of a block. An id past the table reads as the table's last entry, the
/// same clamp the renderer's lookup uses.
pub fn def(id: BlockId) -> (d: BlockDef)
    ensures
        d == block_def(id),
{
    let i: u16 = if (id as usize) < BLOCK_COUNT - 1 { id } else { 25 };
    match i {
        0 => BlockDef { name: "air", faces: all(0), solid: false, opaque: false, foliage: false, cutout: false, light: [0, 0, 0] },
        1 => BlockDef { name: "stone", faces: all(tex::STONE), solid: true, opaque: true, foliage: false, cutout: false, light: [0, 0, 0] },
        2 => BlockDef { name: "dirt", faces: all(tex::DIRT), solid: true, opaque: true, foliage: false, cutout: false, light: [0, 0, 0] },
        3 => BlockDef { name: "grass", faces: column(tex::GRASS_SIDE, tex::DIRT, tex::GRASS_TOP), solid: true, opaque: true, foliage: false, cutout: false, light: [0, 0, 0] },
        4 => BlockDef { name: "sand", faces: all(tex::SAND), solid: true, opaque: true, foliage: false, cutout: false, light: [0, 0, 0] },
        5 => BlockDef { name: "gravel", faces: all(tex::GRAVEL), solid: true, opaque: true, foliage: false, cutout: false, light: [0, 0, 0] },
        6 => BlockDef { name: "log", faces: column(tex::LOG_SIDE, tex::LOG_TOP, tex::LOG_TOP), solid: true, opaque: true, foliage: false, cutout: false, light: [0, 0, 0] },
        7 => BlockDef { name: "leaves", faces: all(tex::LEAVES), solid: true, opaque: true, foliage: false, cutout: true, light: [0, 0, 0] },
        8 => BlockDef { name: "planks", faces: all(tex::PLANKS), solid: true, opaque: true, foliage: false, cutout: false, light: [0, 0, 0] },
        9 => BlockDef { name: "cobblestone", faces: all(tex::COBBLE), solid: true, opaque: true, foliage: false, cutout: false, light: [0, 0, 0] },
        10 => BlockDef { name: "glass", faces: all(tex::GLASS), solid: true, opaque: false, foliage: false, cutout: false, light: [0, 0, 0] },
        11 => BlockDef { name: "glowstone", faces: all(tex::GLOWSTONE), solid: true, opaque: true, foliage: false, cutout: false, light: [15, 13, 9] },
        12 => BlockDef { name: "bedrock", faces: all(tex::BEDROCK), solid: true, opaque: true, foliage: false, cutout: false, light: [0, 0, 0] },
        13 => BlockDef { name: "water", faces: all(tex::WATER), solid: false, opaque: false, foliage: false, cutout: false, light: [0, 0, 0] },
        14 => BlockDef { name: "snow", faces: all(tex::SNOW), solid: true, opaque: true, foliage: false, cutout: false, light: [0, 0, 0] },
        15 => BlockDef { name: "podzol", faces: all(tex::PODZOL), solid: true, opaque: true, foliage: false, cutout: false, light: [0, 0, 0] },
        16 => BlockDef { name: "pine leaves", faces: all(tex::PINE_LEAVES), solid: true, opaque: true, foliage: false, cutout: true, light: [0, 0, 0] },
        17 => BlockDef { name: "lichen", faces: all(tex::LICHEN), solid: true, opaque: true, foliage: false, cutout: false, light: [0, 0, 0] },
        18 => BlockDef { name: "tall grass", faces: all(tex::TALL_GRASS), solid: false, opaque: false, foliage: true, cutout: false, light: [0, 0, 0] },
        19 => BlockDef { name: "meadow", faces: column(tex::GRASS_SIDE, tex::DIRT, tex::MEADOW_TOP), solid: true, opaque: true, foliage: false, cutout: false, light: [0, 0, 0] },
        20 => BlockDef { name: "amber lamp", faces: all(tex::AMBER_LAMP), solid: true, opaque: true, foliage: false, cutout: false, light: [15, 9, 3] },
        21 => BlockDef { name: "azure lamp", faces: all(tex::AZURE_LAMP), solid: true, opaque: true, foliage: false, cutout: false, light: [3, 9, 15] },
        22 => BlockDef { name: "verdant lamp", faces: all(tex::VERDANT_LAMP), solid: true, opaque: true, foliage: false, cutout: false, light: [4, 15, 6] },
        23 => BlockDef { name: "meadow-side", faces: column(tex::MEADOW_SIDE, tex::DIRT, tex::MEADOW_TOP), solid: true, opaque: true, foliage: false, cutout: false, light: [0, 0, 0] },
        24 => BlockDef { name: "grass, tall", faces: all(tex::GRASS_TALL), solid: false, opaque: false, foliage: true, cutout: false, light: [0, 0, 0] },
        _ => BlockDef { name: "reeds", faces: all(tex::REEDS), solid: false, opaque: false, foliage: true, cutout: false, light: [0, 0, 0] },
    }
}

/// Why a block id cannot go in a hotbar slot, or `None` when it can.
pub open spec fn refusal_spec(id: u16) -> Option<&'static str> {
    if id == AIR {
        Some("air is not a block you can place")
    } else if id == WATER {
        Some("water would let a run with no sea in it acquire a water pixel")
    } else if id == TALL_GRASS || id == GRASS_TALL || id == REEDS {
        Some("a placed tuft is invisible in a build compiled without foliage")
    } else if id as usize >= BLOCK_COUNT {
        Some("no block has that id")
    } else {
        None
    }
}

/// A block may sit in a bar slot when it is a real, placeable, visible block.
pub open spec fn placeable(id: u16) -> bool {
    id < BLOCK_COUNT && id != AIR && id != WATER && id != TALL_GRASS && id != GRASS_TALL
        && id != REEDS
}

pub fn bar_slot_refusal(id: BlockId) -> (r: Option<&'static str>)
    ensures
        r == refusal_spec(id),
        r is None <==> placeable(id),
{
    if id == AIR {
        Some("air is not a block you can place")
    } else if id == WATER {
        Some("water would let a run with no sea in it acquire a water pixel")
    } else if id == TALL_GRASS || id == GRASS_TALL || id == REEDS {
        Some("a placed tuft is invisible in a build compiled without foliage")
    } else if id as usize >= BLOCK_COUNT {
        Some("no block has that id")
    } else {
        None
    }
}

/// Every slot of a bar holds a block that may sit there.
pub open spec fn bar_ok(b: Seq<u16>) -> bool {
    b.len() == SLOTS && forall|i: int| 0 <= i < SLOTS ==> #[trigger] placeable(b[i])
}

/// The bar after block `id` is picked into `slot`: it goes in when it may sit in a bar.
pub open spec fn picked(b: Seq<u16>, slot: int, id: u16) -> Seq<u16> {
    if placeable(id) {
        b.update(slot, id)
    } else {
        b
    }
}

/// Put block `id` in the selected slot of a bar, unless it may not sit in a bar; whether
/// it went in.
pub fn pick_into_bar(bar: &mut Bar, slot: usize, id: BlockId) -> (put: bool)
    requires
        slot < SLOTS,
    ensures
        put == placeable(id),
        final(bar)@ == picked(old(bar)@, slot as int, id),
{
    if bar_slot_refusal(id).is_some() {
        return false;
    }
    bar[slot] = id;
    proof {
        assert(bar@ =~= old(bar)@.update(slot as int, id));
    }
    true
}

/// The starting bar holds only blocks that may sit in a bar.
pub proof fn law_default_bar_is_placeable()
    ensures
        bar_ok(hotbar()@),
{
    let h = hotbar()@;
    assert(placeable(h[0]) && placeable(h[1]) && placeable(h[2]) && placeable(h[3]) && placeable(h[4]));
    assert(placeable(h[5]) && placeable(h[6]) && placeable(h[7]) && placeable(h[8]) && placeable(h[9]));
}

/// Picking a block into a bar of placeable blocks leaves every slot placeable.
pub proof fn law_pick_keeps_bar_placeable(b: Seq<u16>, slot: int, id: u16)
    requires
        bar_ok(b),
        0 <= slot < SLOTS,
    ensures
        bar_ok(picked(b, slot, id)),
{
}

/// Anything but air occupies its voxel in the geometry tree.
pub fn fills_voxel(id: BlockId) -> (b: bool)
    ensures
        b <==> id != AIR,
{
    id != AIR
}

/// The packed face words of every block, [`FACES_PER_BLOCK`] to a block.
pub open spec fn face_table_entry(k: int) -> u32 {
    let f = block_def((k / 8) as u16).faces;
    let j = k % 8;
    if j < 6 { pack_face_spec(f[j]) } else { pack_face_spec(f[0]) }
}

pub fn face_table() -> (v: Vec<u32>)
    ensures
        v@.len() == BLOCK_COUNT * FACES_PER_BLOCK,
        forall|k: int| 0 <= k < v@.len() ==> v@[k] == #[trigger] face_table_entry(k),
{
    let mut v: Vec<u32> = Vec::with_capacity(BLOCK_COUNT * FACES_PER_BLOCK);
    let mut b: u16 = 0;
    while b < 26
        invariant
            b <= 26,
            v@.len() == b * 8,
            forall|k: int| 0 <= k < v@.len() ==> v@[k] == #[trigger] face_table_entry(k),
        decreases 26 - b,
    {
        let d = def(b);
        proof { layers_in_atlas(b); }
        let mut f: usize = 0;
        while f < 6
            invariant
                b < 26,
                f <= 6,
                d == block_def(b),
                forall|j: int| 0 <= j < 6 ==> d.faces[j] < tex::COUNT,
                v@.len() == b * 8 + f,
                forall|k: int| 0 <= k < v@.len() ==> v@[k] == #[trigger] face_table_entry(k),
            decreases 6 - f,
        {
            let w = pack_face(d.faces[f]);
            v.push(w);
            proof {
                let k = b * 8 + f;
                assert(k / 8 == b as int && k % 8 == f as int);
                assert(v@[k] == face_table_entry(k));
            }
            f += 1;
        }
        let w = pack_face(d.faces[0]);
        v.push(w);
        v.push(w);
        proof {
            let k6 = b * 8 + 6;
            let k7 = b * 8 + 7;
            assert(k6 / 8 == b as int && k6 % 8 == 6);
            assert(k7 / 8 == b as int && k7 % 8 == 7);
            assert(v@[k6] == face_table_entry(k6));
            assert(v@[k7] == face_table_entry(k7));
        }
        b += 1;
    }
    v
}

/// Every face of every block names a layer the atlas has.
pub proof fn layers_in_atlas(id: u16)
    ensures
        forall|j: int| 0 <= j < 6 ==> #[trigger] block_def(id).faces[j] < tex::COUNT,
{
}

pub fn is_foliage(id: BlockId) -> (b: bool)
    ensures
        b == block_def(id).foliage,
{
    def(id).foliage
}

pub fn is_glass(id: BlockId) -> (b: bool)
    ensures
        b <==> id == GLASS,
{
    id == GLASS
}

/// A block emits when any of its three light channels is non-zero.
pub open spec fn emits(id: u16) -> bool {
    let l = block_def(id).light;
    l[0] != 0 || l[1] != 0 || l[2] != 0
}

pub fn is_emitter(id: BlockId) -> (b: bool)
    ensures
        b == emits(id),
{
    let l = def(id).light;
    l[0] != 0 || l[1] != 0 || l[2] != 0
}

pub fn is_cutout(id: BlockId) -> (b: bool)
    ensures
        b == block_def(id).cutout,
{
    def(id).cutout
}

/// Opaque blocks cast the sun's shadow, except glowstone, which would otherwise darken
/// the room it lights.
pub open spec fn shadows_sun(id: u16) -> bool {
    block_def(id).opaque && id != GLOWSTONE
}

pub fn casts_sun_shadow(id: BlockId) -> (b: bool)
    ensures
        b == shadows_sun(id),
{
    def(id).opaque && id != GLOWSTONE
}


/// What light passes through: every solid block but glass is opaque, and nothing else is --
/// air, water and the plants of the ground cover let light by.
pub proof fn law_opaque_is_solid_but_glass(id: u16)
    ensures
        block_def(id).opaque <==> block_def(id).solid && id != GLASS,
        block_def(id).foliage ==> !block_def(id).solid && !block_def(id).opaque,
{
}

/// The blocks that give off light are glowstone and the three coloured lamps, and each shines
/// at full level in its brightest channel.
pub proof fn law_emitters_are_the_lamps(id: u16)
    ensures
        emits(id) <==> id == GLOWSTONE || id == AMBER_LAMP || id == AZURE_LAMP || id == VERDANT_LAMP,
        emits(id) ==> block_def(id).light[0] == 15 || block_def(id).light[1] == 15 || block_def(id).light[2] == 15,
{
}
} // verus!
