use voxelcraft::block::{
    bar_slot_refusal, casts_sun_shadow, def, default_bar, face_table, fills_voxel, is_cutout,
    is_emitter, is_foliage, is_glass, pack_face, perm_class, pick_into_bar, AIR, BLOCK_COUNT, FACES_PER_BLOCK,
    GLASS, GLOWSTONE, GRASS, LEAVES, REEDS, STONE, TALL_GRASS, WATER,
};
use voxelcraft::block::{perm, tex};

#[test]
fn default_bar_is_the_ten_starting_blocks() {
    assert_eq!(default_bar(), [1, 2, 3, 4, 8, 6, 7, 9, 10, 11]);
}

#[test]
fn perm_classes_follow_the_layer() {
    assert_eq!(perm_class(tex::DIRT), perm::D4);
    assert_eq!(perm_class(tex::GRASS_SIDE), perm::FLIP_U);
    assert_eq!(perm_class(tex::MEADOW_SIDE), perm::FLIP_U);
    assert_eq!(perm_class(tex::STONE), perm::NONE);
    assert_eq!(perm_class(tex::GLASS), perm::NONE);
}

#[test]
fn pack_face_puts_the_class_above_the_layer() {
    assert_eq!(pack_face(tex::STONE), 0);
    assert_eq!(pack_face(tex::DIRT), 1 | (2 << 16));
    assert_eq!(pack_face(tex::GRASS_SIDE), 3 | (1 << 16));
    assert_eq!(pack_face(tex::REEDS), 26);
}

#[test]
fn def_reads_the_table() {
    let g = def(GRASS);
    assert_eq!(g.name, "grass");
    assert_eq!(g.faces, [tex::GRASS_SIDE, tex::GRASS_SIDE, tex::DIRT, tex::GRASS_TOP, tex::GRASS_SIDE, tex::GRASS_SIDE]);
    assert!(g.solid && g.opaque && !g.foliage && !g.cutout);
    assert_eq!(def(GLOWSTONE).light, [15, 13, 9]);
    assert_eq!(def(21).light, [3, 9, 15]);
    assert_eq!(def(WATER).name, "water");
    assert!(!def(WATER).solid);
}

#[test]
fn def_clamps_ids_past_the_table() {
    assert_eq!(def(26).name, "reeds");
    assert_eq!(def(9999).name, "reeds");
    assert_eq!(def(REEDS).name, def(u16::MAX).name);
}

#[test]
fn bar_slot_refusal_gives_each_reason() {
    assert_eq!(bar_slot_refusal(AIR), Some("air is not a block you can place"));
    assert_eq!(
        bar_slot_refusal(WATER),
        Some("water would let a run with no sea in it acquire a water pixel")
    );
    assert_eq!(
        bar_slot_refusal(TALL_GRASS),
        Some("a placed tuft is invisible in a build compiled without foliage")
    );
    assert_eq!(
        bar_slot_refusal(REEDS),
        Some("a placed tuft is invisible in a build compiled without foliage")
    );
    assert_eq!(bar_slot_refusal(26), Some("no block has that id"));
    assert_eq!(bar_slot_refusal(STONE), None);
    assert_eq!(bar_slot_refusal(GLOWSTONE), None);
}

#[test]
fn block_predicates() {
    assert!(!fills_voxel(AIR));
    assert!(fills_voxel(WATER));
    assert!(is_foliage(TALL_GRASS));
    assert!(!is_foliage(LEAVES));
    assert!(is_glass(GLASS));
    assert!(!is_glass(STONE));
    assert!(is_emitter(GLOWSTONE));
    assert!(is_emitter(22));
    assert!(!is_emitter(STONE));
    assert!(is_cutout(LEAVES));
    assert!(is_cutout(16));
    assert!(!is_cutout(STONE));
    assert!(casts_sun_shadow(STONE));
    assert!(!casts_sun_shadow(GLOWSTONE));
    assert!(!casts_sun_shadow(GLASS));
    assert!(!casts_sun_shadow(WATER));
}

#[test]
fn face_table_has_eight_words_a_block() {
    let t = face_table();
    assert_eq!(t.len(), BLOCK_COUNT * FACES_PER_BLOCK);
    let g = GRASS as usize * 8;
    assert_eq!(t[g + 3], pack_face(tex::GRASS_TOP));
    assert_eq!(t[g + 2], pack_face(tex::DIRT));
    assert_eq!(t[g + 6], pack_face(tex::GRASS_SIDE));
    assert_eq!(t[g + 7], pack_face(tex::GRASS_SIDE));
    assert_eq!(t[0], 0);
}

#[test]
fn pick_into_bar_refuses_unplaceable_blocks() {
    let mut bar = default_bar();
    assert!(pick_into_bar(&mut bar, 3, GLOWSTONE));
    assert_eq!(bar, [1, 2, 3, 11, 8, 6, 7, 9, 10, 11]);
    assert!(!pick_into_bar(&mut bar, 0, WATER));
    assert!(!pick_into_bar(&mut bar, 9, AIR));
    assert!(!pick_into_bar(&mut bar, 5, 200));
    assert_eq!(bar, [1, 2, 3, 11, 8, 6, 7, 9, 10, 11]);
}
