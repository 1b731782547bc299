use voxelcraft::render::{
    FLAG_AO, FLAG_HIZ, FLAG_HI_SHADOW_PASS, FLAG_HI_SHORE_WET, FLAG_HI_SUN_WIDE, FLAG_HI_WATER_LOOK,
    FLAG_SHADOWS, FLAG_SKY_TINT, FLAG_TINT, FLAG_WAVES, FLAG_WAVE_ANISO, FLAG_WAVE_FILL,
};
use voxelcraft::scene::{flags_from, spec_hi_from, Switches};

fn off() -> Switches {
    Switches {
        sea_level: 0,
        shadows: false,
        ao: false,
        hiz: false,
        water_reflect: false,
        water_refract: false,
        tint: false,
        biomes: false,
        foliage: false,
        waves: false,
        wave_aniso: false,
        wave_shoal: false,
        wave_fill: false,
        terrain_shafts: false,
        tex_variation: false,
        leaf_cutout: false,
        flat_secondary: false,
        water_far: false,
        water_dark: false,
        snell: false,
        probe_tap: false,
        probe_ambient: false,
        probe_cube: false,
        probe_bounce: false,
        probe_sun: false,
        probe_sun_high: false,
        light_rgb: false,
        sky_tint: false,
        glass: false,
        distant_shadows: false,
        water_shadow_cut: false,
        leaf_thin: false,
        isolate_glass: false,
        legacy_lighting: false,
        legacy_water: false,
        soft_shadow_hq: false,
        surface_debug: 0,
        sun_softness: 0,
        compact_shade_hit: false,
        sky_specular: false,
        full_march: false,
        shore_wet: false,
        shore_foam: false,
        water_sec: false,
        caustics: false,
        snell_bend: false,
        water_look: false,
        tint_balance: false,
        wind_sway: false,
        soft_shadows: false,
        foliage_rich: false,
        canopy_relief: false,
        glass_reflect: false,
        sky_look: false,
        sky_cool: false,
    }
}

#[test]
fn everything_off_leaves_only_the_shadow_pass() {
    assert_eq!(flags_from(&off(), false, false), 0);
    assert_eq!(spec_hi_from(&off()), FLAG_HI_SHADOW_PASS);
}

#[test]
fn switches_set_their_flags() {
    let mut s = off();
    s.shadows = true;
    s.ao = true;
    s.sky_tint = true;
    assert_eq!(flags_from(&s, false, false), FLAG_SHADOWS | FLAG_AO | FLAG_SKY_TINT);
}

#[test]
fn hiz_needs_the_frame_and_the_config() {
    let mut s = off();
    assert_eq!(flags_from(&s, false, true), 0);
    s.hiz = true;
    assert_eq!(flags_from(&s, false, false), 0);
    assert_eq!(flags_from(&s, false, true), FLAG_HIZ);
    assert_eq!(flags_from(&s, true, true), FLAG_HIZ | 2);
}

#[test]
fn tint_needs_biomes() {
    let mut s = off();
    s.tint = true;
    assert_eq!(flags_from(&s, false, false), 0);
    s.biomes = true;
    assert_eq!(flags_from(&s, false, false), FLAG_TINT);
}

#[test]
fn waves_need_a_sea_and_refinements_need_waves() {
    let mut s = off();
    s.wave_aniso = true;
    s.wave_fill = true;
    s.waves = true;
    assert_eq!(flags_from(&s, false, false), 0);
    s.sea_level = 62;
    assert_eq!(flags_from(&s, false, false), FLAG_WAVES | FLAG_WAVE_ANISO | FLAG_WAVE_FILL);
    s.waves = false;
    assert_eq!(flags_from(&s, false, false), 0);
}

#[test]
fn shore_effects_need_a_sea() {
    let mut s = off();
    s.shore_wet = true;
    s.water_look = true;
    assert_eq!(spec_hi_from(&s), FLAG_HI_SHADOW_PASS);
    s.sea_level = 1;
    assert_eq!(spec_hi_from(&s), FLAG_HI_SHADOW_PASS | FLAG_HI_SHORE_WET | FLAG_HI_WATER_LOOK);
}

#[test]
fn debug_view_and_sun_softness_bits() {
    let mut s = off();
    s.surface_debug = 9;
    s.sun_softness = 2;
    assert_eq!(spec_hi_from(&s), FLAG_HI_SHADOW_PASS | (7 << 23) | FLAG_HI_SUN_WIDE);
    s.surface_debug = 3;
    s.sun_softness = 5;
    assert_eq!(spec_hi_from(&s), FLAG_HI_SHADOW_PASS | (3 << 23));
}
