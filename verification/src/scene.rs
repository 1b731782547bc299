//! What the scene setup shares with the window and headless modes: the two pipeline words
//! a configuration turns into, and how a switch prints.

use vstd::prelude::*;
use crate::render;

verus! {

/// A switch as the status lines print it.
pub fn on(b: bool) -> (s: &'static str)
    ensures
        s@ == if b { "on"@ } else { "off"@ },
{
    if b { "on" } else { "off" }
}

/// The switches of a configuration the pipeline words are made from. `waves` is whether
/// the wave amplitude is above nought, `foliage` whether the world grows ground cover,
/// and `sky_look` whether any sky-look amount is above nought.
#[derive(Clone, Copy, Debug)]
pub struct Switches {
    pub sea_level: i32,
    pub shadows: bool,
    pub ao: bool,
    pub hiz: bool,
    pub water_reflect: bool,
    pub water_refract: bool,
    pub tint: bool,
    pub biomes: bool,
    pub foliage: bool,
    pub waves: bool,
    pub wave_aniso: bool,
    pub wave_shoal: bool,
    pub wave_fill: bool,
    pub terrain_shafts: bool,
    pub tex_variation: bool,
    pub leaf_cutout: bool,
    pub flat_secondary: bool,
    pub water_far: bool,
    pub water_dark: bool,
    pub snell: bool,
    pub probe_tap: bool,
    pub probe_ambient: bool,
    pub probe_cube: bool,
    pub probe_bounce: bool,
    pub probe_sun: bool,
    pub probe_sun_high: bool,
    pub light_rgb: bool,
    pub sky_tint: bool,
    pub glass: bool,
    pub distant_shadows: bool,
    pub water_shadow_cut: bool,
    pub leaf_thin: bool,
    pub isolate_glass: bool,
    pub legacy_lighting: bool,
    pub legacy_water: bool,
    pub soft_shadow_hq: bool,
    pub surface_debug: u32,
    pub sun_softness: u32,
    pub compact_shade_hit: bool,
    pub sky_specular: bool,
    pub full_march: bool,
    pub shore_wet: bool,
    pub shore_foam: bool,
    pub water_sec: bool,
    pub caustics: bool,
    pub snell_bend: bool,
    pub water_look: bool,
    pub tint_balance: bool,
    pub wind_sway: bool,
    pub soft_shadows: bool,
    pub foliage_rich: bool,
    pub canopy_relief: bool,
    pub glass_reflect: bool,
    pub sky_look: bool,
    pub sky_cool: bool,
}

/// `flag` when `on`, else nothing.
pub open spec fn bit(on: bool, flag: u32) -> u32 {
    if on {
        flag
    } else {
        0
    }
}

/// The first pipeline word: a flag for each feature switched on. The heat map and Hi-Z are
/// the frame's own; Hi-Z needs the configuration's consent too; the waves need a sea, and
/// their three refinements need the waves.
pub open spec fn pipeline_word(s: Switches, heatmap: bool, hiz: bool) -> u32 {
    let waves = s.waves && s.sea_level > 0;
    0u32 | bit(s.shadows, render::FLAG_SHADOWS) | bit(s.ao, render::FLAG_AO) | bit(heatmap, render::FLAG_HEATMAP) | bit(
        hiz && s.hiz,
        render::FLAG_HIZ,
    ) | bit(s.water_reflect, render::FLAG_WATER_REFLECT) | bit(s.water_refract, render::FLAG_WATER_REFRACT) | bit(
        s.tint && s.biomes,
        render::FLAG_TINT,
    ) | bit(s.foliage, render::FLAG_FOLIAGE) | bit(waves, render::FLAG_WAVES) | bit(
        waves && s.wave_aniso,
        render::FLAG_WAVE_ANISO,
    ) | bit(waves && s.wave_shoal, render::FLAG_WAVE_SHOAL) | bit(waves && s.wave_fill, render::FLAG_WAVE_FILL)
        | bit(s.terrain_shafts, render::FLAG_TERRAIN_SHAFTS) | bit(s.tex_variation, render::FLAG_TEX_VARIATION)
        | bit(s.leaf_cutout, render::FLAG_LEAF_CUTOUT) | bit(s.flat_secondary, render::FLAG_FLAT_SECONDARY) | bit(
        s.water_far,
        render::FLAG_WATER_FAR,
    ) | bit(s.water_dark, render::FLAG_WATER_DARK) | bit(s.snell, render::FLAG_SNELL) | bit(
        s.probe_tap,
        render::FLAG_PROBE_TAP,
    ) | bit(s.probe_ambient, render::FLAG_PROBE_AMBIENT) | bit(s.probe_cube, render::FLAG_PROBE_CUBE) | bit(
        s.probe_bounce,
        render::FLAG_PROBE_BOUNCE,
    ) | bit(s.probe_sun, render::FLAG_PROBE_SUN) | bit(s.probe_sun_high, render::FLAG_PROBE_SUN_HIGH) | bit(
        s.light_rgb,
        render::FLAG_LIGHT_RGB,
    ) | bit(s.sky_tint, render::FLAG_SKY_TINT) | bit(s.glass, render::FLAG_GLASS) | bit(
        s.distant_shadows,
        render::FLAG_DISTANT_SHADOWS,
    ) | bit(s.water_shadow_cut, render::FLAG_WATER_SHADOW_CUT) | bit(s.leaf_thin, render::FLAG_LEAF_THIN)
}

/// The surface debug view, no more than seven, in the word's three debug bits.
pub open spec fn debug_bits(v: u32) -> u32 {
    ((if v <= 7 { v } else { 7 }) << 23u32) as u32
}

/// The second pipeline word: the shadow pass always, a flag for each switch on, the
/// surface debug view, the sun's softness, and the shore and water effects only with a sea.
pub open spec fn spec_hi_word(s: Switches) -> u32 {
    let sea = s.sea_level > 0;
    0u32 | bit(s.isolate_glass, render::FLAG_HI_ISOLATE_GLASS) | render::FLAG_HI_SHADOW_PASS | bit(s.legacy_lighting, render::FLAG_HI_LEGACY_LIGHTING) | bit(
        s.legacy_water,
        render::FLAG_HI_LEGACY_WATER,
    ) | bit(s.soft_shadow_hq, render::FLAG_HI_SOFT_HQ) | debug_bits(s.surface_debug) | bit(
        s.sun_softness == 1,
        render::FLAG_HI_SUN_NARROW,
    ) | bit(s.sun_softness == 2, render::FLAG_HI_SUN_WIDE) | bit(
        s.compact_shade_hit,
        render::FLAG_HI_COMPACT_SHADE_HIT,
    ) | bit(s.sky_specular, render::FLAG_HI_SKY_SPECULAR) | bit(s.full_march, render::FLAG_HI_FULL_MARCH) | bit(
        sea && s.shore_wet,
        render::FLAG_HI_SHORE_WET,
    ) | bit(sea && s.shore_foam, render::FLAG_HI_SHORE_FOAM) | bit(sea && s.water_sec, render::FLAG_HI_WATER_SEC)
        | bit(sea && s.caustics, render::FLAG_HI_CAUSTICS) | bit(sea && s.snell_bend, render::FLAG_HI_SNELL_BEND)
        | bit(sea && s.water_look, render::FLAG_HI_WATER_LOOK) | bit(s.tint_balance, render::FLAG_HI_TINT_BALANCE)
        | bit(s.wind_sway, render::FLAG_HI_WIND_SWAY) | bit(s.soft_shadows, render::FLAG_HI_SOFT_SHADOWS) | bit(
        s.foliage_rich,
        render::FLAG_HI_FOLIAGE_RICH,
    ) | bit(s.canopy_relief, render::FLAG_HI_CANOPY_RELIEF) | bit(s.glass_reflect, render::FLAG_HI_GLASS_REFLECT)
        | bit(s.sky_look, render::FLAG_HI_SKY_LOOK) | bit(s.sky_cool, render::FLAG_HI_SKY_COOL)
}

fn flag(on: bool, f: u32) -> (b: u32)
    ensures
        b == bit(on, f),
{
    if on {
        f
    } else {
        0
    }
}

/// The first pipeline word of a configuration, for a frame that draws the heat map or not
/// and wants Hi-Z culling or not.
pub fn flags_from(s: &Switches, heatmap: bool, hiz: bool) -> (f: u32)
    ensures
        f == pipeline_word(*s, heatmap, hiz),
{
    let waves = s.waves && s.sea_level > 0;
    let mut f = 0u32;
    f = f | flag(s.shadows, render::FLAG_SHADOWS);
    f = f | flag(s.ao, render::FLAG_AO);
    f = f | flag(heatmap, render::FLAG_HEATMAP);
    f = f | flag(hiz && s.hiz, render::FLAG_HIZ);
    f = f | flag(s.water_reflect, render::FLAG_WATER_REFLECT);
    f = f | flag(s.water_refract, render::FLAG_WATER_REFRACT);
    f = f | flag(s.tint && s.biomes, render::FLAG_TINT);
    f = f | flag(s.foliage, render::FLAG_FOLIAGE);
    f = f | flag(waves, render::FLAG_WAVES);
    f = f | flag(waves && s.wave_aniso, render::FLAG_WAVE_ANISO);
    f = f | flag(waves && s.wave_shoal, render::FLAG_WAVE_SHOAL);
    f = f | flag(waves && s.wave_fill, render::FLAG_WAVE_FILL);
    f = f | flag(s.terrain_shafts, render::FLAG_TERRAIN_SHAFTS);
    f = f | flag(s.tex_variation, render::FLAG_TEX_VARIATION);
    f = f | flag(s.leaf_cutout, render::FLAG_LEAF_CUTOUT);
    f = f | flag(s.flat_secondary, render::FLAG_FLAT_SECONDARY);
    f = f | flag(s.water_far, render::FLAG_WATER_FAR);
    f = f | flag(s.water_dark, render::FLAG_WATER_DARK);
    f = f | flag(s.snell, render::FLAG_SNELL);
    f = f | flag(s.probe_tap, render::FLAG_PROBE_TAP);
    f = f | flag(s.probe_ambient, render::FLAG_PROBE_AMBIENT);
    f = f | flag(s.probe_cube, render::FLAG_PROBE_CUBE);
    f = f | flag(s.probe_bounce, render::FLAG_PROBE_BOUNCE);
    f = f | flag(s.probe_sun, render::FLAG_PROBE_SUN);
    f = f | flag(s.probe_sun_high, render::FLAG_PROBE_SUN_HIGH);
    f = f | flag(s.light_rgb, render::FLAG_LIGHT_RGB);
    f = f | flag(s.sky_tint, render::FLAG_SKY_TINT);
    f = f | flag(s.glass, render::FLAG_GLASS);
    f = f | flag(s.distant_shadows, render::FLAG_DISTANT_SHADOWS);
    f = f | flag(s.water_shadow_cut, render::FLAG_WATER_SHADOW_CUT);
    f = f | flag(s.leaf_thin, render::FLAG_LEAF_THIN);
    f
}

/// The second pipeline word of a configuration.
pub fn spec_hi_from(s: &Switches) -> (f: u32)
    ensures
        f == spec_hi_word(*s),
{
    let sea = s.sea_level > 0;
    let mut f = 0u32;
    f = f | flag(s.isolate_glass, render::FLAG_HI_ISOLATE_GLASS);
    f = f | render::FLAG_HI_SHADOW_PASS;
    f = f | flag(s.legacy_lighting, render::FLAG_HI_LEGACY_LIGHTING);
    f = f | flag(s.legacy_water, render::FLAG_HI_LEGACY_WATER);
    f = f | flag(s.soft_shadow_hq, render::FLAG_HI_SOFT_HQ);
    let d = if s.surface_debug <= 7 { s.surface_debug } else { 7 };
    f = f | (d << 23u32);
    f = f | flag(s.sun_softness == 1, render::FLAG_HI_SUN_NARROW);
    f = f | flag(s.sun_softness == 2, render::FLAG_HI_SUN_WIDE);
    f = f | flag(s.compact_shade_hit, render::FLAG_HI_COMPACT_SHADE_HIT);
    f = f | flag(s.sky_specular, render::FLAG_HI_SKY_SPECULAR);
    f = f | flag(s.full_march, render::FLAG_HI_FULL_MARCH);
    f = f | flag(sea && s.shore_wet, render::FLAG_HI_SHORE_WET);
    f = f | flag(sea && s.shore_foam, render::FLAG_HI_SHORE_FOAM);
    f = f | flag(sea && s.water_sec, render::FLAG_HI_WATER_SEC);
    f = f | flag(sea && s.caustics, render::FLAG_HI_CAUSTICS);
    f = f | flag(sea && s.snell_bend, render::FLAG_HI_SNELL_BEND);
    f = f | flag(sea && s.water_look, render::FLAG_HI_WATER_LOOK);
    f = f | flag(s.tint_balance, render::FLAG_HI_TINT_BALANCE);
    f = f | flag(s.wind_sway, render::FLAG_HI_WIND_SWAY);
    f = f | flag(s.soft_shadows, render::FLAG_HI_SOFT_SHADOWS);
    f = f | flag(s.foliage_rich, render::FLAG_HI_FOLIAGE_RICH);
    f = f | flag(s.canopy_relief, render::FLAG_HI_CANOPY_RELIEF);
    f = f | flag(s.glass_reflect, render::FLAG_HI_GLASS_REFLECT);
    f = f | flag(s.sky_look, render::FLAG_HI_SKY_LOOK);
    f = f | flag(s.sky_cool, render::FLAG_HI_SKY_COOL);
    f
}



/// Each switch owns its bit of the first pipeline word: the bit is set exactly when its
/// switch is on -- Hi-Z only when the frame wants it and the configuration allows it, the tint
/// only with biomes, the waves and their refinements only with a sea -- and the underwater bit
/// is never set here.
#[verifier::spinoff_prover]
pub proof fn law_each_switch_owns_its_bit(s: Switches, heatmap: bool, hiz: bool)
    ensures
        ({
            let w = pipeline_word(s, heatmap, hiz);
            let waves = s.waves && s.sea_level > 0;
            &&& (w & render::FLAG_SHADOWS != 0) == (s.shadows)
            &&& (w & render::FLAG_AO != 0) == (s.ao)
            &&& (w & render::FLAG_HEATMAP != 0) == (heatmap)
            &&& (w & render::FLAG_HIZ != 0) == (hiz && s.hiz)
            &&& (w & render::FLAG_WATER_REFLECT != 0) == (s.water_reflect)
            &&& (w & render::FLAG_WATER_REFRACT != 0) == (s.water_refract)
            &&& (w & render::FLAG_TINT != 0) == (s.tint && s.biomes)
            &&& (w & render::FLAG_FOLIAGE != 0) == (s.foliage)
            &&& (w & render::FLAG_WAVES != 0) == (waves)
            &&& (w & render::FLAG_WAVE_ANISO != 0) == (waves && s.wave_aniso)
            &&& (w & render::FLAG_WAVE_SHOAL != 0) == (waves && s.wave_shoal)
            &&& (w & render::FLAG_WAVE_FILL != 0) == (waves && s.wave_fill)
            &&& (w & render::FLAG_TERRAIN_SHAFTS != 0) == (s.terrain_shafts)
            &&& (w & render::FLAG_TEX_VARIATION != 0) == (s.tex_variation)
            &&& (w & render::FLAG_LEAF_CUTOUT != 0) == (s.leaf_cutout)
            &&& (w & render::FLAG_FLAT_SECONDARY != 0) == (s.flat_secondary)
            &&& (w & render::FLAG_WATER_FAR != 0) == (s.water_far)
            &&& (w & render::FLAG_WATER_DARK != 0) == (s.water_dark)
            &&& (w & render::FLAG_SNELL != 0) == (s.snell)
            &&& (w & render::FLAG_PROBE_TAP != 0) == (s.probe_tap)
            &&& (w & render::FLAG_PROBE_AMBIENT != 0) == (s.probe_ambient)
            &&& (w & render::FLAG_PROBE_CUBE != 0) == (s.probe_cube)
            &&& (w & render::FLAG_PROBE_BOUNCE != 0) == (s.probe_bounce)
            &&& (w & render::FLAG_PROBE_SUN != 0) == (s.probe_sun)
            &&& (w & render::FLAG_PROBE_SUN_HIGH != 0) == (s.probe_sun_high)
            &&& (w & render::FLAG_LIGHT_RGB != 0) == (s.light_rgb)
            &&& (w & render::FLAG_SKY_TINT != 0) == (s.sky_tint)
            &&& (w & render::FLAG_GLASS != 0) == (s.glass)
            &&& (w & render::FLAG_DISTANT_SHADOWS != 0) == (s.distant_shadows)
            &&& (w & render::FLAG_WATER_SHADOW_CUT != 0) == (s.water_shadow_cut)
            &&& (w & render::FLAG_LEAF_THIN != 0) == (s.leaf_thin)
            &&& w & render::FLAG_UNDERWATER == 0
        }),
{
    let waves = s.waves && s.sea_level > 0;
    let b0: bool = s.shadows;
    let b1: bool = s.ao;
    let b2: bool = heatmap;
    let b3: bool = hiz && s.hiz;
    let b4: bool = s.water_reflect;
    let b5: bool = s.water_refract;
    let b6: bool = s.tint && s.biomes;
    let b7: bool = s.foliage;
    let b8: bool = waves;
    let b9: bool = waves && s.wave_aniso;
    let b10: bool = waves && s.wave_shoal;
    let b11: bool = waves && s.wave_fill;
    let b12: bool = s.terrain_shafts;
    let b13: bool = s.tex_variation;
    let b14: bool = s.leaf_cutout;
    let b15: bool = s.flat_secondary;
    let b16: bool = s.water_far;
    let b17: bool = s.water_dark;
    let b18: bool = s.snell;
    let b19: bool = s.probe_tap;
    let b20: bool = s.probe_ambient;
    let b21: bool = s.probe_cube;
    let b22: bool = s.probe_bounce;
    let b23: bool = s.probe_sun;
    let b24: bool = s.probe_sun_high;
    let b25: bool = s.light_rgb;
    let b26: bool = s.sky_tint;
    let b27: bool = s.glass;
    let b28: bool = s.distant_shadows;
    let b29: bool = s.water_shadow_cut;
    let b30: bool = s.leaf_thin;
    let w: u32 = pipeline_word(s, heatmap, hiz);
    assert(w == 0u32 | bit(b0, render::FLAG_SHADOWS) | bit(b1, render::FLAG_AO) | bit(b2, render::FLAG_HEATMAP) | bit(b3, render::FLAG_HIZ) | bit(b4, render::FLAG_WATER_REFLECT) | bit(b5, render::FLAG_WATER_REFRACT) | bit(b6, render::FLAG_TINT) | bit(b7, render::FLAG_FOLIAGE) | bit(b8, render::FLAG_WAVES) | bit(b9, render::FLAG_WAVE_ANISO) | bit(b10, render::FLAG_WAVE_SHOAL) | bit(b11, render::FLAG_WAVE_FILL) | bit(b12, render::FLAG_TERRAIN_SHAFTS) | bit(b13, render::FLAG_TEX_VARIATION) | bit(b14, render::FLAG_LEAF_CUTOUT) | bit(b15, render::FLAG_FLAT_SECONDARY) | bit(b16, render::FLAG_WATER_FAR) | bit(b17, render::FLAG_WATER_DARK) | bit(b18, render::FLAG_SNELL) | bit(b19, render::FLAG_PROBE_TAP) | bit(b20, render::FLAG_PROBE_AMBIENT) | bit(b21, render::FLAG_PROBE_CUBE) | bit(b22, render::FLAG_PROBE_BOUNCE) | bit(b23, render::FLAG_PROBE_SUN) | bit(b24, render::FLAG_PROBE_SUN_HIGH) | bit(b25, render::FLAG_LIGHT_RGB) | bit(b26, render::FLAG_SKY_TINT) | bit(b27, render::FLAG_GLASS) | bit(b28, render::FLAG_DISTANT_SHADOWS) | bit(b29, render::FLAG_WATER_SHADOW_CUT) | bit(b30, render::FLAG_LEAF_THIN));
    assert({
        &&& (w & render::FLAG_SHADOWS != 0) == b0
        &&& (w & render::FLAG_AO != 0) == b1
        &&& (w & render::FLAG_HEATMAP != 0) == b2
        &&& (w & render::FLAG_HIZ != 0) == b3
        &&& (w & render::FLAG_WATER_REFLECT != 0) == b4
        &&& (w & render::FLAG_WATER_REFRACT != 0) == b5
        &&& (w & render::FLAG_TINT != 0) == b6
        &&& (w & render::FLAG_FOLIAGE != 0) == b7
        &&& (w & render::FLAG_WAVES != 0) == b8
        &&& (w & render::FLAG_WAVE_ANISO != 0) == b9
        &&& (w & render::FLAG_WAVE_SHOAL != 0) == b10
        &&& (w & render::FLAG_WAVE_FILL != 0) == b11
        &&& (w & render::FLAG_TERRAIN_SHAFTS != 0) == b12
        &&& (w & render::FLAG_TEX_VARIATION != 0) == b13
        &&& (w & render::FLAG_LEAF_CUTOUT != 0) == b14
        &&& (w & render::FLAG_FLAT_SECONDARY != 0) == b15
    }) by (bit_vector)
        requires
            w == 0u32 | bit(b0, render::FLAG_SHADOWS) | bit(b1, render::FLAG_AO) | bit(b2, render::FLAG_HEATMAP) | bit(b3, render::FLAG_HIZ) | bit(b4, render::FLAG_WATER_REFLECT) | bit(b5, render::FLAG_WATER_REFRACT) | bit(b6, render::FLAG_TINT) | bit(b7, render::FLAG_FOLIAGE) | bit(b8, render::FLAG_WAVES) | bit(b9, render::FLAG_WAVE_ANISO) | bit(b10, render::FLAG_WAVE_SHOAL) | bit(b11, render::FLAG_WAVE_FILL) | bit(b12, render::FLAG_TERRAIN_SHAFTS) | bit(b13, render::FLAG_TEX_VARIATION) | bit(b14, render::FLAG_LEAF_CUTOUT) | bit(b15, render::FLAG_FLAT_SECONDARY) | bit(b16, render::FLAG_WATER_FAR) | bit(b17, render::FLAG_WATER_DARK) | bit(b18, render::FLAG_SNELL) | bit(b19, render::FLAG_PROBE_TAP) | bit(b20, render::FLAG_PROBE_AMBIENT) | bit(b21, render::FLAG_PROBE_CUBE) | bit(b22, render::FLAG_PROBE_BOUNCE) | bit(b23, render::FLAG_PROBE_SUN) | bit(b24, render::FLAG_PROBE_SUN_HIGH) | bit(b25, render::FLAG_LIGHT_RGB) | bit(b26, render::FLAG_SKY_TINT) | bit(b27, render::FLAG_GLASS) | bit(b28, render::FLAG_DISTANT_SHADOWS) | bit(b29, render::FLAG_WATER_SHADOW_CUT) | bit(b30, render::FLAG_LEAF_THIN),
    ;
    assert({
        &&& (w & render::FLAG_WATER_FAR != 0) == b16
        &&& (w & render::FLAG_WATER_DARK != 0) == b17
        &&& (w & render::FLAG_SNELL != 0) == b18
        &&& (w & render::FLAG_PROBE_TAP != 0) == b19
        &&& (w & render::FLAG_PROBE_AMBIENT != 0) == b20
        &&& (w & render::FLAG_PROBE_CUBE != 0) == b21
        &&& (w & render::FLAG_PROBE_BOUNCE != 0) == b22
        &&& (w & render::FLAG_PROBE_SUN != 0) == b23
        &&& (w & render::FLAG_PROBE_SUN_HIGH != 0) == b24
        &&& (w & render::FLAG_LIGHT_RGB != 0) == b25
        &&& (w & render::FLAG_SKY_TINT != 0) == b26
        &&& (w & render::FLAG_GLASS != 0) == b27
        &&& (w & render::FLAG_DISTANT_SHADOWS != 0) == b28
        &&& (w & render::FLAG_WATER_SHADOW_CUT != 0) == b29
        &&& (w & render::FLAG_LEAF_THIN != 0) == b30
        &&& w & render::FLAG_UNDERWATER == 0
    }) by (bit_vector)
        requires
            w == 0u32 | bit(b0, render::FLAG_SHADOWS) | bit(b1, render::FLAG_AO) | bit(b2, render::FLAG_HEATMAP) | bit(b3, render::FLAG_HIZ) | bit(b4, render::FLAG_WATER_REFLECT) | bit(b5, render::FLAG_WATER_REFRACT) | bit(b6, render::FLAG_TINT) | bit(b7, render::FLAG_FOLIAGE) | bit(b8, render::FLAG_WAVES) | bit(b9, render::FLAG_WAVE_ANISO) | bit(b10, render::FLAG_WAVE_SHOAL) | bit(b11, render::FLAG_WAVE_FILL) | bit(b12, render::FLAG_TERRAIN_SHAFTS) | bit(b13, render::FLAG_TEX_VARIATION) | bit(b14, render::FLAG_LEAF_CUTOUT) | bit(b15, render::FLAG_FLAT_SECONDARY) | bit(b16, render::FLAG_WATER_FAR) | bit(b17, render::FLAG_WATER_DARK) | bit(b18, render::FLAG_SNELL) | bit(b19, render::FLAG_PROBE_TAP) | bit(b20, render::FLAG_PROBE_AMBIENT) | bit(b21, render::FLAG_PROBE_CUBE) | bit(b22, render::FLAG_PROBE_BOUNCE) | bit(b23, render::FLAG_PROBE_SUN) | bit(b24, render::FLAG_PROBE_SUN_HIGH) | bit(b25, render::FLAG_LIGHT_RGB) | bit(b26, render::FLAG_SKY_TINT) | bit(b27, render::FLAG_GLASS) | bit(b28, render::FLAG_DISTANT_SHADOWS) | bit(b29, render::FLAG_WATER_SHADOW_CUT) | bit(b30, render::FLAG_LEAF_THIN),
    ;
}

/// Each switch owns its bit of the second pipeline word: the shadow pass always, each switch's
/// bit exactly when it is on -- the shore and water effects only with a sea, the narrow and
/// wide sun by the softness -- the surface debug view, at most seven, in bits 23 to 25, and the
/// emitter-world bit never set here.
pub proof fn law_each_hi_switch_owns_its_bit(s: Switches)
    ensures
        ({
            let w = spec_hi_word(s);
            let sea = s.sea_level > 0;
            &&& (w & render::FLAG_HI_ISOLATE_GLASS != 0) == (s.isolate_glass)
            &&& w & render::FLAG_HI_SHADOW_PASS != 0
            &&& (w & render::FLAG_HI_LEGACY_LIGHTING != 0) == (s.legacy_lighting)
            &&& (w & render::FLAG_HI_LEGACY_WATER != 0) == (s.legacy_water)
            &&& (w & render::FLAG_HI_SOFT_HQ != 0) == (s.soft_shadow_hq)
            &&& (w >> 23u32) & 7u32 == if s.surface_debug <= 7 { s.surface_debug } else { 7 }
            &&& (w & render::FLAG_HI_SUN_NARROW != 0) == (s.sun_softness == 1)
            &&& (w & render::FLAG_HI_SUN_WIDE != 0) == (s.sun_softness == 2)
            &&& (w & render::FLAG_HI_COMPACT_SHADE_HIT != 0) == (s.compact_shade_hit)
            &&& (w & render::FLAG_HI_SKY_SPECULAR != 0) == (s.sky_specular)
            &&& (w & render::FLAG_HI_FULL_MARCH != 0) == (s.full_march)
            &&& (w & render::FLAG_HI_SHORE_WET != 0) == (sea && s.shore_wet)
            &&& (w & render::FLAG_HI_SHORE_FOAM != 0) == (sea && s.shore_foam)
            &&& (w & render::FLAG_HI_WATER_SEC != 0) == (sea && s.water_sec)
            &&& (w & render::FLAG_HI_CAUSTICS != 0) == (sea && s.caustics)
            &&& (w & render::FLAG_HI_SNELL_BEND != 0) == (sea && s.snell_bend)
            &&& (w & render::FLAG_HI_WATER_LOOK != 0) == (sea && s.water_look)
            &&& (w & render::FLAG_HI_TINT_BALANCE != 0) == (s.tint_balance)
            &&& (w & render::FLAG_HI_WIND_SWAY != 0) == (s.wind_sway)
            &&& (w & render::FLAG_HI_SOFT_SHADOWS != 0) == (s.soft_shadows)
            &&& (w & render::FLAG_HI_FOLIAGE_RICH != 0) == (s.foliage_rich)
            &&& (w & render::FLAG_HI_CANOPY_RELIEF != 0) == (s.canopy_relief)
            &&& (w & render::FLAG_HI_GLASS_REFLECT != 0) == (s.glass_reflect)
            &&& (w & render::FLAG_HI_SKY_LOOK != 0) == (s.sky_look)
            &&& (w & render::FLAG_HI_SKY_COOL != 0) == (s.sky_cool)
            &&& w & render::FLAG_HI_EMITTER_WORLD == 0
        }),
{
    let sea = s.sea_level > 0;
    let b0: bool = s.isolate_glass;
    let b2: bool = s.legacy_lighting;
    let b3: bool = s.legacy_water;
    let b4: bool = s.soft_shadow_hq;
    let v: u32 = s.surface_debug;
    let b6: bool = s.sun_softness == 1;
    let b7: bool = s.sun_softness == 2;
    let b8: bool = s.compact_shade_hit;
    let b9: bool = s.sky_specular;
    let b10: bool = s.full_march;
    let b11: bool = sea && s.shore_wet;
    let b12: bool = sea && s.shore_foam;
    let b13: bool = sea && s.water_sec;
    let b14: bool = sea && s.caustics;
    let b15: bool = sea && s.snell_bend;
    let b16: bool = sea && s.water_look;
    let b17: bool = s.tint_balance;
    let b18: bool = s.wind_sway;
    let b19: bool = s.soft_shadows;
    let b20: bool = s.foliage_rich;
    let b21: bool = s.canopy_relief;
    let b22: bool = s.glass_reflect;
    let b23: bool = s.sky_look;
    let b24: bool = s.sky_cool;
    let w: u32 = spec_hi_word(s);
    assert(w == 0u32 | bit(b0, render::FLAG_HI_ISOLATE_GLASS) | render::FLAG_HI_SHADOW_PASS | bit(b2, render::FLAG_HI_LEGACY_LIGHTING) | bit(b3, render::FLAG_HI_LEGACY_WATER) | bit(b4, render::FLAG_HI_SOFT_HQ) | debug_bits(v) | bit(b6, render::FLAG_HI_SUN_NARROW) | bit(b7, render::FLAG_HI_SUN_WIDE) | bit(b8, render::FLAG_HI_COMPACT_SHADE_HIT) | bit(b9, render::FLAG_HI_SKY_SPECULAR) | bit(b10, render::FLAG_HI_FULL_MARCH) | bit(b11, render::FLAG_HI_SHORE_WET) | bit(b12, render::FLAG_HI_SHORE_FOAM) | bit(b13, render::FLAG_HI_WATER_SEC) | bit(b14, render::FLAG_HI_CAUSTICS) | bit(b15, render::FLAG_HI_SNELL_BEND) | bit(b16, render::FLAG_HI_WATER_LOOK) | bit(b17, render::FLAG_HI_TINT_BALANCE) | bit(b18, render::FLAG_HI_WIND_SWAY) | bit(b19, render::FLAG_HI_SOFT_SHADOWS) | bit(b20, render::FLAG_HI_FOLIAGE_RICH) | bit(b21, render::FLAG_HI_CANOPY_RELIEF) | bit(b22, render::FLAG_HI_GLASS_REFLECT) | bit(b23, render::FLAG_HI_SKY_LOOK) | bit(b24, render::FLAG_HI_SKY_COOL));
    assert({
        &&& (w & render::FLAG_HI_ISOLATE_GLASS != 0) == b0
        &&& w & render::FLAG_HI_SHADOW_PASS != 0
        &&& (w & render::FLAG_HI_LEGACY_LIGHTING != 0) == b2
        &&& (w & render::FLAG_HI_LEGACY_WATER != 0) == b3
        &&& (w & render::FLAG_HI_SOFT_HQ != 0) == b4
        &&& (w >> 23u32) & 7u32 == if v <= 7u32 { v } else { 7u32 }
        &&& (w & render::FLAG_HI_SUN_NARROW != 0) == b6
        &&& (w & render::FLAG_HI_SUN_WIDE != 0) == b7
        &&& (w & render::FLAG_HI_COMPACT_SHADE_HIT != 0) == b8
        &&& (w & render::FLAG_HI_SKY_SPECULAR != 0) == b9
        &&& (w & render::FLAG_HI_FULL_MARCH != 0) == b10
        &&& (w & render::FLAG_HI_SHORE_WET != 0) == b11
        &&& (w & render::FLAG_HI_SHORE_FOAM != 0) == b12
        &&& (w & render::FLAG_HI_WATER_SEC != 0) == b13
        &&& (w & render::FLAG_HI_CAUSTICS != 0) == b14
        &&& (w & render::FLAG_HI_SNELL_BEND != 0) == b15
        &&& (w & render::FLAG_HI_WATER_LOOK != 0) == b16
        &&& (w & render::FLAG_HI_TINT_BALANCE != 0) == b17
        &&& (w & render::FLAG_HI_WIND_SWAY != 0) == b18
        &&& (w & render::FLAG_HI_SOFT_SHADOWS != 0) == b19
        &&& (w & render::FLAG_HI_FOLIAGE_RICH != 0) == b20
        &&& (w & render::FLAG_HI_CANOPY_RELIEF != 0) == b21
        &&& (w & render::FLAG_HI_GLASS_REFLECT != 0) == b22
        &&& (w & render::FLAG_HI_SKY_LOOK != 0) == b23
        &&& (w & render::FLAG_HI_SKY_COOL != 0) == b24
        &&& w & render::FLAG_HI_EMITTER_WORLD == 0
    }) by (bit_vector)
        requires
            w == 0u32 | bit(b0, render::FLAG_HI_ISOLATE_GLASS) | render::FLAG_HI_SHADOW_PASS | bit(b2, render::FLAG_HI_LEGACY_LIGHTING) | bit(b3, render::FLAG_HI_LEGACY_WATER) | bit(b4, render::FLAG_HI_SOFT_HQ) | debug_bits(v) | bit(b6, render::FLAG_HI_SUN_NARROW) | bit(b7, render::FLAG_HI_SUN_WIDE) | bit(b8, render::FLAG_HI_COMPACT_SHADE_HIT) | bit(b9, render::FLAG_HI_SKY_SPECULAR) | bit(b10, render::FLAG_HI_FULL_MARCH) | bit(b11, render::FLAG_HI_SHORE_WET) | bit(b12, render::FLAG_HI_SHORE_FOAM) | bit(b13, render::FLAG_HI_WATER_SEC) | bit(b14, render::FLAG_HI_CAUSTICS) | bit(b15, render::FLAG_HI_SNELL_BEND) | bit(b16, render::FLAG_HI_WATER_LOOK) | bit(b17, render::FLAG_HI_TINT_BALANCE) | bit(b18, render::FLAG_HI_WIND_SWAY) | bit(b19, render::FLAG_HI_SOFT_SHADOWS) | bit(b20, render::FLAG_HI_FOLIAGE_RICH) | bit(b21, render::FLAG_HI_CANOPY_RELIEF) | bit(b22, render::FLAG_HI_GLASS_REFLECT) | bit(b23, render::FLAG_HI_SKY_LOOK) | bit(b24, render::FLAG_HI_SKY_COOL),
    ;
}
} // verus!
