//! Atlas layers, one per distinct face texture.

use vstd::prelude::*;

verus! {

pub const STONE: u32 = 0;
pub const DIRT: u32 = 1;
pub const GRASS_TOP: u32 = 2;
pub const GRASS_SIDE: u32 = 3;
pub const SAND: u32 = 4;
pub const GRAVEL: u32 = 5;
pub const LOG_SIDE: u32 = 6;
pub const LOG_TOP: u32 = 7;
pub const LEAVES: u32 = 8;
pub const PLANKS: u32 = 9;
pub const COBBLE: u32 = 10;
pub const GLASS: u32 = 11;
pub const GLOWSTONE: u32 = 12;
pub const BEDROCK: u32 = 13;
pub const WATER: u32 = 14;
pub const SNOW: u32 = 15;
pub const PODZOL: u32 = 16;
pub const PINE_LEAVES: u32 = 17;
pub const LICHEN: u32 = 18;
pub const TALL_GRASS: u32 = 19;
pub const MEADOW_TOP: u32 = 20;
pub const AMBER_LAMP: u32 = 21;
pub const AZURE_LAMP: u32 = 22;
pub const VERDANT_LAMP: u32 = 23;
pub const MEADOW_SIDE: u32 = 24;
pub const GRASS_TALL: u32 = 25;
pub const REEDS: u32 = 26;
pub const COUNT: u32 = 27;

} // verus!
