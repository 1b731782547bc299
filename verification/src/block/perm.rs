//! Which symmetry group a texture layer may be permuted under.

use vstd::prelude::*;

verus! {

/// The layer is drawn as authored.
pub const NONE: u32 = 0;
/// The layer may be mirrored horizontally.
pub const FLIP_U: u32 = 1;
/// The layer may take any of the eight symmetries of the square.
pub const D4: u32 = 2;

} // verus!
