//! The measurement fixture: capture recipes, the composition claims between controls,
//! what a crop contains, and the image metrics that score captures.

use vstd::prelude::*;
use crate::text::{decimal, decimal_string};

pub mod metric;
pub mod vantage;

verus! {

/// `std::path::PathBuf`, declared so that a capture can carry the path it was written to.
/// Verus sees nothing inside it, and nothing here reads it.
#[verifier::external_type_specification]
#[verifier::external_body]
pub struct ExPathBuf(std::path::PathBuf);

/// How a capture is taken, as opposed to where it is taken from.
#[derive(Clone, Copy, Debug)]
pub struct Recipe {
    pub width: u32,
    pub height: u32,
    /// Off by default: the temporal pass hides the high-frequency residual that the
    /// look-metrics exist to measure.
    pub taa: bool,
}

impl Default for Recipe {
    fn default() -> (r: Self)
        ensures
            r == (Recipe { width: vantage::STD_WIDTH, height: vantage::STD_HEIGHT, taa: false }),
    {
        Recipe { width: vantage::STD_WIDTH, height: vantage::STD_HEIGHT, taa: false }
    }
}

impl Recipe {
    /// The command-line arguments that ask the renderer for this recipe.
    pub fn args(&self) -> (a: Vec<String>)
        ensures
            a@.len() == if self.taa { 4int } else { 5int },
            a@[0]@ == "--width"@,
            a@[1]@ == decimal(self.width as nat),
            a@[2]@ == "--height"@,
            a@[3]@ == decimal(self.height as nat),
            !self.taa ==> a@[4]@ == "--no-taa"@,
    {
        let mut a: Vec<String> = Vec::new();
        a.push(String::from_str("--width"));
        a.push(decimal_string(self.width as u64));
        a.push(String::from_str("--height"));
        a.push(decimal_string(self.height as u64));
        if !self.taa {
            a.push(String::from_str("--no-taa"));
        }
        a
    }
}

/// What one render of a vantage produced.
pub struct Capture {
    pub path: std::path::PathBuf,
    pub stdout: String,
    /// The child printed the truncation warning: the capture is missing geometry and must
    /// not be scored.
    pub truncated: bool,
}

/// What adding `also` to `base` is supposed to do to the frame.
#[derive(Clone, Copy, Debug, PartialEq, Eq)]
pub enum Composes {
    /// Nothing at all: `base` already implies `also`.
    Nothing,
    /// Something: the two controls are independent.
    Something,
}

/// One claim of the form "this control already clears that one".
pub struct Implication {
    /// Side A's arguments.
    pub base: &'static [&'static str],
    /// What side B adds to them.
    pub also: &'static [&'static str],
    /// Which vantages can see this claim, comma-separated.
    pub only: &'static str,
    pub expect: Composes,
    pub about: &'static str,
}

} // verus!
