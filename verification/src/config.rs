//! The settings of a render pass that the kernel reads.

use vstd::prelude::*;

verus! {

/// How strongly each channel follows the hue, each weight in units of 1/65536.
#[derive(Clone, Copy, Debug, PartialEq, Eq)]
pub struct ColorWeights {
    pub red: u32,
    pub green: u32,
    pub blue: u32,
}

/// The settings shared by all chunks of one image.
#[derive(Clone, Copy, Debug, PartialEq, Eq)]
pub struct RenderConfig {
    /// The largest number of iterations spent on one pixel.
    pub iteration_budget: u32,
    pub weights: ColorWeights,
}

} // verus!
