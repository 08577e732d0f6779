//! The ways in which a chunk can be refused.

use vstd::prelude::*;

verus! {

/// Why the kernel refused a chunk. A refused call writes nothing.
#[derive(Clone, Copy, Debug, PartialEq, Eq)]
pub enum KernelError {
    /// The pixel rectangle has no extent on some axis.
    DegenerateRectangle,
    /// The rectangle holds more pixels than a 32-bit count can number.
    ChunkTooLarge,
    /// The histogram does not have one bucket per iteration of the budget.
    HistogramLength,
    /// There is not one iteration count per pixel.
    IterationsLength,
    /// There is not one smoothing fraction per pixel.
    FractionalsLength,
    /// The buffers carry no pixel sequence to colour.
    PixelsMissing,
    /// There is not one packed colour per pixel.
    PixelsLength,
    /// Some pixel reports more iterations than the budget allows.
    IterationBeyondBudget,
    /// Some pixel escaped, yet the escaped total is given as zero.
    ZeroTotal,
}

} // verus!
