//! A Mandelbrot rendering kernel in exact integer arithmetic: colour packing,
//! escape-time bookkeeping, histogram tallies and histogram-equalised colouring
//! of independently computed image chunks.
//!
//! An image is rendered chunk by chunk in two passes. In the first pass the
//! caller iterates the orbit of every pixel, asking [`orbit::Orbit`] after each
//! round whether to go on, and hands the outcomes to
//! [`histogram::tally_chunk`], which builds the chunk's buffers. Between the
//! passes the caller adds up the histograms and escaped counts of all chunks.
//! In the second pass [`paint::color_chunk`] colours each chunk from the
//! merged histogram and total.

pub mod chunk;
pub mod color;
pub mod config;
pub mod error;
pub mod histogram;
pub mod orbit;
pub mod paint;

pub use crate::chunk::{Buffers, ChunkResult, PixelRect};
pub use crate::color::Color;
pub use crate::config::{ColorWeights, RenderConfig};
pub use crate::error::KernelError;
