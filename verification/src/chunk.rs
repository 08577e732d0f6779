//! The pixel rectangle of a chunk and the buffers that hold its results.
//!
//! A chunk numbers its pixels row by row; every per-pixel buffer has one entry
//! per pixel in that order, and the histogram has one bucket per iteration of
//! the budget.

use crate::error::KernelError;
use vstd::prelude::*;

verus! {

/// A rectangle of pixels: `start` inclusive, `end` exclusive, on each axis.
#[derive(Clone, Copy, Debug, PartialEq, Eq)]
pub struct PixelRect {
    pub start_x: u32,
    pub start_y: u32,
    pub end_x: u32,
    pub end_y: u32,
}

impl PixelRect {
    /// The rectangle has extent on both axes.
    pub open spec fn wf(&self) -> bool {
        self.start_x < self.end_x && self.start_y < self.end_y
    }

    /// The number of pixels in one row.
    pub open spec fn columns(&self) -> int {
        self.end_x - self.start_x
    }

    /// The number of rows.
    pub open spec fn rows(&self) -> int {
        self.end_y - self.start_y
    }

    /// The number of pixels in the rectangle.
    pub open spec fn pixels(&self) -> int {
        self.columns() * self.rows()
    }

    /// The pixel lies inside the rectangle.
    pub open spec fn holds(&self, x: int, y: int) -> bool {
        self.start_x <= x < self.end_x && self.start_y <= y < self.end_y
    }

    /// The place of a pixel in the row-by-row numbering.
    pub open spec fn offset(&self, x: int, y: int) -> int {
        (y - self.start_y) * self.columns() + (x - self.start_x)
    }

    /// What is wrong with the rectangle as a chunk, if anything.
    pub open spec fn fault(&self) -> Option<KernelError> {
        if !self.wf() {
            Some(KernelError::DegenerateRectangle)
        } else if self.pixels() > u32::MAX {
            Some(KernelError::ChunkTooLarge)
        } else {
            None
        }
    }

    /// Every pixel inside the rectangle has a number below the pixel count.
    pub proof fn lemma_offset_in_range(&self, x: int, y: int)
        requires
            self.holds(x, y),
        ensures
            0 <= self.offset(x, y) < self.pixels(),
    {
        let row = y - self.start_y;
        let width = self.columns();
        let height = self.rows();
        assert(0 <= row * width && row * width + width <= width * height) by (nonlinear_arith)
            requires
                0 <= row < height,
                0 < width,
        ;
    }

    /// Two pixels inside the rectangle with the same number are the same pixel.
    pub proof fn lemma_offset_injective(&self, x1: int, y1: int, x2: int, y2: int)
        requires
            self.holds(x1, y1),
            self.holds(x2, y2),
            self.offset(x1, y1) == self.offset(x2, y2),
        ensures
            x1 == x2,
            y1 == y2,
    {
        let width = self.columns();
        let row1 = y1 - self.start_y;
        let row2 = y2 - self.start_y;
        let col1 = x1 - self.start_x;
        let col2 = x2 - self.start_x;
        assert(row1 == row2) by (nonlinear_arith)
            requires
                row1 * width + col1 == row2 * width + col2,
                0 <= col1 < width,
                0 <= col2 < width,
        ;
    }

    /// The rectangle from `(start_x, start_y)` up to, not including,
    /// `(end_x, end_y)`; refused when it has no extent on some axis.
    pub fn new(start_x: u32, start_y: u32, end_x: u32, end_y: u32) -> (result: Result<
        PixelRect,
        KernelError,
    >)
        ensures
            result == if start_x < end_x && start_y < end_y {
                Ok::<PixelRect, KernelError>(PixelRect { start_x, start_y, end_x, end_y })
            } else {
                Err::<PixelRect, KernelError>(KernelError::DegenerateRectangle)
            },
    {
        if start_x < end_x && start_y < end_y {
            Ok(PixelRect { start_x, start_y, end_x, end_y })
        } else {
            Err(KernelError::DegenerateRectangle)
        }
    }

    /// The number of pixels of the chunk, where the rectangle can be one.
    pub fn pixel_count(&self) -> (result: Result<u32, KernelError>)
        ensures
            match result {
                Ok(count) => self.fault() is None && count == self.pixels(),
                Err(error) => self.fault() == Some(error),
            },
    {
        if !(self.start_x < self.end_x && self.start_y < self.end_y) {
            return Err(KernelError::DegenerateRectangle);
        }
        let width: u64 = (self.end_x - self.start_x) as u64;
        let height: u64 = (self.end_y - self.start_y) as u64;
        assert(width * height <= 0xffff_ffff * 0xffff_ffff) by (nonlinear_arith)
            requires
                width <= 0xffff_ffff,
                height <= 0xffff_ffff,
        ;
        let count: u64 = width * height;
        if count > 0xffff_ffff {
            Err(KernelError::ChunkTooLarge)
        } else {
            Ok(count as u32)
        }
    }

    /// The number of the pixel `(x, y)` in the chunk's buffers: `None` where
    /// the rectangle cannot be a chunk or the pixel lies outside it.
    pub fn index_of(&self, x: u32, y: u32) -> (index: Option<u32>)
        ensures
            match index {
                Some(i) => self.fault() is None && self.holds(x as int, y as int) && i
                    == self.offset(x as int, y as int),
                None => !(self.fault() is None) || !self.holds(x as int, y as int),
            },
    {
        match self.pixel_count() {
            Err(_) => None,
            Ok(_) => {
                if self.start_x <= x && x < self.end_x && self.start_y <= y && y < self.end_y {
                    proof {
                        self.lemma_offset_in_range(x as int, y as int);
                    }
                    let width: u64 = (self.end_x - self.start_x) as u64;
                    let row: u64 = (y - self.start_y) as u64;
                    assert(0 <= row * width <= self.offset(x as int, y as int)) by (nonlinear_arith)
                        requires
                            0 <= row,
                            0 <= width,
                            self.offset(x as int, y as int) == row * width + (x - self.start_x),
                            x >= self.start_x,
                    ;
                    let index: u64 = row * width + (x - self.start_x) as u64;
                    Some(index as u32)
                } else {
                    None
                }
            },
        }
    }
}

/// The result buffers of one chunk.
#[derive(Clone, Debug, PartialEq, Eq)]
pub struct Buffers {
    /// For each iteration count below the budget, the number of pixels that
    /// escaped after exactly that many iterations.
    pub histogram: Vec<u32>,
    /// The iteration count of each pixel; the budget itself for a pixel that
    /// never escaped.
    pub iterations: Vec<u32>,
    /// The smoothing fraction of each pixel, in units of 1/65536.
    pub fractionals: Vec<u16>,
    /// The packed colour of each pixel, once the chunk has been coloured.
    pub pixels: Option<Vec<u32>>,
}

impl Buffers {
    /// What is wrong with the buffers' lengths for a chunk of this rectangle
    /// under this iteration budget, if anything.
    pub open spec fn layout_fault(&self, budget: u32, rect: PixelRect) -> Option<KernelError> {
        if !(rect.fault() is None) {
            rect.fault()
        } else if self.histogram@.len() != budget {
            Some(KernelError::HistogramLength)
        } else if self.iterations@.len() != rect.pixels() {
            Some(KernelError::IterationsLength)
        } else if self.fractionals@.len() != rect.pixels() {
            Some(KernelError::FractionalsLength)
        } else {
            None
        }
    }

    /// Checks the buffers' lengths against the rectangle and the budget, and
    /// gives the chunk's pixel count.
    pub fn check_layout(&self, budget: u32, rect: &PixelRect) -> (result: Result<u32, KernelError>)
        ensures
            match result {
                Ok(count) => self.layout_fault(budget, *rect) is None && count == rect.pixels(),
                Err(error) => self.layout_fault(budget, *rect) == Some(error),
            },
    {
        let count = match rect.pixel_count() {
            Ok(count) => count,
            Err(error) => {
                return Err(error);
            },
        };
        if self.histogram.len() != budget as usize {
            Err(KernelError::HistogramLength)
        } else if self.iterations.len() != count as usize {
            Err(KernelError::IterationsLength)
        } else if self.fractionals.len() != count as usize {
            Err(KernelError::FractionalsLength)
        } else {
            Ok(count)
        }
    }
}

/// What the escape-time pass over one chunk produced.
#[derive(Clone, Debug, PartialEq, Eq)]
pub struct ChunkResult {
    pub buffers: Buffers,
    /// The number of the chunk's pixels that escaped within the budget.
    pub total: u32,
}

} // verus!
