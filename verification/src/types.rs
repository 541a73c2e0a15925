//! Shared data types of the detection pipeline.
//!
//! Intensities are quantized to 8 bits: the caller hands the detector a
//! row-major grid of values in `0 ..= 255`, already grayscale and resized.
//! Every threshold of the pipeline is relative to a per-frame maximum, so
//! the quantization scale drops out of all acceptance decisions.

use vstd::prelude::*;
use crate::grid::Grid;

verus! {

/// A quantized intensity image: one byte per pixel, row-major.
pub type Lightness = Grid<u8>;

/// A binary per-pixel mask of the same shape as the image.
pub type Mask = Grid<bool>;

/// An `(x, y)` pixel coordinate.
pub type Point = (u32, u32);

/// One tag candidate: top-left, top-right, bottom-left, bottom-right.
pub type Corners = (Point, Point, Point, Point);

/// The corner points harvested for one connected edge component.
pub type Points = Vec<Point>;

/// All shapes of one frame.
pub type Shapes = Vec<Points>;

/// All quad candidates of one frame.
pub type Quads = Vec<Corners>;

/// One detected tag: the decoded identifier, if any codeword matched
/// within tolerance, and the quad it was read from.  Rotation and 3D
/// position are derived from `corners` by the caller's pose stage.
#[derive(Debug, Clone, Copy, PartialEq, Eq)]
pub struct Tag {
    pub id: Option<u32>,
    pub corners: Corners,
}

/// Toggles for the three geometric candidate filters, applied in the
/// order ratio, angle, enclosure.
#[derive(Debug, Clone, Copy, PartialEq, Eq, Structural)]
pub struct Filter {
    pub ratios: bool,
    pub angles: bool,
    pub enclosed: bool,
}

impl Default for Filter {
    /// All three filters enabled.
    fn default() -> (r: Self)
        ensures
            r.ratios,
            r.angles,
            r.enclosed,
    {
        Filter { ratios: true, angles: true, enclosed: true }
    }
}

} // verus!
