//! Locations in grid space and in pixel space, and the mapping between them.

use vstd::prelude::*;

verus! {

/// The number of pixels along each side of a cell. Cells are laid out at
/// multiples of this number.
pub const PIXELS_PER_CELL: usize = 16;

/// A location in grid space.
#[derive(Clone, Copy, Debug, PartialEq, Eq, Structural)]
pub struct GridCoords {
    pub x: usize,
    pub y: usize,
}

/// A location in pixel space.
#[derive(Clone, Copy, Debug, PartialEq, Eq, Structural)]
pub struct PixelCoords {
    pub x: usize,
    pub y: usize,
}

impl PixelCoords {
    /// The pixel at the top-left corner of the screen.
    pub fn origin() -> (p: PixelCoords)
        ensures
            p.x == 0,
            p.y == 0,
    {
        PixelCoords { x: 0, y: 0 }
    }
}

impl GridCoords {
    /// The top-left pixel of this cell when cells are `cell_size` pixels wide
    /// and high.
    pub open spec fn spec_pixel_origin(self, cell_size: usize) -> PixelCoords {
        PixelCoords { x: (self.x * cell_size) as usize, y: (self.y * cell_size) as usize }
    }

    /// The top-left pixel of this cell when cells are `cell_size` pixels wide
    /// and high.
    pub fn pixel_origin(&self, cell_size: usize) -> (p: PixelCoords)
        requires
            self.x * cell_size <= usize::MAX,
            self.y * cell_size <= usize::MAX,
        ensures
            p.x == self.x * cell_size,
            p.y == self.y * cell_size,
    {
        PixelCoords { x: self.x * cell_size, y: self.y * cell_size }
    }
}

} // verus!
