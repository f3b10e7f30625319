//! Rasterized glyph bitmaps.

use vstd::prelude::*;
use crate::units::PixelLength;

verus! {

/// A bitmap representation of a glyph.
/// The data is stored as pre-multiplied RGBA, 32 bits per pixel.
pub struct RasterizedGlyph {
    pub data: Vec<u8>,
    pub height: usize,
    pub width: usize,
    pub bearing_x: PixelLength,
    pub bearing_y: PixelLength,
    pub has_color: bool,
}

impl RasterizedGlyph {
    /// The bitmap carries exactly four bytes per pixel.
    pub open spec fn wf(&self) -> bool {
        self.data@.len() == 4 * self.width * self.height
    }
}

} // verus!
