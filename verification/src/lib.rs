//! Decoder for packed cartridge graphics assets: an LZ-style bitstream
//! decompressor, a planar tile decoder, a 15-bit palette converter, a
//! nametable parser, and a compositor that turns them into RGBA buffers.
use vstd::prelude::*;

pub mod bitstream;
pub mod compression;
pub mod palette;
pub mod tilemap;
pub mod tileset;
pub mod tiled_map;

verus! {

/// The ways a decode can fail. Every stage reports failure through this
/// type; no stage panics and no partial output is returned on failure.
#[derive(Clone, Copy, Debug, PartialEq, Eq, Structural)]
pub enum DecodeError {
    /// A fixed-width read ran past the end of the bitstream.
    StreamUnderrun,
    /// The compressed stream is inconsistent: a back-reference targets
    /// output that has not been written yet, the stream or its literal
    /// payload runs out before the declared output is complete, or the
    /// payload length field is smaller than its own two header bytes.
    CorruptStream,
    /// The declared compressed payload length runs past the actual buffer.
    LengthMismatch,
    /// A palette or tile lookup index is outside the loaded table.
    IndexOutOfRange,
}

/// A row-major RGBA8 pixel buffer with explicit dimensions. A pixel is
/// transparent (alpha 0) exactly where its resolved color index was 0.
#[derive(Debug)]
pub struct DecodedImage {
    pub width: usize,
    pub height: usize,
    pub pixels: Vec<u8>,
}

impl DecodedImage {
    /// Four bytes per pixel, row-major.
    pub open spec fn wf(&self) -> bool {
        self.pixels@.len() == 4 * self.width * self.height
    }

    /// Channel `c` (0 red, 1 green, 2 blue, 3 alpha) of pixel `(x, y)`.
    pub open spec fn spec_channel_at(&self, x: int, y: int, c: int) -> u8
        recommends
            0 <= x < self.width,
            0 <= y < self.height,
            0 <= c < 4,
    {
        self.pixels@[4 * (y * self.width as int + x) + c]
    }
}

/// Which cell of a grid of 8x8 tiles, `tiles_wide` across, covers the
/// pixel `(x, y)`.
pub open spec fn spec_grid_cell(tiles_wide: int, x: int, y: int) -> int {
    (y / 8) * tiles_wide + x / 8
}

/// Height in pixels of a composed grid of `count` cells: eight rows per
/// row of cells, rounded up, plus one preserved extra row of eight.
pub open spec fn spec_grid_height(count: int, tiles_wide: int) -> int {
    8 * ((count + tiles_wide - 1) / tiles_wide) + 8
}

} // verus!
