//! Fixed 8x8 tiles decoded from bitplane-packed byte blocks.
//!
//! A tile block holds one byte per row per bitplane: planes are grouped
//! two to a contiguous 16-byte chunk and interleaved by row within the
//! chunk. Each pixel combines one bit from every plane, MSB-first across
//! the row's eight columns.
use vstd::prelude::*;

verus! {

use crate::DecodeError;
use crate::DecodedImage;
use crate::spec_grid_cell;
use crate::palette::Format;
use crate::palette::Palette;
use crate::palette::RGBColor;
use crate::palette::spec_sub_palette_size;
use vstd::arithmetic::power2::pow2;
use vstd::arithmetic::power2::lemma2_to64;
use vstd::arithmetic::power2::lemma_pow2_unfold;
use vstd::arithmetic::power2::lemma_pow2_strictly_increases;

/// Byte-block size of one tile at a bit depth.
pub open spec fn spec_bytes_per_tile(format: Format) -> nat {
    match format {
        Format::BPP2 => 16,
        Format::BPP4 => 32,
        Format::BPP8 => 64,
    }
}

/// Bitplane count of a tile at a bit depth.
pub open spec fn spec_plane_count(format: Format) -> nat {
    match format {
        Format::BPP2 => 2,
        Format::BPP4 => 4,
        Format::BPP8 => 8,
    }
}

/// Byte `j` of the tile block starting at `base`; a block that runs past
/// the end of the data is zero-padded.
pub open spec fn spec_block_byte(data: Seq<u8>, base: int, j: int) -> u8 {
    if 0 <= base + j < data.len() {
        data[base + j]
    } else {
        0
    }
}

/// Bit `7-col` of plane `p`'s byte for `row`: plane `p` lives in chunk
/// `p/2` (16 bytes each), at byte `row*2 + p%2` within the chunk.
pub open spec fn spec_plane_bit(data: Seq<u8>, base: int, p: int, row: int, col: int) -> u8 {
    (spec_block_byte(data, base, (p / 2) * 16 + row * 2 + p % 2) >> ((7 - col) as u8)) & 1
}

/// The pixel value accumulated from the top `k` of `n` planes, most
/// significant plane first.
pub open spec fn spec_pixel_rec(
    data: Seq<u8>,
    base: int,
    row: int,
    col: int,
    n: nat,
    k: nat,
) -> nat
    decreases k,
{
    if k == 0 {
        0
    } else {
        spec_pixel_rec(data, base, row, col, n, (k - 1) as nat) * 2 + spec_plane_bit(
            data,
            base,
            n - k,
            row,
            col,
        ) as nat
    }
}

/// Pixel `(row, col)` of the tile whose block starts at `base`:
/// `sum over planes p of (plane bit p) * 2^p`.
pub open spec fn spec_tile_pixel(
    data: Seq<u8>,
    base: int,
    format: Format,
    row: int,
    col: int,
) -> u8 {
    spec_pixel_rec(
        data,
        base,
        row,
        col,
        spec_plane_count(format),
        spec_plane_count(format),
    ) as u8
}

/// The 64 pixels, row-major, of the tile whose block starts at `base`.
pub open spec fn spec_tile_pixels(data: Seq<u8>, base: int, format: Format) -> Seq<u8> {
    Seq::new(64, |i: int| spec_tile_pixel(data, base, format, i / 8, i % 8))
}

proof fn lemma_plane_bit_le_one(data: Seq<u8>, base: int, p: int, row: int, col: int)
    ensures
        spec_plane_bit(data, base, p, row, col) <= 1,
{
    let b = spec_block_byte(data, base, (p / 2) * 16 + row * 2 + p % 2);
    let s = (7 - col) as u8;
    assert((b >> s) & 1 <= 1) by (bit_vector);
}

proof fn lemma_pixel_rec_bound(data: Seq<u8>, base: int, row: int, col: int, n: nat, k: nat)
    ensures
        spec_pixel_rec(data, base, row, col, n, k) < pow2(k),
    decreases k,
{
    if k == 0 {
        lemma2_to64();
    } else {
        lemma_pixel_rec_bound(data, base, row, col, n, (k - 1) as nat);
        lemma_pow2_unfold(k);
        lemma_plane_bit_le_one(data, base, n - k, row, col);
    }
}

/// An 8x8 indexed-pixel tile: 64 color-index values, row-major, each in
/// `[0, 2^bpp)` when decoded from a block.
pub enum TileEnum {
    BPP2_8x8(Vec<u8>),
    BPP4_8x8(Vec<u8>),
    BPP8_8x8(Vec<u8>),
}

/// One tile decoded, or the normal end of the tile stream (a zero-length
/// read at a tile boundary is not an error).
pub enum TileLoadResult {
    Tile(TileEnum),
    Done,
}

impl TileEnum {
    /// The 64 pixel color-index values, row-major.
    pub open spec fn spec_pixels(&self) -> Seq<u8> {
        match self {
            TileEnum::BPP2_8x8(v) => v@,
            TileEnum::BPP4_8x8(v) => v@,
            TileEnum::BPP8_8x8(v) => v@,
        }
    }

    /// The bit depth this tile carries.
    pub open spec fn spec_format(&self) -> Format {
        match self {
            TileEnum::BPP2_8x8(_) => Format::BPP2,
            TileEnum::BPP4_8x8(_) => Format::BPP4,
            TileEnum::BPP8_8x8(_) => Format::BPP8,
        }
    }

    /// A tile holds exactly 64 pixel indices.
    pub open spec fn wf(&self) -> bool {
        self.spec_pixels().len() == 64
    }

    /// The bit depth this tile carries.
    pub fn format(&self) -> (r: Format)
        ensures
            r == self.spec_format(),
    {
        match self {
            TileEnum::BPP2_8x8(_) => Format::BPP2,
            TileEnum::BPP4_8x8(_) => Format::BPP4,
            TileEnum::BPP8_8x8(_) => Format::BPP8,
        }
    }

    /// Pixel `i` (row-major) of this tile.
    pub fn pixel(&self, i: usize) -> (r: u8)
        requires
            self.wf(),
            i < 64,
        ensures
            r == self.spec_pixels()[i as int],
    {
        match self {
            TileEnum::BPP2_8x8(v) => v[i],
            TileEnum::BPP4_8x8(v) => v[i],
            TileEnum::BPP8_8x8(v) => v[i],
        }
    }

    /// Decodes the tile block at `start`, zero-padding a final partial
    /// block; `Done` exactly when no byte is left.
    pub fn load(data: &[u8], start: usize, format: Format) -> (r: TileLoadResult)
        requires
            data@.len() + 64 <= usize::MAX,
        ensures
            start >= data@.len() ==> r is Done,
            start < data@.len() ==> ({
                &&& r is Tile
                &&& r->Tile_0.wf()
                &&& r->Tile_0.spec_format() == format
                &&& r->Tile_0.spec_pixels() == spec_tile_pixels(data@, start as int, format)
            }),
    {
        if start >= data.len() {
            return TileLoadResult::Done;
        }
        let pixels = decode_block(data, start, format);
        match format {
            Format::BPP2 => TileLoadResult::Tile(TileEnum::BPP2_8x8(pixels)),
            Format::BPP4 => TileLoadResult::Tile(TileEnum::BPP4_8x8(pixels)),
            Format::BPP8 => TileLoadResult::Tile(TileEnum::BPP8_8x8(pixels)),
        }
    }
}

/// Bitplane count of a tile at a bit depth.
fn plane_count(format: Format) -> (r: usize)
    ensures
        r as nat == spec_plane_count(format),
{
    match format {
        Format::BPP2 => 2,
        Format::BPP4 => 4,
        Format::BPP8 => 8,
    }
}

/// Byte-block size of one tile at a bit depth.
pub fn bytes_per_tile(format: Format) -> (r: usize)
    ensures
        r as nat == spec_bytes_per_tile(format),
{
    match format {
        Format::BPP2 => 16,
        Format::BPP4 => 32,
        Format::BPP8 => 64,
    }
}

/// Converts one planar byte block to 64 row-major pixel index values.
fn decode_block(data: &[u8], start: usize, format: Format) -> (r: Vec<u8>)
    requires
        start < data@.len(),
        data@.len() + 64 <= usize::MAX,
    ensures
        r@ == spec_tile_pixels(data@, start as int, format),
{
    let planes = plane_count(format);
    let mut pixels: Vec<u8> = Vec::new();
    let mut row: usize = 0;
    while row < 8
        invariant
            start < data@.len(),
            data@.len() + 64 <= usize::MAX,
            row <= 8,
            planes as nat == spec_plane_count(format),
            pixels@.len() == 8 * row,
            forall|i: int|
                0 <= i < pixels@.len() ==> pixels@[i] == spec_tile_pixel(
                    data@,
                    start as int,
                    format,
                    i / 8,
                    i % 8,
                ),
        decreases 8 - row,
    {
        let mut col: usize = 0;
        while col < 8
            invariant
                start < data@.len(),
                data@.len() + 64 <= usize::MAX,
                row < 8,
                col <= 8,
                planes as nat == spec_plane_count(format),
                pixels@.len() == 8 * row + col,
                forall|i: int|
                    0 <= i < pixels@.len() ==> pixels@[i] == spec_tile_pixel(
                        data@,
                        start as int,
                        format,
                        i / 8,
                        i % 8,
                    ),
            decreases 8 - col,
        {
            let mut acc: u8 = 0;
            let mut k: usize = 0;
            while k < planes
                invariant
                    start < data@.len(),
                    data@.len() + 64 <= usize::MAX,
                    row < 8,
                    col < 8,
                    planes as nat == spec_plane_count(format),
                    planes <= 8,
                    k <= planes,
                    acc as nat == spec_pixel_rec(
                        data@,
                        start as int,
                        row as int,
                        col as int,
                        planes as nat,
                        k as nat,
                    ),
                decreases planes - k,
            {
                proof {
                    lemma_pixel_rec_bound(
                        data@,
                        start as int,
                        row as int,
                        col as int,
                        planes as nat,
                        k as nat,
                    );
                    if (k as nat) < 7 {
                        lemma_pow2_strictly_increases(k as nat, 7);
                    }
                    lemma2_to64();
                }
                let p = planes - 1 - k;
                let j = (p / 2) * 16 + row * 2 + p % 2;
                let byte = if j < data.len() - start {
                    data[start + j]
                } else {
                    0
                };
                let sh = (7 - col) as u8;
                let bit = (byte >> sh) & 1;
                assert((byte >> sh) & 1 <= 1) by (bit_vector);
                assert(byte == spec_block_byte(data@, start as int, j as int));
                acc = 2 * acc + bit;
                k = k + 1;
            }
            proof {
                lemma_pixel_rec_bound(
                    data@,
                    start as int,
                    row as int,
                    col as int,
                    planes as nat,
                    planes as nat,
                );
                assert(acc == spec_tile_pixel(data@, start as int, format, row as int, col as int));
                let i = 8 * row + col;
                assert(i / 8 == row && i % 8 == col);
            }
            pixels.push(acc);
            col = col + 1;
        }
        row = row + 1;
    }
    assert(pixels@ =~= spec_tile_pixels(data@, start as int, format));
    pixels
}

/// An ordered collection of tiles decoded from a raw byte buffer at one
/// bit depth; immutable once loaded.
pub struct Tileset {
    tiles: Vec<TileEnum>,
    format: Format,
}

impl Tileset {
    /// The decoded tiles, in block order.
    pub closed spec fn spec_tiles(&self) -> Seq<TileEnum> {
        self.tiles@
    }

    /// The bit depth the tiles were decoded at.
    pub closed spec fn spec_format(&self) -> Format {
        self.format
    }

    /// Every tile holds 64 pixels and carries the set's bit depth.
    pub open spec fn wf(&self) -> bool {
        forall|k: int|
            0 <= k < self.spec_tiles().len() ==> (#[trigger] self.spec_tiles()[k]).wf()
                && self.spec_tiles()[k].spec_format() == self.spec_format()
    }

    /// Decodes consecutive fixed-size tile blocks until the buffer is
    /// exhausted; a final partial block is zero-padded.
    pub fn load(tileset_data: &[u8], format: Format) -> (r: Tileset)
        requires
            tileset_data@.len() + 64 <= usize::MAX,
        ensures
            r.wf(),
            r.spec_format() == format,
            r.spec_tiles().len() == (tileset_data@.len() + spec_bytes_per_tile(format) - 1) as int
                / spec_bytes_per_tile(format) as int,
            forall|k: int|
                0 <= k < r.spec_tiles().len() ==> (#[trigger] r.spec_tiles()[k]).spec_pixels()
                    == spec_tile_pixels(
                    tileset_data@,
                    k * spec_bytes_per_tile(format) as int,
                    format,
                ),
    {
        let bpt = bytes_per_tile(format);
        let mut tiles: Vec<TileEnum> = Vec::new();
        let mut start: usize = 0;
        while start < tileset_data.len()
            invariant
                tileset_data@.len() + 64 <= usize::MAX,
                bpt as nat == spec_bytes_per_tile(format),
                start as int == tiles@.len() * bpt as int,
                start < tileset_data@.len() + bpt,
                forall|k: int|
                    0 <= k < tiles@.len() ==> (#[trigger] tiles@[k]).wf() && tiles@[
                        k
                    ].spec_format() == format && tiles@[k].spec_pixels() == spec_tile_pixels(
                        tileset_data@,
                        k * bpt as int,
                        format,
                    ),
            decreases tileset_data@.len() + bpt - start,
        {
            match TileEnum::load(tileset_data, start, format) {
                TileLoadResult::Tile(tile) => {
                    tiles.push(tile);
                },
                TileLoadResult::Done => {
                    assert(false);
                },
            }
            start = start + bpt;
        }
        proof {
            let l = tileset_data@.len() as int;
            let b = bpt as int;
            let c = tiles@.len() as int;
            assert(c * b >= l && (c - 1) * b < l || (c == 0 && l == 0));
            assert(c == (l + b - 1) / b) by (nonlinear_arith)
                requires
                    b >= 1,
                    c >= 0,
                    l >= 0,
                    (c * b >= l && (c - 1) * b < l) || (c == 0 && l == 0),
            ;
        }
        Tileset { tiles, format }
    }

    /// The number of decoded tiles.
    pub fn tile_count(&self) -> (r: usize)
        ensures
            r == self.spec_tiles().len(),
    {
        self.tiles.len()
    }

    /// Tile `index` of the set.
    pub fn tile(&self, index: usize) -> (r: &TileEnum)
        requires
            index < self.spec_tiles().len(),
        ensures
            *r == self.spec_tiles()[index as int],
    {
        &self.tiles[index]
    }
}

/// The palette entry index a tile pixel resolves: the sub-palette base
/// plus the pixel's color index.
pub open spec fn spec_lookup_index(t: TileEnum, palette_index: u8, i: int) -> int {
    palette_index as int * spec_sub_palette_size(t.spec_format()) as int + t.spec_pixels()[i] as int
}

/// Every one of a tile's 64 lookups lands inside the palette.
pub open spec fn spec_tile_renderable(t: TileEnum, palette_index: u8, pal: Seq<RGBColor>) -> bool {
    forall|i: int| 0 <= i < 64 ==> #[trigger] spec_lookup_index(t, palette_index, i) < pal.len()
}

/// The RGBA quad of tile pixel `i` under sub-palette `palette_index`:
/// the looked-up entry, transparent exactly where the color index is 0.
pub open spec fn spec_tile_rgba(t: TileEnum, palette_index: u8, pal: Seq<RGBColor>, i: int) -> (
    u8,
    u8,
    u8,
    u8,
) {
    let ci = t.spec_pixels()[i];
    let c = pal[spec_lookup_index(t, palette_index, i)];
    (
        c.red,
        c.green,
        c.blue,
        if ci == 0 {
            0u8
        } else {
            255u8
        },
    )
}

/// Bytes `4*i .. 4*i+4` of `img`'s buffer hold the RGBA quad of tile
/// pixel `i`.
pub open spec fn spec_tile_rgba_matches(
    img: DecodedImage,
    t: TileEnum,
    palette_index: u8,
    pal: Seq<RGBColor>,
    i: int,
) -> bool {
    let q = spec_tile_rgba(t, palette_index, pal, i);
    &&& img.pixels@[4 * i] == q.0
    &&& img.pixels@[4 * i + 1] == q.1
    &&& img.pixels@[4 * i + 2] == q.2
    &&& img.pixels@[4 * i + 3] == q.3
}

/// `img` is exactly the 8x8 RGBA rendering of tile `t`.
pub open spec fn spec_is_tile_image(
    img: DecodedImage,
    t: TileEnum,
    palette_index: u8,
    pal: Seq<RGBColor>,
) -> bool {
    &&& img.width == 8
    &&& img.height == 8
    &&& img.wf()
    &&& forall|i: int|
        0 <= i < 64 ==> #[trigger] spec_tile_rgba_matches(img, t, palette_index, pal, i)
}

impl TileEnum {
    /// Renders this tile into an 8x8 RGBA image with the given
    /// sub-palette; `IndexOutOfRange` exactly when some pixel's lookup
    /// falls outside the palette. No partial image is returned.
    pub fn get_image(&self, palette_index: u8, palette: &Palette) -> (r: Result<
        DecodedImage,
        DecodeError,
    >)
        requires
            self.wf(),
        ensures
            r is Ok <==> spec_tile_renderable(*self, palette_index, palette@),
            r is Err ==> r == Err::<DecodedImage, DecodeError>(DecodeError::IndexOutOfRange),
            r is Ok ==> spec_is_tile_image(r->Ok_0, *self, palette_index, palette@),
    {
        let fmt = self.format();
        let mut pixels: Vec<u8> = Vec::new();
        let mut i: usize = 0;
        while i < 64
            invariant
                self.wf(),
                fmt == self.spec_format(),
                i <= 64,
                pixels@.len() == 4 * i,
                forall|j: int|
                    0 <= j < i ==> #[trigger] spec_lookup_index(*self, palette_index, j)
                        < palette@.len(),
                forall|j: int|
                    0 <= j < i ==> ({
                        let q = #[trigger] spec_tile_rgba(*self, palette_index, palette@, j);
                        &&& pixels@[4 * j] == q.0
                        &&& pixels@[4 * j + 1] == q.1
                        &&& pixels@[4 * j + 2] == q.2
                        &&& pixels@[4 * j + 3] == q.3
                    }),
            decreases 64 - i,
        {
            let ci = self.pixel(i);
            match palette.get_color(palette_index, ci, fmt) {
                Ok(c) => {
                    pixels.push(c.red);
                    pixels.push(c.green);
                    pixels.push(c.blue);
                    pixels.push(
                        if ci == 0 {
                            0
                        } else {
                            255
                        },
                    );
                },
                Err(e) => {
                    assert(spec_lookup_index(*self, palette_index, i as int) >= palette@.len());
                    return Err(e);
                },
            }
            i = i + 1;
        }
        Ok(DecodedImage { width: 8, height: 8, pixels })
    }
}

impl Tileset {
    /// Renders every tile with the given sub-palette, in tile order;
    /// `IndexOutOfRange` exactly when some tile is not renderable.
    pub fn images(&self, palette_index: u8, palette: &Palette) -> (r: Result<
        Vec<DecodedImage>,
        DecodeError,
    >)
        requires
            self.wf(),
        ensures
            r is Ok <==> (forall|k: int|
                0 <= k < self.spec_tiles().len() ==> spec_tile_renderable(
                    #[trigger] self.spec_tiles()[k],
                    palette_index,
                    palette@,
                )),
            r is Err ==> r == Err::<Vec<DecodedImage>, DecodeError>(DecodeError::IndexOutOfRange),
            r is Ok ==> ({
                &&& r->Ok_0@.len() == self.spec_tiles().len()
                &&& forall|k: int|
                    0 <= k < self.spec_tiles().len() ==> spec_is_tile_image(
                        #[trigger] r->Ok_0@[k],
                        self.spec_tiles()[k],
                        palette_index,
                        palette@,
                    )
            }),
    {
        let mut images: Vec<DecodedImage> = Vec::new();
        let mut k: usize = 0;
        let n = self.tiles.len();
        while k < n
            invariant
                self.wf(),
                n == self.spec_tiles().len(),
                k <= n,
                images@.len() == k,
                forall|j: int|
                    0 <= j < k ==> spec_tile_renderable(
                        #[trigger] self.spec_tiles()[j],
                        palette_index,
                        palette@,
                    ),
                forall|j: int|
                    0 <= j < k ==> spec_is_tile_image(
                        #[trigger] images@[j],
                        self.spec_tiles()[j],
                        palette_index,
                        palette@,
                    ),
            decreases n - k,
        {
            match self.tiles[k].get_image(palette_index, palette) {
                Ok(img) => {
                    images.push(img);
                },
                Err(e) => {
                    return Err(e);
                },
            }
            k = k + 1;
        }
        Ok(images)
    }

    /// Merges a vector of 8x8 tile images into a single sheet,
    /// `tiles_wide` tiles across; cells past the last image stay
    /// transparent black. The sheet is `8*(count/tiles_wide) + 8` high:
    /// the preserved trailing band of eight also covers a partial row.
    pub fn merge_tiles(tiles: &Vec<DecodedImage>, tiles_wide: usize) -> (r: DecodedImage)
        requires
            1 <= tiles_wide,
            forall|k: int|
                0 <= k < tiles@.len() ==> (#[trigger] tiles@[k]).width == 8 && tiles@[k].height
                    == 8 && tiles@[k].wf(),
            tiles@.len() + tiles_wide <= usize::MAX,
            4 * (8 * tiles_wide as int) * spec_sheet_height(
                tiles@.len() as int,
                tiles_wide as int,
            ) <= usize::MAX,
        ensures
            r.wf(),
            r.width == 8 * tiles_wide,
            r.height as int == spec_sheet_height(tiles@.len() as int, tiles_wide as int),
            forall|x: int, y: int, c: int|
                0 <= x < r.width && 0 <= y < r.height && 0 <= c < 4
                    ==> #[trigger] r.spec_channel_at(x, y, c) == spec_merged_channel(
                    tiles@,
                    tiles_wide as int,
                    x,
                    y,
                    c,
                ),
    {
        let rows = tiles.len() / tiles_wide;
        proof {
            assert(8 * tiles_wide as int <= usize::MAX && 8 * rows as int + 8 <= usize::MAX)
                by (nonlinear_arith)
                requires
                    tiles_wide >= 1,
                    rows >= 0,
                    4 * (8 * tiles_wide as int) * (8 * rows as int + 8) <= usize::MAX,
            ;
        }
        let w = 8 * tiles_wide;
        let h = 8 * rows + 8;
        proof {
            assert(w * h <= usize::MAX && 4 * (w as int * h as int) <= usize::MAX)
                by (nonlinear_arith)
                requires
                    w as int == 8 * tiles_wide as int,
                    h as int == 8 * rows as int + 8,
                    tiles_wide >= 1,
                    rows >= 0,
                    4 * (8 * tiles_wide as int) * (8 * rows as int + 8) <= usize::MAX,
            ;
        }
        let mut pixels: Vec<u8> = Vec::new();
        let mut y: usize = 0;
        while y < h
            invariant
                tiles_wide >= 1,
                w == 8 * tiles_wide,
                h == 8 * rows + 8,
                rows == tiles@.len() as int / tiles_wide as int,
                tiles@.len() + tiles_wide <= usize::MAX,
                4 * (w as int * h as int) <= usize::MAX,
                forall|k: int|
                    0 <= k < tiles@.len() ==> (#[trigger] tiles@[k]).width == 8 && tiles@[k].height
                        == 8 && tiles@[k].wf(),
                y <= h,
                pixels@.len() == 4 * (y as int * w as int),
                forall|py: int, px: int, c: int|
                    0 <= py < y && 0 <= px < w && 0 <= c < 4 ==> pixels@[4 * (py * w as int + px)
                        + c] == #[trigger] spec_merged_channel(
                        tiles@,
                        tiles_wide as int,
                        px,
                        py,
                        c,
                    ),
            decreases h - y,
        {
            let mut x: usize = 0;
            while x < w
                invariant
                    tiles_wide >= 1,
                    w == 8 * tiles_wide,
                    h == 8 * rows + 8,
                    rows == tiles@.len() as int / tiles_wide as int,
                    tiles@.len() + tiles_wide <= usize::MAX,
                    4 * (w as int * h as int) <= usize::MAX,
                    forall|k: int|
                        0 <= k < tiles@.len() ==> (#[trigger] tiles@[k]).width == 8 && tiles@[
                            k
                        ].height == 8 && tiles@[k].wf(),
                    y < h,
                    x <= w,
                    pixels@.len() == 4 * (y as int * w as int) + 4 * x as int,
                    forall|py: int, px: int, c: int|
                        0 <= py < y && 0 <= px < w && 0 <= c < 4 ==> pixels@[4 * (py * w as int
                            + px) + c] == #[trigger] spec_merged_channel(
                            tiles@,
                            tiles_wide as int,
                            px,
                            py,
                            c,
                        ),
                    forall|px: int, c: int|
                        0 <= px < x && 0 <= c < 4 ==> pixels@[4 * (y as int * w as int + px) + c]
                            == #[trigger] spec_merged_channel(
                            tiles@,
                            tiles_wide as int,
                            px,
                            y as int,
                            c,
                        ),
                decreases w - x,
            {
                proof {
                    assert(y as int * w as int + x < h as int * w as int) by (nonlinear_arith)
                        requires
                            0 <= y < h,
                            0 <= x < w,
                    ;
                    assert(h as int * w as int == w as int * h as int) by (nonlinear_arith);
                }
                let cy = y / 8;
                let cx = x / 8;
                proof {
                    assert(cy as int * tiles_wide as int <= rows as int * tiles_wide as int)
                        by (nonlinear_arith)
                        requires
                            0 <= cy <= rows,
                            tiles_wide >= 1,
                    ;
                    assert(rows as int * tiles_wide as int <= tiles@.len()) by (nonlinear_arith)
                        requires
                            tiles_wide >= 1,
                            rows == tiles@.len() as int / tiles_wide as int,
                            tiles@.len() >= 0,
                    ;
                }
                let cell = cy * tiles_wide + cx;
                let ghost len0 = pixels@.len() as int;
                if cell < tiles.len() {
                    let tile = &tiles[cell];
                    let ry = y % 8;
                    let rx = x % 8;
                    let base = 4 * (ry * 8 + rx);
                    pixels.push(tile.pixels[base]);
                    pixels.push(tile.pixels[base + 1]);
                    pixels.push(tile.pixels[base + 2]);
                    pixels.push(tile.pixels[base + 3]);
                } else {
                    pixels.push(0);
                    pixels.push(0);
                    pixels.push(0);
                    pixels.push(0);
                }
                proof {
                    let tw = tiles_wide as int;
                    let wi = w as int;
                    let xi = x as int;
                    let yi = y as int;
                    assert(spec_grid_cell(tw, xi, yi) == cell as int);
                    assert forall|c: int| 0 <= c < 4 implies pixels@[4 * (yi * wi + xi) + c]
                        == spec_merged_channel(tiles@, tw, xi, yi, c) by {
                        assert(4 * (yi * wi + xi) + c == len0 + c);
                    }
                    assert forall|py: int, px: int, c: int|
                        0 <= py < yi && 0 <= px < wi && 0 <= c < 4 implies pixels@[4 * (py * wi
                        + px) + c] == spec_merged_channel(tiles@, tw, px, py, c) by {
                        assert(py * wi + px < yi * wi) by (nonlinear_arith)
                            requires
                                0 <= py < yi,
                                0 <= px < wi,
                        ;
                    }
                }
                x = x + 1;
            }
            proof {
                assert(4 * (y as int * w as int) + 4 * w as int == 4 * ((y as int + 1) * w as int))
                    by (nonlinear_arith);
            }
            y = y + 1;
        }
        proof {
            assert(4 * (h as int * w as int) == 4 * w as int * h as int) by (nonlinear_arith);
        }
        DecodedImage { width: w, height: h, pixels }
    }
}

/// Height in pixels of a merged tile sheet of `count` images: eight per
/// full row of tiles, plus one preserved extra row of eight, which also
/// covers a trailing partial row.
pub open spec fn spec_sheet_height(count: int, tiles_wide: int) -> int {
    8 * (count / tiles_wide) + 8
}

/// Channel `c` of pixel `(x, y)` of a merged tile sheet: the matching
/// pixel of the covering tile image, or 0 where no tile covers the cell.
pub open spec fn spec_merged_channel(
    tiles: Seq<DecodedImage>,
    tiles_wide: int,
    x: int,
    y: int,
    c: int,
) -> u8 {
    let cell = spec_grid_cell(tiles_wide, x, y);
    if cell < tiles.len() {
        tiles[cell].spec_channel_at(x % 8, y % 8, c)
    } else {
        0
    }
}

} // verus!
