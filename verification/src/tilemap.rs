//! Tilemaps: little-endian nametable words parsed into tile-placement
//! entries, and the compositor that resolves entries, tiles and palette
//! into a final RGBA image.
use vstd::prelude::*;

verus! {

use crate::DecodeError;
use crate::DecodedImage;
use crate::spec_grid_cell;
use crate::spec_grid_height;
use crate::palette::Palette;
use crate::palette::RGBColor;
use crate::palette::spec_word_at;
use crate::tileset::TileEnum;
use crate::tileset::Tileset;
use crate::tileset::spec_lookup_index;
use crate::tileset::spec_tile_renderable;
use crate::tileset::spec_tile_rgba;

/// One tile placement, packed from a 16-bit word: bits 0-9 tile index,
/// bits 10-12 sub-palette index, bit 13 priority, bit 14 horizontal
/// flip, bit 15 vertical flip. `priority` is parsed and retained but
/// does not affect composition in this single-layer model.
#[derive(Clone, Copy, Debug, PartialEq, Eq, Structural)]
pub struct NametableEntry {
    pub flip_h: bool,
    pub flip_v: bool,
    pub priority: bool,
    pub palette_index: u8,
    pub tile_index: u16,
}

/// The entry packed in one nametable word.
pub open spec fn spec_parse_entry(w: u16) -> NametableEntry {
    NametableEntry {
        tile_index: w & 0x3ff,
        palette_index: ((w & 0x1c00) >> 10) as u8,
        priority: (w & 0x2000) >> 13 == 1,
        flip_h: (w & 0x4000) >> 14 == 1,
        flip_v: (w & 0x8000) >> 15 == 1,
    }
}

impl NametableEntry {
    /// Unpacks one nametable word into its entry fields.
    pub fn from_nametable_entry(entry: u16) -> (r: NametableEntry)
        ensures
            r == spec_parse_entry(entry),
    {
        assert((entry & 0x1c00) >> 10 <= 7) by (bit_vector);
        NametableEntry {
            tile_index: entry & 0x3ff,
            palette_index: ((entry & 0x1c00) >> 10) as u8,
            priority: (entry & 0x2000) >> 13 == 1,
            flip_h: (entry & 0x4000) >> 14 == 1,
            flip_v: (entry & 0x8000) >> 15 == 1,
        }
    }
}

/// An ordered sequence of tile placements parsed from a flat nametable;
/// immutable once parsed.
pub struct Tilemap {
    tiles: Vec<NametableEntry>,
}

impl View for Tilemap {
    type V = Seq<NametableEntry>;

    closed spec fn view(&self) -> Seq<NametableEntry> {
        self.tiles@
    }
}

/// The tile row feeding output row `y`: the row within the cell,
/// mirrored when the entry flips vertically.
pub open spec fn spec_source_row(e: NametableEntry, y: int) -> int {
    if e.flip_v {
        7 - y % 8
    } else {
        y % 8
    }
}

/// The tile column feeding output column `x`: the column within the
/// cell, mirrored when the entry flips horizontally.
pub open spec fn spec_source_col(e: NametableEntry, x: int) -> int {
    if e.flip_h {
        7 - x % 8
    } else {
        x % 8
    }
}

/// Entry `e` can be composited: its tile exists in the tile source and
/// all 64 of the tile's palette lookups land inside the palette.
pub open spec fn spec_entry_renderable(
    e: NametableEntry,
    tiles: Seq<TileEnum>,
    pal: Seq<RGBColor>,
) -> bool {
    &&& e.tile_index < tiles.len()
    &&& spec_tile_renderable(tiles[e.tile_index as int], e.palette_index, pal)
}

/// Channel `c` of output pixel `(x, y)` of a composed tilemap: the
/// covering entry's tile pixel, flips applied to the indexed tile before
/// color resolution; transparent black where no entry covers the cell.
pub open spec fn spec_composed_channel(
    entries: Seq<NametableEntry>,
    tiles: Seq<TileEnum>,
    pal: Seq<RGBColor>,
    tiles_wide: int,
    x: int,
    y: int,
    c: int,
) -> u8 {
    let cell = spec_grid_cell(tiles_wide, x, y);
    if cell < entries.len() {
        let e = entries[cell];
        let t = tiles[e.tile_index as int];
        let i = spec_source_row(e, y) * 8 + spec_source_col(e, x);
        let q = spec_tile_rgba(t, e.palette_index, pal, i);
        if c == 0 {
            q.0
        } else if c == 1 {
            q.1
        } else if c == 2 {
            q.2
        } else {
            q.3
        }
    } else {
        0
    }
}

impl Tilemap {
    /// Parses a nametable from little-endian byte data, one entry per
    /// 16-bit word; a trailing odd byte is dropped.
    pub fn new(nametable_data: &[u8]) -> (r: Tilemap)
        ensures
            r@.len() == nametable_data@.len() / 2,
            forall|i: int|
                0 <= i < r@.len() ==> r@[i] == spec_parse_entry(spec_word_at(nametable_data@, i)),
    {
        Tilemap { tiles: Tilemap::parse_nametable(nametable_data) }
    }

    /// Parses the word stream until it is exhausted.
    fn parse_nametable(nametable_data: &[u8]) -> (r: Vec<NametableEntry>)
        ensures
            r@.len() == nametable_data@.len() / 2,
            forall|i: int|
                0 <= i < r@.len() ==> r@[i] == spec_parse_entry(spec_word_at(nametable_data@, i)),
    {
        let n = nametable_data.len() / 2;
        let mut tiles: Vec<NametableEntry> = Vec::new();
        let mut i: usize = 0;
        while i < n
            invariant
                n == nametable_data@.len() / 2,
                nametable_data@.len() <= usize::MAX,
                i <= n,
                tiles@.len() == i,
                forall|j: int|
                    0 <= j < i ==> tiles@[j] == spec_parse_entry(
                        spec_word_at(nametable_data@, j),
                    ),
            decreases n - i,
        {
            let lo = nametable_data[2 * i];
            let hi = nametable_data[2 * i + 1];
            let word: u16 = lo as u16 + 256 * (hi as u16);
            tiles.push(NametableEntry::from_nametable_entry(word));
            i = i + 1;
        }
        tiles
    }

    /// The parsed entries, in nametable order.
    pub fn entries(&self) -> (r: &Vec<NametableEntry>)
        ensures
            r@ == self@,
    {
        &self.tiles
    }

    /// Composes the tilemap into an image `tiles_wide` cells across:
    /// resolves each entry's tile, applies the entry's flips to the
    /// indexed tile, resolves each color index through the entry's
    /// sub-palette (alpha 0 exactly where the index is 0), and writes
    /// the 8x8 block at the entry's grid position. Cells past the last
    /// entry stay transparent black. Reports `IndexOutOfRange` exactly
    /// when some entry names a missing tile or an out-of-range palette
    /// entry; no partial image is returned.
    pub fn generate_image(&self, tiles_wide: usize, tileset: &Tileset, palette: &Palette) -> (r:
        Result<DecodedImage, DecodeError>)
        requires
            tileset.wf(),
            1 <= tiles_wide,
            self@.len() + 2 * tiles_wide <= usize::MAX,
            4 * (8 * tiles_wide as int) * spec_grid_height(self@.len() as int, tiles_wide as int)
                <= usize::MAX,
        ensures
            r is Ok <==> (forall|k: int|
                0 <= k < self@.len() ==> spec_entry_renderable(
                    #[trigger] self@[k],
                    tileset.spec_tiles(),
                    palette@,
                )),
            r is Err ==> r == Err::<DecodedImage, DecodeError>(DecodeError::IndexOutOfRange),
            r is Ok ==> ({
                let img = r->Ok_0;
                &&& img.wf()
                &&& img.width == 8 * tiles_wide
                &&& img.height as int == spec_grid_height(self@.len() as int, tiles_wide as int)
                &&& forall|x: int, y: int, c: int|
                    0 <= x < img.width && 0 <= y < img.height && 0 <= c < 4
                        ==> #[trigger] img.spec_channel_at(x, y, c) == spec_composed_channel(
                        self@,
                        tileset.spec_tiles(),
                        palette@,
                        tiles_wide as int,
                        x,
                        y,
                        c,
                    )
            }),
    {
        let n = self.tiles.len();
        // Validate every entry first, so that failure returns no
        // partial image.
        let mut k: usize = 0;
        while k < n
            invariant
                tileset.wf(),
                n == self@.len(),
                k <= n,
                forall|j: int|
                    0 <= j < k ==> spec_entry_renderable(
                        #[trigger] self@[j],
                        tileset.spec_tiles(),
                        palette@,
                    ),
            decreases n - k,
        {
            let e = self.tiles[k];
            if !((e.tile_index as usize) < tileset.tile_count()) {
                return Err(DecodeError::IndexOutOfRange);
            }
            let t = tileset.tile(e.tile_index as usize);
            match t.get_image(e.palette_index, palette) {
                Ok(_) => {},
                Err(err) => {
                    return Err(err);
                },
            }
            k = k + 1;
        }
        // Render; every lookup below is known to land in range.
        let rows = (n + tiles_wide - 1) / tiles_wide;
        proof {
            assert(8 * tiles_wide as int <= usize::MAX && 8 * rows as int + 8 <= usize::MAX)
                by (nonlinear_arith)
                requires
                    tiles_wide >= 1,
                    rows >= 0,
                    4 * (8 * tiles_wide as int) * (8 * rows as int + 8) <= usize::MAX,
            ;
        }
        let w = 8 * tiles_wide;
        let h = 8 * rows + 8;
        proof {
            assert(w * h <= usize::MAX && 4 * (w as int * h as int) <= usize::MAX)
                by (nonlinear_arith)
                requires
                    w as int == 8 * tiles_wide as int,
                    h as int == 8 * rows as int + 8,
                    tiles_wide >= 1,
                    rows >= 0,
                    4 * (8 * tiles_wide as int) * (8 * rows as int + 8) <= usize::MAX,
            ;
        }
        let mut pixels: Vec<u8> = Vec::new();
        let mut y: usize = 0;
        while y < h
            invariant
                tileset.wf(),
                n == self@.len(),
                forall|j: int|
                    0 <= j < n ==> spec_entry_renderable(
                        #[trigger] self@[j],
                        tileset.spec_tiles(),
                        palette@,
                    ),
                tiles_wide >= 1,
                w == 8 * tiles_wide,
                h == 8 * rows + 8,
                rows == (n + tiles_wide - 1) as int / tiles_wide as int,
                n + 2 * tiles_wide <= usize::MAX,
                4 * (w as int * h as int) <= usize::MAX,
                y <= h,
                pixels@.len() == 4 * (y as int * w as int),
                forall|py: int, px: int, c: int|
                    0 <= py < y && 0 <= px < w && 0 <= c < 4 ==> pixels@[4 * (py * w as int + px)
                        + c] == #[trigger] spec_composed_channel(
                        self@,
                        tileset.spec_tiles(),
                        palette@,
                        tiles_wide as int,
                        px,
                        py,
                        c,
                    ),
            decreases h - y,
        {
            let mut x: usize = 0;
            while x < w
                invariant
                    tileset.wf(),
                    n == self@.len(),
                    forall|j: int|
                        0 <= j < n ==> spec_entry_renderable(
                            #[trigger] self@[j],
                            tileset.spec_tiles(),
                            palette@,
                        ),
                    tiles_wide >= 1,
                    w == 8 * tiles_wide,
                    h == 8 * rows + 8,
                    rows == (n + tiles_wide - 1) as int / tiles_wide as int,
                    n + 2 * tiles_wide <= usize::MAX,
                    4 * (w as int * h as int) <= usize::MAX,
                    y < h,
                    x <= w,
                    pixels@.len() == 4 * (y as int * w as int) + 4 * x as int,
                    forall|py: int, px: int, c: int|
                        0 <= py < y && 0 <= px < w && 0 <= c < 4 ==> pixels@[4 * (py * w as int
                            + px) + c] == #[trigger] spec_composed_channel(
                            self@,
                            tileset.spec_tiles(),
                            palette@,
                            tiles_wide as int,
                            px,
                            py,
                            c,
                        ),
                    forall|px: int, c: int|
                        0 <= px < x && 0 <= c < 4 ==> pixels@[4 * (y as int * w as int + px) + c]
                            == #[trigger] spec_composed_channel(
                            self@,
                            tileset.spec_tiles(),
                            palette@,
                            tiles_wide as int,
                            px,
                            y as int,
                            c,
                        ),
                decreases w - x,
            {
                proof {
                    assert(y as int * w as int + x < h as int * w as int) by (nonlinear_arith)
                        requires
                            0 <= y < h,
                            0 <= x < w,
                    ;
                    assert(h as int * w as int == w as int * h as int) by (nonlinear_arith);
                }
                let cy = y / 8;
                let cx = x / 8;
                proof {
                    assert(cy as int * tiles_wide as int <= rows as int * tiles_wide as int)
                        by (nonlinear_arith)
                        requires
                            0 <= cy <= rows,
                            tiles_wide >= 1,
                    ;
                    assert(rows as int * tiles_wide as int <= n as int + tiles_wide as int - 1)
                        by (nonlinear_arith)
                        requires
                            tiles_wide >= 1,
                            rows == (n + tiles_wide - 1) as int / tiles_wide as int,
                            n >= 0,
                    ;
                }
                let cell = cy * tiles_wide + cx;
                let ghost len0 = pixels@.len() as int;
                if cell < n {
                    let e = self.tiles[cell];
                    let t = tileset.tile(e.tile_index as usize);
                    let ry = y % 8;
                    let rx = x % 8;
                    let sr = if e.flip_v {
                        7 - ry
                    } else {
                        ry
                    };
                    let sc = if e.flip_h {
                        7 - rx
                    } else {
                        rx
                    };
                    let i = sr * 8 + sc;
                    let ci = t.pixel(i);
                    proof {
                        assert(spec_lookup_index(*t, e.palette_index, i as int) < palette@.len());
                    }
                    match palette.get_color(e.palette_index, ci, t.format()) {
                        Ok(col) => {
                            pixels.push(col.red);
                            pixels.push(col.green);
                            pixels.push(col.blue);
                            pixels.push(
                                if ci == 0 {
                                    0
                                } else {
                                    255
                                },
                            );
                        },
                        Err(_) => {
                            proof {
                                assert(false);
                            }
                            return Err(DecodeError::IndexOutOfRange);
                        },
                    }
                } else {
                    pixels.push(0);
                    pixels.push(0);
                    pixels.push(0);
                    pixels.push(0);
                }
                proof {
                    let tw = tiles_wide as int;
                    let wi = w as int;
                    let xi = x as int;
                    let yi = y as int;
                    assert(spec_grid_cell(tw, xi, yi) == cell as int);
                    assert forall|c: int| 0 <= c < 4 implies pixels@[4 * (yi * wi + xi) + c]
                        == spec_composed_channel(
                        self@,
                        tileset.spec_tiles(),
                        palette@,
                        tw,
                        xi,
                        yi,
                        c,
                    ) by {
                        assert(4 * (yi * wi + xi) + c == len0 + c);
                    }
                    assert forall|py: int, px: int, c: int|
                        0 <= py < yi && 0 <= px < wi && 0 <= c < 4 implies pixels@[4 * (py * wi
                        + px) + c] == spec_composed_channel(
                        self@,
                        tileset.spec_tiles(),
                        palette@,
                        tw,
                        px,
                        py,
                        c,
                    ) by {
                        assert(py * wi + px < yi * wi) by (nonlinear_arith)
                            requires
                                0 <= py < yi,
                                0 <= px < wi,
                        ;
                    }
                }
                x = x + 1;
            }
            proof {
                assert(4 * (y as int * w as int) + 4 * w as int == 4 * ((y as int + 1) * w as int))
                    by (nonlinear_arith);
            }
            y = y + 1;
        }
        proof {
            assert(4 * (h as int * w as int) == 4 * w as int * h as int) by (nonlinear_arith);
        }
        Ok(DecodedImage { width: w, height: h, pixels })
    }
}

} // verus!
