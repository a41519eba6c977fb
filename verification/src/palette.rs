//! Raw indexed-color palettes: little-endian 15-bit color words decoded
//! into 24-bit RGB entries, grouped into fixed-size sub-palettes.
use vstd::prelude::*;

verus! {

use crate::DecodeError;

/// Indexed-color bit depth of a tile; it fixes the sub-palette size and
/// the byte-block size of a tile.
#[derive(Clone, Copy, Debug, PartialEq, Eq, Structural)]
pub enum Format {
    BPP2,
    BPP4,
    BPP8,
}

/// Entries per sub-palette at a bit depth: `2^bpp`.
pub open spec fn spec_sub_palette_size(format: Format) -> nat {
    match format {
        Format::BPP2 => 4,
        Format::BPP4 => 16,
        Format::BPP8 => 256,
    }
}

/// A 24-bit RGB color entry.
#[derive(Clone, Copy, Debug, PartialEq, Eq, Structural)]
pub struct RGBColor {
    pub red: u8,
    pub green: u8,
    pub blue: u8,
}

/// An 8-bit channel from a 5-bit channel: `v*8 + (v*8)/32`. This bit
/// replication maps 0 to 0 and 31 to 255, giving the full dynamic range.
pub open spec fn spec_channel(v: nat) -> nat
    recommends
        v < 32,
{
    v * 8 + (v * 8) / 32
}

/// The little-endian 16-bit word at word index `i` of `data`.
pub open spec fn spec_word_at(data: Seq<u8>, i: int) -> u16
    recommends
        0 <= i,
        2 * i + 1 < data.len(),
{
    (data[2 * i] as int + 256 * data[2 * i + 1] as int) as u16
}

/// The RGB entry packed in a 15-bit color word: bits 0-4 red, 5-9 green,
/// 10-14 blue, each channel widened by bit replication.
pub open spec fn spec_rgb15_to_rgb24(w: u16) -> RGBColor {
    RGBColor {
        red: spec_channel((w & 0x1f) as nat) as u8,
        green: spec_channel(((w >> 5) & 0x1f) as nat) as u8,
        blue: spec_channel(((w >> 10) & 0x1f) as nat) as u8,
    }
}

/// What looking up `table[palette * sub_palette_size(format) + color]`
/// yields: the entry, or `IndexOutOfRange` exactly when the index is at
/// or beyond the loaded entry count.
pub open spec fn spec_get_color(
    pal: Seq<RGBColor>,
    palette: u8,
    color: u8,
    format: Format,
) -> Result<RGBColor, DecodeError> {
    let idx = palette as int * spec_sub_palette_size(format) as int + color as int;
    if idx < pal.len() {
        Ok(pal[idx])
    } else {
        Err(DecodeError::IndexOutOfRange)
    }
}

/// Channel conversion endpoints, on every channel of any color word:
/// a 5-bit channel of 0x1F becomes 255, of 0x00 becomes 0, and of 0x01
/// becomes 8.
pub proof fn lemma_channel_conversion(w: u16)
    ensures
        w & 0x1f == 0x1f ==> spec_rgb15_to_rgb24(w).red == 255,
        w & 0x1f == 0x00 ==> spec_rgb15_to_rgb24(w).red == 0,
        w & 0x1f == 0x01 ==> spec_rgb15_to_rgb24(w).red == 8,
        (w >> 5) & 0x1f == 0x1f ==> spec_rgb15_to_rgb24(w).green == 255,
        (w >> 5) & 0x1f == 0x00 ==> spec_rgb15_to_rgb24(w).green == 0,
        (w >> 5) & 0x1f == 0x01 ==> spec_rgb15_to_rgb24(w).green == 8,
        (w >> 10) & 0x1f == 0x1f ==> spec_rgb15_to_rgb24(w).blue == 255,
        (w >> 10) & 0x1f == 0x00 ==> spec_rgb15_to_rgb24(w).blue == 0,
        (w >> 10) & 0x1f == 0x01 ==> spec_rgb15_to_rgb24(w).blue == 8,
{
    assert(spec_channel(0x1f) == 255);
    assert(spec_channel(0x00) == 0);
    assert(spec_channel(0x01) == 8);
}

/// Sub-palette isolation: the 4bpp lookup `(0, 0)` and the 2bpp lookup
/// `(1, 0)` read distinct table entries, so they differ whenever the
/// sub-palette blocks backing them do.
pub proof fn lemma_sub_palette_isolation(pal: Seq<RGBColor>)
    requires
        5 <= pal.len(),
        pal[0] != pal[4],
    ensures
        spec_get_color(pal, 0, 0, Format::BPP4) != spec_get_color(pal, 1, 0, Format::BPP2),
{
}

/// An ordered table of RGB entries decoded from little-endian 15-bit
/// color words; immutable once loaded.
#[derive(Clone)]
pub struct Palette {
    colors: Vec<RGBColor>,
}

impl View for Palette {
    type V = Seq<RGBColor>;

    closed spec fn view(&self) -> Seq<RGBColor> {
        self.colors@
    }
}

impl Palette {
    /// Decodes little-endian palette data, one RGB entry per 16-bit
    /// word. A trailing odd byte is dropped.
    pub fn load(palette_data: &[u8]) -> (r: Palette)
        ensures
            r@.len() == palette_data@.len() / 2,
            forall|i: int|
                0 <= i < r@.len() ==> r@[i] == spec_rgb15_to_rgb24(
                    spec_word_at(palette_data@, i),
                ),
    {
        let n = palette_data.len() / 2;
        let mut colors: Vec<RGBColor> = Vec::new();
        let mut i: usize = 0;
        while i < n
            invariant
                n == palette_data@.len() / 2,
                palette_data@.len() <= usize::MAX,
                i <= n,
                colors@.len() == i,
                forall|j: int|
                    0 <= j < i ==> colors@[j] == spec_rgb15_to_rgb24(
                        spec_word_at(palette_data@, j),
                    ),
            decreases n - i,
        {
            let lo = palette_data[2 * i];
            let hi = palette_data[2 * i + 1];
            let word: u16 = lo as u16 + 256 * (hi as u16);
            colors.push(Self::rgb15_to_rgb24(word));
            i = i + 1;
        }
        Palette { colors }
    }

    /// Converts one 15-bit color word to its 24-bit RGB entry.
    fn rgb15_to_rgb24(color: u16) -> (r: RGBColor)
        ensures
            r == spec_rgb15_to_rgb24(color),
    {
        let r5 = color & 0x1f;
        let g5 = (color >> 5) & 0x1f;
        let b5 = (color >> 10) & 0x1f;
        assert(color & 0x1f < 32 && (color >> 5) & 0x1f < 32 && (color >> 10) & 0x1f < 32)
            by (bit_vector);
        let red = (8 * r5 + (8 * r5) / 32) as u8;
        let green = (8 * g5 + (8 * g5) / 32) as u8;
        let blue = (8 * b5 + (8 * b5) / 32) as u8;
        RGBColor { red, green, blue }
    }

    /// The sub-palette size fixed by a bit depth.
    pub fn sub_palette_size(format: Format) -> (r: usize)
        ensures
            r as nat == spec_sub_palette_size(format),
    {
        match format {
            Format::BPP2 => 4,
            Format::BPP4 => 16,
            Format::BPP8 => 256,
        }
    }

    /// Looks up entry `palette * sub_palette_size(format) + color`, or
    /// reports `IndexOutOfRange` exactly when that index is at or beyond
    /// the loaded entry count. It never clamps.
    pub fn get_color(&self, palette: u8, color: u8, format: Format) -> (r: Result<
        RGBColor,
        DecodeError,
    >)
        ensures
            r == spec_get_color(self@, palette, color, format),
    {
        let size = Self::sub_palette_size(format);
        let idx = (palette as usize) * size + (color as usize);
        if idx < self.colors.len() {
            Ok(self.colors[idx])
        } else {
            Err(DecodeError::IndexOutOfRange)
        }
    }

    /// Looks up a color entry: the same lookup as `get_color`.
    pub fn get_rgb_color(&self, palette_index: u8, color: u8, format: Format) -> (r: Result<
        RGBColor,
        DecodeError,
    >)
        ensures
            r == spec_get_color(self@, palette_index, color, format),
    {
        self.get_color(palette_index, color, format)
    }

    /// How many whole sub-palettes of the given bit depth the loaded
    /// entries fill: `loaded_color_count / sub_palette_size`.
    pub fn count_palettes(&self, format: Format) -> (r: usize)
        ensures
            r as nat == self@.len() / spec_sub_palette_size(format),
    {
        self.colors.len() / Self::sub_palette_size(format)
    }

    /// The number of loaded color entries.
    pub fn color_count(&self) -> (r: usize)
        ensures
            r == self@.len(),
    {
        self.colors.len()
    }
}

} // verus!
