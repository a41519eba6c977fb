use snes_gfx::palette::{Format, Palette};
use snes_gfx::tilemap::{NametableEntry, Tilemap};
use snes_gfx::tileset::{TileEnum, TileLoadResult, Tileset};
use snes_gfx::{DecodeError, DecodedImage};

fn rgba_at(img: &DecodedImage, x: usize, y: usize) -> (u8, u8, u8, u8) {
    let i = 4 * (y * img.width + x);
    (
        img.pixels[i],
        img.pixels[i + 1],
        img.pixels[i + 2],
        img.pixels[i + 3],
    )
}

#[test]
fn zero_tile_block_decodes_to_zero_indices() {
    let data = vec![0u8; 32];
    let tileset = Tileset::load(&data, Format::BPP4);
    assert_eq!(tileset.tile_count(), 1);
    for i in 0..64 {
        assert_eq!(tileset.tile(0).pixel(i), 0);
    }
}

#[test]
fn bitplanes_combine_per_pixel() {
    // 4bpp tile: row 0 has plane 0 set at column 0, plane 1 at column 7,
    // plane 2 (chunk 1) at column 0.
    let mut block = vec![0u8; 32];
    block[0] = 0x80; // plane 0, row 0
    block[1] = 0x01; // plane 1, row 0
    block[16] = 0x80; // plane 2, row 0
    let tileset = Tileset::load(&block, Format::BPP4);
    let tile = tileset.tile(0);
    assert_eq!(tile.pixel(0), 1 + 4);
    assert_eq!(tile.pixel(7), 2);
    assert_eq!(tile.pixel(1), 0);
    assert_eq!(tile.pixel(8), 0);
}

#[test]
fn eight_bpp_tiles_combine_all_planes() {
    // 8bpp: planes 6 and 7 live in chunk 3 (bytes 48..64), interleaved
    // by row within the chunk.
    let mut block = vec![0u8; 64];
    block[0] = 0x80; // plane 0, row 0, column 0
    block[48] = 0x80; // plane 6, row 0, column 0
    block[49] = 0x80; // plane 7, row 0, column 0
    let tileset = Tileset::load(&block, Format::BPP8);
    assert_eq!(tileset.tile(0).pixel(0), 1 + 64 + 128);
    assert_eq!(tileset.tile(0).pixel(1), 0);

    // The 8bpp sub-palette holds 256 entries.
    let palette = Palette::load(&[0u8; 512]);
    assert_eq!(palette.count_palettes(Format::BPP8), 1);
    assert_eq!(palette.count_palettes(Format::BPP4), 16);
}

#[test]
fn tile_load_signals_done_at_stream_end() {
    let data = [0u8; 16];
    assert!(matches!(
        TileEnum::load(&data, 16, Format::BPP2),
        TileLoadResult::Done
    ));
    assert!(matches!(
        TileEnum::load(&data, 0, Format::BPP2),
        TileLoadResult::Tile(_)
    ));
}

#[test]
fn partial_tile_block_is_zero_padded() {
    let data = [0x80u8];
    let tileset = Tileset::load(&data, Format::BPP2);
    assert_eq!(tileset.tile_count(), 1);
    assert_eq!(tileset.tile(0).pixel(0), 1);
    for i in 1..64 {
        assert_eq!(tileset.tile(0).pixel(i), 0);
    }
}

#[test]
fn nametable_word_0x1c00_parses_palette_seven() {
    let e = NametableEntry::from_nametable_entry(0x1c00);
    assert_eq!(e.palette_index, 7);
    assert_eq!(e.tile_index, 0);
    assert!(!e.priority);
    assert!(!e.flip_h);
    assert!(!e.flip_v);
}

#[test]
fn nametable_word_0x8000_parses_flip_v_only() {
    let e = NametableEntry::from_nametable_entry(0x8000);
    assert!(e.flip_v);
    assert!(!e.flip_h);
    assert!(!e.priority);
    assert_eq!(e.palette_index, 0);
    assert_eq!(e.tile_index, 0);
}

#[test]
fn trailing_odd_nametable_byte_is_dropped() {
    let tilemap = Tilemap::new(&[0x00, 0x1c, 0xff]);
    assert_eq!(tilemap.entries().len(), 1);
    assert_eq!(tilemap.entries()[0].palette_index, 7);
}

#[test]
fn composed_image_dimensions() {
    // Three entries two tiles wide: 16 wide, 8*ceil(3/2) + 8 = 24 high.
    let tileset = Tileset::load(&vec![0u8; 16], Format::BPP2);
    let palette = Palette::load(&[0xff, 0x7f].repeat(4));
    let tilemap = Tilemap::new(&[0, 0, 0, 0, 0, 0]);
    let img = tilemap.generate_image(2, &tileset, &palette).unwrap();
    assert_eq!(img.width, 16);
    assert_eq!(img.height, 24);
    assert_eq!(img.pixels.len(), 4 * 16 * 24);

    // An exact multiple keeps the extra eight-pixel row.
    let tilemap = Tilemap::new(&[0, 0, 0, 0]);
    let img = tilemap.generate_image(2, &tileset, &palette).unwrap();
    assert_eq!(img.width, 16);
    assert_eq!(img.height, 16);
}

#[test]
fn compositor_applies_flips_and_alpha() {
    // One 2bpp tile whose only set pixel is (row 0, column 0), color 1.
    let mut block = vec![0u8; 16];
    block[0] = 0x80;
    let tileset = Tileset::load(&block, Format::BPP2);
    // Sub-palette 0: entry 0 white, entry 1 dark.
    let palette = Palette::load(&[0xff, 0x7f, 0x21, 0x04, 0x00, 0x00, 0x00, 0x00]);

    let plain = Tilemap::new(&[0x00, 0x00]);
    let img = plain.generate_image(1, &tileset, &palette).unwrap();
    assert_eq!(rgba_at(&img, 0, 0), (8, 8, 8, 255));
    // Color index 0 resolves opaque-white RGB but transparent alpha.
    assert_eq!(rgba_at(&img, 1, 0), (255, 255, 255, 0));

    let flipped_h = Tilemap::new(&[0x00, 0x40]);
    let img = flipped_h.generate_image(1, &tileset, &palette).unwrap();
    assert_eq!(rgba_at(&img, 7, 0), (8, 8, 8, 255));
    assert_eq!(rgba_at(&img, 0, 0).3, 0);

    let flipped_v = Tilemap::new(&[0x00, 0x80]);
    let img = flipped_v.generate_image(1, &tileset, &palette).unwrap();
    assert_eq!(rgba_at(&img, 0, 7), (8, 8, 8, 255));
    assert_eq!(rgba_at(&img, 0, 0).3, 0);
}

#[test]
fn missing_tile_or_color_is_out_of_range() {
    let tileset = Tileset::load(&vec![0u8; 16], Format::BPP2);
    let palette = Palette::load(&[0xff, 0x7f].repeat(4));

    let bad_tile = Tilemap::new(&[0x01, 0x00]);
    assert_eq!(
        bad_tile.generate_image(1, &tileset, &palette).unwrap_err(),
        DecodeError::IndexOutOfRange
    );

    // Sub-palette 1 starts at entry 4, past the four loaded entries.
    let bad_palette = Tilemap::new(&[0x00, 0x04]);
    assert_eq!(
        bad_palette.generate_image(1, &tileset, &palette).unwrap_err(),
        DecodeError::IndexOutOfRange
    );
}

#[test]
fn merged_sheet_dimensions_and_content() {
    let mut block = vec![0u8; 16];
    block[0] = 0x80;
    let tileset = Tileset::load(&block, Format::BPP2);
    let palette = Palette::load(&[0xff, 0x7f, 0x21, 0x04]);
    let images = tileset.images(0, &palette).unwrap();
    assert_eq!(images.len(), 1);
    assert_eq!(rgba_at(&images[0], 0, 0), (8, 8, 8, 255));

    // One tile, 16 wide: no full row, so only the trailing band of
    // eight, which holds the partial row.
    let sheet = Tileset::merge_tiles(&images, 16);
    assert_eq!(sheet.width, 128);
    assert_eq!(sheet.height, 8);
    assert_eq!(rgba_at(&sheet, 0, 0), (8, 8, 8, 255));
    // A cell no tile covers stays transparent black.
    assert_eq!(rgba_at(&sheet, 8, 0), (0, 0, 0, 0));
}

#[test]
fn tileset_images_out_of_range_palette() {
    let tileset = Tileset::load(&vec![0u8; 16], Format::BPP2);
    let palette = Palette::load(&[0xff, 0x7f].repeat(4));
    assert_eq!(
        tileset.images(1, &palette).unwrap_err(),
        DecodeError::IndexOutOfRange
    );
}
