use snes_gfx::palette::{Format, Palette, RGBColor};
use snes_gfx::DecodeError;

#[test]
fn palette_returns_correct_number_of_palettes() {
    let palette = Palette::load(&[0xff, 0x7f].repeat(16));
    assert_eq!(palette.count_palettes(Format::BPP4), 1);
    assert_eq!(palette.count_palettes(Format::BPP2), 4);

    let palette = Palette::load(&[0xff, 0x7f].repeat(32));
    assert_eq!(palette.count_palettes(Format::BPP4), 2);
    assert_eq!(palette.count_palettes(Format::BPP2), 8);
}

#[test]
fn palette_returns_correct_rgb_values() {
    let mut palettes = [0xff, 0x7f].repeat(16);
    palettes.append(&mut [0x21, 0x04].repeat(16));

    let palette = Palette::load(&palettes);
    let white = RGBColor { red: 255, green: 255, blue: 255 };
    let dark = RGBColor { red: 8, green: 8, blue: 8 };
    assert_eq!(palette.get_rgb_color(0, 0, Format::BPP4).unwrap(), white);
    assert_eq!(palette.get_rgb_color(1, 0, Format::BPP4).unwrap(), dark);
    assert_eq!(palette.get_rgb_color(0, 0, Format::BPP2).unwrap(), white);
    assert_eq!(palette.get_rgb_color(4, 0, Format::BPP2).unwrap(), dark);
    assert_ne!(palette.get_rgb_color(0, 0, Format::BPP2).unwrap(), dark);
}

#[test]
fn channel_conversion_full_range() {
    // 5-bit 0x1F maps to 255, 0x00 to 0, 0x01 to 8, on every channel.
    let red_max = Palette::load(&[0x1f, 0x00]);
    let c = red_max.get_color(0, 0, Format::BPP2).unwrap();
    assert_eq!((c.red, c.green, c.blue), (255, 0, 0));

    let green_max = Palette::load(&[0xe0, 0x03]);
    let c = green_max.get_color(0, 0, Format::BPP2).unwrap();
    assert_eq!((c.red, c.green, c.blue), (0, 255, 0));

    let blue_max = Palette::load(&[0x00, 0x7c]);
    let c = blue_max.get_color(0, 0, Format::BPP2).unwrap();
    assert_eq!((c.red, c.green, c.blue), (0, 0, 255));

    let red_one = Palette::load(&[0x01, 0x00]);
    let c = red_one.get_color(0, 0, Format::BPP2).unwrap();
    assert_eq!((c.red, c.green, c.blue), (8, 0, 0));

    let green_one = Palette::load(&[0x20, 0x00]);
    let c = green_one.get_color(0, 0, Format::BPP2).unwrap();
    assert_eq!((c.red, c.green, c.blue), (0, 8, 0));

    let blue_one = Palette::load(&[0x00, 0x04]);
    let c = blue_one.get_color(0, 0, Format::BPP2).unwrap();
    assert_eq!((c.red, c.green, c.blue), (0, 0, 8));
}

#[test]
fn sub_palette_isolation() {
    // Entries 0..4 are white, entries 4..16 are dark: the 4bpp lookup
    // (0, 0) and the 2bpp lookup (1, 0) hit distinct sub-palettes.
    let mut data = [0xff, 0x7f].repeat(4);
    data.append(&mut [0x21, 0x04].repeat(12));
    let palette = Palette::load(&data);
    let a = palette.get_color(0, 0, Format::BPP4).unwrap();
    let b = palette.get_color(1, 0, Format::BPP2).unwrap();
    assert_ne!(a, b);
    assert_eq!(a, RGBColor { red: 255, green: 255, blue: 255 });
    assert_eq!(b, RGBColor { red: 8, green: 8, blue: 8 });
}

#[test]
fn lookup_past_loaded_count_is_out_of_range() {
    let palette = Palette::load(&[0xff, 0x7f].repeat(16));
    assert_eq!(palette.color_count(), 16);
    assert!(palette.get_color(0, 15, Format::BPP4).is_ok());
    assert_eq!(
        palette.get_color(0, 16, Format::BPP4).unwrap_err(),
        DecodeError::IndexOutOfRange
    );
    assert_eq!(
        palette.get_color(1, 0, Format::BPP4).unwrap_err(),
        DecodeError::IndexOutOfRange
    );
    assert_eq!(
        palette.get_color(4, 0, Format::BPP2).unwrap_err(),
        DecodeError::IndexOutOfRange
    );
}

#[test]
fn trailing_odd_palette_byte_is_dropped() {
    let palette = Palette::load(&[0xff, 0x7f, 0x12]);
    assert_eq!(palette.color_count(), 1);
}
