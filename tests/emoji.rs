use imoji::{emoji_grid, image_to_emoji, pixel_to_emoji, Image, Rgba, TRANSPARENT_GLYPH};

const BLUE: char = '\u{1F7E6}';
const PURPLE: char = '\u{1F7EA}';
const ORANGE: char = '\u{1F7E7}';
const BROWN: char = '\u{1F7EB}';
const RED: char = '\u{1F7E5}';
const YELLOW: char = '\u{1F7E8}';
const GREEN: char = '\u{1F7E9}';
const WHITE: char = '\u{2B1C}';
const BLACK: char = '\u{2B1B}';

fn rgba(r: u8, g: u8, b: u8, a: u8) -> Rgba {
    Rgba { r, g, b, a }
}

fn image(width: u32, height: u32, pixels: &[Rgba]) -> Image {
    let mut data = Vec::new();
    for p in pixels {
        data.extend_from_slice(&[p.r, p.g, p.b, p.a]);
    }
    Image::from_raw(width, height, data).expect("byte count matches the size")
}

#[test]
fn blue_then_transparent_without_bounds() {
    let img = image(2, 1, &[rgba(0x5d, 0xad, 0xec, 255), rgba(0, 0, 0, 0)]);
    assert_eq!(image_to_emoji(img, None, None), "\u{1F7E6}\u{25AA}");
}

#[test]
fn transparent_pixel_ignores_colour() {
    for (r, g, b) in [(0, 0, 0), (255, 255, 255), (0x5d, 0xad, 0xec), (190, 25, 49)] {
        for a in [0, 1, 100, 126] {
            assert_eq!(pixel_to_emoji(3, 4, rgba(r, g, b, a)), (3, 4, TRANSPARENT_GLYPH));
        }
    }
}

#[test]
fn alpha_at_threshold_is_opaque() {
    assert_eq!(pixel_to_emoji(0, 0, rgba(0x5d, 0xad, 0xec, 127)).2, BLUE);
}

#[test]
fn palette_colours_map_to_their_glyphs() {
    let palette = [
        (BLUE, rgba(0x5d, 0xad, 0xec, 255)),
        (PURPLE, rgba(0xaa, 0x8e, 0xd6, 255)),
        (ORANGE, rgba(0xff, 0xac, 0x33, 255)),
        (BROWN, rgba(0x7c, 0x53, 0x3e, 255)),
        (RED, rgba(0xbe, 0x19, 0x31, 255)),
        (YELLOW, rgba(0xfd, 0xcb, 0x58, 255)),
        (GREEN, rgba(0x78, 0xb1, 0x59, 255)),
        (WHITE, rgba(0xe6, 0xe7, 0xe8, 255)),
        (BLACK, rgba(0x29, 0x2f, 0x33, 255)),
    ];
    for (i, (glyph, colour)) in palette.iter().enumerate() {
        assert_eq!(pixel_to_emoji(i as u32, 7, *colour), (i as u32, 7, *glyph));
    }
}

#[test]
fn nearest_colour_examples() {
    assert_eq!(pixel_to_emoji(0, 0, rgba(255, 0, 0, 255)).2, ORANGE);
    assert_eq!(pixel_to_emoji(0, 0, rgba(0, 255, 0, 255)).2, YELLOW);
    assert_eq!(pixel_to_emoji(0, 0, rgba(0, 0, 255, 255)).2, WHITE);
    assert_eq!(pixel_to_emoji(0, 0, rgba(0, 0, 0, 255)).2, BROWN);
    assert_eq!(pixel_to_emoji(0, 0, rgba(128, 128, 128, 255)).2, BROWN);
    assert_eq!(pixel_to_emoji(0, 0, rgba(200, 30, 40, 255)).2, RED);
    assert_eq!(pixel_to_emoji(0, 0, rgba(10, 200, 240, 255)).2, BLUE);
}

#[test]
fn hue_below_zero_is_not_wrapped() {
    // Red with a little blue has a hue just below zero.
    assert_eq!(pixel_to_emoji(0, 0, rgba(255, 0, 10, 255)).2, ORANGE);
}

#[test]
fn output_shape_matches_image() {
    let pixels: Vec<Rgba> = (0..12u8).map(|i| rgba(i * 20, 255 - i * 20, i * 7, 255)).collect();
    let text = image_to_emoji(image(4, 3, &pixels), None, None);
    let rows: Vec<&str> = text.split('\n').collect();
    assert_eq!(rows.len(), 3);
    for row in rows {
        assert_eq!(row.chars().count(), 4);
    }
    assert!(!text.ends_with('\n'));
}

#[test]
fn rows_are_in_order() {
    let img = image(
        2,
        2,
        &[
            rgba(0x5d, 0xad, 0xec, 255),
            rgba(0xbe, 0x19, 0x31, 255),
            rgba(0, 0, 0, 0),
            rgba(0x78, 0xb1, 0x59, 255),
        ],
    );
    let expected: String = [BLUE, RED, '\n', TRANSPARENT_GLYPH, GREEN].iter().collect();
    assert_eq!(emoji_grid(&img), expected);
}

#[test]
fn same_input_same_output() {
    let pixels: Vec<Rgba> = (0..20u8).map(|i| rgba(i * 12, i * 5, 255 - i * 9, 200)).collect();
    let a = image_to_emoji(image(5, 4, &pixels), Some(3), Some(3));
    let b = image_to_emoji(image(5, 4, &pixels), Some(3), Some(3));
    assert_eq!(a, b);
}

#[test]
fn resize_without_bounds_keeps_size() {
    let pixels: Vec<Rgba> = (0..6u8).map(|i| rgba(i, i, i, 255)).collect();
    let img = image(3, 2, &pixels).resize(None, None);
    assert_eq!((img.width(), img.height()), (3, 2));
    assert_eq!(img.get_pixel(2, 1), rgba(5, 5, 5, 255));
}

#[test]
fn resize_fits_box_keeping_aspect() {
    let pixels: Vec<Rgba> = (0..8u8).map(|_| rgba(0x5d, 0xad, 0xec, 255)).collect();
    let img = image(4, 2, &pixels).resize(Some(2), None);
    assert_eq!((img.width(), img.height()), (2, 1));
    assert_eq!(image_to_emoji(image(4, 2, &pixels), Some(2), None), "\u{1F7E6}\u{1F7E6}");
}

#[test]
fn from_raw_rejects_wrong_length() {
    assert!(Image::from_raw(2, 2, vec![0; 15]).is_none());
    assert!(Image::from_raw(2, 2, vec![0; 17]).is_none());
    assert!(Image::from_raw(2, 2, vec![0; 16]).is_some());
}

#[test]
fn empty_image_gives_empty_text() {
    let img = Image::from_raw(0, 0, Vec::new()).unwrap();
    assert_eq!(image_to_emoji(img, Some(5), Some(5)), "");
}

#[test]
fn single_pixel_image() {
    let img = image(1, 1, &[rgba(0x29, 0x2f, 0x33, 255)]);
    assert_eq!(image_to_emoji(img, None, None), BLACK.to_string());
}
