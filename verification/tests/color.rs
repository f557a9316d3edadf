//! Tests of the color type: compositing math and hex notation.

use statusbar::parse::str_to_chars;
use statusbar::Color;

#[test]
fn three_digit_hex_expands_nibbles() {
    let c = Color::from_hex(&str_to_chars("0ff")).unwrap();
    assert_eq!(c, Color::new(0, 255, 255, 255));
}

#[test]
fn four_digit_hex_has_alpha() {
    let c = Color::from_hex(&str_to_chars("0ff8")).unwrap();
    assert_eq!(c, Color::new(0, 255, 255, 0x88));
}

#[test]
fn six_digit_hex_is_opaque() {
    let c = Color::from_hex(&str_to_chars("12f40a")).unwrap();
    assert_eq!(c, Color::new(0x12, 0xf4, 0x0a, 255));
}

#[test]
fn eight_digit_hex_carries_alpha() {
    let c = Color::from_hex(&str_to_chars("a1b2c3d4")).unwrap();
    assert_eq!(c, Color::new(0xa1, 0xb2, 0xc3, 0xd4));
}

#[test]
fn uppercase_hex_is_accepted() {
    let c = Color::from_hex(&str_to_chars("ABCDEF")).unwrap();
    assert_eq!(c, Color::new(0xab, 0xcd, 0xef, 255));
}

#[test]
fn bad_hex_lengths_are_rejected() {
    assert!(Color::from_hex(&str_to_chars("")).is_none());
    assert!(Color::from_hex(&str_to_chars("12")).is_none());
    assert!(Color::from_hex(&str_to_chars("12345")).is_none());
    assert!(Color::from_hex(&str_to_chars("1234567")).is_none());
    assert!(Color::from_hex(&str_to_chars("123456789")).is_none());
}

#[test]
fn non_hex_digits_are_rejected() {
    assert!(Color::from_hex(&str_to_chars("xyz")).is_none());
    assert!(Color::from_hex(&str_to_chars("12g")).is_none());
}

#[test]
fn hex_string_needs_hash() {
    assert!(Color::from_hex_str(&str_to_chars("ffffff")).is_none());
    assert_eq!(
        Color::from_hex_str(&str_to_chars("#ffffff")).unwrap(),
        Color::new(255, 255, 255, 255)
    );
}

#[test]
fn to_hex_writes_eight_lowercase_digits() {
    let v = Color::new(0x12, 0x34, 0x56, 0x78).to_hex();
    assert_eq!(v, str_to_chars("#12345678"));
    let v = Color::new(0xab, 0xcd, 0xef, 0x01).to_hex();
    assert_eq!(v, str_to_chars("#abcdef01"));
}

#[test]
fn hex_round_trip_preserves_all_bytes() {
    for &c in &[
        Color::new(0, 0, 0, 0),
        Color::new(255, 255, 255, 255),
        Color::new(1, 2, 3, 4),
        Color::new(0x7f, 0x80, 0xfe, 0x01),
        Color::new(16, 32, 64, 128),
    ] {
        let back = Color::from_hex_str(&c.to_hex()).unwrap();
        assert_eq!(back, c);
    }
}

#[test]
fn blend_opaque_over_anything_keeps_hue() {
    let red = Color::new(255, 0, 0, 255);
    let blue = Color::new(0, 0, 255, 255);
    let out = red.blend(&blue);
    // Fixed-point math: 255 * 255 / 256 rounds down to 254.
    assert_eq!(out, Color::new(254, 0, 0, 255));
}

#[test]
fn blend_transparent_over_background_keeps_background() {
    let clear = Color::new(9, 9, 9, 0);
    let bg = Color::new(10, 20, 30, 255);
    let out = clear.blend(&bg);
    // 255 - (255 * 0 / 256) = 255; channels: bg * 255 * 255 / 65536.
    assert_eq!(out.a, 255);
    assert_eq!(out.r, (10u32 * 255 * 255 / 65536) as u8);
    assert_eq!(out.g, (20u32 * 255 * 255 / 65536) as u8);
    assert_eq!(out.b, (30u32 * 255 * 255 / 65536) as u8);
}

#[test]
fn with_alpha_scales_multiplicatively() {
    let c = Color::new(5, 6, 7, 255);
    assert_eq!(c.with_alpha(128), Color::new(5, 6, 7, 127));
    assert_eq!(c.with_alpha(0), Color::new(5, 6, 7, 0));
    assert_eq!(c.with_alpha(255), Color::new(5, 6, 7, 254));
}

#[test]
fn byte_form_is_bgra() {
    let c = Color::new(1, 2, 3, 4);
    assert_eq!(c.to_bytes(), [3, 2, 1, 4]);
    assert_eq!(Color::from_bytes(&[3, 2, 1, 4]), c);
}
