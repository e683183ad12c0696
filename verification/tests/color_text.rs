//! Textual hexadecimal colors.

use ptycore::color::parse_hex_color;
use ptycore::emu::Rgba;

#[test]
fn six_digit_colors_parse_with_full_opacity() {
    assert_eq!(parse_hex_color(b"#d6efff"), Some(Rgba(0xD6, 0xEF, 0xFF, 0xFF)));
    assert_eq!(parse_hex_color(b"#07121A"), Some(Rgba(0x07, 0x12, 0x1A, 0xFF)));
}

#[test]
fn eight_digit_colors_carry_their_opacity() {
    assert_eq!(parse_hex_color(b"#ff000080"), Some(Rgba(0xFF, 0x00, 0x00, 0x80)));
}

#[test]
fn surrounding_whitespace_is_ignored() {
    assert_eq!(parse_hex_color(b"  #102030\t"), Some(Rgba(0x10, 0x20, 0x30, 0xFF)));
}

#[test]
fn odd_lengths_fall_back_to_black() {
    assert_eq!(parse_hex_color(b"#fff"), Some(Rgba(0, 0, 0, 0xFF)));
    assert_eq!(parse_hex_color(b"#"), Some(Rgba(0, 0, 0, 0xFF)));
}

#[test]
fn a_bad_color_channel_reads_as_zero() {
    assert_eq!(parse_hex_color(b"#zzef00"), Some(Rgba(0x00, 0xEF, 0x00, 0xFF)));
    assert_eq!(parse_hex_color(b"#zz1122ff"), Some(Rgba(0x00, 0x11, 0x22, 0xFF)));
}

#[test]
fn a_bad_opacity_channel_reads_as_opaque() {
    assert_eq!(parse_hex_color(b"#000000ZZ"), Some(Rgba(0, 0, 0, 0xFF)));
    assert_eq!(parse_hex_color(b"#10203040"), Some(Rgba(0x10, 0x20, 0x30, 0x40)));
}

#[test]
fn other_color_forms_are_left_to_the_host() {
    assert_eq!(parse_hex_color(b"rgba(1,2,3,0.5)"), None);
    assert_eq!(parse_hex_color(b""), None);
}
