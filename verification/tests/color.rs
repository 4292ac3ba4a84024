use hagoromo::{hex_color_string, hex_rgb_bytes, svg_color_string};

#[test]
fn svg_color_string_formats_hex() {
    assert_eq!(svg_color_string(false, 0, 0, 0), "#000000");
    assert_eq!(svg_color_string(false, 255, 255, 255), "#ffffff");
    assert_eq!(svg_color_string(false, 192, 192, 192), "#c0c0c0");
}

#[test]
fn transparent_color_is_none() {
    assert_eq!(svg_color_string(true, 12, 34, 56), "none");
}

#[test]
fn hex_color_string_uses_lowercase_digits() {
    assert_eq!(hex_color_string(0x5e, 0x00, 0x42), "#5e0042");
    assert_eq!(hex_color_string(0xab, 0xcd, 0xef), "#abcdef");
}

#[test]
fn parses_hex_with_and_without_hash() {
    assert_eq!(hex_rgb_bytes("#5E0042"), (0x5e, 0x00, 0x42));
    assert_eq!(hex_rgb_bytes("5E0042"), (0x5e, 0x00, 0x42));
    assert_eq!(hex_rgb_bytes("#c0c0c0"), (192, 192, 192));
}

#[test]
fn parse_skips_every_leading_hash_and_ignores_the_tail() {
    assert_eq!(hex_rgb_bytes("###102030ffff"), (0x10, 0x20, 0x30));
}

#[test]
fn parse_gives_zero_for_invalid_fields() {
    assert_eq!(hex_rgb_bytes("zz10-1"), (0, 0x10, 0));
    assert_eq!(hex_rgb_bytes("#gg00ff"), (0, 0, 255));
}

#[test]
fn parse_accepts_plus_before_single_digit() {
    assert_eq!(hex_rgb_bytes("+f+a+0"), (15, 10, 0));
}

#[test]
fn hex_round_trip() {
    for (r, g, b) in [(0u8, 0u8, 0u8), (255, 128, 1), (18, 52, 86), (171, 205, 239)] {
        let s = hex_color_string(r, g, b);
        assert_eq!(hex_rgb_bytes(&s), (r, g, b));
    }
}
