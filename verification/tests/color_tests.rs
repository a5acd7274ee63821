use titan::color::{color_wrap, format_decimal, Color, Colorize};

#[test]
fn color_codes_are_the_ansi_digits() {
    assert_eq!(Color::Red.code(), b"31".to_vec());
    assert_eq!(Color::Yellow.code(), b"33".to_vec());
    assert_eq!(Color::Blue.code(), b"34".to_vec());
}

#[test]
fn color_wrap_frames_the_bytes_in_escapes() {
    assert_eq!(color_wrap(b"hi", Color::Red), b"\x1b[31mhi\x1b[0m".to_vec());
    assert_eq!(color_wrap(b"", Color::Blue), b"\x1b[34m\x1b[0m".to_vec());
}

#[test]
fn to_color_matches_color_wrap() {
    let owned = b"path/to/file".to_vec();
    assert_eq!(owned.to_color(Color::Yellow), b"\x1b[33mpath/to/file\x1b[0m".to_vec());
}

#[test]
fn format_decimal_writes_the_digits() {
    assert_eq!(format_decimal(0), b"0".to_vec());
    assert_eq!(format_decimal(7), b"7".to_vec());
    assert_eq!(format_decimal(10), b"10".to_vec());
    assert_eq!(format_decimal(90210), b"90210".to_vec());
}
