use graphics::ppm::u32_to_dec;
use graphics::{PPMImg, RGB};

#[test]
fn decimal_digits() {
    assert_eq!(u32_to_dec(0), b"0");
    assert_eq!(u32_to_dec(7), b"7");
    assert_eq!(u32_to_dec(10), b"10");
    assert_eq!(u32_to_dec(500), b"500");
    assert_eq!(u32_to_dec(65535), b"65535");
    assert_eq!(u32_to_dec(u32::MAX), b"4294967295");
}

#[test]
fn binary_bytes_one_byte_per_channel() {
    let img = PPMImg::with_bg(1, 2, 255, RGB::new(1, 2, 3));
    let bytes = img.binary_bytes();
    let mut expected = b"P6\n2 1 255\n".to_vec();
    expected.extend_from_slice(&[1, 2, 3, 1, 2, 3]);
    assert_eq!(bytes, expected);
}

#[test]
fn binary_bytes_two_bytes_big_endian_at_high_depth() {
    let img = PPMImg::with_bg(1, 1, 300, RGB::new(258, 2, 65535));
    let bytes = img.binary_bytes();
    let mut expected = b"P6\n1 1 300\n".to_vec();
    expected.extend_from_slice(&[1, 2, 0, 2, 255, 255]);
    assert_eq!(bytes, expected);
}

#[test]
fn binary_bytes_narrow_channels_keep_low_byte() {
    // a channel above the depth is narrowed to its low byte at depth < 256
    let img = PPMImg::with_bg(1, 1, 255, RGB::new(257, 0, 0));
    let bytes = img.binary_bytes();
    assert_eq!(&bytes[bytes.len() - 3..], &[1, 0, 0]);
}

#[test]
fn ascii_bytes_exact() {
    let img = PPMImg::with_bg(1, 1, 255, RGB::new(10, 0, 255));
    let bytes = img.ascii_bytes();
    assert_eq!(bytes, b"P3\n1 1 255\n10 0 255\n");
}

#[test]
fn binary_bytes_row_major_after_plot() {
    let mut img = PPMImg::with_bg(2, 2, 255, RGB::black());
    // plot at the bottom-left corner: row-major output puts it in the last row
    img.plot(0, 0, 0, RGB::new(9, 9, 9));
    let bytes = img.binary_bytes();
    let pixels = &bytes[b"P6\n2 2 255\n".len()..];
    assert_eq!(pixels, &[0, 0, 0, 0, 0, 0, 9, 9, 9, 0, 0, 0]);
}
