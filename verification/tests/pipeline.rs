//! End-to-end over the verified pieces: walk a line, plot it with depth
//! keys, and serialize the canvas.

use graphics::line::line_pixels;
use graphics::{PPMImg, RGB};

#[test]
fn line_lands_on_canvas_and_serializes() {
    let bg = RGB::black();
    let ink = RGB::new(255, 255, 255);
    let mut img = PPMImg::with_bg(4, 4, 255, bg);
    for (x, y) in line_pixels(0, 0, 3, 3) {
        img.plot(x, y, 0, ink);
    }
    // the diagonal, in a bottom-left-origin canvas, runs from the last
    // stored row to the first
    let lit: Vec<usize> = (0..16).filter(|i| img.data[*i] == ink).collect();
    assert_eq!(lit, vec![3, 6, 9, 12]);
    // corners off the diagonal stay background
    assert_eq!(img.data[0], bg);
    assert_eq!(img.data[15], bg);

    let bytes = img.binary_bytes();
    let header = b"P6\n4 4 255\n";
    assert_eq!(&bytes[..header.len()], header);
    assert_eq!(bytes.len(), header.len() + 3 * 16);
    // pixel 3 is lit: bytes 9..12 of the payload
    assert_eq!(&bytes[header.len() + 9..header.len() + 12], &[255, 255, 255]);
    // pixel 0 is background
    assert_eq!(&bytes[header.len()..header.len() + 3], &[0, 0, 0]);
}

#[test]
fn nearer_line_hides_farther_line() {
    let bg = RGB::black();
    let far = RGB::new(1, 1, 1);
    let near = RGB::new(2, 2, 2);
    let mut img = PPMImg::with_bg(1, 5, 255, bg);
    for (x, y) in line_pixels(0, 0, 4, 0) {
        img.plot(x, y, 10, near);
    }
    for (x, y) in line_pixels(0, 0, 4, 0) {
        img.plot(x, y, 5, far);
    }
    // the farther second pass never wins a pixel
    assert!(img.data.iter().all(|c| *c == near));
}

#[test]
fn rising_walk_rounds_to_the_ideal_line() {
    // the rising octants place each pixel's minor coordinate at the
    // nearest integer to the ideal k * dy / dx, ties rounded down
    let (dx, dy) = (11i64, 4i64);
    let pixels = line_pixels(0, 0, dx as i32, dy as i32);
    for (k, (_, y)) in pixels.iter().enumerate() {
        let expected = (2 * k as i64 * dy + dx - 1).div_euclid(2 * dx);
        assert_eq!(*y as i64, expected);
    }
    // a tie: dy/dx == 1/2 puts the half-way crossings on the lower pixel
    let pixels = line_pixels(0, 0, 2, 1);
    assert_eq!(pixels, vec![(0, 0), (1, 0), (2, 1)]);
}

#[test]
fn falling_walk_lags_two_pixels() {
    // the descending octant starts its decision variable low, so its
    // drops track the rising rounding two pixels late
    let (dx, dy) = (11i64, 4i64);
    let pixels = line_pixels(0, 0, dx as i32, -(dy as i32));
    for (k, (_, y)) in pixels.iter().enumerate() {
        let k = k as i64;
        let expected = if k < 2 {
            0
        } else {
            -((2 * (k - 2) * dy + dx - 1).div_euclid(2 * dx))
        };
        assert_eq!(*y as i64, expected);
    }
}
