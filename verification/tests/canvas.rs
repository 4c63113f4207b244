use graphics::{PPMImg, RGB};

#[test]
fn with_bg_fills_both_buffers() {
    let bg = RGB::new(9, 8, 7);
    let img = PPMImg::with_bg(3, 4, 255, bg);
    assert_eq!(img.height, 3);
    assert_eq!(img.width, 4);
    assert_eq!(img.depth, 255);
    assert_eq!(img.data.len(), 12);
    assert_eq!(img.zbuf.len(), 12);
    assert!(img.data.iter().all(|c| *c == bg));
    assert!(img.zbuf.iter().all(|z| *z == i64::MIN));
    assert!(!img.x_wrap && !img.y_wrap && !img.invert_y);
}

#[test]
fn new_is_black() {
    let img = PPMImg::new(2, 2, 255);
    assert!(img.data.iter().all(|c| *c == RGB::gray(0)));
}

#[test]
fn index_without_wrapping() {
    let img = PPMImg::with_bg(3, 4, 255, RGB::black());
    assert_eq!(img.index(0, 0), Some(0));
    assert_eq!(img.index(1, 2), Some(9));
    assert_eq!(img.index(3, 2), Some(11));
    assert_eq!(img.index(-1, 0), None);
    assert_eq!(img.index(4, 0), None);
    assert_eq!(img.index(0, -1), None);
    assert_eq!(img.index(0, 3), None);
}

#[test]
fn index_wraps_with_negative_correction() {
    let mut img = PPMImg::with_bg(3, 4, 255, RGB::black());
    img.x_wrap = true;
    img.y_wrap = true;
    assert_eq!(img.index(-1, 0), Some(3)); // -1 mod 4 == 3
    assert_eq!(img.index(9, 1), Some(5)); // 9 mod 4 == 1
    assert_eq!(img.index(-8, 0), Some(0)); // an exact multiple wraps to 0
    assert_eq!(img.index(0, -2), Some(4)); // -2 mod 3 == 1
    assert_eq!(img.index(2, 5), Some(10)); // 5 mod 3 == 2
}

#[test]
fn index_invert_y_flips_on_a_square_canvas() {
    let mut img = PPMImg::with_bg(3, 3, 255, RGB::black());
    img.invert_y = true;
    assert_eq!(img.index(0, 0), Some(6)); // row 0 becomes row 2
    assert_eq!(img.index(1, 2), Some(1));
}

#[test]
fn plot_addresses_bottom_left_origin() {
    let bg = RGB::black();
    let c = RGB::new(1, 2, 3);
    let mut img = PPMImg::with_bg(3, 4, 255, bg);
    // y counts up from the bottom edge: (1, 0) lands in the last stored row
    img.plot(1, 0, 0, c);
    assert_eq!(img.data[2 * 4 + 1], c);
    assert_eq!(img.zbuf[2 * 4 + 1], 0);
    // every other pixel is untouched
    for i in 0..12 {
        if i != 9 {
            assert_eq!(img.data[i], bg);
            assert_eq!(img.zbuf[i], i64::MIN);
        }
    }
}

#[test]
fn plot_outside_canvas_is_discarded() {
    let bg = RGB::gray(5);
    let mut img = PPMImg::with_bg(3, 4, 255, bg);
    img.plot(-1, 0, 10, RGB::white());
    img.plot(4, 0, 10, RGB::white());
    img.plot(0, 3, 10, RGB::white());
    img.plot(0, -1, 10, RGB::white());
    assert!(img.data.iter().all(|c| *c == bg));
}

#[test]
fn zbuffer_larger_key_wins() {
    let bg = RGB::black();
    let c1 = RGB::new(10, 0, 0);
    let c2 = RGB::new(0, 10, 0);
    let c3 = RGB::new(0, 0, 10);
    let mut img = PPMImg::with_bg(3, 4, 255, bg);
    // first write at depth 5 lands
    img.plot(2, 1, 5, c1);
    assert_eq!(img.data[1 * 4 + 2], c1);
    assert_eq!(img.zbuf[1 * 4 + 2], 5);
    // a farther write at depth 3 is discarded
    img.plot(2, 1, 3, c2);
    assert_eq!(img.data[1 * 4 + 2], c1);
    assert_eq!(img.zbuf[1 * 4 + 2], 5);
    // an equal depth is discarded too: the test is strict
    img.plot(2, 1, 5, c2);
    assert_eq!(img.data[1 * 4 + 2], c1);
    // a nearer write at depth 7 overwrites
    img.plot(2, 1, 7, c3);
    assert_eq!(img.data[1 * 4 + 2], c3);
    assert_eq!(img.zbuf[1 * 4 + 2], 7);
}

#[test]
fn clear_resets_pixels_and_depth() {
    let mut img = PPMImg::with_bg(2, 2, 255, RGB::black());
    img.plot(0, 0, 42, RGB::white());
    let bg2 = RGB::new(3, 3, 3);
    img.clear(bg2);
    assert!(img.data.iter().all(|c| *c == bg2));
    assert!(img.zbuf.iter().all(|z| *z == i64::MIN));
    // after a clear, a write at the lowest key is still discarded:
    // nothing sits below the cleared depth
    img.plot(0, 0, i64::MIN, RGB::white());
    assert!(img.data.iter().all(|c| *c == bg2));
}

#[test]
fn zero_sized_canvas_accepts_nothing() {
    let mut img = PPMImg::with_bg(0, 0, 255, RGB::black());
    assert_eq!(img.data.len(), 0);
    assert_eq!(img.index(0, 0), None);
    img.plot(0, 0, 5, RGB::white());
    let bytes = img.binary_bytes();
    assert_eq!(bytes, b"P6\n0 0 255\n");
}

#[test]
fn single_pixel_canvas_with_wraparound() {
    let mut img = PPMImg::with_bg(1, 1, 255, RGB::black());
    img.x_wrap = true;
    img.y_wrap = true;
    // every coordinate reduces to the one pixel
    assert_eq!(img.index(7, -13), Some(0));
    img.plot(-5, 9, 1, RGB::white());
    assert_eq!(img.data[0], RGB::white());
}

#[test]
fn images_compare_by_pixels_not_depth() {
    let mut a = PPMImg::with_bg(2, 2, 255, RGB::black());
    let mut b = PPMImg::with_bg(2, 2, 255, RGB::black());
    assert!(a == b);
    a.plot(0, 0, 5, RGB::white());
    assert!(a != b);
    // same pixel at another depth: the depth buffer does not enter
    b.plot(0, 0, 9, RGB::white());
    assert!(a == b);
    let c = PPMImg::with_bg(2, 3, 255, RGB::black());
    assert!(a != c);
}
