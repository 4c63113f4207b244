use graphics::line::line_pixels;

#[test]
fn single_pixel() {
    assert_eq!(line_pixels(2, 2, 2, 2), vec![(2, 2)]);
}

#[test]
fn horizontal_runs_left_to_right() {
    assert_eq!(
        line_pixels(0, 3, 4, 3),
        vec![(0, 3), (1, 3), (2, 3), (3, 3), (4, 3)]
    );
}

#[test]
fn vertical_runs_bottom_to_top_whatever_the_direction() {
    let expected = vec![(3, 1), (3, 2), (3, 3), (3, 4), (3, 5)];
    assert_eq!(line_pixels(3, 1, 3, 5), expected);
    assert_eq!(line_pixels(3, 5, 3, 1), expected);
}

#[test]
fn shallow_rising() {
    assert_eq!(
        line_pixels(0, 0, 6, 2),
        vec![(0, 0), (1, 0), (2, 1), (3, 1), (4, 1), (5, 2), (6, 2)]
    );
}

#[test]
fn shallow_falling_carries_its_own_start() {
    // the falling octant starts its decision variable lower, so the walk
    // drops later than the rising one rises
    assert_eq!(
        line_pixels(0, 0, 6, -2),
        vec![(0, 0), (1, 0), (2, 0), (3, 0), (4, -1), (5, -1), (6, -1)]
    );
}

#[test]
fn steep_rising() {
    assert_eq!(
        line_pixels(0, 0, 2, 6),
        vec![(0, 0), (0, 1), (1, 2), (1, 3), (1, 4), (2, 5), (2, 6)]
    );
}

#[test]
fn steep_falling_walks_up_from_the_far_end() {
    assert_eq!(
        line_pixels(0, 0, 2, -6),
        vec![(2, -6), (1, -5), (0, -4), (0, -3), (0, -2), (-1, -1), (-1, 0)]
    );
}

#[test]
fn diagonal() {
    assert_eq!(
        line_pixels(0, 0, 3, 3),
        vec![(0, 0), (1, 1), (2, 2), (3, 3)]
    );
}

#[test]
fn pixel_count_spans_the_longer_axis() {
    assert_eq!(line_pixels(0, 0, 10, 4).len(), 11);
    assert_eq!(line_pixels(0, 0, 4, 10).len(), 11);
    assert_eq!(line_pixels(0, 0, 4, -10).len(), 11);
    assert_eq!(line_pixels(-5, -5, 5, 5).len(), 11);
}
