use graphics::tessellate::{box_triangles, sphere_triangles, torus_triangles};

#[test]
fn box_always_emits_twelve_triangles() {
    let tris = box_triangles();
    assert_eq!(tris.len(), 12);
    assert_eq!(
        tris,
        vec![
            (0, 1, 2),
            (2, 1, 3),
            (2, 3, 7),
            (2, 7, 6),
            (6, 7, 5),
            (6, 5, 4),
            (4, 5, 1),
            (4, 1, 0),
            (6, 0, 2),
            (6, 4, 0),
            (5, 3, 1),
            (5, 7, 3),
        ]
    );
    for (a, b, c) in tris {
        assert!(a < 8 && b < 8 && c < 8);
        assert!(a != b && b != c && a != c);
    }
}

#[test]
fn sphere_triangle_count_and_start() {
    // per meridian: one polar triangle and two for each of the steps - 1
    // middle samples
    let steps = 24;
    let tris = sphere_triangles(steps);
    assert_eq!(tris.len(), steps * (2 * steps - 1));
    // the first meridian: the pole starts one triangle, the next sample two
    assert_eq!(tris[0], (0, 1, 26));
    assert_eq!(tris[1], (1, 2, 27));
    assert_eq!(tris[2], (1, 27, 26));
}

#[test]
fn sphere_triangles_structurally_nondegenerate() {
    for steps in [2usize, 3, 24] {
        let pps = steps + 1;
        let n = steps * pps;
        for (a, b, c) in sphere_triangles(steps) {
            assert!(a < n && b < n && c < n);
            assert!(a != b && b != c && a != c);
            // never two north-pole samples, the only exactly-coincident ones
            let poles = [a, b, c].iter().filter(|i| *i % pps == 0).count();
            assert!(poles <= 1);
        }
    }
}

#[test]
fn sphere_wraps_to_the_first_meridian() {
    let steps = 2;
    // samples: 2 meridians of 3; the last meridian's quads reach back to
    // the first
    let tris = sphere_triangles(steps);
    assert_eq!(
        tris,
        vec![
            (0, 1, 4),
            (1, 2, 5),
            (1, 5, 4),
            (3, 4, 1),
            (4, 5, 2),
            (4, 2, 1),
        ]
    );
}

#[test]
fn torus_triangles_distinct_in_range() {
    for steps in [2usize, 5, 30] {
        let n = steps * (steps + 1);
        for (a, b, c) in torus_triangles(steps) {
            assert!(a < n && b < n && c < n);
            assert!(a != b && b != c && a != c);
        }
    }
}

#[test]
fn torus_triangle_count_and_wrap() {
    let steps = 30;
    let n = steps * (steps + 1);
    let tris = torus_triangles(steps);
    assert_eq!(tris.len(), 2 * n);
    assert_eq!(tris[0], (0, 1, 31));
    assert_eq!(tris[1], (0, 31, 30));
    // the final sample's quads wrap around the whole list
    assert_eq!(tris[2 * n - 2], (n - 1, 0, 30));
    assert_eq!(tris[2 * n - 1], (n - 1, 30, 29));
}
