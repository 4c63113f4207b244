//! Index topology of the solid tessellators.
//!
//! The tessellators sample a solid's surface into a flat list of points
//! (eight box corners; `steps` meridians of `steps + 1` samples each for
//! the sphere; `steps` rings of `steps + 1` samples each for the torus)
//! and then emit triangles as triples of indices into that list, wound
//! counter-clockwise for the back-face cull.  Computing the sample points
//! is floating-point work and stays with the caller; choosing which
//! samples form which triangles is pure index arithmetic and is done
//! here.

use vstd::prelude::*;
use vstd::arithmetic::div_mod::lemma_mod_division_less_than_divisor;
use vstd::arithmetic::div_mod::lemma_mod_mod;
use vstd::arithmetic::div_mod::lemma_small_mod;

verus! {

/// The box's twelve triangles over its eight corners, two per face.
/// Corner `0` is the named corner `(x, y, z)`; corners `1`, `2`, `4` move
/// it by `-dy`, `+dx` and `-dz` respectively, and the rest combine those
/// moves: `3 = 1 + 2`, `5 = 1 + 4`, `6 = 2 + 4`, `7 = 1 + 2 + 4`.
pub open spec fn spec_box_triangles() -> Seq<(int, int, int)> {
    seq![
        (0, 1, 2),
        (2, 1, 3),
        (2, 3, 7),
        (2, 7, 6),
        (6, 7, 5),
        (6, 5, 4),
        (4, 5, 1),
        (4, 1, 0),
        (6, 0, 2),
        (6, 4, 0),
        (5, 3, 1),
        (5, 7, 3),
    ]
}

/// The triangles of a box: always exactly twelve, two per face, whatever
/// the box's corner and extents, since the extents never enter the
/// topology.
pub fn box_triangles() -> (r: Vec<(usize, usize, usize)>)
    ensures
        r@.len() == 12,
        forall|k: int|
            0 <= k < 12 ==> ((#[trigger] r@[k]).0 == spec_box_triangles()[k].0 && r@[k].1
                == spec_box_triangles()[k].1 && r@[k].2 == spec_box_triangles()[k].2),
        forall|k: int|
            0 <= k < 12 ==> ((#[trigger] r@[k]).0 < 8 && r@[k].1 < 8 && r@[k].2 < 8),
{
    let mut r: Vec<(usize, usize, usize)> = Vec::new();
    r.push((0, 1, 2));
    r.push((2, 1, 3));
    r.push((2, 3, 7));
    r.push((2, 7, 6));
    r.push((6, 7, 5));
    r.push((6, 5, 4));
    r.push((4, 5, 1));
    r.push((4, 1, 0));
    r.push((6, 0, 2));
    r.push((6, 4, 0));
    r.push((5, 3, 1));
    r.push((5, 7, 3));
    r
}

/// The triangles the sphere tessellator emits while walking the first `i`
/// sample points.  With `pps = steps + 1` samples per meridian and
/// `n = steps * pps` samples in all, a point at the north pole
/// (`i % pps == 0`) starts a single triangle, a point at the south pole
/// (`i % pps == pps - 1`) starts none, and every other point starts the
/// two triangles of its quad, the neighboring meridian reached by
/// wrapping modulo `n`.
pub open spec fn spec_sphere_triangles(steps: int, i: int) -> Seq<(int, int, int)>
    decreases i,
{
    if i <= 0 {
        Seq::empty()
    } else {
        let idx = i - 1;
        let pps = steps + 1;
        let n = steps * pps;
        let rem = idx % pps;
        let prev = spec_sphere_triangles(steps, idx);
        if rem == 0 {
            prev + seq![(idx, idx + 1, (idx + pps + 1) % n)]
        } else if rem != pps - 1 {
            prev + seq![
                (idx, idx + 1, (idx + pps + 1) % n),
                (idx, (idx + pps + 1) % n, (idx + pps) % n),
            ]
        } else {
            prev
        }
    }
}

/// The sphere's triangles as index triples into its `steps * (steps + 1)`
/// sample points.
pub fn sphere_triangles(steps: usize) -> (r: Vec<(usize, usize, usize)>)
    requires
        2 <= steps,
        steps * (steps + 1) + steps + 2 <= usize::MAX,
    ensures
        ({
            let tris = spec_sphere_triangles(steps as int, (steps * (steps + 1)) as int);
            &&& r@.len() == tris.len()
            &&& r@.len() == steps * (2 * steps - 1)
            &&& forall|k: int|
                0 <= k < r@.len() ==> ((#[trigger] r@[k]).0 == tris[k].0 && r@[k].1 == tris[k].1
                    && r@[k].2 == tris[k].2)
            &&& forall|k: int|
                0 <= k < r@.len() ==> sphere_triangle_ok(
                    steps as int,
                    ((#[trigger] r@[k]).0 as int, r@[k].1 as int, r@[k].2 as int),
                )
        }),
{
    proof {
        lemma_sphere_triangle_total(steps as int);
        lemma_sphere_triangles_nondegenerate(steps as int, (steps * (steps + 1)) as int);
    }
    let pps: usize = steps + 1;
    let n: usize = steps * pps;
    let mut r: Vec<(usize, usize, usize)> = Vec::new();
    let mut i: usize = 0;
    while i < n
        invariant
            2 <= steps,
            pps == steps + 1,
            n == steps * pps,
            n + steps + 2 <= usize::MAX,
            i <= n,
            ({
                let tris = spec_sphere_triangles(steps as int, i as int);
                &&& r@.len() == tris.len()
                &&& forall|k: int|
                    0 <= k < r@.len() ==> ((#[trigger] r@[k]).0 == tris[k].0 && r@[k].1
                        == tris[k].1 && r@[k].2 == tris[k].2)
            }),
        decreases n - i,
    {
        let rem: usize = i % pps;
        if rem == 0 {
            r.push((i, i + 1, (i + pps + 1) % n));
        } else if rem != pps - 1 {
            r.push((i, i + 1, (i + pps + 1) % n));
            r.push((i, (i + pps + 1) % n, (i + pps) % n));
        }
        i = i + 1;
    }
    r
}

/// What a sound sphere triangle looks like: three indices inside the
/// sample list, pairwise distinct, and at most one of them a north-pole
/// sample (`index % pps == 0`).  All north-pole samples of the sphere are
/// the same point, so a triangle with two of them would be degenerate;
/// distinct non-pole indices are distinct samples.
pub open spec fn sphere_triangle_ok(steps: int, t: (int, int, int)) -> bool {
    let pps = steps + 1;
    let n = steps * pps;
    &&& 0 <= t.0 < n && 0 <= t.1 < n && 0 <= t.2 < n
    &&& t.0 != t.1 && t.0 != t.2 && t.1 != t.2
    &&& !(t.0 % pps == 0 && t.1 % pps == 0)
    &&& !(t.0 % pps == 0 && t.2 % pps == 0)
    &&& !(t.1 % pps == 0 && t.2 % pps == 0)
}

/// `(idx + c) % pps` loses the wrap when the shifted residue stays below
/// `pps`.
proof fn lemma_add_mod(idx: int, c: int, pps: int)
    requires
        0 < pps,
        0 <= idx,
        0 <= idx % pps + c < pps,
    ensures
        (idx + c) % pps == idx % pps + c,
{
    vstd::arithmetic::div_mod::lemma_fundamental_div_mod(idx, pps);
    let q = idx / pps;
    assert(idx + c == q * pps + (idx % pps + c)) by (nonlinear_arith)
        requires
            idx == pps * q + idx % pps,
    ;
    vstd::arithmetic::div_mod::lemma_fundamental_div_mod_converse_mod(
        idx + c,
        pps,
        q,
        idx % pps + c,
    );
}

/// A value below `2 * n` wraps at most once.
proof fn lemma_wrap_value(x: int, n: int)
    requires
        0 < n,
        0 <= x < 2 * n,
    ensures
        x % n == if x < n {
            x
        } else {
            x - n
        },
{
    if x < n {
        lemma_small_mod(x as nat, n as nat);
    } else {
        vstd::arithmetic::div_mod::lemma_fundamental_div_mod_converse_mod(x, n, 1, x - n);
    }
}

/// Every triangle the sphere tessellator starts at an emitting sample
/// `idx` is sound in the sense of `sphere_triangle_ok`.
proof fn lemma_sphere_emit_ok(steps: int, idx: int)
    requires
        2 <= steps,
        0 <= idx < steps * (steps + 1),
        idx % (steps + 1) != steps,
    ensures
        sphere_triangle_ok(steps, (idx, idx + 1, (idx + steps + 2) % (steps * (steps + 1)))),
        idx % (steps + 1) != 0 ==> sphere_triangle_ok(
            steps,
            (
                idx,
                (idx + steps + 2) % (steps * (steps + 1)),
                (idx + steps + 1) % (steps * (steps + 1)),
            ),
        ),
{
    let pps = steps + 1;
    let n = steps * pps;
    let rem = idx % pps;
    lemma_mod_division_less_than_divisor(idx, pps);
    vstd::arithmetic::div_mod::lemma_fundamental_div_mod(idx, pps);
    let q = idx / pps;
    assert(0 <= q < steps) by (nonlinear_arith)
        requires
            idx == pps * q + rem,
            0 <= idx < steps * pps,
            0 <= rem < pps,
            0 < pps,
    ;
    assert(idx + 1 <= n - 1) by (nonlinear_arith)
        requires
            idx == pps * q + rem,
            q <= steps - 1,
            rem <= pps - 2,
            0 < pps,
            n == steps * pps,
    ;
    assert(2 * pps <= n) by (nonlinear_arith)
        requires
            2 <= steps,
            0 < pps,
            n == steps * pps,
    ;
    // residues of the shifted indices
    lemma_add_mod(idx, 1, pps);
    let a = idx + pps + 1;
    let b = idx + pps;
    assert(a == (q + 1) * pps + (rem + 1) && b == (q + 1) * pps + rem) by (nonlinear_arith)
        requires
            idx == pps * q + rem,
            a == idx + pps + 1,
            b == idx + pps,
    ;
    vstd::arithmetic::div_mod::lemma_fundamental_div_mod_converse_mod(a, pps, q + 1, rem + 1);
    vstd::arithmetic::div_mod::lemma_fundamental_div_mod_converse_mod(b, pps, q + 1, rem);
    let j = a % n;
    let j2 = b % n;
    lemma_wrap_value(a, n);
    lemma_wrap_value(b, n);
    lemma_mod_division_less_than_divisor(a, n);
    lemma_mod_division_less_than_divisor(b, n);
    assert(pps * steps == n) by (nonlinear_arith)
        requires
            n == steps * pps,
    ;
    lemma_mod_mod(a, pps, steps);
    lemma_mod_mod(b, pps, steps);
    assert(j % pps == rem + 1);
    assert(j2 % pps == rem);
    // the first triangle: (idx, idx + 1, j)
    assert(idx != j) by {
        if idx == j {
            assert(idx % pps == j % pps);
        }
    }
    assert(idx + 1 != j) by {
        if a >= n {
            assert(j == a - n);
            assert(idx + 1 - j == n - pps);
        }
    }
    // the second triangle: (idx, j, j2)
    if rem != 0 {
        assert(j != j2) by {
            if j == j2 {
                assert(j % pps == j2 % pps);
            }
        }
        assert(idx != j2) by {
            if b >= n {
                assert(j2 == b - n);
                assert(idx - j2 == n - pps);
            } else {
                assert(j2 == idx + pps);
            }
        }
    }
}

/// Sphere tessellation law: every triangle the tessellator emits has
/// three pairwise-distinct sample indices inside the sample list, and
/// never joins two north-pole samples — the only samples the ideal sphere
/// maps to one and the same point — so no triangle collapses to a line or
/// a point by construction.
pub proof fn lemma_sphere_triangles_nondegenerate(steps: int, i: int)
    requires
        2 <= steps,
        0 <= i <= steps * (steps + 1),
    ensures
        forall|k: int|
            0 <= k < spec_sphere_triangles(steps, i).len() ==> sphere_triangle_ok(
                steps,
                #[trigger] spec_sphere_triangles(steps, i)[k],
            ),
    decreases i,
{
    if i > 0 {
        lemma_sphere_triangles_nondegenerate(steps, i - 1);
        let idx = i - 1;
        let pps = steps + 1;
        let n = steps * pps;
        let rem = idx % pps;
        lemma_mod_division_less_than_divisor(idx, pps);
        if rem != steps {
            lemma_sphere_emit_ok(steps, idx);
        }
        let tris = spec_sphere_triangles(steps, i);
        let prev = spec_sphere_triangles(steps, idx);
        assert forall|k: int| 0 <= k < tris.len() implies sphere_triangle_ok(
            steps,
            #[trigger] tris[k],
        ) by {
            if k < prev.len() {
                assert(tris[k] == prev[k]);
            } else if rem == 0 {
                assert(tris[k] == (idx, idx + 1, (idx + pps + 1) % n));
            } else if k == prev.len() {
                assert(tris[k] == (idx, idx + 1, (idx + pps + 1) % n));
            } else {
                assert(tris[k] == (idx, (idx + pps + 1) % n, (idx + pps) % n));
            }
        }
    }
}

/// The triangles the torus tessellator emits while walking the first `i`
/// sample points: every point starts the two triangles of its quad, both
/// neighbors reached by wrapping modulo the point count `n`.
pub open spec fn spec_torus_triangles(steps: int, n: int, i: int) -> Seq<(int, int, int)>
    decreases i,
{
    if i <= 0 {
        Seq::empty()
    } else {
        let idx = i - 1;
        spec_torus_triangles(steps, n, idx) + seq![
            (idx, (idx + 1) % n, (idx + steps + 1) % n),
            (idx, (idx + steps + 1) % n, (idx + steps) % n),
        ]
    }
}

/// Running count of the sphere tessellation: after walking the first `i`
/// samples it holds two triangles per sample, less one for every north
/// pole passed and two for every south pole passed.
pub proof fn lemma_sphere_triangle_count(steps: int, i: int)
    requires
        2 <= steps,
        0 <= i <= steps * (steps + 1),
    ensures
        spec_sphere_triangles(steps, i).len() == 2 * i - (i + steps) / (steps + 1) - 2 * (i / (
        steps + 1)),
    decreases i,
{
    let pps = steps + 1;
    if i == 0 {
        vstd::arithmetic::div_mod::lemma_basic_div(steps, pps);
        vstd::arithmetic::div_mod::lemma_basic_div(0, pps);
    } else {
        lemma_sphere_triangle_count(steps, i - 1);
        let idx = i - 1;
        vstd::arithmetic::div_mod::lemma_fundamental_div_mod(idx, pps);
        lemma_mod_division_less_than_divisor(idx, pps);
        let q = idx / pps;
        let rem = idx % pps;
        assert(idx + pps == (q + 1) * pps + rem && idx + pps - 1 == (q + 1) * pps + (rem - 1)
            && idx + pps - 1 == q * pps + (pps - 1) + rem && idx + 1 == q * pps + (rem + 1) && idx
            + 1 == (q + 1) * pps + (rem - (pps - 1))) by (nonlinear_arith)
            requires
                idx == pps * q + rem,
        ;
        // the two ceiling counts around the step
        vstd::arithmetic::div_mod::lemma_fundamental_div_mod_converse_div(idx + pps, pps, q + 1, rem);
        if rem == 0 {
            vstd::arithmetic::div_mod::lemma_fundamental_div_mod_converse_div(
                idx + pps - 1,
                pps,
                q,
                pps - 1,
            );
        } else {
            vstd::arithmetic::div_mod::lemma_fundamental_div_mod_converse_div(
                idx + pps - 1,
                pps,
                q + 1,
                rem - 1,
            );
        }
        // the two floor counts around the step
        if rem == pps - 1 {
            vstd::arithmetic::div_mod::lemma_fundamental_div_mod_converse_div(
                idx + 1,
                pps,
                q + 1,
                0,
            );
        } else {
            vstd::arithmetic::div_mod::lemma_fundamental_div_mod_converse_div(
                idx + 1,
                pps,
                q,
                rem + 1,
            );
        }
    }
}

/// Sphere tessellation count law: the full walk over all
/// `steps * (steps + 1)` samples emits exactly `steps * (2 * steps - 1)`
/// triangles — one per meridian at the pole and two for each of the
/// `steps - 1` middle samples.
pub proof fn lemma_sphere_triangle_total(steps: int)
    requires
        2 <= steps,
    ensures
        spec_sphere_triangles(steps, steps * (steps + 1)).len() == steps * (2 * steps - 1),
{
    let pps = steps + 1;
    let n = steps * pps;
    lemma_sphere_triangle_count(steps, n);
    assert(n + steps == steps * pps + steps && n == steps * pps + 0) by (nonlinear_arith)
        requires
            n == steps * pps,
    ;
    vstd::arithmetic::div_mod::lemma_fundamental_div_mod_converse_div(n + steps, pps, steps, steps);
    vstd::arithmetic::div_mod::lemma_fundamental_div_mod_converse_div(n, pps, steps, 0);
    assert(2 * n - steps - 2 * steps == steps * (2 * steps - 1)) by (nonlinear_arith)
        requires
            n == steps * pps,
            pps == steps + 1,
    ;
}

/// What a sound torus triangle looks like: three indices inside the
/// sample list, pairwise distinct.  Distinct torus samples are distinct
/// points of the ideal torus, so no emitted triangle collapses by
/// construction.
pub open spec fn torus_triangle_ok(n: int, t: (int, int, int)) -> bool {
    &&& 0 <= t.0 < n && 0 <= t.1 < n && 0 <= t.2 < n
    &&& t.0 != t.1 && t.0 != t.2 && t.1 != t.2
}

/// Torus tessellation law: with at least two rings, every emitted
/// triangle has three pairwise-distinct sample indices inside the sample
/// list.
pub proof fn lemma_torus_triangles_nondegenerate(steps: int, i: int)
    requires
        2 <= steps,
        0 <= i <= steps * (steps + 1),
    ensures
        forall|k: int|
            0 <= k < spec_torus_triangles(steps, steps * (steps + 1), i).len()
                ==> torus_triangle_ok(
                steps * (steps + 1),
                #[trigger] spec_torus_triangles(steps, steps * (steps + 1), i)[k],
            ),
    decreases i,
{
    let n = steps * (steps + 1);
    assert(2 * (steps + 1) <= n && steps + 1 < n) by (nonlinear_arith)
        requires
            2 <= steps,
            n == steps * (steps + 1),
    ;
    if i > 0 {
        lemma_torus_triangles_nondegenerate(steps, i - 1);
        let idx = i - 1;
        lemma_wrap_value(idx + 1, n);
        lemma_wrap_value(idx + steps, n);
        lemma_wrap_value(idx + steps + 1, n);
        lemma_mod_division_less_than_divisor(idx + 1, n);
        lemma_mod_division_less_than_divisor(idx + steps, n);
        lemma_mod_division_less_than_divisor(idx + steps + 1, n);
        let tris = spec_torus_triangles(steps, n, i);
        let prev = spec_torus_triangles(steps, n, idx);
        assert forall|k: int| 0 <= k < tris.len() implies torus_triangle_ok(
            n,
            #[trigger] tris[k],
        ) by {
            if k < prev.len() {
                assert(tris[k] == prev[k]);
            } else if k == prev.len() {
                assert(tris[k] == (idx, (idx + 1) % n, (idx + steps + 1) % n));
            } else {
                assert(tris[k] == (idx, (idx + steps + 1) % n, (idx + steps) % n));
            }
        }
    }
}

/// The torus's triangles as index triples into its `steps * (steps + 1)`
/// sample points: exactly two per sample point.
pub fn torus_triangles(steps: usize) -> (r: Vec<(usize, usize, usize)>)
    requires
        2 <= steps,
        steps * (steps + 1) + steps + 2 <= usize::MAX,
    ensures
        ({
            let n = (steps * (steps + 1)) as int;
            let tris = spec_torus_triangles(steps as int, n, n);
            &&& r@.len() == tris.len()
            &&& r@.len() == 2 * n
            &&& forall|k: int|
                0 <= k < r@.len() ==> ((#[trigger] r@[k]).0 == tris[k].0 && r@[k].1 == tris[k].1
                    && r@[k].2 == tris[k].2)
            &&& forall|k: int|
                0 <= k < r@.len() ==> torus_triangle_ok(
                    n,
                    ((#[trigger] r@[k]).0 as int, r@[k].1 as int, r@[k].2 as int),
                )
        }),
{
    proof {
        lemma_torus_triangles_nondegenerate(steps as int, (steps * (steps + 1)) as int);
    }
    let pps: usize = steps + 1;
    let n: usize = steps * pps;
    let mut r: Vec<(usize, usize, usize)> = Vec::new();
    let mut i: usize = 0;
    while i < n
        invariant
            2 <= steps,
            pps == steps + 1,
            n == steps * pps,
            n + steps + 2 <= usize::MAX,
            i <= n,
            ({
                let tris = spec_torus_triangles(steps as int, n as int, i as int);
                &&& r@.len() == tris.len()
                &&& r@.len() == 2 * i
                &&& forall|k: int|
                    0 <= k < r@.len() ==> ((#[trigger] r@[k]).0 == tris[k].0 && r@[k].1
                        == tris[k].1 && r@[k].2 == tris[k].2)
            }),
        decreases n - i,
    {
        r.push((i, (i + 1) % n, (i + steps + 1) % n));
        r.push((i, (i + steps + 1) % n, (i + steps) % n));
        i = i + 1;
    }
    r
}

} // verus!
