//! The integer pixel walk behind line drawing.
//!
//! `line_pixels` lists, in drawing order, the pixels of the line between
//! two already-rounded endpoints: the octant-appropriate Bresenham walk
//! with its decision variable, horizontal and vertical lines
//! special-cased, iteration always proceeding left to right (the caller
//! hands the endpoints over with `x0 <= x1`).  The caller interpolates its
//! depth values along the returned order and feeds each pixel to
//! `PPMImg::plot`.

use vstd::prelude::*;

verus! {

pub open spec fn abs(v: int) -> int {
    if v >= 0 {
        v
    } else {
        -v
    }
}

pub open spec fn sign(v: int) -> int {
    if v > 0 {
        1
    } else if v < 0 {
        -1
    } else {
        0
    }
}

/// The Bresenham state when the `k`-th pixel is plotted, as the pair
/// (minor coordinate, decision variable).  Each step plots, then moves the
/// minor coordinate by `p_inc` and lowers the decision variable by
/// `2 * big` when it is positive, and finally raises it by `2 * small`;
/// `big` is the span along the major axis, `small` the span along the
/// minor one.
pub open spec fn bres_state(p0: int, d0: int, p_inc: int, big: int, small: int, k: nat) -> (
    int,
    int,
)
    decreases k,
{
    if k == 0 {
        (p0, d0)
    } else {
        let (p, d) = bres_state(p0, d0, p_inc, big, small, (k - 1) as nat);
        let (p2, d2) = if d > 0 {
            (p + p_inc, d - 2 * big)
        } else {
            (p, d)
        };
        (p2, d2 + 2 * small)
    }
}

/// The walk stays close to home: after `k` steps the minor coordinate has
/// moved at most `k` pixels, and the decision variable stays within fixed
/// bounds of its start.
pub proof fn lemma_bres_state_bounds(p0: int, d0: int, p_inc: int, big: int, small: int, k: nat)
    requires
        0 < big,
        0 <= small <= big,
        p_inc == 1 || p_inc == -1,
    ensures
        ({
            let (p, d) = bres_state(p0, d0, p_inc, big, small, k);
            &&& p0 - k <= p <= p0 + k
            &&& d <= if d0 >= 2 * small {
                d0
            } else {
                2 * small
            }
            &&& d >= if d0 <= 1 + 2 * small - 2 * big {
                d0
            } else {
                1 + 2 * small - 2 * big
            }
        }),
    decreases k,
{
    if k > 0 {
        lemma_bres_state_bounds(p0, d0, p_inc, big, small, (k - 1) as nat);
    }
}

/// Rounding law of the rising walks: a walk that starts its decision
/// variable at `2 * small - big` (the shallow left-to-right and steep
/// bottom-to-top cases with a positive minor step) carries its minor
/// coordinate to `p0 + (2 * k * small + big - 1) / (2 * big)` at the
/// `k`-th pixel — the nearest integer to the ideal line's
/// `k * small / big`, ties rounded down.  The decision variable keeps the
/// stated linear relation to the distance climbed, which is what drives
/// the induction.
pub proof fn lemma_bres_rising_rounds(p0: int, big: int, small: int, k: nat)
    requires
        0 < small <= big,
    ensures
        ({
            let (p, d) = bres_state(p0, 2 * small - big, 1, big, small, k);
            &&& p == p0 + (2 * k * small + big - 1) / (2 * big)
            &&& d == 2 * (k + 1) * small - big - 2 * (p - p0) * big
        }),
    decreases k,
{
    if k == 0 {
        vstd::arithmetic::div_mod::lemma_basic_div(big - 1, 2 * big);
        let (p, d) = bres_state(p0, 2 * small - big, 1, big, small, k);
        assert(p == p0 && d == 2 * small - big);
        assert(2 * k * small == 0 && 2 * (k + 1) * small == 2 * small && 2 * (p - p0) * big
            == 0) by (nonlinear_arith)
            requires
                k == 0,
                p == p0,
        ;
    } else {
        lemma_bres_rising_rounds(p0, big, small, (k - 1) as nat);
        let (pp, dp) = bres_state(p0, 2 * small - big, 1, big, small, (k - 1) as nat);
        let m = pp - p0;
        let n1 = 2 * (k - 1) * small + big - 1;
        let n2 = 2 * k * small + big - 1;
        assert(n2 == n1 + 2 * small) by (nonlinear_arith)
            requires
                n1 == 2 * (k - 1) * small + big - 1,
                n2 == 2 * k * small + big - 1,
                k >= 1,
        ;
        assert(dp == n2 - 2 * ((m + 1) * big) + 1) by (nonlinear_arith)
            requires
                dp == 2 * ((k - 1) + 1) * small - big - 2 * m * big,
                n2 == 2 * k * small + big - 1,
        ;
        vstd::arithmetic::div_mod::lemma_fundamental_div_mod(n1, 2 * big);
        let r = n1 % (2 * big);
        vstd::arithmetic::div_mod::lemma_mod_division_less_than_divisor(n1, 2 * big);
        assert(n1 == 2 * big * m + r);
        if dp > 0 {
            assert(n2 - 2 * ((m + 1) * big) >= 0);
            assert(n2 - 2 * ((m + 1) * big) < 2 * big) by (nonlinear_arith)
                requires
                    n2 == 2 * big * m + r + 2 * small,
                    r < 2 * big,
                    small <= big,
                    0 < big,
            ;
            assert(n2 == (m + 1) * (2 * big) + (n2 - 2 * ((m + 1) * big))) by (nonlinear_arith);
            vstd::arithmetic::div_mod::lemma_fundamental_div_mod_converse_div(
                n2,
                2 * big,
                m + 1,
                n2 - 2 * ((m + 1) * big),
            );
        } else {
            assert(n2 - 2 * (m * big) < 2 * big) by (nonlinear_arith)
                requires
                    n2 - 2 * ((m + 1) * big) + 1 <= 0,
                    0 < big,
            ;
            assert(n2 - 2 * (m * big) >= 0) by (nonlinear_arith)
                requires
                    n2 == 2 * big * m + r + 2 * small,
                    r >= 0,
                    small > 0,
            ;
            assert(n2 == m * (2 * big) + (n2 - 2 * (m * big))) by (nonlinear_arith);
            vstd::arithmetic::div_mod::lemma_fundamental_div_mod_converse_div(
                n2,
                2 * big,
                m,
                n2 - 2 * (m * big),
            );
        }
        let (p, d) = bres_state(p0, 2 * small - big, 1, big, small, k);
        if dp > 0 {
            assert(p == pp + 1 && d == dp - 2 * big + 2 * small);
            assert(n2 / (2 * big) == m + 1);
            assert(p == p0 + n2 / (2 * big));
        } else {
            assert(p == pp && d == dp + 2 * small);
            assert(n2 / (2 * big) == m);
            assert(p == p0 + n2 / (2 * big));
        }
        assert(({
            let (p, d) = bres_state(p0, 2 * small - big, 1, big, small, k);
            d == 2 * (k + 1) * small - big - 2 * (p - p0) * big
        })) by (nonlinear_arith)
            requires
                ({
                    let (p, d) = bres_state(p0, 2 * small - big, 1, big, small, k);
                    let (pp2, dp2) = bres_state(p0, 2 * small - big, 1, big, small, (k - 1) as nat);
                    &&& dp2 == 2 * ((k - 1) + 1) * small - big - 2 * (pp2 - p0) * big
                    &&& if dp2 > 0 {
                        p == pp2 + 1 && d == dp2 - 2 * big + 2 * small
                    } else {
                        p == pp2 && d == dp2 + 2 * small
                    }
                }),
            ;
    }
}

/// Rounding law of the falling walks: a walk that starts its decision
/// variable at `-2 * small - big` (the shallow left-to-right descent with
/// a negative minor step) runs two pixels behind the rising walk — its
/// minor coordinate sits at `p0 - (2 * (k - 2) * small + big - 1) /
/// (2 * big)` from the third pixel on, and at `p0` before that.  The low
/// start of the decision variable is what tilts descending lines below
/// their ideal track.
pub proof fn lemma_bres_falling_lags(p0: int, big: int, small: int, k: nat)
    requires
        0 < small <= big,
    ensures
        ({
            let (p, d) = bres_state(p0, -2 * small - big, -1, big, small, k);
            &&& p == p0 - (if k < 2 {
                0int
            } else {
                (2 * (k - 2) * small + big - 1) / (2 * big)
            })
            &&& d == 2 * k * small - 2 * small - big - 2 * (p0 - p) * big
        }),
    decreases k,
{
    let d0 = -2 * small - big;
    if k == 0 {
        let (p, d) = bres_state(p0, d0, -1, big, small, k);
        assert(2 * k * small == 0 && 2 * (p0 - p) * big == 0) by (nonlinear_arith)
            requires
                k == 0,
                p == p0,
        ;
    } else {
        lemma_bres_falling_lags(p0, big, small, (k - 1) as nat);
        let (pp, dp) = bres_state(p0, d0, -1, big, small, (k - 1) as nat);
        let m = p0 - pp;
        let (p, d) = bres_state(p0, d0, -1, big, small, k);
        if k == 1 {
            assert(2 * (k - 1) * small == 0 && 2 * (p0 - pp) * big == 0) by (nonlinear_arith)
                requires
                    k == 1,
                    pp == p0,
            ;
            assert(dp == -2 * small - big && dp <= 0);
            assert(p == pp && d == dp + 2 * small);
        } else if k == 2 {
            assert(2 * (k - 1) * small == 2 * small && 2 * k * small == 4 * small && 2 * (k - 2)
                * small == 0 && 2 * (p0 - pp) * big == 0) by (nonlinear_arith)
                requires
                    k == 2,
                    pp == p0,
            ;
            assert(dp == -big && dp <= 0);
            assert(p == pp && d == dp + 2 * small);
            vstd::arithmetic::div_mod::lemma_basic_div(big - 1, 2 * big);
        } else {
            let n1 = 2 * (k - 3) * small + big - 1;
            let n2 = 2 * (k - 2) * small + big - 1;
            assert(n2 == n1 + 2 * small) by (nonlinear_arith)
                requires
                    n1 == 2 * (k - 3) * small + big - 1,
                    n2 == 2 * (k - 2) * small + big - 1,
                    k >= 3,
            ;
            assert(dp == n2 - 2 * ((m + 1) * big) + 1) by (nonlinear_arith)
                requires
                    dp == 2 * (k - 1) * small - 2 * small - big - 2 * m * big,
                    n2 == 2 * (k - 2) * small + big - 1,
            ;
            vstd::arithmetic::div_mod::lemma_fundamental_div_mod(n1, 2 * big);
            let r = n1 % (2 * big);
            vstd::arithmetic::div_mod::lemma_mod_division_less_than_divisor(n1, 2 * big);
            assert(n1 == 2 * big * m + r);
            if dp > 0 {
                assert(n2 - 2 * ((m + 1) * big) >= 0);
                assert(n2 - 2 * ((m + 1) * big) < 2 * big) by (nonlinear_arith)
                    requires
                        n2 == 2 * big * m + r + 2 * small,
                        r < 2 * big,
                        small <= big,
                        0 < big,
                ;
                assert(n2 == (m + 1) * (2 * big) + (n2 - 2 * ((m + 1) * big))) by (nonlinear_arith);
                vstd::arithmetic::div_mod::lemma_fundamental_div_mod_converse_div(
                    n2,
                    2 * big,
                    m + 1,
                    n2 - 2 * ((m + 1) * big),
                );
                assert(p == pp - 1 && d == dp - 2 * big + 2 * small);
                assert(p == p0 - n2 / (2 * big));
            } else {
                assert(n2 - 2 * (m * big) < 2 * big) by (nonlinear_arith)
                    requires
                        n2 - 2 * ((m + 1) * big) + 1 <= 0,
                        0 < big,
                ;
                assert(n2 - 2 * (m * big) >= 0) by (nonlinear_arith)
                    requires
                        n2 == 2 * big * m + r + 2 * small,
                        r >= 0,
                        small > 0,
                ;
                assert(n2 == m * (2 * big) + (n2 - 2 * (m * big))) by (nonlinear_arith);
                vstd::arithmetic::div_mod::lemma_fundamental_div_mod_converse_div(
                    n2,
                    2 * big,
                    m,
                    n2 - 2 * (m * big),
                );
                assert(p == pp && d == dp + 2 * small);
                assert(p == p0 - n2 / (2 * big));
            }
        }
        if k < 2 {
            assert(p == p0);
        } else {
            assert(p == p0 - (2 * (k - 2) * small + big - 1) / (2 * big));
        }
        assert(({
            let (p2, d2) = bres_state(p0, -2 * small - big, -1, big, small, k);
            d2 == 2 * k * small - 2 * small - big - 2 * (p0 - p2) * big
        })) by (nonlinear_arith)
            requires
                ({
                    let (p2, d2) = bres_state(p0, -2 * small - big, -1, big, small, k);
                    let (pp2, dp2) = bres_state(
                        p0,
                        -2 * small - big,
                        -1,
                        big,
                        small,
                        (k - 1) as nat,
                    );
                    &&& dp2 == 2 * (k - 1) * small - 2 * small - big - 2 * (p0 - pp2) * big
                    &&& if dp2 > 0 {
                        p2 == pp2 - 1 && d2 == dp2 - 2 * big + 2 * small
                    } else {
                        p2 == pp2 && d2 == dp2 + 2 * small
                    }
                }),
            ;
    }
}

/// The pixels of the line from `(x0, y0)` to `(x1, y1)`, in the order the
/// line drawer plots them.  Horizontal lines run left to right; vertical
/// lines run bottom to top whatever the direction of the segment; a
/// shallow line runs left to right carrying its y by the Bresenham
/// recurrence; a steep line runs bottom to top carrying its x, starting
/// from whichever endpoint is lower.  A zero-length line yields exactly
/// one pixel.
pub fn line_pixels(x0: i32, y0: i32, x1: i32, y1: i32) -> (r: Vec<(i32, i32)>)
    requires
        x0 <= x1,
        -0x2000_0000 <= x0 <= 0x2000_0000,
        -0x2000_0000 <= y0 <= 0x2000_0000,
        -0x2000_0000 <= x1 <= 0x2000_0000,
        -0x2000_0000 <= y1 <= 0x2000_0000,
    ensures
        ({
            let dx = x1 - x0;
            let dy = y1 - y0;
            &&& dy == 0 ==> r@.len() == dx + 1 && (forall|k: int|
                0 <= k < r@.len() ==> (#[trigger] r@[k]).0 == x0 + k && r@[k].1 == y0)
            &&& dy != 0 && dx == 0 ==> r@.len() == abs(dy) + 1 && (forall|k: int|
                0 <= k < r@.len() ==> (#[trigger] r@[k]).0 == x0 && r@[k].1 == (if y0 <= y1 {
                    y0 as int
                } else {
                    y1 as int
                }) + k)
            &&& dy != 0 && dx != 0 && abs(dy) < dx ==> r@.len() == dx + 1 && (forall|k: int|
                0 <= k < r@.len() ==> (#[trigger] r@[k]).0 == x0 + k && r@[k].1 == bres_state(
                    y0 as int,
                    2 * dy - dx,
                    sign(dy),
                    dx,
                    abs(dy),
                    k as nat,
                ).0)
            &&& dy != 0 && dx != 0 && abs(dy) >= dx ==> r@.len() == abs(dy) + 1 && (forall|
                k: int,
            |
                0 <= k < r@.len() ==> (#[trigger] r@[k]).1 == (if dy > 0 {
                    y0 as int
                } else {
                    y1 as int
                }) + k && r@[k].0 == bres_state(
                    if dy > 0 {
                        x0 as int
                    } else {
                        x1 as int
                    },
                    2 * dx - dy,
                    if dy > 0 {
                        1int
                    } else {
                        -1int
                    },
                    abs(dy),
                    dx,
                    k as nat,
                ).0)
        }),
{
    let mut r: Vec<(i32, i32)> = Vec::new();
    let dy: i32 = y1 - y0;
    let dx: i32 = x1 - x0;
    if dy == 0 {
        let mut x: i32 = x0;
        while x <= x1
            invariant
                x0 <= x <= x1 + 1,
                x1 <= 0x2000_0000,
                r@.len() == x - x0,
                forall|k: int|
                    0 <= k < r@.len() ==> (#[trigger] r@[k]).0 == x0 + k && r@[k].1 == y0,
            decreases x1 + 1 - x,
        {
            r.push((x, y0));
            x = x + 1;
        }
        return r;
    }
    if dx == 0 {
        let ys: i32 = if y0 < y1 {
            y0
        } else {
            y1
        };
        let ye: i32 = if y0 < y1 {
            y1
        } else {
            y0
        };
        let mut y: i32 = ys;
        while y <= ye
            invariant
                ys <= y <= ye + 1,
                ye <= 0x2000_0000,
                r@.len() == y - ys,
                forall|k: int|
                    0 <= k < r@.len() ==> (#[trigger] r@[k]).0 == x0 && r@[k].1 == ys + k,
            decreases ye + 1 - y,
        {
            r.push((x0, y));
            y = y + 1;
        }
        return r;
    }
    if (if dy >= 0 {
        dy
    } else {
        -dy
    }) < dx {
        // shallow: walk x from x0 to x1, carry y
        let d0: i64 = 2 * (dy as i64) - (dx as i64);
        let y_inc: i32 = if dy > 0 {
            1
        } else {
            -1
        };
        let dyabs: i32 = if dy > 0 {
            dy
        } else {
            -dy
        };
        let mut d: i64 = d0;
        let mut y: i32 = y0;
        let mut x: i32 = x0;
        while x <= x1
            invariant
                x0 <= x <= x1 + 1,
                x0 < x1,
                -0x2000_0000 <= x0 <= 0x2000_0000,
                -0x2000_0000 <= x1 <= 0x2000_0000,
                -0x2000_0000 <= y0 <= 0x2000_0000,
                -0x2000_0000 <= y1 <= 0x2000_0000,
                dy == y1 - y0,
                dx == x1 - x0,
                0 < dx,
                dyabs == abs(dy as int),
                0 < dyabs < dx,
                y_inc == sign(dy as int),
                d0 == 2 * dy - dx,
                r@.len() == x - x0,
                (y as int, d as int) == bres_state(
                    y0 as int,
                    d0 as int,
                    y_inc as int,
                    dx as int,
                    dyabs as int,
                    (x - x0) as nat,
                ),
                forall|k: int|
                    0 <= k < r@.len() ==> (#[trigger] r@[k]).0 == x0 + k && r@[k].1 == bres_state(
                        y0 as int,
                        d0 as int,
                        y_inc as int,
                        dx as int,
                        dyabs as int,
                        k as nat,
                    ).0,
            decreases x1 + 1 - x,
        {
            proof {
                lemma_bres_state_bounds(
                    y0 as int,
                    d0 as int,
                    y_inc as int,
                    dx as int,
                    dyabs as int,
                    (x - x0) as nat,
                );
            }
            r.push((x, y));
            if d > 0 {
                y = y + y_inc;
                d = d - 2 * (dx as i64);
            }
            d = d + 2 * (dyabs as i64);
            x = x + 1;
        }
        r
    } else {
        // steep: walk y upward from the lower endpoint, carry x
        let d0: i64 = 2 * (dx as i64) - (dy as i64);
        let x_inc: i32 = if dy > 0 {
            1
        } else {
            -1
        };
        let dyabs: i32 = if dy > 0 {
            dy
        } else {
            -dy
        };
        let xs: i32 = if dy > 0 {
            x0
        } else {
            x1
        };
        let ys: i32 = if dy > 0 {
            y0
        } else {
            y1
        };
        let ye: i32 = if dy > 0 {
            y1
        } else {
            y0
        };
        let mut d: i64 = d0;
        let mut x: i32 = xs;
        let mut y: i32 = ys;
        while y <= ye
            invariant
                ys <= y <= ye + 1,
                ys == (if dy > 0 {
                    y0 as int
                } else {
                    y1 as int
                }),
                -0x2000_0000 <= ys <= 0x2000_0000,
                ye <= 0x2000_0000,
                -0x2000_0000 <= xs <= 0x2000_0000,
                -0x2000_0000 <= x0 <= 0x2000_0000,
                -0x2000_0000 <= x1 <= 0x2000_0000,
                -0x2000_0000 <= y0 <= 0x2000_0000,
                -0x2000_0000 <= y1 <= 0x2000_0000,
                dx == x1 - x0,
                dy == y1 - y0,
                0 < dx,
                dy != 0,
                dyabs == abs(dy as int),
                dx <= dyabs,
                ye - ys == dyabs,
                x_inc == (if dy > 0 {
                    1int
                } else {
                    -1int
                }),
                d0 == 2 * dx - dy,
                r@.len() == y - ys,
                (x as int, d as int) == bres_state(
                    xs as int,
                    d0 as int,
                    x_inc as int,
                    dyabs as int,
                    dx as int,
                    (y - ys) as nat,
                ),
                forall|k: int|
                    0 <= k < r@.len() ==> (#[trigger] r@[k]).1 == ys + k && r@[k].0 == bres_state(
                        xs as int,
                        d0 as int,
                        x_inc as int,
                        dyabs as int,
                        dx as int,
                        k as nat,
                    ).0,
            decreases ye + 1 - y,
        {
            proof {
                lemma_bres_state_bounds(
                    xs as int,
                    d0 as int,
                    x_inc as int,
                    dyabs as int,
                    dx as int,
                    (y - ys) as nat,
                );
            }
            r.push((x, y));
            if d > 0 {
                x = x + x_inc;
                d = d - 2 * (dyabs as i64);
            }
            d = d + 2 * (dx as i64);
            y = y + 1;
        }
        r
    }
}

} // verus!
