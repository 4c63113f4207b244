//! The pixel canvas: a width x height grid of colors with a parallel depth
//! buffer, wraparound addressing, and the depth-tested `plot` that every
//! drawing routine funnels through.
//!
//! Depth is kept as an `i64` key.  The unverified front end maps its
//! floating-point depths to keys by any strictly order-preserving function;
//! `i64::MIN` stands below every mapped depth and means "nothing drawn
//! here yet".  `plot` writes a pixel exactly when the new key is strictly
//! larger than the stored one, so larger keys win, matching the
//! larger-is-nearer depth convention of the rasterizer.

use vstd::prelude::*;
use vstd::arithmetic::div_mod::lemma_fundamental_div_mod_converse_mod;

use crate::colors::RGB;

verus! {

/// A raster image with a parallel depth buffer, serializable as PPM.
pub struct PPMImg {
    pub height: u32,
    pub width: u32,
    /// Maximum channel value written when the image is serialized.
    pub depth: u16,
    pub x_wrap: bool,
    pub y_wrap: bool,
    /// Applies a second vertical flip inside `index`.  Note that the flip
    /// divides by `width`, not `height`, so it is only well-defined where
    /// the resulting index stays inside the buffer — on a square canvas,
    /// always; see the precondition of `index`.
    pub invert_y: bool,
    pub data: Vec<RGB>,
    pub zbuf: Vec<i64>,
}

impl PPMImg {
    /// Both buffers cover the grid exactly, and the grid is small enough
    /// that every row-major index fits in an `i32`, as the addressing
    /// arithmetic demands.
    pub open spec fn wf(self) -> bool {
        &&& self.data@.len() == self.width * self.height
        &&& self.zbuf@.len() == self.width * self.height
        &&& self.width * self.height <= 0x7fff_ffff
        &&& self.width <= 0x7fff_ffff
        &&& self.height <= 0x7fff_ffff
    }

    /// The flat index that `index` computes for `(x, y)`, or `None` for a
    /// coordinate that is out of range on a non-wrapping axis.
    /// Out-of-range coordinates on a wrapping axis reduce modulo the
    /// extent (mathematical modulus, always in `[0, extent)`).
    pub open spec fn spec_index_of(self, x: int, y: int) -> Option<int> {
        if (!self.x_wrap && !(0 <= x < self.width)) || (!self.y_wrap && !(0 <= y < self.height)) {
            None
        } else {
            let xr = x % (self.width as int);
            let yr = y % (self.height as int);
            let yy = if self.invert_y {
                self.width - yr - 1
            } else {
                yr
            };
            Some(yy * self.width + xr)
        }
    }

    /// True when the index `index` would compute for `(x, y)` stays inside
    /// the buffers.  Without `invert_y` this always holds (see
    /// `lemma_index_in_bounds`); with it, the width-based flip can leave
    /// the grid on non-square canvases, which made the addressing abort.
    pub open spec fn index_ok(self, x: int, y: int) -> bool {
        match self.spec_index_of(x, y) {
            Some(i) => 0 <= i < self.width * self.height,
            None => true,
        }
    }

    /// Wrapping guards: reducing modulo an extent demands a positive extent.
    pub open spec fn wrap_ok(self) -> bool {
        &&& self.x_wrap ==> self.width > 0
        &&& self.y_wrap ==> self.height > 0
    }

    /// Without the `invert_y` flip the computed index is always in bounds.
    pub proof fn lemma_index_in_bounds(self, x: int, y: int)
        requires
            self.wf(),
            self.wrap_ok(),
            !self.invert_y,
        ensures
            self.index_ok(x, y),
    {
        if self.spec_index_of(x, y) is Some {
            let w = self.width as int;
            let h = self.height as int;
            let xr = x % w;
            let yr = y % h;
            assert(0 <= xr < w && 0 <= yr < h) by {
                if !self.x_wrap {
                    assert(0 <= x < w);
                    lemma_fundamental_div_mod_converse_mod(x, w, 0, x);
                } else {
                    vstd::arithmetic::div_mod::lemma_mod_division_less_than_divisor(x, w);
                }
                if !self.y_wrap {
                    assert(0 <= y < h);
                    lemma_fundamental_div_mod_converse_mod(y, h, 0, y);
                } else {
                    vstd::arithmetic::div_mod::lemma_mod_division_less_than_divisor(y, h);
                }
            }
            assert(yr * w + xr < w * h) by (nonlinear_arith)
                requires
                    0 <= xr < w,
                    0 <= yr < h,
            ;
            assert(0 <= yr * w + xr) by (nonlinear_arith)
                requires
                    0 <= xr,
                    0 <= yr,
                    0 < w,
            ;
        }
    }
}

/// Reduce `v` into `[0, extent)` by the mathematical modulus, the
/// correction for negative remainders included.
fn wrap_coord(v: i32, extent: i32) -> (r: i32)
    requires
        extent > 0,
    ensures
        r == v as int % extent as int,
        0 <= r < extent,
{
    proof {
        vstd::arithmetic::div_mod::lemma_mod_division_less_than_divisor(v as int, extent as int);
    }
    if v >= 0 {
        if v < extent {
            proof {
                lemma_fundamental_div_mod_converse_mod(v as int, extent as int, 0, v as int);
            }
            v
        } else {
            v % extent
        }
    } else {
        let m: i64 = (-(v as i64)) % (extent as i64);
        proof {
            let a = -(v as int);
            let e = extent as int;
            vstd::arithmetic::div_mod::lemma_fundamental_div_mod(a, e);
            vstd::arithmetic::div_mod::lemma_mod_division_less_than_divisor(a, e);
            let q = a / e;
            if a % e == 0 {
                assert((-q) * e + 0 == -(q * e + (a % e))) by (nonlinear_arith)
                    requires
                        a % e == 0,
                ;
                lemma_fundamental_div_mod_converse_mod(v as int, e, -q, 0);
            } else {
                assert((-q - 1) * e + (e - (a % e)) == -(q * e + (a % e))) by (nonlinear_arith);
                lemma_fundamental_div_mod_converse_mod(v as int, e, -q - 1, e - (a % e));
            }
        }
        if m == 0 {
            0
        } else {
            extent - (m as i32)
        }
    }
}

impl PPMImg {
    /// Create an image filled with `bg_color`, depth buffer all clear
    /// (`i64::MIN`), wrapping and inversion off.
    pub fn with_bg(height: u32, width: u32, depth: u16, bg_color: RGB) -> (img: PPMImg)
        requires
            width * height <= 0x7fff_ffff,
            width <= 0x7fff_ffff,
            height <= 0x7fff_ffff,
        ensures
            img.wf(),
            img.height == height,
            img.width == width,
            img.depth == depth,
            !img.x_wrap,
            !img.y_wrap,
            !img.invert_y,
            img.data@ == Seq::new((width * height) as nat, |i: int| bg_color),
            img.zbuf@ == Seq::new((width * height) as nat, |i: int| i64::MIN),
    {
        let n: usize = (width as usize) * (height as usize);
        let mut data: Vec<RGB> = Vec::new();
        let mut zbuf: Vec<i64> = Vec::new();
        let mut i: usize = 0;
        while i < n
            invariant
                i <= n,
                n == width * height,
                data@ =~= Seq::new(i as nat, |j: int| bg_color),
                zbuf@ =~= Seq::new(i as nat, |j: int| i64::MIN),
            decreases n - i,
        {
            data.push(bg_color);
            zbuf.push(i64::MIN);
            i = i + 1;
        }
        proof {
            assert(data@ =~= Seq::new((width * height) as nat, |j: int| bg_color));
            assert(zbuf@ =~= Seq::new((width * height) as nat, |j: int| i64::MIN));
        }
        PPMImg {
            height,
            width,
            depth,
            x_wrap: false,
            y_wrap: false,
            invert_y: false,
            data,
            zbuf,
        }
    }

    /// Create a new image filled with black.
    pub fn new(height: u32, width: u32, depth: u16) -> (img: PPMImg)
        requires
            width * height <= 0x7fff_ffff,
            width <= 0x7fff_ffff,
            height <= 0x7fff_ffff,
        ensures
            img.wf(),
            img.height == height,
            img.width == width,
            img.depth == depth,
            !img.x_wrap,
            !img.y_wrap,
            !img.invert_y,
            img.data@ == Seq::new((width * height) as nat, |i: int| RGB { red: 0, green: 0, blue: 0 }),
            img.zbuf@ == Seq::new((width * height) as nat, |i: int| i64::MIN),
    {
        Self::with_bg(height, width, depth, RGB::gray(0))
    }

    pub fn width(&self) -> (w: u32)
        ensures
            w == self.width,
    {
        self.width
    }

    pub fn height(&self) -> (h: u32)
        ensures
            h == self.height,
    {
        self.height
    }

    /// Map `(x, y)` to a flat row-major index, `None` when the coordinate
    /// misses the canvas on a non-wrapping axis.  A wrapping axis reduces
    /// the coordinate modulo its extent.  The `invert_y` flip divides by
    /// `width` rather than `height`; the precondition admits only
    /// coordinates whose flipped index stays inside the buffer, which is
    /// every coordinate unless `invert_y` is set on a non-square canvas.
    pub fn index(&self, x: i32, y: i32) -> (r: Option<usize>)
        requires
            self.wf(),
            self.wrap_ok(),
            self.index_ok(x as int, y as int),
        ensures
            match (r, self.spec_index_of(x as int, y as int)) {
                (Some(i), Some(j)) => i == j && i < self.data@.len(),
                (None, None) => true,
                _ => false,
            },
    {
        let width_i: i32 = self.width as i32;
        let height_i: i32 = self.height as i32;
        if (!self.x_wrap && (x < 0 || x >= width_i)) || (!self.y_wrap && (y < 0 || y >= height_i)) {
            return None;
        }
        let xr: i32 = wrap_coord(x, width_i);
        let yr: i32 = wrap_coord(y, height_i);
        let yy: i32 = if self.invert_y {
            width_i - yr - 1
        } else {
            yr
        };
        proof {
            assert(yy * width_i + xr == self.spec_index_of(x as int, y as int)->Some_0);
        }
        Some((yy * width_i + xr) as usize)
    }

    /// The flat index a `plot` at `(x, y)` addresses: `plot` thinks in a
    /// bottom-left origin, so it flips `y` to `height - 1 - y` before
    /// indexing.
    pub open spec fn plot_target(self, x: int, y: int) -> Option<int> {
        self.spec_index_of(x, self.height - 1 - y)
    }

    /// One depth-tested write into parallel pixel/depth buffers: the write
    /// happens exactly when the new key `z` is strictly larger than the
    /// stored one.
    pub open spec fn plotted(data: Seq<RGB>, zbuf: Seq<i64>, i: int, z: i64, c: RGB) -> (Seq<RGB>, Seq<i64>) {
        if zbuf[i] < z {
            (data.update(i, c), zbuf.update(i, z))
        } else {
            (data, zbuf)
        }
    }

    /// Plot `color` at `(x, y)` with depth key `z`, counting `y` up from
    /// the bottom edge.  Out-of-range coordinates on a non-wrapping axis
    /// are silently discarded; at an addressed pixel the write lands
    /// exactly when `z` is strictly larger than the stored key.
    pub fn plot(&mut self, x: i32, y: i32, z: i64, color: RGB)
        requires
            old(self).wf(),
            old(self).wrap_ok(),
            old(self).height - 1 - y <= i32::MAX,
            old(self).index_ok(x as int, old(self).height - 1 - y),
        ensures
            final(self).wf(),
            final(self).height == old(self).height,
            final(self).width == old(self).width,
            final(self).depth == old(self).depth,
            final(self).x_wrap == old(self).x_wrap,
            final(self).y_wrap == old(self).y_wrap,
            final(self).invert_y == old(self).invert_y,
            match old(self).plot_target(x as int, y as int) {
                None => final(self).data@ == old(self).data@ && final(self).zbuf@ == old(self).zbuf@,
                Some(i) => (final(self).data@, final(self).zbuf@) == PPMImg::plotted(
                    old(self).data@,
                    old(self).zbuf@,
                    i,
                    z,
                    color,
                ),
            },
    {
        let fy: i32 = (self.height as i32) - 1 - y;
        if let Some(idx) = self.index(x, fy) {
            if self.zbuf[idx] < z {
                self.data[idx] = color;
                self.zbuf[idx] = z;
            }
        }
    }

    /// Reset every pixel to `color` and every depth key to clear
    /// (`i64::MIN`); dimensions and addressing flags are untouched.
    pub fn clear(&mut self, color: RGB)
        requires
            old(self).wf(),
        ensures
            final(self).wf(),
            final(self).height == old(self).height,
            final(self).width == old(self).width,
            final(self).depth == old(self).depth,
            final(self).x_wrap == old(self).x_wrap,
            final(self).y_wrap == old(self).y_wrap,
            final(self).invert_y == old(self).invert_y,
            final(self).data@ == Seq::new(old(self).data@.len(), |i: int| color),
            final(self).zbuf@ == Seq::new(old(self).zbuf@.len(), |i: int| i64::MIN),
    {
        let n: usize = self.data.len();
        let mut i: usize = 0;
        while i < n
            invariant
                i <= n,
                n == self.data@.len(),
                self.wf(),
                self.height == old(self).height,
                self.width == old(self).width,
                self.depth == old(self).depth,
                self.x_wrap == old(self).x_wrap,
                self.y_wrap == old(self).y_wrap,
                self.invert_y == old(self).invert_y,
                self.zbuf@ == old(self).zbuf@,
                forall|j: int| 0 <= j < i ==> self.data@[j] == color,
                forall|j: int| i <= j < n ==> self.data@[j] == old(self).data@[j],
            decreases n - i,
        {
            self.data[i] = color;
            i = i + 1;
        }
        let mut zbuf: Vec<i64> = Vec::new();
        let mut j: usize = 0;
        while j < n
            invariant
                j <= n,
                zbuf@ =~= Seq::new(j as nat, |k: int| i64::MIN),
            decreases n - j,
        {
            zbuf.push(i64::MIN);
            j = j + 1;
        }
        self.zbuf = zbuf;
        proof {
            assert(self.data@ =~= Seq::new(old(self).data@.len(), |i: int| color));
            assert(self.zbuf@ =~= Seq::new(old(self).zbuf@.len(), |i: int| i64::MIN));
        }
    }
}

impl PartialEq for PPMImg {
    /// Two images are equal exactly when their dimensions, depth and
    /// pixel data agree; the depth buffer and addressing flags do not
    /// enter.
    fn eq(&self, other: &PPMImg) -> (r: bool) {
        if self.height != other.height || self.width != other.width || self.depth != other.depth {
            return false;
        }
        let n: usize = self.data.len();
        if n != other.data.len() {
            return false;
        }
        let mut i: usize = 0;
        while i < n
            invariant
                i <= n,
                n == self.data@.len(),
                n == other.data@.len(),
                forall|j: int| 0 <= j < i ==> self.data@[j] == other.data@[j],
            decreases n - i,
        {
            if self.data[i] != other.data[i] {
                return false;
            }
            i = i + 1;
        }
        proof {
            assert(self.data@ =~= other.data@);
        }
        true
    }
}

impl Eq for PPMImg {

}

impl vstd::std_specs::cmp::PartialEqSpecImpl for PPMImg {
    open spec fn obeys_eq_spec() -> bool {
        true
    }

    open spec fn eq_spec(&self, other: &PPMImg) -> bool {
        &&& self.height == other.height
        &&& self.width == other.width
        &&& self.depth == other.depth
        &&& self.data@ == other.data@
    }
}

/// Depth-buffer law: when the same pixel is plotted twice, the write with
/// the strictly larger depth key determines the stored color, whatever
/// order the two writes arrive in after a first successful write.
/// Plotting `z1` then a `z2 <= z1` keeps the first color and key;
/// plotting `z1` then a `z2 > z1` overwrites with the second.
pub proof fn lemma_zbuf_max_wins(
    data: Seq<RGB>,
    zbuf: Seq<i64>,
    i: int,
    z1: i64,
    z2: i64,
    c1: RGB,
    c2: RGB,
)
    requires
        data.len() == zbuf.len(),
        0 <= i < zbuf.len(),
        zbuf[i] < z1,
    ensures
        ({
            let (d1, b1) = PPMImg::plotted(data, zbuf, i, z1, c1);
            let (d2, b2) = PPMImg::plotted(d1, b1, i, z2, c2);
            &&& d1[i] == c1 && b1[i] == z1
            &&& z2 <= z1 ==> d2[i] == c1 && b2[i] == z1
            &&& z2 > z1 ==> d2[i] == c2 && b2[i] == z2
        }),
{
}

} // verus!

