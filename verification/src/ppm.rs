//! PPM serialization: the exact bytes of an image in the binary `P6` and
//! plain-text `P3` formats.
//!
//! Layout: a magic line (`P6` or `P3`), then `<width> <height> <depth>` on
//! one line, then the pixels in row-major order — for `P6` one byte per
//! channel when `depth < 256`, else two bytes big-endian; for `P3` the
//! three channel values in decimal, space-separated, one pixel per line.
//! Writing the bytes to a file or a pipe is the caller's business.

use vstd::prelude::*;

use crate::canvas::PPMImg;
use crate::colors::RGB;

verus! {

/// The ASCII decimal digits of `n`, most significant first, no sign, no
/// leading zeros (a single `'0'` for zero).
pub open spec fn dec_digits(n: nat) -> Seq<u8>
    decreases n,
{
    if n < 10 {
        seq![(48 + n) as u8]
    } else {
        dec_digits(n / 10) + seq![(48 + n % 10) as u8]
    }
}

/// The serialized bytes of one pixel in the binary format: one byte per
/// channel at `depth < 256`, else two bytes per channel, big-endian.
pub open spec fn pixel_bytes(depth: u16, c: RGB) -> Seq<u8> {
    if depth < 256 {
        seq![(c.red % 256) as u8, (c.green % 256) as u8, (c.blue % 256) as u8]
    } else {
        seq![
            (c.red / 256) as u8,
            (c.red % 256) as u8,
            (c.green / 256) as u8,
            (c.green % 256) as u8,
            (c.blue / 256) as u8,
            (c.blue % 256) as u8,
        ]
    }
}

/// The serialized bytes of one pixel in the plain-text format:
/// `<red> <green> <blue>\n`.
pub open spec fn pixel_text(c: RGB) -> Seq<u8> {
    dec_digits(c.red as nat) + seq![32u8] + dec_digits(c.green as nat) + seq![32u8]
        + dec_digits(c.blue as nat) + seq![10u8]
}

/// The bytes of the first `i` pixels of `data`: raw channel bytes when
/// `binary`, decimal text lines otherwise.
pub open spec fn pixels_prefix(depth: u16, data: Seq<RGB>, i: int, binary: bool) -> Seq<u8>
    decreases i,
{
    if i <= 0 {
        Seq::empty()
    } else {
        pixels_prefix(depth, data, i - 1, binary) + if binary {
            pixel_bytes(depth, data[i - 1])
        } else {
            pixel_text(data[i - 1])
        }
    }
}

/// The header: the magic bytes, a newline, then width, height and depth in
/// decimal separated by single spaces, and a final newline.
pub open spec fn ppm_header(magic: Seq<u8>, width: u32, height: u32, depth: u16) -> Seq<u8> {
    magic + seq![10u8] + dec_digits(width as nat) + seq![32u8] + dec_digits(height as nat)
        + seq![32u8] + dec_digits(depth as nat) + seq![10u8]
}

/// Everything `binary_bytes` returns.
pub open spec fn spec_binary_bytes(img: PPMImg) -> Seq<u8> {
    ppm_header(seq![80u8, 54u8], img.width, img.height, img.depth) + pixels_prefix(
        img.depth,
        img.data@,
        img.data@.len() as int,
        true,
    )
}

/// Everything `ascii_bytes` returns.
pub open spec fn spec_ascii_bytes(img: PPMImg) -> Seq<u8> {
    ppm_header(seq![80u8, 51u8], img.width, img.height, img.depth) + pixels_prefix(
        img.depth,
        img.data@,
        img.data@.len() as int,
        false,
    )
}

/// The decimal digits of `n`, as `dec_digits` describes them.
pub fn u32_to_dec(n: u32) -> (v: Vec<u8>)
    ensures
        v@ == dec_digits(n as nat),
    decreases n,
{
    if n < 10 {
        let mut v: Vec<u8> = Vec::new();
        v.push(48 + (n as u8));
        proof {
            assert(v@ =~= dec_digits(n as nat));
        }
        v
    } else {
        let mut v = u32_to_dec(n / 10);
        v.push(48 + ((n % 10) as u8));
        proof {
            assert(v@ =~= dec_digits(n as nat));
        }
        v
    }
}

fn push_decimal(out: &mut Vec<u8>, n: u32)
    ensures
        final(out)@ == old(out)@ + dec_digits(n as nat),
{
    let mut d = u32_to_dec(n);
    out.append(&mut d);
}

fn push_pixel_binary(out: &mut Vec<u8>, depth: u16, c: RGB)
    ensures
        final(out)@ == old(out)@ + pixel_bytes(depth, c),
{
    if depth < 256 {
        out.push((c.red % 256) as u8);
        out.push((c.green % 256) as u8);
        out.push((c.blue % 256) as u8);
    } else {
        out.push((c.red / 256) as u8);
        out.push((c.red % 256) as u8);
        out.push((c.green / 256) as u8);
        out.push((c.green % 256) as u8);
        out.push((c.blue / 256) as u8);
        out.push((c.blue % 256) as u8);
    }
    proof {
        assert(out@ =~= old(out)@ + pixel_bytes(depth, c));
    }
}

fn push_pixel_text(out: &mut Vec<u8>, c: RGB)
    ensures
        final(out)@ == old(out)@ + pixel_text(c),
{
    push_decimal(out, c.red as u32);
    out.push(32);
    push_decimal(out, c.green as u32);
    out.push(32);
    push_decimal(out, c.blue as u32);
    out.push(10);
    proof {
        assert(out@ =~= old(out)@ + pixel_text(c));
    }
}

fn push_header(out: &mut Vec<u8>, magic0: u8, magic1: u8, width: u32, height: u32, depth: u16)
    ensures
        final(out)@ == old(out)@ + ppm_header(seq![magic0, magic1], width, height, depth),
{
    out.push(magic0);
    out.push(magic1);
    out.push(10);
    push_decimal(out, width);
    out.push(32);
    push_decimal(out, height);
    out.push(32);
    push_decimal(out, depth as u32);
    out.push(10);
    proof {
        assert(out@ =~= old(out)@ + ppm_header(seq![magic0, magic1], width, height, depth));
    }
}

impl PPMImg {
    /// Serialize in the binary `P6` format: the header, then each pixel's
    /// channels as raw bytes, one byte per channel at `depth < 256`, else
    /// two bytes big-endian.  At one byte per channel a wider channel
    /// value narrows to its low byte.
    pub fn binary_bytes(&self) -> (out: Vec<u8>)
        ensures
            out@ == spec_binary_bytes(*self),
    {
        let mut out: Vec<u8> = Vec::new();
        push_header(&mut out, 80, 54, self.width, self.height, self.depth);
        let n: usize = self.data.len();
        let mut i: usize = 0;
        while i < n
            invariant
                i <= n,
                n == self.data@.len(),
                out@ == ppm_header(seq![80u8, 54u8], self.width, self.height, self.depth)
                    + pixels_prefix(self.depth, self.data@, i as int, true),
            decreases n - i,
        {
            push_pixel_binary(&mut out, self.depth, self.data[i]);
            i = i + 1;
        }
        out
    }

    /// Serialize in the plain-text `P3` format: the header, then each
    /// pixel's channels in decimal, space-separated, one pixel per line.
    pub fn ascii_bytes(&self) -> (out: Vec<u8>)
        ensures
            out@ == spec_ascii_bytes(*self),
    {
        let mut out: Vec<u8> = Vec::new();
        push_header(&mut out, 80, 51, self.width, self.height, self.depth);
        let n: usize = self.data.len();
        let mut i: usize = 0;
        while i < n
            invariant
                i <= n,
                n == self.data@.len(),
                out@ == ppm_header(seq![80u8, 51u8], self.width, self.height, self.depth)
                    + pixels_prefix(self.depth, self.data@, i as int, false),
            decreases n - i,
        {
            push_pixel_text(&mut out, self.data[i]);
            i = i + 1;
        }
        out
    }
}

} // verus!
