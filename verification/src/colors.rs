//! RGB color triples.
//!
//! Each channel ranges over `[0, depth]` where `depth` is the canvas's
//! configured bit depth (commonly 255, at most 65535); the type itself
//! admits the full `u16` range and the canvas enforces its own depth.

use vstd::prelude::*;

verus! {

/// An RGB color with one `u16` per channel.
#[derive(Copy, Clone, PartialEq, Eq, Structural, Debug)]
pub struct RGB {
    pub red: u16,
    pub green: u16,
    pub blue: u16,
}

impl RGB {
    /// The color with all three channels equal to `depth`.
    pub fn gray(depth: u16) -> (c: RGB)
        ensures
            c.red == depth,
            c.green == depth,
            c.blue == depth,
    {
        RGB { red: depth, green: depth, blue: depth }
    }

    pub fn new(red: u16, green: u16, blue: u16) -> (c: RGB)
        ensures
            c.red == red,
            c.green == green,
            c.blue == blue,
    {
        RGB { red, green, blue }
    }

    /// White at 8-bit depth.
    pub fn white() -> (c: RGB)
        ensures
            c == (RGB { red: 255, green: 255, blue: 255 }),
    {
        RGB { red: 255, green: 255, blue: 255 }
    }

    /// Black, the zero color at every depth.
    pub fn black() -> (c: RGB)
        ensures
            c == (RGB { red: 0, green: 0, blue: 0 }),
    {
        RGB { red: 0, green: 0, blue: 0 }
    }
}

} // verus!
