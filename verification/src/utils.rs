//! Small shared helpers.

use vstd::prelude::*;

verus! {

/// A dimension tag distinguishing flat from solid drawing.
pub enum Dim {
    D2,
    D3,
}

} // verus!
