//! Terminal sizes for processes run in a buffer.

use vstd::prelude::*;

verus! {

/// The size of a pseudo-terminal, in cells and in pixels.
#[derive(Clone, Copy, Debug, PartialEq, Eq, Structural)]
pub struct Size {
    pub rows: usize,
    pub columns: usize,
    pub width_in_pixels: usize,
    pub height_in_pixels: usize,
}

} // verus!
