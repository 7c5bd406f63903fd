//! Line offsets measured in plain `usize` values.

use vstd::prelude::*;

verus! {

/// Relative line offset.
#[derive(Clone, Copy, Debug, Default, PartialEq, Eq, Structural, Ord, PartialOrd)]
pub struct RelLine(pub usize);

/// Line index (zero indexed) within the buffer.
#[derive(Clone, Copy, Debug, Default, PartialEq, Eq, Structural, Ord, PartialOrd)]
pub struct AbsLine(pub usize);

impl AbsLine {
    pub fn offset_from(&self, val: usize) -> (res: Option<RelLine>)
        ensures
            self.0 >= val <==> res is Some,
            res matches Some(r) ==> r.0 == self.0 - val,
    {
        if self.0 >= val {
            Some(RelLine(self.0 - val))
        } else {
            None
        }
    }

    pub fn saturating_sub(&self, val: usize) -> (res: AbsLine)
        ensures
            res.0 == (if self.0 >= val { self.0 - val } else { 0 }),
    {
        if self.0 >= val {
            AbsLine(self.0 - val)
        } else {
            AbsLine(0)
        }
    }
}

} // verus!
