use vstd::prelude::*;

verus! {

/// An inclusive range of bit indices within a pin's bit vector.
#[derive(Debug, Clone, Copy, PartialEq, Eq, Structural)]
pub struct BusRange {
    pub start: u16,
    pub end: u16,
}

impl BusRange {
    /// Number of bits the range covers, or zero for an inverted range.
    pub open spec fn spec_width(self) -> int {
        if self.start <= self.end {
            self.end - self.start + 1
        } else {
            0
        }
    }

    pub fn width(&self) -> (r: u32)
        ensures
            r == self.spec_width(),
    {
        if self.start <= self.end {
            (self.end - self.start) as u32 + 1
        } else {
            0
        }
    }
}

} // verus!
