use vstd::prelude::*;

use crate::bus_range::BusRange;

verus! {

/// The pins of a chip, by category. Each pin names the bits it occupies: inputs in the
/// vector that `eval` takes, outputs in the vector that it returns.
#[derive(Debug, Clone, PartialEq, Eq)]
pub struct Interface {
    pub com_in: Vec<(String, BusRange)>,
    pub com_out: Vec<(String, BusRange)>,
    pub seq_in: Vec<(String, BusRange)>,
    pub seq_out: Vec<(String, BusRange)>,
}

/// An independent copy of `pins`.
pub fn copy_pins(pins: &Vec<(String, BusRange)>) -> (r: Vec<(String, BusRange)>)
    ensures
        r@ == pins@,
{
    let mut r: Vec<(String, BusRange)> = Vec::new();
    let mut i: usize = 0;
    while i < pins.len()
        invariant
            i <= pins@.len(),
            r@ == pins@.subrange(0, i as int),
        decreases pins@.len() - i,
    {
        r.push((pins[i].0.clone(), pins[i].1));
        i += 1;
        assert(r@ =~= pins@.subrange(0, i as int));
    }
    assert(r@ =~= pins@);
    r
}

impl Interface {
    /// An independent copy, pin for pin.
    pub fn copy(&self) -> (r: Interface)
        ensures
            r.com_in@ == self.com_in@,
            r.com_out@ == self.com_out@,
            r.seq_in@ == self.seq_in@,
            r.seq_out@ == self.seq_out@,
    {
        Interface {
            com_in: copy_pins(&self.com_in),
            com_out: copy_pins(&self.com_out),
            seq_in: copy_pins(&self.seq_in),
            seq_out: copy_pins(&self.seq_out),
        }
    }
}

/// The four categories of pin.
#[derive(Debug, Clone, Copy, PartialEq, Eq, Structural)]
pub enum PinKind {
    ComIn,
    ComOut,
    SeqIn,
    SeqOut,
}

} // verus!
