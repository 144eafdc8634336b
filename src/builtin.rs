use vstd::prelude::*;

use crate::bus_range::BusRange;
use crate::interface::Interface;
use crate::lex::chars_of;
use crate::model::Chip;

verus! {

broadcast use vstd::string::group_string_axioms;

/// The two-input NAND gate, the one primitive of the catalog.
#[derive(Debug, Clone, Copy, PartialEq, Eq, Structural)]
pub struct Nand;

impl Nand {
    /// Inputs `a` (bit 0) and `b` (bit 1), output `out` (bit 0); nothing sequential.
    pub fn interface(&self) -> (r: Interface)
        ensures
            r.com_in@.len() == 2,
            r.com_in@[0].0@ == seq!['a'] && r.com_in@[0].1 == (BusRange { start: 0, end: 0 }),
            r.com_in@[1].0@ == seq!['b'] && r.com_in@[1].1 == (BusRange { start: 1, end: 1 }),
            r.com_out@.len() == 1,
            r.com_out@[0].0@ == seq!['o', 'u', 't'] && r.com_out@[0].1 == (BusRange {
                start: 0,
                end: 0,
            }),
            r.seq_in@.len() == 0,
            r.seq_out@.len() == 0,
    {
        proof {
            reveal_strlit("a");
            reveal_strlit("b");
            reveal_strlit("out");
        }
        let mut com_in: Vec<(String, BusRange)> = Vec::new();
        com_in.push(("a".to_string(), BusRange { start: 0, end: 0 }));
        com_in.push(("b".to_string(), BusRange { start: 1, end: 1 }));
        let mut com_out: Vec<(String, BusRange)> = Vec::new();
        com_out.push(("out".to_string(), BusRange { start: 0, end: 0 }));
        Interface { com_in, com_out, seq_in: Vec::new(), seq_out: Vec::new() }
    }

    /// A NAND gate holds no state: clocking it changes nothing.
    pub fn clock(&mut self)
        ensures
            *final(self) == *old(self),
    {
    }

    pub fn eval(&mut self, pins: &[bool]) -> (r: Vec<bool>)
        requires
            pins@.len() == 2,
        ensures
            r@ == seq![!(pins@[0] && pins@[1])],
    {
        let mut r: Vec<bool> = Vec::new();
        r.push(!(pins[0] && pins[1]));
        r
    }
}

pub open spec fn nand_name() -> Seq<char> {
    seq!['N', 'a', 'n', 'd']
}

/// A fresh instance of the primitive called `name`, if the catalog has one.
pub fn get_builtin(name: &str) -> (r: Option<Chip>)
    ensures
        name@ == nand_name() ==> r == Some(Chip::Nand(Nand)),
        name@ != nand_name() ==> r is None,
{
    let s = chars_of(name);
    if s.len() == 4 && s[0] == 'N' && s[1] == 'a' && s[2] == 'n' && s[3] == 'd' {
        assert(s@ =~= nand_name());
        Some(Chip::Nand(Nand))
    } else {
        proof {
            if name@ == nand_name() {
                assert(s@[0] == 'N' && s@[1] == 'a' && s@[2] == 'n' && s@[3] == 'd');
            }
        }
        None
    }
}

} // verus!
