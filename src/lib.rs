//! A compiler and simulator for a small hardware description language.
//!
//! Chip definitions are parsed from text (`parser`), built into a graph of parts
//! connected by combinatorial and registered wires (`builder`, `model`), and then
//! driven cycle by cycle: `eval` settles the combinatorial logic, `clock` latches
//! every register at once (`sim`).
use vstd::prelude::*;

pub mod bus_range;
pub mod lex;
pub mod symbol;
pub mod parser;
pub mod interface;
pub mod builtin;
pub mod model;
pub mod sim;
pub mod builder;

verus! {

} // verus!
