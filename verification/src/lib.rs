use vstd::prelude::*;

pub mod text;
pub mod sim;
pub mod automata;
pub mod ir;
pub mod parser;

verus! {
} // verus!
