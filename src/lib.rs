use vstd::prelude::*;

pub mod compiler;
pub mod math;
pub mod number;
pub mod program;
pub mod script;
pub mod unroll;

verus! {

} // verus!
