use vstd::prelude::*;

pub mod control;
pub mod landmark;
pub mod loc;
pub mod track;
pub mod train;
pub mod zone;
pub mod signal;
pub mod switch;

verus! {

} // verus!
