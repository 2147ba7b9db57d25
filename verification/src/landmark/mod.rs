use vstd::prelude::*;

pub mod scanner;
pub mod store;

verus! {

} // verus!
