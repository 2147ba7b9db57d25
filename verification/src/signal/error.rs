use vstd::prelude::*;

verus! {

/// Why the bounds of a signal could not be placed.
#[derive(Debug, Clone, Copy, PartialEq, Eq, Structural)]
pub enum SignalError {
    BoundNotReachable,
    BoundsNotFound,
}

impl SignalError {
    /// The text that describes the error.
    pub open spec fn spec_message(self) -> Seq<char> {
        match self {
            SignalError::BoundNotReachable => "end was not reachable from the start"@,
            SignalError::BoundsNotFound => "bound not found"@,
        }
    }

    pub fn message(&self) -> (r: String)
        ensures
            r@ == self.spec_message(),
    {
        match self {
            SignalError::BoundNotReachable => String::from_str("end was not reachable from the start"),
            SignalError::BoundsNotFound => String::from_str("bound not found"),
        }
    }
}

} // verus!
