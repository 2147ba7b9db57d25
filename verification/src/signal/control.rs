use vstd::prelude::*;

use crate::signal::{Aspect, Signal};
use crate::track::EntityId;

verus! {

/// An order to show `aspect` at the signal `signal`.
#[derive(Debug, Clone, Copy, PartialEq, Eq, Structural)]
pub struct SignalControl {
    pub signal: EntityId,
    pub aspect: Aspect,
}

/// Shows the aspect that a control orders.
pub fn signal_controlled(signal: &mut Signal, control: &SignalControl)
    ensures
        final(signal).aspect == control.aspect,
{
    signal.aspect = control.aspect;
}

/// What a signal tells a train.
#[derive(Debug, Clone, Copy, PartialEq, Eq, Structural)]
pub enum Effect {
    Stop,
    Go,
}

/// A signal's order to a train.
#[derive(Debug, Clone, Copy, PartialEq, Eq, Structural)]
pub struct SignalCommand {
    pub effect: Effect,
    pub signal: EntityId,
    pub train: EntityId,
}

} // verus!
