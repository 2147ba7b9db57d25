use vstd::prelude::*;

use crate::signal::Aspect;
use crate::signal::control::SignalControl;
use crate::track::EntityId;
use crate::zone::ZoneStatus;

verus! {

/// A zone with one entry and one exit, guarded by the signal at its entry.
#[derive(Debug, Clone, Copy, PartialEq, Eq, Structural)]
pub struct Block {
    pub entry_signal: EntityId,
}

/// The aspect that a signal shows for a zone in `status`: green for clear,
/// red for occupied.
pub open spec fn aspect_for(status: ZoneStatus) -> Aspect {
    match status {
        ZoneStatus::Clear => Aspect::Green,
        ZoneStatus::Occupied => Aspect::Red,
    }
}

/// The status of the block has changed to `status`: its entry signal shows
/// green for clear and red for occupied.
pub fn zone_updated(block: &Block, status: ZoneStatus) -> (r: SignalControl)
    ensures
        r == (SignalControl { signal: block.entry_signal, aspect: aspect_for(status) }),
{
    let e_signal = block.entry_signal;
    match status {
        ZoneStatus::Clear => SignalControl { signal: e_signal, aspect: Aspect::Green },
        ZoneStatus::Occupied => SignalControl { signal: e_signal, aspect: Aspect::Red },
    }
}

} // verus!
