use vstd::prelude::*;

use crate::track::EntityId;
use crate::zone::block::Block;
use crate::zone::junction::Junction;

verus! {

/// What a zone is, by its number of entries and exits.
#[derive(Debug, Clone, Copy, PartialEq, Eq)]
pub enum ZoneLayout {
    /// One entry and one exit.
    Block(Block),
    /// A split or a merge, at the switch `switch`.
    Junction { junction: Junction, switch: EntityId },
}

/// The zone's shape is one that a zone can have: one entry and one exit;
/// or one entry and two exits, or two entries and one exit, at a switch.
pub open spec fn layout_defined(n_entries: nat, n_exits: nat, n_switches: nat) -> bool {
    ||| n_entries == 1 && n_exits == 1
    ||| n_entries == 1 && n_exits == 2 && n_switches >= 1
    ||| n_entries == 2 && n_exits == 1 && n_switches >= 1
}

/// The layout of a zone whose entries are guarded by `entry_signals` (one
/// signal per entry), with `n_exits` exits and the switches `switches`: a
/// block guarded by its entry signal; a split guarded by its entry signal;
/// a merge guarded by its two entry signals, its switch at its first
/// outlet. A junction is at the first of the switches.
pub open spec fn spec_zone_layout(entry_signals: Seq<EntityId>, n_exits: nat, switches: Seq<EntityId>) -> ZoneLayout {
    if entry_signals.len() == 1 && n_exits == 1 {
        ZoneLayout::Block(Block { entry_signal: entry_signals[0] })
    } else if entry_signals.len() == 1 {
        ZoneLayout::Junction {
            junction: Junction::Split1_2 { signal: entry_signals[0] },
            switch: switches[0],
        }
    } else {
        ZoneLayout::Junction {
            junction: Junction::Merge2_1 {
                signals: [entry_signals[0], entry_signals[1]],
                control: 0,
            },
            switch: switches[0],
        }
    }
}

pub fn zone_layout(entry_signals: &Vec<EntityId>, n_exits: usize, switches: &Vec<EntityId>) -> (r:
    ZoneLayout)
    requires
        layout_defined(entry_signals@.len(), n_exits as nat, switches@.len()),
    ensures
        r == spec_zone_layout(entry_signals@, n_exits as nat, switches@),
{
    let n_entries = entry_signals.len();
    if n_entries == 1 && n_exits == 1 {
        ZoneLayout::Block(Block { entry_signal: entry_signals[0] })
    } else if n_entries == 1 && n_exits == 2 {
        ZoneLayout::Junction {
            junction: Junction::Split1_2 { signal: entry_signals[0] },
            switch: switches[0],
        }
    } else {
        ZoneLayout::Junction {
            junction: Junction::Merge2_1 {
                signals: [entry_signals[0], entry_signals[1]],
                control: 0,
            },
            switch: switches[0],
        }
    }
}

/// The nodes at the positions `u_switches` of `nodes`, in order.
pub fn fetch_switches(nodes: &Vec<EntityId>, u_switches: &Vec<usize>) -> (r: Vec<EntityId>)
    requires
        forall|i: int| 0 <= i < u_switches@.len() ==> #[trigger] u_switches@[i] < nodes@.len(),
    ensures
        r@.len() == u_switches@.len(),
        forall|i: int| 0 <= i < u_switches@.len() ==> #[trigger] r@[i] == nodes@[u_switches@[i] as int],
{
    let mut e_switches: Vec<EntityId> = Vec::new();
    let n = u_switches.len();
    let mut i: usize = 0;
    while i < n
        invariant
            n == u_switches@.len(),
            0 <= i <= n,
            e_switches@.len() == i,
            forall|k: int| 0 <= k < u_switches@.len() ==> #[trigger] u_switches@[k] < nodes@.len(),
            forall|k: int| 0 <= k < i ==> #[trigger] e_switches@[k] == nodes@[u_switches@[k] as int],
        decreases n - i,
    {
        let u_switch = u_switches[i];
        e_switches.push(nodes[u_switch]);
        i = i + 1;
    }
    e_switches
}

} // verus!
