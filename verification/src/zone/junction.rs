use vstd::prelude::*;

use crate::signal::Aspect;
use crate::signal::control::SignalControl;
use crate::track::EntityId;
use crate::zone::block::aspect_for;
use crate::zone::{Zone, ZoneStatus, status_of};

verus! {

/// A zone where the line splits in two or two lines merge, at a switch.
#[derive(Debug, Clone, Copy, PartialEq, Eq)]
pub enum Junction {
    /// One entry, guarded by `signal`, and two exits.
    Split1_2 { signal: EntityId },
    /// Two entries, guarded by `signals`; `control` is the position of the
    /// switch, which selects the entry that may be used.
    Merge2_1 { signals: [EntityId; 2], control: usize },
}

/// The aspect of the entry signal `index` of a merge: red while the zone is
/// occupied; while it is clear, green for the entry that the switch selects.
pub open spec fn merge_aspect(status: ZoneStatus, control: usize, index: int) -> Aspect {
    match status {
        ZoneStatus::Occupied => Aspect::Red,
        ZoneStatus::Clear => if control == index {
            Aspect::Green
        } else {
            Aspect::Red
        },
    }
}

/// The controls of the two entry signals of a merge.
pub open spec fn merge_controls(status: ZoneStatus, control: usize, signals: Seq<EntityId>) -> Seq<
    SignalControl,
> {
    seq![
        SignalControl { signal: signals[0], aspect: merge_aspect(status, control, 0) },
        SignalControl { signal: signals[1], aspect: merge_aspect(status, control, 1) },
    ]
}

/// Sets the entry signals of a merge for the zone's `status` and the
/// switch's `control`.
pub fn signal_aspects(status: ZoneStatus, control: usize, signals: &[EntityId; 2]) -> (r: Vec<
    SignalControl,
>)
    ensures
        r@ == merge_controls(status, control, signals@),
{
    let mut r: Vec<SignalControl> = Vec::new();
    match status {
        ZoneStatus::Occupied => {
            r.push(SignalControl { signal: signals[0], aspect: Aspect::Red });
            r.push(SignalControl { signal: signals[1], aspect: Aspect::Red });
        },
        ZoneStatus::Clear => {
            r.push(
                SignalControl {
                    signal: signals[0],
                    aspect: if control == 0 {
                        Aspect::Green
                    } else {
                        Aspect::Red
                    },
                },
            );
            r.push(
                SignalControl {
                    signal: signals[1],
                    aspect: if control == 1 {
                        Aspect::Green
                    } else {
                        Aspect::Red
                    },
                },
            );
        },
    }
    proof {
        assert(r@ =~= merge_controls(status, control, signals@));
    }
    r
}

/// The signal controls that a change of the junction's status to `status`
/// orders.
pub open spec fn spec_zone_updated(junction: Junction, status: ZoneStatus) -> Seq<SignalControl> {
    match junction {
        Junction::Merge2_1 { signals, control } => merge_controls(status, control, signals@),
        Junction::Split1_2 { signal } => seq![
            SignalControl { signal, aspect: aspect_for(status) },
        ],
    }
}

/// The status of the junction's zone has changed to `status`.
pub fn zone_updated(junction: &Junction, status: ZoneStatus) -> (r: Vec<SignalControl>)
    ensures
        r@ == spec_zone_updated(*junction, status),
{
    match junction {
        Junction::Merge2_1 { signals, control } => signal_aspects(status, *control, signals),
        Junction::Split1_2 { signal } => {
            let aspect = match status {
                ZoneStatus::Clear => Aspect::Green,
                ZoneStatus::Occupied => Aspect::Red,
            };
            let mut r: Vec<SignalControl> = Vec::new();
            r.push(SignalControl { signal: *signal, aspect });
            proof {
                assert(r@ =~= spec_zone_updated(*junction, status));
            }
            r
        },
    }
}

/// The switch of the junction has moved to `new_control`: a merge takes it
/// as its control and sets its entry signals for the zone's status; a split
/// orders nothing.
pub fn switch_updated(junction: &mut Junction, zone: &Zone, new_control: usize) -> (r: Vec<
    SignalControl,
>)
    ensures
        match *old(junction) {
            Junction::Merge2_1 { signals, control } => {
                &&& *final(junction) == Junction::Merge2_1 { signals, control: new_control }
                &&& r@ == merge_controls(status_of(zone.count as nat), new_control, signals@)
            },
            Junction::Split1_2 { .. } => {
                &&& *final(junction) == *old(junction)
                &&& r@ == Seq::<SignalControl>::empty()
            },
        },
{
    match *junction {
        Junction::Merge2_1 { signals, control: _ } => {
            *junction = Junction::Merge2_1 { signals, control: new_control };
            signal_aspects(zone.status(), new_control, &signals)
        },
        Junction::Split1_2 { .. } => Vec::new(),
    }
}

/// The entry signal of a split is the one signal that a change of its zone's
/// status sets: green when the zone has become clear, red when it has become
/// occupied.
pub proof fn lemma_split_entry_follows_zone(signal: EntityId, status: ZoneStatus)
    ensures
        spec_zone_updated(Junction::Split1_2 { signal }, status).len() == 1,
        spec_zone_updated(Junction::Split1_2 { signal }, status)[0].signal == signal,
        spec_zone_updated(Junction::Split1_2 { signal }, status)[0].aspect == Aspect::Green
            <==> status == ZoneStatus::Clear,
        spec_zone_updated(Junction::Split1_2 { signal }, status)[0].aspect == Aspect::Red
            <==> status == ZoneStatus::Occupied,
{
}

/// A merge never lets trains in from both entries: at most one of its entry
/// signals shows green, none while the zone is occupied, and while it is
/// clear the one that the switch selects.
pub proof fn lemma_merge_one_way_at_most(status: ZoneStatus, control: usize, signals: Seq<EntityId>)
    ensures
        ({
            let c = merge_controls(status, control, signals);
            &&& !(c[0].aspect == Aspect::Green && c[1].aspect == Aspect::Green)
            &&& status == ZoneStatus::Occupied ==> c[0].aspect == Aspect::Red && c[1].aspect
                == Aspect::Red
            &&& status == ZoneStatus::Clear && control < 2 ==> c[control as int].aspect
                == Aspect::Green
        }),
{
}

} // verus!
