use vstd::prelude::*;

pub mod block;
pub mod builder;
pub mod junction;

use crate::track::EntityId;

verus! {

/// An axle counter that counts the axles entering and leaving the zone
/// `zone`.
#[derive(Debug, Clone, Copy, PartialEq, Eq, Structural)]
pub struct AxleCounter {
    pub zone: EntityId,
}

/// A stretch of track guarded by axle counters: `count` axles are in it.
#[derive(Debug, Clone, Copy, PartialEq, Eq, Structural, Default)]
pub struct Zone {
    pub count: usize,
}

#[derive(Debug, Clone, Copy, PartialEq, Eq, Structural)]
pub enum ZoneStatus {
    Clear,
    Occupied,
}

/// The status of a zone with `count` axles in it.
pub open spec fn status_of(count: nat) -> ZoneStatus {
    if count == 0 {
        ZoneStatus::Clear
    } else {
        ZoneStatus::Occupied
    }
}

/// The number of axles in a zone of `count` axles after one has passed a
/// counter, forwards (into the zone) or backwards (out of it); an empty zone
/// stays empty.
pub open spec fn count_after(count: nat, forwards: bool) -> nat {
    if forwards {
        count + 1
    } else if count > 0 {
        (count - 1) as nat
    } else {
        count
    }
}

/// The change of status that a crossing reports: occupied when the first
/// axle has come in, clear when the last has gone, nothing otherwise.
pub open spec fn reported_change(count: nat, forwards: bool) -> Option<ZoneStatus> {
    if forwards && count == 0 {
        Some(ZoneStatus::Occupied)
    } else if !forwards && count == 1 {
        Some(ZoneStatus::Clear)
    } else {
        None
    }
}

impl Zone {
    pub fn new() -> (r: Self)
        ensures
            r.count == 0,
    {
        Zone { count: 0 }
    }

    /// An axle passes a counter of the zone; returns the change of status
    /// that it causes, if any.
    pub fn crossed(&mut self, forwards: bool) -> (r: Option<ZoneStatus>)
        requires
            forwards ==> old(self).count < usize::MAX,
        ensures
            final(self).count == count_after(old(self).count as nat, forwards),
            r == reported_change(old(self).count as nat, forwards),
    {
        if forwards {
            self.count += 1;
            if self.count == 1 {
                return Some(ZoneStatus::Occupied);
            }
        } else if self.count > 0 {
            self.count -= 1;
            if self.count == 0 {
                return Some(ZoneStatus::Clear);
            }
        }
        None
    }

    pub fn status(&self) -> (r: ZoneStatus)
        ensures
            r == status_of(self.count as nat),
    {
        match self.count {
            0 => ZoneStatus::Clear,
            _ => ZoneStatus::Occupied,
        }
    }
}

/// A change of status reported by a crossing is the status of the zone
/// after it, and a crossing that changes the status reports it.
pub proof fn lemma_report_matches_status(count: nat, forwards: bool)
    ensures
        reported_change(count, forwards) matches Some(s) ==> s == status_of(
            count_after(count, forwards),
        ),
        status_of(count) != status_of(count_after(count, forwards)) ==> reported_change(
            count,
            forwards,
        ) == Some(status_of(count_after(count, forwards))),
        reported_change(count, forwards) is Some ==> status_of(count) != status_of(
            count_after(count, forwards),
        ),
{
}

/// An axle that comes in and goes out again leaves the count as it was.
pub proof fn lemma_in_then_out_restores(count: nat)
    ensures
        count_after(count_after(count, true), false) == count,
{
}

/// The status that a zone reports to the block or junction it guards.
#[derive(Debug, Clone, Copy, PartialEq, Eq, Structural)]
pub struct ZoneUpdate {
    pub zone: EntityId,
    pub status: ZoneStatus,
}

/// An axle has passed `counter` of the zone `zone`; returns the update of
/// the zone's status, if its status has changed.
pub fn axle_crossed(counter: &AxleCounter, zone: &mut Zone, forwards: bool) -> (r: Option<
    ZoneUpdate,
>)
    requires
        forwards ==> old(zone).count < usize::MAX,
    ensures
        final(zone).count == count_after(old(zone).count as nat, forwards),
        r == match reported_change(old(zone).count as nat, forwards) {
            Some(status) => Some(ZoneUpdate { zone: counter.zone, status }),
            None => None,
        },
{
    let e_zone = counter.zone;
    match zone.crossed(forwards) {
        Some(s) => Some(ZoneUpdate { zone: e_zone, status: s }),
        None => None,
    }
}

} // verus!
