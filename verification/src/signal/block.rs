use vstd::prelude::*;

use crate::track::EntityId;

verus! {

/// A block is occupied by the train `0`.
#[derive(Debug, Clone, Copy, PartialEq, Eq, Structural)]
pub struct OccupiedBlock(pub EntityId);

/// A bound of the block `block`.
#[derive(Debug, Clone, Copy, PartialEq, Eq, Structural)]
pub struct BlockBound {
    pub block: EntityId,
}

impl BlockBound {
    pub fn new(block: EntityId) -> (r: Self)
        ensures
            r.block == block,
    {
        Self { block }
    }
}

/// A train has passed a bound of `block`, entering it or leaving it.
#[derive(Debug, Clone, Copy, PartialEq, Eq, Structural)]
pub struct TrainPassedBlock {
    pub entered: bool,
    pub block: EntityId,
    pub train: EntityId,
}

/// A train has passed `bound`, forwards (into the block) or not.
pub fn check_train_passed(bound: &BlockBound, forwards: bool, train: EntityId) -> (r:
    TrainPassedBlock)
    ensures
        r == (TrainPassedBlock { entered: forwards, block: bound.block, train }),
{
    TrainPassedBlock { entered: forwards, block: bound.block, train }
}

/// How the occupancy of a block changes.
#[derive(Debug, Clone, Copy, PartialEq, Eq, Structural)]
pub enum OccupancyChange {
    Occupy(OccupiedBlock),
    Vacate,
    Unchanged,
}

/// The occupancy after the change.
pub open spec fn occupancy_after(occupied: Option<OccupiedBlock>, change: OccupancyChange) -> Option<
    OccupiedBlock,
> {
    match change {
        OccupancyChange::Occupy(o) => Some(o),
        OccupancyChange::Vacate => None,
        OccupancyChange::Unchanged => occupied,
    }
}

/// A free block entered by a train becomes occupied by it; an occupied
/// block left by a train becomes free; nothing else changes.
pub open spec fn spec_train_passed(passed: TrainPassedBlock, occupied: Option<OccupiedBlock>) -> OccupancyChange {
    if occupied is None && passed.entered {
        OccupancyChange::Occupy(OccupiedBlock(passed.train))
    } else if occupied is Some && !passed.entered {
        OccupancyChange::Vacate
    } else {
        OccupancyChange::Unchanged
    }
}

pub fn train_passed(passed: &TrainPassedBlock, occupied: Option<OccupiedBlock>) -> (r: OccupancyChange)
    ensures
        r == spec_train_passed(*passed, occupied),
{
    let is_occupied = occupied.is_some();
    if !is_occupied && passed.entered {
        OccupancyChange::Occupy(OccupiedBlock(passed.train))
    } else if is_occupied && !passed.entered {
        OccupancyChange::Vacate
    } else {
        OccupancyChange::Unchanged
    }
}

/// A train that enters a free block and then leaves it leaves it free.
pub proof fn lemma_enter_then_leave(block: EntityId, train: EntityId)
    ensures
        ({
            let enter = TrainPassedBlock { entered: true, block, train };
            let leave = TrainPassedBlock { entered: false, block, train };
            let inside = occupancy_after(None, spec_train_passed(enter, None));
            &&& inside == Some(OccupiedBlock(train))
            &&& occupancy_after(inside, spec_train_passed(leave, inside)) is None
        }),
{
}

} // verus!
