use vstd::prelude::*;

use crate::track::EntityId;

verus! {

/// What a press or release of the left mouse button causes.
#[derive(Debug, Clone, Copy, PartialEq, Eq, Structural)]
pub enum ControlEvent {
    TargetClicked(EntityId),
    DragStarted,
    DragEnded,
}

/// The events of one frame: a press on a target clicks it and nothing else
/// happens in that frame; a press elsewhere starts a drag; a release ends a
/// drag. `clicked` is the target under the cursor, read on a press.
pub open spec fn spec_handle_click(just_pressed: bool, just_released: bool, clicked: Option<EntityId>) -> Seq<ControlEvent> {
    if just_pressed && clicked is Some {
        seq![ControlEvent::TargetClicked(clicked->0)]
    } else {
        let start = if just_pressed {
            seq![ControlEvent::DragStarted]
        } else {
            Seq::empty()
        };
        if just_released {
            start.push(ControlEvent::DragEnded)
        } else {
            start
        }
    }
}

pub fn handle_click(just_pressed: bool, just_released: bool, clicked: Option<EntityId>) -> (r: Vec<ControlEvent>)
    ensures
        r@ == spec_handle_click(just_pressed, just_released, clicked),
{
    let mut events: Vec<ControlEvent> = Vec::new();
    if just_pressed {
        if let Some(target) = clicked {
            events.push(ControlEvent::TargetClicked(target));
            proof {
                assert(events@ =~= spec_handle_click(just_pressed, just_released, clicked));
            }
            return events;
        }
        events.push(ControlEvent::DragStarted);
    }
    if just_released {
        events.push(ControlEvent::DragEnded);
    }
    proof {
        assert(events@ =~= spec_handle_click(just_pressed, just_released, clicked));
    }
    events
}

/// What a frame's events say, for every frame: a target is clicked exactly
/// when the button is pressed on it; a drag starts exactly when the button is
/// pressed on no target; a drag ends exactly when the button is released in a
/// frame that did not click a target. A click is the only event of its frame.
pub proof fn lemma_click_events(just_pressed: bool, just_released: bool, clicked: Option<EntityId>, t: EntityId)
    ensures
        spec_handle_click(just_pressed, just_released, clicked).contains(ControlEvent::TargetClicked(t))
            <==> (just_pressed && clicked == Some(t)),
        spec_handle_click(just_pressed, just_released, clicked).contains(ControlEvent::DragStarted)
            <==> (just_pressed && clicked is None),
        spec_handle_click(just_pressed, just_released, clicked).contains(ControlEvent::DragEnded)
            <==> (just_released && !(just_pressed && clicked is Some)),
        just_pressed && clicked is Some ==> spec_handle_click(just_pressed, just_released, clicked).len()
            == 1,
{
    let e = spec_handle_click(just_pressed, just_released, clicked);
    if just_pressed && clicked is Some {
        assert(e[0] == ControlEvent::TargetClicked(clicked->0));
        if e.contains(ControlEvent::TargetClicked(t)) {
            let k = choose|k: int| 0 <= k < e.len() && e[k] == ControlEvent::TargetClicked(t);
            assert(k == 0);
        }
        if clicked == Some(t) {
            assert(e[0] == ControlEvent::TargetClicked(t));
        }
    } else {
        if just_pressed {
            assert(e[0] == ControlEvent::DragStarted);
            if just_released {
                assert(e[1] == ControlEvent::DragEnded);
            }
        } else if just_released {
            assert(e[0] == ControlEvent::DragEnded);
        }
        assert(!e.contains(ControlEvent::TargetClicked(t)));
    }
}

} // verus!
