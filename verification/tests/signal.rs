use railway::signal::block::{check_train_passed, train_passed as block_train_passed, BlockBound, OccupancyChange, OccupiedBlock};
use railway::signal::control::{signal_controlled, Effect, SignalCommand, SignalControl};
use railway::signal::error::SignalError;
use railway::signal::{release_trains, signal_clicked, train_passed, Aspect, HoldingSignal, ObservableBound, Signal};

#[test]
fn signal_error_messages() {
    assert_eq!(SignalError::BoundNotReachable.message(), "end was not reachable from the start");
    assert_eq!(SignalError::BoundsNotFound.message(), "bound not found");
}

#[test]
fn default_aspect_is_green() {
    assert_eq!(Aspect::default(), Aspect::Green);
}

#[test]
fn click_toggles_and_twice_restores() {
    let mut s = Signal { aspect: Aspect::Green };
    signal_clicked(&mut s);
    assert_eq!(s.aspect, Aspect::Red);
    signal_clicked(&mut s);
    assert_eq!(s.aspect, Aspect::Green);
}

#[test]
fn control_sets_aspect() {
    let mut s = Signal { aspect: Aspect::Green };
    signal_controlled(&mut s, &SignalControl { signal: 1, aspect: Aspect::Red });
    assert_eq!(s.aspect, Aspect::Red);
}

#[test]
fn red_signal_holds_forward_train() {
    let bound = ObservableBound { signal: 3 };
    let red = Signal { aspect: Aspect::Red };
    assert_eq!(
        train_passed(true, &bound, &red, 9),
        Some((HoldingSignal { train: 9 }, SignalCommand { effect: Effect::Stop, signal: 3, train: 9 }))
    );
    assert_eq!(train_passed(false, &bound, &red, 9), None);
    assert_eq!(train_passed(true, &bound, &Signal { aspect: Aspect::Green }, 9), None);
}

#[test]
fn held_train_released_after_click() {
    let bound = ObservableBound { signal: 3 };
    let mut signal = Signal { aspect: Aspect::Red };
    let (holding, _) = train_passed(true, &bound, &signal, 9).unwrap();
    assert_eq!(release_trains(3, &holding, &signal), None);
    signal_clicked(&mut signal);
    assert_eq!(
        release_trains(3, &holding, &signal),
        Some(SignalCommand { effect: Effect::Go, signal: 3, train: 9 })
    );
}

#[test]
fn block_occupancy() {
    let bound = BlockBound::new(4);
    let enter = check_train_passed(&bound, true, 8);
    let leave = check_train_passed(&bound, false, 8);
    assert_eq!(enter.block, 4);
    assert!(enter.entered && !leave.entered);
    assert_eq!(block_train_passed(&enter, None), OccupancyChange::Occupy(OccupiedBlock(8)));
    assert_eq!(block_train_passed(&enter, Some(OccupiedBlock(8))), OccupancyChange::Unchanged);
    assert_eq!(block_train_passed(&leave, Some(OccupiedBlock(8))), OccupancyChange::Vacate);
    assert_eq!(block_train_passed(&leave, None), OccupancyChange::Unchanged);
}
