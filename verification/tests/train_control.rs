use railway::control::{handle_click, ControlEvent};
use railway::signal::control::Effect;
use railway::train::{train_effect, train_signaled, SpeedChange, TrainEffect};

#[test]
fn stop_then_go_restores_speed() {
    let speed: f32 = 2.5;
    let saved = match train_signaled(TrainEffect::Stop, speed, None) {
        SpeedChange::Halt { saved } => saved,
        other => panic!("unexpected {:?}", other),
    };
    assert_eq!(saved, 2.5);
    assert_eq!(train_signaled(TrainEffect::Go, 0.0, Some(saved)), SpeedChange::Resume(2.5));
}

#[test]
fn go_without_stop_changes_nothing() {
    assert_eq!(train_signaled(TrainEffect::Go, 1.0f32, None), SpeedChange::Unchanged);
}

#[test]
fn effect_mapping() {
    assert_eq!(train_effect(Effect::Stop), TrainEffect::Stop);
    assert_eq!(train_effect(Effect::Go), TrainEffect::Go);
}

#[test]
fn click_on_target_only_clicks() {
    assert_eq!(handle_click(true, true, Some(5)), vec![ControlEvent::TargetClicked(5)]);
}

#[test]
fn click_elsewhere_starts_drag() {
    assert_eq!(handle_click(true, false, None), vec![ControlEvent::DragStarted]);
    assert_eq!(handle_click(true, true, None), vec![ControlEvent::DragStarted, ControlEvent::DragEnded]);
}

#[test]
fn release_ends_drag() {
    assert_eq!(handle_click(false, true, None), vec![ControlEvent::DragEnded]);
    assert_eq!(handle_click(false, false, Some(3)), vec![]);
}
