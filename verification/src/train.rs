use vstd::prelude::*;

use crate::signal::control::Effect;

verus! {

/// What a signal orders a train to do.
#[derive(Debug, Clone, Copy, PartialEq, Eq, Structural)]
pub enum TrainEffect {
    Stop,
    Go,
}

/// The train effect of a signal's order.
pub fn train_effect(effect: Effect) -> (r: TrainEffect)
    ensures
        effect == Effect::Stop ==> r == TrainEffect::Stop,
        effect == Effect::Go ==> r == TrainEffect::Go,
{
    match effect {
        Effect::Stop => TrainEffect::Stop,
        Effect::Go => TrainEffect::Go,
    }
}

/// How a train's speed changes when it is signalled.
#[derive(Debug, Clone, Copy, PartialEq, Eq)]
pub enum SpeedChange<S> {
    /// The train stops; `saved` is the speed it had, to take up again.
    Halt { saved: S },
    /// The train takes up the speed it had when it stopped.
    Resume(S),
    /// Nothing changes.
    Unchanged,
}

/// A train moving at `speed`, stopped with the speed `stopped` saved if it
/// has been stopped, is signalled `effect`: a stop saves the speed and halts
/// the train; a go gives a stopped train its saved speed back and leaves a
/// train that was not stopped as it is.
pub open spec fn spec_train_signaled<S>(effect: TrainEffect, speed: S, stopped: Option<S>) -> SpeedChange<S> {
    match effect {
        TrainEffect::Stop => SpeedChange::Halt { saved: speed },
        TrainEffect::Go => match stopped {
            Some(s) => SpeedChange::Resume(s),
            None => SpeedChange::Unchanged,
        },
    }
}

pub fn train_signaled<S: Copy>(effect: TrainEffect, speed: S, stopped: Option<S>) -> (r: SpeedChange<S>)
    ensures
        r == spec_train_signaled(effect, speed, stopped),
{
    match effect {
        TrainEffect::Stop => SpeedChange::Halt { saved: speed },
        TrainEffect::Go => match stopped {
            Some(s) => SpeedChange::Resume(s),
            None => SpeedChange::Unchanged,
        },
    }
}

/// A train that is stopped and then told to go again moves at the speed it
/// had before it stopped.
pub proof fn lemma_stop_then_go_restores<S>(speed: S, other: S)
    ensures
        spec_train_signaled(TrainEffect::Stop, speed, None::<S>) == (SpeedChange::Halt { saved: speed }),
        spec_train_signaled(TrainEffect::Go, other, Some(speed)) == SpeedChange::Resume(speed),
{
}

} // verus!
