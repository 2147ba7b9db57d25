use vstd::prelude::*;

pub mod block;
pub mod control;
pub mod error;

use crate::signal::control::{Effect, SignalCommand};
use crate::track::EntityId;

verus! {

/// What a signal shows.
#[derive(Debug, Clone, Copy, PartialEq, Eq, Structural)]
pub enum Aspect {
    Red,
    Green,
}

impl Default for Aspect {
    fn default() -> (r: Self)
        ensures
            r == Aspect::Green,
    {
        Aspect::Green
    }
}

impl Aspect {
    /// The other aspect.
    pub open spec fn toggled(self) -> Aspect {
        match self {
            Aspect::Red => Aspect::Green,
            Aspect::Green => Aspect::Red,
        }
    }
}

#[derive(Debug, Clone, Copy, PartialEq, Eq, Structural)]
pub struct Signal {
    pub aspect: Aspect,
}

/// A signal holds `train` until it shows green.
#[derive(Debug, Clone, Copy, PartialEq, Eq, Structural)]
pub struct HoldingSignal {
    pub train: EntityId,
}

/// The point from which a train sees the signal `signal`.
#[derive(Debug, Clone, Copy, PartialEq, Eq, Structural)]
pub struct ObservableBound {
    pub signal: EntityId,
}

/// What a train passing the observable bound `bound` of `signal` causes: a
/// red signal holds a train that comes forwards and orders it to stop.
pub open spec fn spec_train_passed(
    forwards: bool,
    bound: ObservableBound,
    signal: Signal,
    train: EntityId,
) -> Option<(HoldingSignal, SignalCommand)> {
    if forwards && signal.aspect == Aspect::Red {
        Some(
            (
                HoldingSignal { train },
                SignalCommand { effect: Effect::Stop, signal: bound.signal, train },
            ),
        )
    } else {
        None
    }
}

pub fn train_passed(
    forwards: bool,
    bound: &ObservableBound,
    signal: &Signal,
    train: EntityId,
) -> (r: Option<(HoldingSignal, SignalCommand)>)
    ensures
        r == spec_train_passed(forwards, *bound, *signal, train),
{
    if !forwards {
        return None;
    }
    match signal.aspect {
        Aspect::Red => Some(
            (
                HoldingSignal { train },
                SignalCommand { effect: Effect::Stop, signal: bound.signal, train },
            ),
        ),
        Aspect::Green => None,
    }
}

/// What a signal `e_signal` that holds a train does: once it shows green it
/// orders the train to go.
pub open spec fn spec_release_trains(
    e_signal: EntityId,
    holding: HoldingSignal,
    signal: Signal,
) -> Option<SignalCommand> {
    if signal.aspect == Aspect::Green {
        Some(SignalCommand { effect: Effect::Go, signal: e_signal, train: holding.train })
    } else {
        None
    }
}

pub fn release_trains(e_signal: EntityId, holding: &HoldingSignal, signal: &Signal) -> (r: Option<
    SignalCommand,
>)
    ensures
        r == spec_release_trains(e_signal, *holding, *signal),
{
    match signal.aspect {
        Aspect::Green => Some(
            SignalCommand { effect: Effect::Go, signal: e_signal, train: holding.train },
        ),
        Aspect::Red => None,
    }
}

/// A click on a signal switches it between red and green.
pub fn signal_clicked(signal: &mut Signal)
    ensures
        final(signal).aspect == old(signal).aspect.toggled(),
{
    signal.aspect = match signal.aspect {
        Aspect::Red => Aspect::Green,
        Aspect::Green => Aspect::Red,
    };
}

/// Two clicks on a signal leave it as it was.
pub proof fn lemma_click_twice(aspect: Aspect)
    ensures
        aspect.toggled().toggled() == aspect,
        aspect.toggled() != aspect,
{
}

/// A train that comes forwards to a red signal is held and ordered to stop;
/// the signal lets it go exactly when a click has turned it green.
pub proof fn lemma_held_train_released_after_click(
    bound: ObservableBound,
    train: EntityId,
)
    ensures
        ({
            let red = Signal { aspect: Aspect::Red };
            let passed = spec_train_passed(true, bound, red, train);
            passed matches Some((holding, command)) && {
                &&& command.effect == Effect::Stop
                &&& command.train == train
                &&& spec_release_trains(bound.signal, holding, red) is None
                &&& spec_release_trains(bound.signal, holding, Signal { aspect: red.aspect.toggled() })
                    == Some(SignalCommand { effect: Effect::Go, signal: bound.signal, train })
            }
        }),
{
}

} // verus!
