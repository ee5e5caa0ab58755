//! The race lifecycle: four states, four events, one transition table.

use vstd::prelude::*;

verus! {

/// Where a room stands in its lifecycle.
#[derive(Clone, Copy, Debug, PartialEq, Eq, Structural)]
pub enum RracerState {
    Waiting,
    Countdown,
    Racing,
    Finished,
}

/// What can move a room from one state to the next.
#[derive(Clone, Copy, Debug, PartialEq, Eq, Structural)]
pub enum RracerEvent {
    Join,
    CountdownElapsed,
    AllDone,
    Reset,
}

impl RracerState {
    /// The transition table. A pair that is not listed changes nothing.
    pub open spec fn next_state(state: RracerState, input: RracerEvent) -> Option<RracerState> {
        match (state, input) {
            (RracerState::Waiting, RracerEvent::Join) => Some(RracerState::Countdown),
            (RracerState::Countdown, RracerEvent::CountdownElapsed) => Some(RracerState::Racing),
            (RracerState::Racing, RracerEvent::AllDone) => Some(RracerState::Finished),
            (RracerState::Finished, RracerEvent::Reset) => Some(RracerState::Waiting),
            _ => None,
        }
    }

    /// The one event that leaves `state`.
    pub open spec fn leaving_event(state: RracerState) -> RracerEvent {
        match state {
            RracerState::Waiting => RracerEvent::Join,
            RracerState::Countdown => RracerEvent::CountdownElapsed,
            RracerState::Racing => RracerEvent::AllDone,
            RracerState::Finished => RracerEvent::Reset,
        }
    }

    /// The state that follows `state` in the cycle.
    pub open spec fn successor(state: RracerState) -> RracerState {
        match state {
            RracerState::Waiting => RracerState::Countdown,
            RracerState::Countdown => RracerState::Racing,
            RracerState::Racing => RracerState::Finished,
            RracerState::Finished => RracerState::Waiting,
        }
    }

    /// Applies `input` to `state`: the next state where the table lists the
    /// pair, `None` where it does not.
    pub fn transition(state: &RracerState, input: &RracerEvent) -> (next: Option<RracerState>)
        ensures
            next == Self::next_state(*state, *input),
            *input == Self::leaving_event(*state) ==> next == Some(Self::successor(*state)),
            *input != Self::leaving_event(*state) ==> next is None,
    {
        match (state, input) {
            (RracerState::Waiting, RracerEvent::Join) => Some(RracerState::Countdown),
            (RracerState::Countdown, RracerEvent::CountdownElapsed) => Some(RracerState::Racing),
            (RracerState::Racing, RracerEvent::AllDone) => Some(RracerState::Finished),
            (RracerState::Finished, RracerEvent::Reset) => Some(RracerState::Waiting),
            _ => None,
        }
    }

    /// The lower-case name of the state, as it is published to clients.
    pub fn name(&self) -> (s: &'static str)
        ensures
            s@ == Self::name_of(*self),
    {
        match self {
            RracerState::Waiting => "waiting",
            RracerState::Countdown => "countdown",
            RracerState::Racing => "racing",
            RracerState::Finished => "finished",
        }
    }

    /// The published name of each state.
    pub open spec fn name_of(state: RracerState) -> Seq<char> {
        match state {
            RracerState::Waiting => "waiting"@,
            RracerState::Countdown => "countdown"@,
            RracerState::Racing => "racing"@,
            RracerState::Finished => "finished"@,
        }
    }
}

impl Default for RracerState {
    /// A new room waits.
    fn default() -> (s: Self)
        ensures
            s == RracerState::Waiting,
    {
        RracerState::Waiting
    }
}

/// Every state is left by exactly one event, and the table is a single cycle:
/// an event fires in at most one state, and what it yields is that state's
/// successor.
pub proof fn lemma_transition_table(state: RracerState, input: RracerEvent)
    ensures
        RracerState::next_state(state, input) is Some <==> input == RracerState::leaving_event(
            state,
        ),
        RracerState::next_state(state, input) is Some ==> RracerState::next_state(state, input)
            == Some(RracerState::successor(state)),
        RracerState::next_state(state, input) != Some(state),
{
}

} // verus!
