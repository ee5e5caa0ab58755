use rracer::fsm::RracerEvent;
use rracer::fsm::RracerState;

const STATES: [RracerState; 4] = [
    RracerState::Waiting,
    RracerState::Countdown,
    RracerState::Racing,
    RracerState::Finished,
];

const EVENTS: [RracerEvent; 4] = [
    RracerEvent::Join,
    RracerEvent::CountdownElapsed,
    RracerEvent::AllDone,
    RracerEvent::Reset,
];

#[test]
fn the_table_is_one_cycle() {
    assert_eq!(
        RracerState::transition(&RracerState::Waiting, &RracerEvent::Join),
        Some(RracerState::Countdown)
    );
    assert_eq!(
        RracerState::transition(&RracerState::Countdown, &RracerEvent::CountdownElapsed),
        Some(RracerState::Racing)
    );
    assert_eq!(
        RracerState::transition(&RracerState::Racing, &RracerEvent::AllDone),
        Some(RracerState::Finished)
    );
    assert_eq!(
        RracerState::transition(&RracerState::Finished, &RracerEvent::Reset),
        Some(RracerState::Waiting)
    );
}

#[test]
fn pairs_outside_the_table_change_nothing() {
    let mut listed = 0;
    for (i, s) in STATES.iter().enumerate() {
        for (j, e) in EVENTS.iter().enumerate() {
            let next = RracerState::transition(s, e);
            if i == j {
                assert_eq!(next, Some(STATES[(i + 1) % 4]));
                listed += 1;
            } else {
                assert_eq!(next, None);
            }
        }
    }
    assert_eq!(listed, 4);
}

#[test]
fn a_new_room_state_is_waiting() {
    assert_eq!(RracerState::default(), RracerState::Waiting);
}

#[test]
fn state_names_are_lower_case() {
    assert_eq!(RracerState::Waiting.name(), "waiting");
    assert_eq!(RracerState::Countdown.name(), "countdown");
    assert_eq!(RracerState::Racing.name(), "racing");
    assert_eq!(RracerState::Finished.name(), "finished");
}
