use rracer::clock::current_seconds;
use rracer::clock::current_timestamp;
use rracer::clock::seconds_from;
use rracer::clock::timestamp_from;
use rracer::fsm::RracerState;
use rracer::inputs::BotSeed;
use rracer::inputs::draw_seeds;
use rracer::inputs::draw_start_inputs;
use rracer::inputs::idle_inputs;
use rracer::inputs::StartInputs;
use rracer::model::BotOutcome;
use rracer::passages::PASSAGES;
use rracer::player::PlayerKind;
use rracer::protocol::ClientMsg;
use rracer::protocol::ServerMsg;
use rracer::registry::Connection;
use rracer::registry::RoomCast;
use rracer::registry::RoomRegistry;

fn inputs(now: u64, passage: &str) -> StartInputs {
    StartInputs {
        now,
        passage: passage.to_string(),
        seeds: vec![
            BotSeed { token: "t0".to_string(), speed: 60_000 },
            BotSeed { token: "t1".to_string(), speed: 45_000 },
            BotSeed { token: "t2".to_string(), speed: 89_999 },
        ],
    }
}

fn join(room: &str, name: &str) -> ClientMsg {
    ClientMsg::Join { room: room.to_string(), name: name.to_string() }
}

fn shape(casts: &[RoomCast]) -> Vec<(String, Vec<String>)> {
    casts
        .iter()
        .map(|c| (c.room.clone(), c.msgs.iter().map(|m| format!("{:?}", m)).collect()))
        .collect()
}

fn state_of(reg: &mut RoomRegistry, id: &str) -> RracerState {
    let room = reg.take_room(id).unwrap();
    let state = room.state();
    reg.put_room(room);
    state
}

fn count_of(reg: &mut RoomRegistry, id: &str) -> usize {
    let room = reg.take_room(id).unwrap();
    let n = room.player_count();
    reg.put_room(room);
    n
}

#[test]
fn a_registry_starts_without_rooms() {
    let mut reg = RoomRegistry::new();
    assert!(!reg.has_room("r1"));
    assert!(reg.room_ids().is_empty());
    assert!(reg.take_room("r1").is_none());
    assert!(reg.tick_all(5).is_empty());
}

#[test]
fn joining_makes_the_room() {
    let mut reg = RoomRegistry::new();
    let mut ann = Connection::new("id-a".to_string());
    assert_eq!(ann.current_room, None);
    let out = reg.handle_message_with(&mut ann, join("r1", "Ann"), &inputs(10, "abc"));
    assert_eq!(
        shape(&out),
        vec![("r1".to_string(), vec!["Lobby { players: [\"Ann\"] }".to_string()])]
    );
    assert_eq!(ann.current_room.as_deref(), Some("r1"));
    assert!(reg.has_room("r1"));
    assert_eq!(reg.room_ids(), vec!["r1".to_string()]);
    assert_eq!(state_of(&mut reg, "r1"), RracerState::Waiting);
    let room = reg.take_room("r1").unwrap();
    assert_eq!(room.id(), "r1");
    assert_eq!(room.player("id-a").unwrap().name, "Ann");
    assert!(!reg.has_room("r1"));
    reg.put_room(room);
    assert!(reg.has_room("r1"));
}

#[test]
fn joining_another_room_leaves_the_first() {
    let mut reg = RoomRegistry::new();
    let mut ann = Connection::new("id-a".to_string());
    let mut bob = Connection::new("id-b".to_string());
    reg.handle_message_with(&mut ann, join("r1", "Ann"), &inputs(10, "abc"));
    reg.handle_message_with(&mut bob, join("r1", "Bob"), &inputs(20, "abc"));
    assert_eq!(state_of(&mut reg, "r1"), RracerState::Countdown);
    assert_eq!(count_of(&mut reg, "r1"), 5);
    let out = reg.handle_message_with(&mut ann, join("r2", "Ann"), &inputs(30, "xyz"));
    assert_eq!(
        shape(&out),
        vec![
            (
                "r1".to_string(),
                vec!["Lobby { players: [\"Bob\", \"Bot 1\", \"Bot 2\", \"Bot 3\"] }".to_string()]
            ),
            ("r2".to_string(), vec!["Lobby { players: [\"Ann\"] }".to_string()]),
        ]
    );
    assert_eq!(ann.current_room.as_deref(), Some("r2"));
    assert_eq!(count_of(&mut reg, "r1"), 4);
    assert_eq!(count_of(&mut reg, "r2"), 1);
    let mut ids = reg.room_ids();
    ids.sort();
    assert_eq!(ids, vec!["r1".to_string(), "r2".to_string()]);
}

#[test]
fn joining_the_same_room_again_leaves_and_enters() {
    let mut reg = RoomRegistry::new();
    let mut ann = Connection::new("id-a".to_string());
    reg.handle_message_with(&mut ann, join("r1", "Ann"), &inputs(10, "abc"));
    let out = reg.handle_message_with(&mut ann, join("r1", "Anna"), &inputs(10, "abc"));
    assert_eq!(
        shape(&out),
        vec![
            ("r1".to_string(), vec!["Lobby { players: [] }".to_string()]),
            ("r1".to_string(), vec!["Lobby { players: [\"Anna\"] }".to_string()]),
        ]
    );
    assert_eq!(count_of(&mut reg, "r1"), 1);
}

#[test]
fn messages_without_a_room_are_passed_over() {
    let mut reg = RoomRegistry::new();
    let mut ann = Connection::new("id-a".to_string());
    let none = inputs(0, "abc");
    for msg in [
        ClientMsg::Key { ch: 'a', ts: 100 },
        ClientMsg::Progress { pos: 1, ts: 100 },
        ClientMsg::Finish { wpm: 1, accuracy: 2, time: 3, ts: 4 },
        ClientMsg::Reset,
    ] {
        assert!(reg.handle_message_with(&mut ann, msg, &none).is_empty());
    }
    assert!(reg.disconnect(&ann).is_empty());
    ann.current_room = Some("gone".to_string());
    assert!(reg.handle_message_with(&mut ann, ClientMsg::Reset, &none).is_empty());
    assert!(reg.disconnect(&ann).is_empty());
    assert!(reg.room_ids().is_empty());
    assert_eq!(ann.current_room.as_deref(), Some("gone"));
}

#[test]
fn a_whole_race_through_the_registry() {
    let passage = "go";
    let mut reg = RoomRegistry::new();
    let mut ann = Connection::new("id-a".to_string());
    let mut bob = Connection::new("id-b".to_string());
    reg.handle_message_with(&mut ann, join("r1", "Ann"), &inputs(1_000, passage));
    reg.handle_message_with(&mut bob, join("r1", "Bob"), &inputs(1_000, passage));
    assert!(reg.tick_all(3_999).iter().all(|t| t.msgs.is_empty() && t.runs.is_empty()));
    let mut ticks = reg.tick_all(4_000);
    assert_eq!(ticks.len(), 1);
    assert_eq!(ticks[0].room, "r1");
    assert_eq!(ticks[0].msgs.len(), 1);
    assert!(matches!(&ticks[0].msgs[0], ServerMsg::Start { passage: p, t0: 4_000 } if p == passage));
    assert_eq!(ticks[0].runs.len(), 3);
    assert_eq!(state_of(&mut reg, "r1"), RracerState::Racing);

    let idle = idle_inputs(0);
    let out = reg.handle_message_with(&mut ann, ClientMsg::Key { ch: 'g', ts: 5_000 }, &idle);
    assert_eq!(
        shape(&out),
        vec![("r1".to_string(), vec!["Progress { id: \"Ann\", pos: 1 }".to_string()])]
    );
    let out = reg.handle_message_with(&mut ann, ClientMsg::Key { ch: 'o', ts: 6_000 }, &idle);
    assert_eq!(
        shape(&out),
        vec![(
            "r1".to_string(),
            vec!["Finish { id: \"Ann\", wpm: 24000, accuracy: 100000 }".to_string()]
        )]
    );
    let out = reg.handle_message_with(&mut bob, ClientMsg::Progress { pos: 1, ts: 0 }, &idle);
    assert_eq!(
        shape(&out),
        vec![("r1".to_string(), vec!["Progress { id: \"Bob\", pos: 1 }".to_string()])]
    );
    let out = reg.handle_message_with(
        &mut bob,
        ClientMsg::Finish { wpm: 30_500, accuracy: 99_000, time: 7_000, ts: 0 },
        &idle,
    );
    assert_eq!(
        shape(&out),
        vec![(
            "r1".to_string(),
            vec!["Finish { id: \"Bob\", wpm: 30500, accuracy: 99000 }".to_string()]
        )]
    );
    let mut finished = 0;
    for run in ticks[0].runs.iter_mut() {
        let (outcome, msgs) = reg.bot_step("r1", run, 1_000_000);
        assert_eq!(outcome, BotOutcome::Done);
        finished += msgs
            .iter()
            .filter(|m| matches!(m, ServerMsg::StateChange { state } if state == "finished"))
            .count();
    }
    assert_eq!(finished, 1);
    assert_eq!(state_of(&mut reg, "r1"), RracerState::Finished);

    let out = reg.handle_message_with(&mut bob, ClientMsg::Reset, &inputs(2_000_000, "next"));
    assert_eq!(out.len(), 1);
    assert_eq!(out[0].msgs.len(), 5);
    assert_eq!(state_of(&mut reg, "r1"), RracerState::Countdown);

    let out = reg.disconnect(&ann);
    assert_eq!(out.len(), 1);
    assert_eq!(count_of(&mut reg, "r1"), 4);
    for id in ["id-b", "bot-r1-0-t0", "bot-r1-1-t1", "bot-r1-2-t2"] {
        let gone = Connection { player_id: id.to_string(), current_room: Some("r1".to_string()) };
        reg.disconnect(&gone);
    }
    assert_eq!(count_of(&mut reg, "r1"), 0);
    assert_eq!(state_of(&mut reg, "r1"), RracerState::Waiting);
    assert!(reg.has_room("r1"));
}

#[test]
fn a_step_in_a_room_that_is_not_there_is_cancelled() {
    let mut reg = RoomRegistry::new();
    let mut run = rracer::bots::BotRun {
        id: "bot".to_string(),
        name: "Bot 1".to_string(),
        speed: 60_000,
        progress: 5,
        last: 7,
    };
    let (outcome, msgs) = reg.bot_step("nowhere", &mut run, 1_000);
    assert_eq!(outcome, BotOutcome::Cancelled);
    assert!(msgs.is_empty());
    assert_eq!((run.progress, run.last), (5, 7));
    assert!(!reg.has_room("nowhere"));
}

#[test]
fn every_room_is_ticked_once() {
    let mut reg = RoomRegistry::new();
    for (k, room) in ["r1", "r2", "r3"].iter().enumerate() {
        let mut a = Connection::new(format!("a{}", k));
        let mut b = Connection::new(format!("b{}", k));
        reg.handle_message_with(&mut a, join(room, "A"), &inputs(1_000 * k as u64, "abc"));
        if k != 1 {
            reg.handle_message_with(&mut b, join(room, "B"), &inputs(1_000 * k as u64, "abc"));
        }
    }
    let ticks = reg.tick_all(3_500);
    let mut rooms: Vec<String> = ticks.iter().map(|t| t.room.clone()).collect();
    rooms.sort();
    assert_eq!(rooms, vec!["r1", "r2", "r3"]);
    for t in &ticks {
        assert_eq!(t.msgs.len(), if t.room == "r1" { 1 } else { 0 });
        assert_eq!(t.runs.len(), if t.room == "r1" { 3 } else { 0 });
    }
    assert_eq!(state_of(&mut reg, "r1"), RracerState::Racing);
    assert_eq!(state_of(&mut reg, "r2"), RracerState::Waiting);
    assert_eq!(state_of(&mut reg, "r3"), RracerState::Countdown);
    let ticks = reg.tick();
    assert_eq!(ticks.len(), 3);
    assert_eq!(state_of(&mut reg, "r3"), RracerState::Racing);
    assert_eq!(state_of(&mut reg, "r2"), RracerState::Waiting);
}

#[test]
fn drawn_inputs_start_a_race_with_three_bots() {
    let mut reg = RoomRegistry::new();
    let mut ann = Connection::new("id-a".to_string());
    let mut bob = Connection::new("id-b".to_string());
    let before = current_timestamp();
    reg.handle_message(&mut ann, join("r1", "Ann"));
    let out = reg.handle_message(&mut bob, join("r1", "Bob"));
    let after = current_timestamp();
    assert_eq!(out.len(), 1);
    assert_eq!(out[0].msgs.len(), 4);
    let room = reg.take_room("r1").unwrap();
    assert_eq!(room.state(), RracerState::Countdown);
    assert_eq!(room.player_count(), 5);
    assert_eq!(room.human_count(), 2);
    assert!(PASSAGES.contains(&room.passage().unwrap()));
    let start = room.countdown_start().unwrap();
    assert!(before <= start && start <= after);
    let players = room.players();
    for (i, p) in players.iter().enumerate().skip(2) {
        let prefix = format!("bot-r1-{}-", i - 2);
        assert!(p.id.starts_with(&prefix));
        assert_eq!(p.id.len(), prefix.len() + 36);
        assert_eq!(p.name, format!("Bot {}", i - 1));
        match p.kind {
            PlayerKind::Bot { speed } => assert!((40_000..90_000).contains(&speed)),
            PlayerKind::Human => panic!("a person where a bot should be"),
        }
    }
}

#[test]
fn seeds_are_drawn_in_range_and_apart() {
    assert!(draw_seeds(0).is_empty());
    let seeds = draw_seeds(200);
    assert_eq!(seeds.len(), 200);
    let mut tokens: Vec<&str> = seeds.iter().map(|s| s.token.as_str()).collect();
    tokens.sort();
    tokens.dedup();
    assert_eq!(tokens.len(), 200);
    for s in &seeds {
        assert!(40_000 <= s.speed && s.speed < 90_000);
        assert_eq!(s.token.len(), 36);
    }
    let mut speeds: Vec<u32> = seeds.iter().map(|s| s.speed).collect();
    speeds.sort();
    speeds.dedup();
    assert!(speeds.len() > 1);
}

#[test]
fn start_inputs_are_drawn_whole() {
    let inputs = draw_start_inputs();
    assert_eq!(inputs.seeds.len(), 3);
    assert!(PASSAGES.contains(&inputs.passage.as_str()));
    assert!(inputs.now > 1_600_000_000_000);
    let idle = idle_inputs(42);
    assert_eq!(idle.now, 42);
    assert!(idle.passage.is_empty());
    assert!(idle.seeds.is_empty());
}

#[test]
fn the_clock_reads_the_present() {
    let ms = current_timestamp();
    let s = current_seconds();
    // After 2020 and before 2200.
    assert!(ms > 1_577_836_800_000 && ms < 7_258_118_400_000);
    assert!(s >= ms / 1_000 && s <= ms / 1_000 + 2);
    assert!(current_timestamp() >= ms);
}

#[test]
fn a_snapshot_of_a_room_by_name() {
    let mut reg = RoomRegistry::new();
    assert!(reg.snapshot("r1").is_empty());
    let mut ann = Connection::new("id-a".to_string());
    reg.handle_message_with(&mut ann, join("r1", "Ann"), &inputs(10, "abc"));
    let shot: Vec<String> = reg.snapshot("r1").iter().map(|m| format!("{:?}", m)).collect();
    assert_eq!(
        shot,
        vec![
            "Lobby { players: [\"Ann\"] }",
            "StateChange { state: \"waiting\" }",
            "Progress { id: \"Ann\", pos: 0 }",
        ]
    );
    assert!(reg.has_room("r1"));
    assert_eq!(count_of(&mut reg, "r1"), 1);
}

#[test]
fn keys_draw_nothing_from_outside() {
    let mut reg = RoomRegistry::new();
    let mut ann = Connection::new("id-a".to_string());
    let mut bob = Connection::new("id-b".to_string());
    reg.handle_message_with(&mut ann, join("r1", "Ann"), &inputs(1_000, "go"));
    reg.handle_message_with(&mut bob, join("r1", "Bob"), &inputs(1_000, "go"));
    reg.tick_all(4_000);
    let out = reg.handle_message(&mut ann, ClientMsg::Key { ch: 'g', ts: 5_000 });
    assert_eq!(
        shape(&out),
        vec![("r1".to_string(), vec!["Progress { id: \"Ann\", pos: 1 }".to_string()])]
    );
    let out = reg.handle_message(&mut ann, ClientMsg::Reset);
    assert!(out.len() == 1 && out[0].msgs.is_empty());
    assert_eq!(state_of(&mut reg, "r1"), RracerState::Racing);
}

#[test]
fn a_reading_of_the_clock_is_held_to_range() {
    assert_eq!(timestamp_from(None), 0);
    assert_eq!(timestamp_from(Some(0)), 0);
    assert_eq!(timestamp_from(Some(1_700_000_000_123)), 1_700_000_000_123);
    assert_eq!(timestamp_from(Some(u64::MAX as u128)), u64::MAX);
    assert_eq!(timestamp_from(Some(u64::MAX as u128 + 1)), u64::MAX);
    assert_eq!(timestamp_from(Some(u128::MAX)), u64::MAX);
    assert_eq!(seconds_from(None), 0);
    assert_eq!(seconds_from(Some(7)), 7);
    assert_eq!(seconds_from(Some(u64::MAX)), u64::MAX);
}
