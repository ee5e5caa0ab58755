//! What a room is and does, as mathematics: the state of a room as a plain
//! value, and each operation as a function from the state and what arrives
//! to the next state and the messages to publish.
//!
//! A room auto-starts by threshold only: the countdown begins when a second
//! human is present, and time alone never starts a race.

use crate::fsm::RracerEvent;
use crate::fsm::RracerState;
use crate::player::MIN_KEY_INTERVAL_MS;
use crate::player::PlayerKind;
use crate::player::PlayerView;
use crate::protocol::ServerMsgView;
use crate::protocol::suspicious_speed_text;
use crate::scoring::accuracy_rate;
use crate::scoring::clamp_i64;
use crate::scoring::exceeds_ceiling;
use crate::scoring::FULL_ACCURACY;
use crate::scoring::net_rate;
use crate::table::all_finished;
use crate::table::all_rested;
use crate::table::all_within;
use crate::table::has_player;
use crate::table::humans;
use crate::table::ids_unique;
use crate::table::index_of;
use crate::table::names;
use crate::table::put;
use crate::table::without;
use vstd::prelude::*;

verus! {

/// How long a countdown lasts, in milliseconds.
pub const COUNTDOWN_MS: u64 = 3000;

/// The number of players a race is filled up to with simulated players.
pub const TARGET_OCCUPANCY: usize = 5;

/// The number of people it takes to start a countdown.
pub const MIN_HUMANS: usize = 2;

/// How long after a player's first correct keystroke their speed is first
/// looked at, in milliseconds.
pub const SPEED_WINDOW_MS: u64 = 100;

/// The typing speed, in words per minute, above which a keystroke is refused.
pub const WPM_CEILING: u64 = 300;

/// The speed of a simulated player lies between these, in thousandths of a
/// word per minute: the first included, the second not.
pub const BOT_SPEED_MIN: u32 = 40_000;

pub const BOT_SPEED_MAX: u32 = 90_000;

/// Progress of a simulated player is counted in units of which this many make
/// one character: thousandths of a word per minute times milliseconds.
pub const UNITS_PER_CHAR: u64 = 12_000_000;

/// The state of a room.
pub struct RoomView {
    pub id: Seq<char>,
    pub state: RracerState,
    pub players: Seq<PlayerView>,
    pub passage: Option<Seq<char>>,
    pub countdown_start: Option<u64>,
    pub waiting_start: Option<u64>,
    pub last_timer_second: u64,
}

/// What makes one simulated player: a token that sets its id apart, and its
/// speed in thousandths of a word per minute.
pub struct BotSeedView {
    pub token: Seq<char>,
    pub speed: u32,
}

/// What the outside world contributes when a countdown starts: the time, the
/// passage to type, and a seed for each simulated player that may be needed.
pub struct StartInputsView {
    pub now: u64,
    pub passage: Seq<char>,
    pub seeds: Seq<BotSeedView>,
}

/// The progress of one simulated player through a race.
pub struct BotRunView {
    pub id: Seq<char>,
    pub name: Seq<char>,
    pub speed: u32,
    pub progress: int,
    pub last: u64,
}

/// A room after an operation, and what the operation publishes, in order.
pub struct Step {
    pub room: RoomView,
    pub casts: Seq<ServerMsgView>,
}

/// What became of a keystroke.
pub enum KeyVerdict {
    /// No race is on.
    NotRacing,
    /// Nobody in the room is known by that id.
    Unknown,
    /// Simulated players do not type.
    Bot,
    /// Too soon after the keystroke before.
    TooSoon,
    /// The speed it implies is beyond belief.
    TooFast,
    /// Taken into account.
    Scored,
}

/// What became of a step of a simulated player.
#[derive(Clone, Copy, Debug, PartialEq, Eq, Structural)]
pub enum BotOutcome {
    /// The player is still on its way.
    Running,
    /// The player has completed the passage.
    Done,
    /// The race this player belonged to is over, or the player has left.
    Cancelled,
}

/// The length of the passage in characters; 0 where there is none.
pub open spec fn passage_len(r: RoomView) -> int {
    match r.passage {
        Some(p) => p.len() as int,
        None => 0,
    }
}

/// What holds of every room: no id occurs twice; the passage and the start
/// of the countdown are there exactly when the room is not waiting; every
/// player is consistent and stands within the passage.
pub open spec fn wf(r: RoomView) -> bool {
    &&& ids_unique(r.players)
    &&& (r.state == RracerState::Waiting) == (r.passage is None)
    &&& (r.state == RracerState::Waiting) == (r.countdown_start is None)
    &&& all_within(r.players, passage_len(r))
}

/// A room that nobody has entered yet.
pub open spec fn fresh(id: Seq<char>) -> RoomView {
    RoomView {
        id,
        state: RracerState::Waiting,
        players: Seq::empty(),
        passage: None,
        countdown_start: None,
        waiting_start: None,
        last_timer_second: 0,
    }
}

/// The lobby roster of a room.
pub open spec fn lobby(r: RoomView) -> ServerMsgView {
    ServerMsgView::Lobby { players: names(r.players) }
}

/// The announcement that a room has entered `state`.
pub open spec fn state_change(state: RracerState) -> ServerMsgView {
    ServerMsgView::StateChange { state: RracerState::name_of(state) }
}

/// Where every player stands, as the positions that a room publishes.
pub open spec fn standings(players: Seq<PlayerView>) -> Seq<ServerMsgView> {
    players.map_values(|p: PlayerView| ServerMsgView::Progress { id: p.name, pos: p.position })
}

/// What brings a listener who has missed messages up to date: the roster,
/// the passage if there is one, the state, and where every player stands.
pub open spec fn snapshot(r: RoomView) -> Seq<ServerMsgView> {
    seq![lobby(r)] + (match r.passage {
        Some(p) => seq![ServerMsgView::Countdown { passage: p }],
        None => Seq::empty(),
    }) + seq![state_change(r.state)] + standings(r.players)
}

/// The room back in the lobby: no passage, no timers, every player rested.
pub open spec fn force_reset(r: RoomView) -> RoomView {
    RoomView {
        state: RracerState::Waiting,
        passage: None,
        countdown_start: None,
        waiting_start: None,
        last_timer_second: 0,
        players: all_rested(r.players),
        ..r
    }
}

/// Whether a countdown may start: the room waits and holds at least two
/// people.
pub open spec fn can_start(r: RoomView) -> bool {
    r.state == RracerState::Waiting && humans(r.players).len() >= MIN_HUMANS
}

/// One decimal digit as text.
pub open spec fn digit_text(d: int) -> Seq<char> {
    if d == 0 {
        "0"@
    } else if d == 1 {
        "1"@
    } else if d == 2 {
        "2"@
    } else if d == 3 {
        "3"@
    } else if d == 4 {
        "4"@
    } else if d == 5 {
        "5"@
    } else if d == 6 {
        "6"@
    } else if d == 7 {
        "7"@
    } else if d == 8 {
        "8"@
    } else {
        "9"@
    }
}

/// The id of the simulated player number `i` of a room, set apart by `token`.
pub open spec fn bot_id(room: Seq<char>, i: int, token: Seq<char>) -> Seq<char> {
    "bot-"@ + room + "-"@ + digit_text(i) + "-"@ + token
}

/// The display name of the simulated player number `i`, counted from 0.
pub open spec fn bot_name(i: int) -> Seq<char> {
    "Bot "@ + digit_text(i + 1)
}

/// The simulated player number `i` of a room, made from `seed`.
pub open spec fn bot_from(room: Seq<char>, i: int, seed: BotSeedView) -> PlayerView {
    PlayerView::bot(bot_id(room, i, seed.token), bot_name(i), seed.speed)
}

/// How many simulated players a start adds: what is missing up to the target
/// occupancy, as far as there are seeds.
pub open spec fn bots_wanted(r: RoomView, seeds: int) -> int {
    let missing = if r.players.len() >= TARGET_OCCUPANCY {
        0
    } else {
        TARGET_OCCUPANCY - r.players.len()
    };
    if missing <= seeds {
        missing
    } else {
        seeds
    }
}

/// The table with the first `count` simulated players put into it, one after
/// the other.
pub open spec fn seat_bots(
    players: Seq<PlayerView>,
    room: Seq<char>,
    seeds: Seq<BotSeedView>,
    count: int,
) -> Seq<PlayerView>
    decreases count,
{
    if count <= 0 {
        players
    } else {
        put(seat_bots(players, room, seeds, count - 1), bot_from(room, count - 1, seeds[count - 1]))
    }
}

/// The room as its countdown starts: the time stamped, the passage set, and
/// simulated players seated.
pub open spec fn started(r: RoomView, inputs: StartInputsView) -> RoomView {
    RoomView {
        state: RracerState::Countdown,
        countdown_start: Some(inputs.now),
        passage: Some(inputs.passage),
        players: seat_bots(r.players, r.id, inputs.seeds, bots_wanted(r, inputs.seeds.len() as int)),
        ..r
    }
}

/// Starts the countdown where it may start: publishes the roster, the new
/// state and the passage. Elsewhere nothing happens.
pub open spec fn try_start(r: RoomView, inputs: StartInputsView) -> Step {
    if can_start(r) {
        let after = started(r, inputs);
        Step {
            room: after,
            casts: seq![
                lobby(after),
                state_change(RracerState::Countdown),
                ServerMsgView::Countdown { passage: inputs.passage },
            ],
        }
    } else {
        Step { room: r, casts: Seq::empty() }
    }
}

/// Admits a player. The player enters the table as they are; a finished
/// room then goes back to the lobby, which rests everyone; then the countdown
/// starts where it may, and the roster is published in any case.
pub open spec fn add_player(r: RoomView, p: PlayerView, inputs: StartInputsView) -> Step {
    let seated = RoomView { players: put(r.players, p), ..r };
    let settled = if seated.state == RracerState::Finished {
        force_reset(seated)
    } else {
        seated
    };
    let begun = try_start(settled, inputs);
    Step { room: begun.room, casts: begun.casts.push(lobby(begun.room)) }
}

/// Removes a player. A room left empty goes back to the lobby, whatever its
/// state was. The roster is published.
pub open spec fn remove_player(r: RoomView, id: Seq<char>) -> Step {
    let left = RoomView { players: without(r.players, id), ..r };
    let after = if left.players.len() == 0 {
        force_reset(left)
    } else {
        left
    };
    Step { room: after, casts: seq![lobby(after)] }
}

/// Answers a request to return to the lobby. Only a finished room follows
/// it: simulated players leave, the people are rested, the new state and the
/// roster are published, and the countdown starts again where it may.
pub open spec fn reset(r: RoomView, inputs: StartInputsView) -> Step {
    if RracerState::next_state(r.state, RracerEvent::Reset) is Some {
        let cleared = force_reset(RoomView { players: humans(r.players), ..r });
        let begun = try_start(cleared, inputs);
        Step {
            room: begun.room,
            casts: seq![state_change(RracerState::Waiting), lobby(cleared)] + begun.casts,
        }
    } else {
        Step { room: r, casts: Seq::empty() }
    }
}

/// Ends the race once everyone in it has finished: a racing room whose
/// players, at least one, are all finished becomes finished and says so.
pub open spec fn settle(r: RoomView) -> Step {
    if r.state == RracerState::Racing && r.players.len() > 0 && all_finished(r.players) {
        Step {
            room: RoomView { state: RracerState::Finished, ..r },
            casts: seq![state_change(RracerState::Finished)],
        }
    } else {
        Step { room: r, casts: Seq::empty() }
    }
}

/// Whether a player who stands as `p` types faster at `ts` than can be
/// believed: looked at only once the first correct keystroke lies more than
/// the window back.
pub open spec fn too_fast(p: PlayerView, ts: u64) -> bool {
    p.start_time matches Some(start) && ts - start > SPEED_WINDOW_MS && exceeds_ceiling(
        p.position as int,
        ts - start,
        WPM_CEILING as int,
    )
}

/// What becomes of a keystroke that the player known by `id` sends at `ts`.
pub open spec fn verdict(r: RoomView, id: Seq<char>, ts: u64) -> KeyVerdict {
    if r.state != RracerState::Racing {
        KeyVerdict::NotRacing
    } else if !has_player(r.players, id) {
        KeyVerdict::Unknown
    } else {
        let p = r.players[index_of(r.players, id)];
        if p.is_bot() {
            KeyVerdict::Bot
        } else if ts < p.last_keystroke + MIN_KEY_INTERVAL_MS {
            KeyVerdict::TooSoon
        } else if too_fast(p, ts) {
            KeyVerdict::TooFast
        } else {
            KeyVerdict::Scored
        }
    }
}

/// Whether a keystroke is taken into account: a race is on, the sender is a
/// person in the room, the keystroke comes no sooner than the minimum
/// interval after the one before, and the speed it implies is not over the
/// ceiling.
pub open spec fn accepted(r: RoomView, id: Seq<char>, ts: u64) -> bool {
    verdict(r, id, ts) is Scored
}

/// The player with a keystroke at `ts` counted: it is the last one now, and
/// one more.
pub open spec fn stamped(p: PlayerView, ts: u64) -> PlayerView {
    PlayerView { last_keystroke: ts, keystroke_count: (p.keystroke_count + 1) as u64, ..p }
}

/// The player after `ch` is held against the passage: a match at the
/// player's position moves them on by one, starts their clock if it has not
/// started, and finishes them at the end of the passage; anything else is
/// one more error. A player at the end of the passage stays as they are.
pub open spec fn scored(p: PlayerView, passage: Seq<char>, ch: char, ts: u64) -> PlayerView {
    if p.position < passage.len() {
        if passage[p.position as int] == ch {
            PlayerView {
                position: (p.position + 1) as usize,
                start_time: Some(
                    match p.start_time {
                        Some(t) => t,
                        None => ts,
                    },
                ),
                finished: p.finished || p.position + 1 >= passage.len(),
                ..p
            }
        } else {
            PlayerView { errors: (p.errors + 1) as u64, ..p }
        }
    } else {
        p
    }
}

/// The result that a person who stands as `p` has achieved at `ts`: net
/// words per minute since their first correct keystroke, and the share of
/// their correct keystrokes in all that were held against the passage.
pub open spec fn finish_of(p: PlayerView, ts: u64) -> ServerMsgView {
    let start = match p.start_time {
        Some(t) => t,
        None => ts,
    };
    ServerMsgView::Finish {
        id: p.name,
        wpm: clamp_i64(net_rate(p.position as int, p.errors as int, ts - start)) as i64,
        accuracy: accuracy_rate(p.position as int, p.position + p.errors) as u64,
    }
}

/// What a scored keystroke publishes: the result where it completed the
/// passage, the new position where it matched, nothing where it did not.
pub open spec fn score_casts(before: PlayerView, after: PlayerView, ts: u64, len: int) -> Seq<
    ServerMsgView,
> {
    if after.position == before.position {
        Seq::empty()
    } else if after.position >= len {
        seq![finish_of(after, ts)]
    } else {
        seq![ServerMsgView::Progress { id: after.name, pos: after.position }]
    }
}

/// Handles one keystroke.
pub open spec fn keystroke(r: RoomView, id: Seq<char>, ch: char, ts: u64) -> Step {
    match verdict(r, id, ts) {
        KeyVerdict::NotRacing | KeyVerdict::Bot | KeyVerdict::TooSoon => Step {
            room: r,
            casts: Seq::empty(),
        },
        KeyVerdict::Unknown => settle(r),
        KeyVerdict::TooFast => Step {
            room: r,
            casts: seq![ServerMsgView::Error { message: suspicious_speed_text() }],
        },
        KeyVerdict::Scored => {
            let i = index_of(r.players, id);
            let before = stamped(r.players[i], ts);
            let after = scored(before, r.passage.unwrap(), ch, ts);
            let typed = RoomView { players: r.players.update(i, after), ..r };
            let done = settle(typed);
            Step {
                room: done.room,
                casts: score_casts(before, after, ts, passage_len(r)) + done.casts,
            }
        },
    }
}

/// Takes over a position that a client reports for itself, where it lies
/// within the passage and not behind the position known; publishes it then.
pub open spec fn sync_progress(r: RoomView, id: Seq<char>, pos: usize) -> Step {
    if has_player(r.players, id) {
        let i = index_of(r.players, id);
        let p = r.players[i];
        if p.position <= pos && pos <= passage_len(r) {
            Step {
                room: RoomView {
                    players: r.players.update(i, PlayerView { position: pos, ..p }),
                    ..r
                },
                casts: seq![ServerMsgView::Progress { id: p.name, pos }],
            }
        } else {
            Step { room: r, casts: Seq::empty() }
        }
    } else {
        Step { room: r, casts: Seq::empty() }
    }
}

/// Takes over a client's report that it has completed the passage: the
/// player counts as finished, the result is published as reported, and the
/// race ends if that was the last one.
pub open spec fn report_finish(r: RoomView, id: Seq<char>, wpm: i64, accuracy: u64) -> Step {
    if has_player(r.players, id) {
        let i = index_of(r.players, id);
        let p = r.players[i];
        let marked = RoomView {
            players: r.players.update(i, PlayerView { finished: true, ..p }),
            ..r
        };
        let done = settle(marked);
        Step {
            room: done.room,
            casts: seq![ServerMsgView::Finish { id: p.name, wpm, accuracy }] + done.casts,
        }
    } else {
        Step { room: r, casts: Seq::empty() }
    }
}

/// Whether the countdown of a room is over at `now`.
pub open spec fn countdown_over(r: RoomView, now: u64) -> bool {
    r.state == RracerState::Countdown && (r.countdown_start matches Some(start) && now - start
        >= COUNTDOWN_MS)
}

/// Lets time pass. A countdown that has lasted its full length gives way to
/// the race, which is announced with the passage and `now` as its origin.
/// Nothing else depends on time.
pub open spec fn tick(r: RoomView, now: u64) -> Step {
    if countdown_over(r, now) {
        Step {
            room: RoomView { state: RracerState::Racing, ..r },
            casts: seq![ServerMsgView::Start { passage: r.passage.unwrap(), t0: now }],
        }
    } else {
        Step { room: r, casts: Seq::empty() }
    }
}

/// The run of the simulated player `p` as a race starts at `now`.
pub open spec fn run_of(p: PlayerView, now: u64) -> BotRunView {
    BotRunView {
        id: p.id,
        name: p.name,
        speed: match p.kind {
            PlayerKind::Bot { speed } => speed,
            PlayerKind::Human => 0,
        },
        progress: 0,
        last: now,
    }
}

/// The runs of all simulated players of a table, in table order.
pub open spec fn runs_of(players: Seq<PlayerView>, now: u64) -> Seq<BotRunView> {
    players.filter(|p: PlayerView| p.is_bot()).map_values(|p: PlayerView| run_of(p, now))
}

/// The runs that a room sets going at `now`: one for each of its simulated
/// players, and none in a room without a passage.
pub open spec fn launched(r: RoomView, now: u64) -> Seq<BotRunView> {
    if r.passage is None {
        Seq::empty()
    } else {
        runs_of(r.players, now)
    }
}

/// The run after the clock has moved to `now`: progress grows by speed times
/// the time passed, up to the end of a passage of `len` characters. A clock
/// that has gone back counts as no time passed.
pub open spec fn advanced(run: BotRunView, now: u64, len: int) -> BotRunView {
    let dt = if now >= run.last {
        now - run.last
    } else {
        0
    };
    let grown = run.progress + run.speed * dt;
    let cap = len * UNITS_PER_CHAR;
    BotRunView { progress: if grown >= cap {
        cap
    } else {
        grown
    }, last: now, ..run }
}

/// The position that a run has reached, in whole characters.
pub open spec fn run_position(run: BotRunView) -> int {
    run.progress / (UNITS_PER_CHAR as int)
}

/// Whether a run is still on its way in the race that is on: the room races
/// and holds a simulated player with the run's id who has not finished.
pub open spec fn run_is_live(r: RoomView, run: BotRunView) -> bool {
    r.state == RracerState::Racing && has_player(r.players, run.id) && {
        let p = r.players[index_of(r.players, run.id)];
        p.is_bot() && !p.finished
    }
}

/// The outcome of a step of `run` at `now`.
pub open spec fn bot_outcome(r: RoomView, run: BotRunView, now: u64) -> BotOutcome {
    if !run_is_live(r, run) {
        BotOutcome::Cancelled
    } else if run_position(advanced(run, now, passage_len(r))) >= passage_len(r) {
        BotOutcome::Done
    } else {
        BotOutcome::Running
    }
}

/// The run after a step at `now`.
pub open spec fn bot_run_after(r: RoomView, run: BotRunView, now: u64) -> BotRunView {
    if run_is_live(r, run) {
        advanced(run, now, passage_len(r))
    } else {
        run
    }
}

/// One step of a simulated player. A live run moves on and publishes its
/// position; at the end of the passage it also publishes its nominal speed
/// with full accuracy, the player counts as finished, and the race ends if
/// that was the last one. A run that is not live changes and publishes
/// nothing.
pub open spec fn bot_step(r: RoomView, run: BotRunView, now: u64) -> Step {
    if !run_is_live(r, run) {
        Step { room: r, casts: Seq::empty() }
    } else {
        let moved = advanced(run, now, passage_len(r));
        let pos = run_position(moved) as usize;
        let progress = ServerMsgView::Progress { id: run.name, pos };
        if pos >= passage_len(r) {
            let i = index_of(r.players, run.id);
            let marked = RoomView {
                players: r.players.update(
                    i,
                    PlayerView { finished: true, position: pos, ..r.players[i] },
                ),
                ..r
            };
            let done = settle(marked);
            Step {
                room: done.room,
                casts: seq![
                    progress,
                    ServerMsgView::Finish { id: run.name, wpm: run.speed as i64, accuracy: FULL_ACCURACY },
                ] + done.casts,
            }
        } else {
            Step { room: r, casts: seq![progress] }
        }
    }
}

} // verus!
