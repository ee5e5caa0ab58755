//! What holds of every room, whatever arrives: each operation keeps a room
//! well-formed, and the rules of admission, start, keystrokes and progress.

use crate::fsm::RracerState;
use crate::inputs::speeds_in_range;
use crate::model::accepted;
use crate::model::add_player;
use crate::model::advanced;
use crate::model::BotRunView;
use crate::model::BotSeedView;
use crate::model::bots_wanted;
use crate::model::bot_from;
use crate::model::bot_id;
use crate::model::bot_name;
use crate::model::BOT_SPEED_MAX;
use crate::model::BOT_SPEED_MIN;
use crate::model::bot_step;
use crate::model::can_start;
use crate::model::digit_text;
use crate::model::force_reset;
use crate::model::keystroke;
use crate::model::KeyVerdict;
use crate::model::lobby;
use crate::model::passage_len;
use crate::model::remove_player;
use crate::model::report_finish;
use crate::model::reset;
use crate::model::RoomView;
use crate::model::run_is_live;
use crate::model::run_position;
use crate::model::scored;
use crate::model::seat_bots;
use crate::model::settle;
use crate::model::stamped;
use crate::model::StartInputsView;
use crate::model::state_change;
use crate::model::sync_progress;
use crate::model::tick;
use crate::model::too_fast;
use crate::model::try_start;
use crate::model::verdict;
use crate::model::wf;
use crate::player::PlayerView;
use crate::protocol::ServerMsgView;
use crate::table::all_rested;
use crate::table::all_within;
use crate::table::bots;
use crate::table::has_player;
use crate::table::humans;
use crate::table::ids_unique;
use crate::table::index_of;
use crate::table::lemma_all_rested;
use crate::table::lemma_humans;
use crate::table::lemma_humans_and_bots;
use crate::table::lemma_index_of;
use crate::table::lemma_put;
use crate::table::lemma_without;
use crate::table::put;
use crate::table::without;
use vstd::prelude::*;

verus! {

/// Whether `after` is the same race as `before`, further on: the same
/// players in the same places, none of them further back than they were.
pub open spec fn race_goes_on(before: RoomView, after: RoomView) -> bool {
    &&& after.players.len() == before.players.len()
    &&& after.passage == before.passage
    &&& forall|i: int|
        0 <= i < before.players.len() ==> {
            &&& (#[trigger] after.players[i]).id == before.players[i].id
            &&& after.players[i].position >= before.players[i].position
        }
}

/// Whether every player stands at the beginning of a race: nothing typed, no
/// errors, not finished.
pub open spec fn everyone_rested(players: Seq<PlayerView>) -> bool {
    forall|i: int|
        0 <= i < players.len() ==> {
            &&& (#[trigger] players[i]).position == 0
            &&& players[i].errors == 0
            &&& !players[i].finished
        }
}

/// Whether every player of `after` stands where they stand in `before`,
/// with as many errors.
pub open spec fn same_scores(before: Seq<PlayerView>, after: Seq<PlayerView>) -> bool {
    &&& after.len() == before.len()
    &&& forall|i: int|
        0 <= i < before.len() ==> {
            &&& (#[trigger] after[i]).position == before[i].position
            &&& after[i].errors == before[i].errors
        }
}

/// Putting a consistent player who stands within the passage into a table of
/// such players gives a table of such players.
pub proof fn lemma_put_within(players: Seq<PlayerView>, p: PlayerView, len: int)
    requires
        ids_unique(players),
        all_within(players, len),
        p.wf(),
        p.position <= len,
    ensures
        ids_unique(put(players, p)),
        all_within(put(players, p), len),
        players.len() <= put(players, p).len() <= players.len() + 1,
{
    lemma_put(players, p);
    let after = put(players, p);
    assert forall|i: int| 0 <= i < after.len() implies (#[trigger] after[i]).wf()
        && after[i].position <= len by {
        if has_player(players, p.id) {
            if i != index_of(players, p.id) {
                assert(after[i] == players[i]);
            }
        } else {
            if i < players.len() {
                assert(after[i] == players[i]);
            }
        }
    }
}

/// Seating simulated players keeps a table in order: ids stay apart, every
/// player stays within the passage, and at most `count` entries are added.
pub proof fn lemma_seat_bots(
    players: Seq<PlayerView>,
    room: Seq<char>,
    seeds: Seq<BotSeedView>,
    count: int,
    len: int,
)
    requires
        ids_unique(players),
        all_within(players, len),
        0 <= len,
    ensures
        ids_unique(seat_bots(players, room, seeds, count)),
        all_within(seat_bots(players, room, seeds, count), len),
        players.len() <= seat_bots(players, room, seeds, count).len(),
        seat_bots(players, room, seeds, count).len() <= players.len() + (if count > 0 {
            count
        } else {
            0
        }),
    decreases count,
{
    if count > 0 {
        lemma_seat_bots(players, room, seeds, count - 1, len);
        lemma_put_within(
            seat_bots(players, room, seeds, count - 1),
            bot_from(room, count - 1, seeds[count - 1]),
            len,
        );
    }
}

/// Going back to the lobby keeps a room well-formed and rests everyone.
pub proof fn lemma_force_reset(r: RoomView)
    requires
        ids_unique(r.players),
    ensures
        wf(force_reset(r)),
        force_reset(r).state == RracerState::Waiting,
        force_reset(r).passage is None,
        force_reset(r).players.len() == r.players.len(),
        everyone_rested(force_reset(r).players),
{
    lemma_all_rested(r.players);
}

/// Starting a countdown, where it may start, keeps a room well-formed.
pub proof fn lemma_try_start_wf(r: RoomView, inputs: StartInputsView)
    requires
        wf(r),
    ensures
        wf(try_start(r, inputs).room),
        can_start(r) ==> try_start(r, inputs).room.state == RracerState::Countdown,
        !can_start(r) ==> try_start(r, inputs).room == r,
        r.players.len() <= try_start(r, inputs).room.players.len(),
        can_start(r) ==> try_start(r, inputs).room.players.len() <= r.players.len()
            + bots_wanted(r, inputs.seeds.len() as int),
{
    if can_start(r) {
        let n = bots_wanted(r, inputs.seeds.len() as int);
        assert(all_within(r.players, inputs.passage.len() as int)) by {
            assert forall|i: int| 0 <= i < r.players.len() implies (#[trigger] r.players[i]).wf()
                && r.players[i].position <= inputs.passage.len() by {}
        }
        lemma_seat_bots(r.players, r.id, inputs.seeds, n, inputs.passage.len() as int);
    }
}

/// A countdown never starts with fewer than two people in the room, however
/// many simulated players there are: nothing changes and nothing is
/// published.
pub proof fn lemma_no_start_below_two_humans(r: RoomView, inputs: StartInputsView)
    requires
        humans(r.players).len() < 2,
    ensures
        try_start(r, inputs).room == r,
        try_start(r, inputs).casts.len() == 0,
{
}

/// Admitting a player keeps a room well-formed.
pub proof fn lemma_add_player_wf(r: RoomView, p: PlayerView, inputs: StartInputsView)
    requires
        wf(r),
        p.wf(),
        p.position <= passage_len(r),
    ensures
        wf(add_player(r, p, inputs).room),
        has_player(add_player(r, p, inputs).room.players, p.id),
{
    let seated = RoomView { players: put(r.players, p), ..r };
    lemma_put_within(r.players, p, passage_len(r));
    lemma_put(r.players, p);
    let settled = if seated.state == RracerState::Finished {
        force_reset(seated)
    } else {
        seated
    };
    assert(has_player(settled.players, p.id)) by {
        let k = index_of(seated.players, p.id);
        if seated.state == RracerState::Finished {
            lemma_all_rested(seated.players);
            assert(settled.players[k].id == p.id);
        }
    }
    if seated.state == RracerState::Finished {
        lemma_force_reset(seated);
    }
    lemma_try_start_wf(settled, inputs);
    if can_start(settled) {
        let n = bots_wanted(settled, inputs.seeds.len() as int);
        lemma_seat_bots_keeps(settled.players, settled.id, inputs.seeds, n, p.id);
    }
}

/// Seating simulated players keeps the ids apart.
pub proof fn lemma_seat_bots_ids(
    players: Seq<PlayerView>,
    room: Seq<char>,
    seeds: Seq<BotSeedView>,
    count: int,
)
    requires
        ids_unique(players),
    ensures
        ids_unique(seat_bots(players, room, seeds, count)),
    decreases count,
{
    if count > 0 {
        lemma_seat_bots_ids(players, room, seeds, count - 1);
        lemma_put(
            seat_bots(players, room, seeds, count - 1),
            bot_from(room, count - 1, seeds[count - 1]),
        );
    }
}

/// Seating simulated players removes nobody: who was in the table is in it
/// afterwards.
pub proof fn lemma_seat_bots_keeps(
    players: Seq<PlayerView>,
    room: Seq<char>,
    seeds: Seq<BotSeedView>,
    count: int,
    id: Seq<char>,
)
    requires
        ids_unique(players),
        has_player(players, id),
    ensures
        has_player(seat_bots(players, room, seeds, count), id),
    decreases count,
{
    if count > 0 {
        lemma_seat_bots_keeps(players, room, seeds, count - 1, id);
        lemma_seat_bots_ids(players, room, seeds, count - 1);
        let before = seat_bots(players, room, seeds, count - 1);
        let b = bot_from(room, count - 1, seeds[count - 1]);
        lemma_put(before, b);
    }
}

/// Admitting a player to a finished room rests everyone: afterwards every
/// player, the new one and any simulated player seated since, has typed
/// nothing, made no error and is not finished.
pub proof fn lemma_admission_rests_everyone(r: RoomView, p: PlayerView, inputs: StartInputsView)
    requires
        wf(r),
        r.state == RracerState::Finished,
    ensures
        everyone_rested(add_player(r, p, inputs).room.players),
        add_player(r, p, inputs).room.state != RracerState::Finished,
{
    let seated = RoomView { players: put(r.players, p), ..r };
    lemma_put(r.players, p);
    lemma_force_reset(seated);
    let settled = force_reset(seated);
    if can_start(settled) {
        let n = bots_wanted(settled, inputs.seeds.len() as int);
        lemma_seat_bots(settled.players, settled.id, inputs.seeds, n, 0);
        let after = seat_bots(settled.players, settled.id, inputs.seeds, n);
        lemma_seat_bots_rested(settled.players, settled.id, inputs.seeds, n);
    }
}

/// Seating simulated players among rested players gives rested players.
pub proof fn lemma_seat_bots_rested(
    players: Seq<PlayerView>,
    room: Seq<char>,
    seeds: Seq<BotSeedView>,
    count: int,
)
    requires
        ids_unique(players),
        everyone_rested(players),
    ensures
        everyone_rested(seat_bots(players, room, seeds, count)),
    decreases count,
{
    if count > 0 {
        lemma_seat_bots_rested(players, room, seeds, count - 1);
        lemma_seat_bots_ids(players, room, seeds, count - 1);
        let before = seat_bots(players, room, seeds, count - 1);
        let b = bot_from(room, count - 1, seeds[count - 1]);
        lemma_put(before, b);
        let after = put(before, b);
        assert forall|i: int| 0 <= i < after.len() implies (#[trigger] after[i]).position == 0
            && after[i].errors == 0 && !after[i].finished by {
            if has_player(before, b.id) {
                if i != index_of(before, b.id) {
                    assert(after[i] == before[i]);
                }
            } else {
                if i < before.len() {
                    assert(after[i] == before[i]);
                }
            }
        }
    }
}

/// Admitting a player to a finished room that then holds fewer than two
/// people yields a waiting room without a passage in which every player is
/// rested.
pub proof fn lemma_admission_to_finished_room(r: RoomView, p: PlayerView, inputs: StartInputsView)
    requires
        wf(r),
        r.state == RracerState::Finished,
        humans(put(r.players, p)).len() < 2,
    ensures
        add_player(r, p, inputs).room.state == RracerState::Waiting,
        add_player(r, p, inputs).room.passage is None,
        add_player(r, p, inputs).room.countdown_start is None,
        everyone_rested(add_player(r, p, inputs).room.players),
{
    lemma_admission_rests_everyone(r, p, inputs);
    let seated = put(r.players, p);
    lemma_humans_of_rested(seated);
}

/// Resting players does not change who is a person.
pub proof fn lemma_humans_of_rested(players: Seq<PlayerView>)
    ensures
        humans(all_rested(players)) == all_rested(humans(players)),
        humans(all_rested(players)).len() == humans(players).len(),
    decreases players.len(),
{
    reveal(Seq::filter);
    if players.len() == 0 {
        assert(all_rested(players) =~= Seq::<PlayerView>::empty());
        assert(humans(players) =~= Seq::<PlayerView>::empty());
        assert(all_rested(humans(players)) =~= Seq::<PlayerView>::empty());
    } else {
        let front = players.drop_last();
        lemma_humans_of_rested(front);
        assert(all_rested(players).drop_last() =~= all_rested(front));
        assert(all_rested(players).last() == players.last().rested());
        assert(humans(all_rested(players)) =~= all_rested(humans(players)));
    }
}

/// Removing a player keeps a room well-formed.
pub proof fn lemma_remove_player_wf(r: RoomView, id: Seq<char>)
    requires
        wf(r),
    ensures
        wf(remove_player(r, id).room),
        !has_player(remove_player(r, id).room.players, id),
        remove_player(r, id).room.players.len() <= r.players.len(),
{
    lemma_without(r.players, id);
    let left = RoomView { players: without(r.players, id), ..r };
    assert(all_within(left.players, passage_len(r))) by {
        if has_player(r.players, id) {
            let k = index_of(r.players, id);
            assert forall|i: int| 0 <= i < left.players.len() implies (
            #[trigger] left.players[i]).wf() && left.players[i].position <= passage_len(r) by {
                let oi = if i < k {
                    i
                } else {
                    i + 1
                };
                assert(left.players[i] == r.players[oi]);
            }
        }
    }
    if left.players.len() == 0 {
        lemma_force_reset(left);
        assert(force_reset(left).players.len() == 0);
    }
}

/// When the last player leaves, the room goes back to the lobby, whatever
/// state it was in: it waits, empty, without a passage.
pub proof fn lemma_last_player_leaves(r: RoomView, id: Seq<char>)
    requires
        wf(r),
        r.players.len() == 1,
        r.players[0].id == id,
    ensures
        remove_player(r, id).room.state == RracerState::Waiting,
        remove_player(r, id).room.players.len() == 0,
        remove_player(r, id).room.passage is None,
{
    lemma_index_of(r.players, 0);
    lemma_without(r.players, id);
    let left = RoomView { players: without(r.players, id), ..r };
    lemma_force_reset(left);
}

/// Answering a request to return to the lobby keeps a room well-formed. A
/// room that is not finished is left as it is.
pub proof fn lemma_reset_wf(r: RoomView, inputs: StartInputsView)
    requires
        wf(r),
    ensures
        wf(reset(r, inputs).room),
        r.state != RracerState::Finished ==> reset(r, inputs).room == r && reset(
            r,
            inputs,
        ).casts.len() == 0,
        r.state == RracerState::Finished ==> reset(r, inputs).room.state != RracerState::Finished
            && everyone_rested(reset(r, inputs).room.players),
{
    if r.state == RracerState::Finished {
        lemma_humans(r.players);
        let kept = RoomView { players: humans(r.players), ..r };
        lemma_force_reset(kept);
        let cleared = force_reset(kept);
        lemma_try_start_wf(cleared, inputs);
        if can_start(cleared) {
            let n = bots_wanted(cleared, inputs.seeds.len() as int);
            lemma_seat_bots_rested(cleared.players, cleared.id, inputs.seeds, n);
        }
    }
}

/// Ending a race keeps a room well-formed, and a race ends once: what has
/// been settled stays as it is and publishes nothing more.
pub proof fn lemma_settle(r: RoomView)
    requires
        wf(r),
    ensures
        wf(settle(r).room),
        race_goes_on(r, settle(r).room),
        settle(r).room.players == r.players,
        settle(settle(r).room).room == settle(r).room,
        settle(settle(r).room).casts.len() == 0,
        settle(r).casts.len() <= 1,
{
}

/// A player stays consistent through a keystroke, and within the passage.
pub proof fn lemma_scored(p: PlayerView, passage: Seq<char>, ch: char, ts: u64)
    requires
        p.wf(),
        p.position <= passage.len(),
        passage.len() <= usize::MAX,
        p.last_keystroke + 20 <= ts,
    ensures
        stamped(p, ts).wf(),
        scored(stamped(p, ts), passage, ch, ts).wf(),
        scored(stamped(p, ts), passage, ch, ts).position <= passage.len(),
        scored(stamped(p, ts), passage, ch, ts).position >= p.position,
        scored(stamped(p, ts), passage, ch, ts).position <= p.position + 1,
        scored(stamped(p, ts), passage, ch, ts).id == p.id,
        scored(stamped(p, ts), passage, ch, ts).name == p.name,
        scored(stamped(p, ts), passage, ch, ts).kind == p.kind,
{
}

/// Replacing a player by one with the same id keeps the ids apart.
pub proof fn lemma_update_same_id(players: Seq<PlayerView>, i: int, p: PlayerView)
    requires
        ids_unique(players),
        0 <= i < players.len(),
        p.id == players[i].id,
    ensures
        ids_unique(players.update(i, p)),
{
    let after = players.update(i, p);
    assert forall|a: int, b: int| 0 <= a < b < after.len() implies (#[trigger] after[a]).id != (
    #[trigger] after[b]).id by {
        assert(players[a].id != players[b].id);
    }
}

/// Replacing a player by a consistent one that stands within the passage
/// keeps everyone so.
pub proof fn lemma_update_within(players: Seq<PlayerView>, i: int, p: PlayerView, len: int)
    requires
        all_within(players, len),
        0 <= i < players.len(),
        p.wf(),
        p.position <= len,
    ensures
        all_within(players.update(i, p), len),
{
    let after = players.update(i, p);
    assert forall|a: int| 0 <= a < after.len() implies (#[trigger] after[a]).wf()
        && after[a].position <= len by {
        if a != i {
            assert(after[a] == players[a]);
        }
    }
}

/// A keystroke keeps a room well-formed and the race going.
pub proof fn lemma_keystroke_wf(r: RoomView, id: Seq<char>, ch: char, ts: u64)
    requires
        wf(r),
        passage_len(r) <= usize::MAX,
    ensures
        wf(keystroke(r, id, ch, ts).room),
        race_goes_on(r, keystroke(r, id, ch, ts).room),
{
    match verdict(r, id, ts) {
        KeyVerdict::NotRacing | KeyVerdict::Bot | KeyVerdict::TooSoon => {},
        KeyVerdict::Unknown => {
            lemma_settle(r);
        },
        KeyVerdict::TooFast => {},
        KeyVerdict::Scored => {
            let i = index_of(r.players, id);
            let p = r.players[i];
            lemma_scored(p, r.passage.unwrap(), ch, ts);
            let after = scored(stamped(p, ts), r.passage.unwrap(), ch, ts);
            lemma_update_same_id(r.players, i, after);
            lemma_update_within(r.players, i, after, passage_len(r));
            let typed = RoomView { players: r.players.update(i, after), ..r };
            lemma_settle(typed);
        },
    }
}

/// A keystroke is taken into account exactly when a race is on, the sender
/// is a person in the room, at least the minimum interval has passed since
/// their last keystroke, and the speed implied is not over the ceiling. A
/// keystroke that is not taken into account changes no player at all: not
/// their position, not their errors, nor anything else. One that is changes
/// the sender alone: a match moves them on by one character, a miss is one
/// more error.
pub proof fn lemma_keystroke_acceptance(r: RoomView, id: Seq<char>, ch: char, ts: u64)
    requires
        wf(r),
        passage_len(r) <= usize::MAX,
    ensures
        accepted(r, id, ts) <==> (r.state == RracerState::Racing && has_player(r.players, id) && {
            let p = r.players[index_of(r.players, id)];
            !p.is_bot() && ts - p.last_keystroke >= 20 && !too_fast(p, ts)
        }),
        keystroke(r, id, ch, ts).room.players.len() == r.players.len(),
        !accepted(r, id, ts) ==> keystroke(r, id, ch, ts).room.players == r.players,
        !accepted(r, id, ts) ==> same_scores(r.players, keystroke(r, id, ch, ts).room.players),
        accepted(r, id, ts) ==> forall|i: int|
            0 <= i < r.players.len() && i != index_of(r.players, id) ==> (#[trigger] keystroke(
                r,
                id,
                ch,
                ts,
            ).room.players[i]) == r.players[i],
        accepted(r, id, ts) ==> {
            let i = index_of(r.players, id);
            let before = r.players[i];
            let after = keystroke(r, id, ch, ts).room.players[i];
            let passage = r.passage.unwrap();
            if before.position >= passage.len() {
                after.position == before.position && after.errors == before.errors
            } else if passage[before.position as int] == ch {
                after.position == before.position + 1 && after.errors == before.errors
            } else {
                after.position == before.position && after.errors == before.errors + 1
            }
        },
{
    lemma_keystroke_wf(r, id, ch, ts);
    match verdict(r, id, ts) {
        KeyVerdict::NotRacing | KeyVerdict::Bot | KeyVerdict::TooSoon => {},
        KeyVerdict::Unknown => {},
        KeyVerdict::TooFast => {},
        KeyVerdict::Scored => {
            let i = index_of(r.players, id);
            let p = r.players[i];
            lemma_scored(p, r.passage.unwrap(), ch, ts);
        },
    }
}

/// Taking over a client's position keeps a room well-formed and the race
/// going.
pub proof fn lemma_sync_progress_wf(r: RoomView, id: Seq<char>, pos: usize)
    requires
        wf(r),
    ensures
        wf(sync_progress(r, id, pos).room),
        race_goes_on(r, sync_progress(r, id, pos).room),
{
    if has_player(r.players, id) {
        let i = index_of(r.players, id);
        let p = r.players[i];
        if p.position <= pos && pos <= passage_len(r) {
            let q = PlayerView { position: pos, ..p };
            lemma_update_same_id(r.players, i, q);
            lemma_update_within(r.players, i, q, passage_len(r));
        }
    }
}

/// Taking over a client's report of completion keeps a room well-formed and
/// the race going.
pub proof fn lemma_report_finish_wf(r: RoomView, id: Seq<char>, wpm: i64, accuracy: u64)
    requires
        wf(r),
    ensures
        wf(report_finish(r, id, wpm, accuracy).room),
        race_goes_on(r, report_finish(r, id, wpm, accuracy).room),
{
    if has_player(r.players, id) {
        let i = index_of(r.players, id);
        let p = r.players[i];
        let q = PlayerView { finished: true, ..p };
        lemma_update_same_id(r.players, i, q);
        lemma_update_within(r.players, i, q, passage_len(r));
        let marked = RoomView { players: r.players.update(i, q), ..r };
        lemma_settle(marked);
    }
}

/// The passing of time keeps a room well-formed and the race going. In the
/// lobby it changes nothing at all: a room that waits goes on waiting,
/// however long.
pub proof fn lemma_tick_wf(r: RoomView, now: u64)
    requires
        wf(r),
    ensures
        wf(tick(r, now).room),
        race_goes_on(r, tick(r, now).room),
        tick(r, now).room.players == r.players,
        r.state != RracerState::Countdown ==> tick(r, now).room == r && tick(r, now).casts.len()
            == 0,
        tick(r, now).room.state == r.state || (r.state == RracerState::Countdown && tick(
            r,
            now,
        ).room.state == RracerState::Racing),
{
}

/// A run never passes the end of the passage, and never goes back.
pub proof fn lemma_advanced(run: BotRunView, now: u64, len: int)
    requires
        0 <= len,
        0 <= run.progress,
    ensures
        0 <= advanced(run, now, len).progress <= len * 12_000_000,
        0 <= run_position(advanced(run, now, len)) <= len,
        advanced(run, now, len).last == now,
        run.progress <= len * 12_000_000 ==> run.progress <= advanced(run, now, len).progress
            && run_position(run) <= run_position(advanced(run, now, len)),
{
    let dt: int = if now >= run.last {
        now - run.last
    } else {
        0
    };
    assert(run.speed * dt >= 0) by (nonlinear_arith)
        requires
            run.speed >= 0,
            dt >= 0,
    ;
}

/// A step of a simulated player keeps a room well-formed and the race going.
pub proof fn lemma_bot_step_wf(r: RoomView, run: BotRunView, now: u64)
    requires
        wf(r),
        passage_len(r) <= usize::MAX,
        0 <= run.progress,
    ensures
        wf(bot_step(r, run, now).room),
        race_goes_on(r, bot_step(r, run, now).room),
{
    if run_is_live(r, run) {
        lemma_advanced(run, now, passage_len(r));
        let moved = advanced(run, now, passage_len(r));
        let pos = run_position(moved) as usize;
        if pos >= passage_len(r) {
            let i = index_of(r.players, run.id);
            let q = PlayerView { finished: true, position: pos, ..r.players[i] };
            lemma_update_same_id(r.players, i, q);
            lemma_update_within(r.players, i, q, passage_len(r));
            let marked = RoomView { players: r.players.update(i, q), ..r };
            lemma_settle(marked);
        }
    }
}

/// What can happen to a room while a race is on.
pub enum RaceOp {
    /// A keystroke of the player known by `id`.
    Key { id: Seq<char>, ch: char, ts: u64 },
    /// A position that the client of `id` reports.
    Progress { id: Seq<char>, pos: usize },
    /// A completion that the client of `id` reports.
    Finish { id: Seq<char>, wpm: i64, accuracy: u64 },
    /// The passing of time.
    Tick { now: u64 },
    /// A step of a simulated player.
    Bot { run: BotRunView, now: u64 },
}

/// The room after `op`.
pub open spec fn applied(r: RoomView, op: RaceOp) -> RoomView {
    match op {
        RaceOp::Key { id, ch, ts } => keystroke(r, id, ch, ts).room,
        RaceOp::Progress { id, pos } => sync_progress(r, id, pos).room,
        RaceOp::Finish { id, wpm, accuracy } => report_finish(r, id, wpm, accuracy).room,
        RaceOp::Tick { now } => tick(r, now).room,
        RaceOp::Bot { run, now } => bot_step(r, run, now).room,
    }
}

/// The room after all of `ops`, one after the other.
pub open spec fn applied_all(r: RoomView, ops: Seq<RaceOp>) -> RoomView
    decreases ops.len(),
{
    if ops.len() == 0 {
        r
    } else {
        applied(applied_all(r, ops.drop_last()), ops.last())
    }
}

/// Whether the run of `op`, if it is a step of a simulated player, has made
/// no negative way.
pub open spec fn op_wf(op: RaceOp) -> bool {
    op matches RaceOp::Bot { run, now } ==> run.progress >= 0
}

/// Across a race nobody's position ever goes back: whatever keystrokes,
/// reports, steps of simulated players and ticks arrive, in whatever order,
/// the players stay the same and each stands at least where they stood.
pub proof fn lemma_position_never_decreases(r: RoomView, ops: Seq<RaceOp>)
    requires
        wf(r),
        passage_len(r) <= usize::MAX,
        forall|i: int| 0 <= i < ops.len() ==> op_wf(#[trigger] ops[i]),
    ensures
        wf(applied_all(r, ops)),
        race_goes_on(r, applied_all(r, ops)),
    decreases ops.len(),
{
    if ops.len() > 0 {
        let front = ops.drop_last();
        assert forall|i: int| 0 <= i < front.len() implies op_wf(#[trigger] front[i]) by {
            assert(front[i] == ops[i]);
        }
        lemma_position_never_decreases(r, front);
        let mid = applied_all(r, front);
        assert(op_wf(ops[ops.len() - 1]));
        match ops.last() {
            RaceOp::Key { id, ch, ts } => lemma_keystroke_wf(mid, id, ch, ts),
            RaceOp::Progress { id, pos } => lemma_sync_progress_wf(mid, id, pos),
            RaceOp::Finish { id, wpm, accuracy } => lemma_report_finish_wf(mid, id, wpm, accuracy),
            RaceOp::Tick { now } => lemma_tick_wf(mid, now),
            RaceOp::Bot { run, now } => lemma_bot_step_wf(mid, run, now),
        }
        let end = applied_all(r, ops);
        assert forall|i: int| 0 <= i < r.players.len() implies (#[trigger] end.players[i]).id
            == r.players[i].id && end.players[i].position >= r.players[i].position by {
            assert(mid.players[i].id == r.players[i].id);
            assert(end.players[i].id == mid.players[i].id);
        }
    }
}

/// The state of a room changes at most once across a race, and then from
/// racing to finished: a race that has ended stays ended.
pub proof fn lemma_a_race_ends_once(r: RoomView, op: RaceOp)
    requires
        wf(r),
        passage_len(r) <= usize::MAX,
        op_wf(op),
        r.state == RracerState::Racing || r.state == RracerState::Finished,
    ensures
        applied(r, op).state == r.state || (r.state == RracerState::Racing && applied(
            r,
            op,
        ).state == RracerState::Finished),
        r.state == RracerState::Finished ==> applied(r, op).state == RracerState::Finished,
{
    match op {
        RaceOp::Key { id, ch, ts } => lemma_keystroke_wf(r, id, ch, ts),
        RaceOp::Progress { id, pos } => lemma_sync_progress_wf(r, id, pos),
        RaceOp::Finish { id, wpm, accuracy } => lemma_report_finish_wf(r, id, wpm, accuracy),
        RaceOp::Tick { now } => lemma_tick_wf(r, now),
        RaceOp::Bot { run, now } => lemma_bot_step_wf(r, run, now),
    }
}

/// The ids of two simulated players of one room differ where their numbers
/// do, whatever their tokens.
pub proof fn lemma_bot_ids_differ(
    room: Seq<char>,
    i: int,
    j: int,
    token_i: Seq<char>,
    token_j: Seq<char>,
)
    requires
        0 <= i <= 9,
        0 <= j <= 9,
        i != j,
    ensures
        bot_id(room, i, token_i) != bot_id(room, j, token_j),
{
    reveal_strlit("bot-");
    reveal_strlit("-");
    reveal_strlit("0");
    reveal_strlit("1");
    reveal_strlit("2");
    reveal_strlit("3");
    reveal_strlit("4");
    reveal_strlit("5");
    reveal_strlit("6");
    reveal_strlit("7");
    reveal_strlit("8");
    reveal_strlit("9");
    let at: int = room.len() as int + 5;
    let a = bot_id(room, i, token_i);
    let b = bot_id(room, j, token_j);
    assert(digit_text(i).len() == 1 && digit_text(j).len() == 1);
    assert(digit_text(i)[0] != digit_text(j)[0]);
    assert(a[at] == digit_text(i)[0]);
    assert(b[at] == digit_text(j)[0]);
}

/// Whether none of the first `count` simulated players to be seated would
/// take the place of somebody in the table.
pub open spec fn seats_are_free(
    players: Seq<PlayerView>,
    room: Seq<char>,
    seeds: Seq<BotSeedView>,
    count: int,
) -> bool {
    forall|k: int|
        0 <= k < count ==> !has_player(players, #[trigger] bot_id(room, k, seeds[k].token))
}

/// The first `count` simulated players of a room, as they are made of their
/// seeds.
pub open spec fn fresh_bots(room: Seq<char>, seeds: Seq<BotSeedView>, count: int) -> Seq<
    PlayerView,
> {
    Seq::new(
        if count > 0 {
            count as nat
        } else {
            0
        },
        |i: int| bot_from(room, i, seeds[i]),
    )
}

/// The seats that a start has to fill in a table of `n` players.
pub open spec fn seats_to_fill(n: int) -> int {
    if n >= 5 {
        0
    } else {
        5 - n
    }
}

/// Where no seat is taken, seating adds the simulated players at the end of
/// the table, each as it is made of its seed, and leaves everybody else as
/// they are.
pub proof fn lemma_seat_bots_fills(
    players: Seq<PlayerView>,
    room: Seq<char>,
    seeds: Seq<BotSeedView>,
    count: int,
)
    requires
        ids_unique(players),
        0 <= count <= 10,
        seats_are_free(players, room, seeds, count),
    ensures
        seat_bots(players, room, seeds, count) == players + fresh_bots(room, seeds, count),
        seat_bots(players, room, seeds, count).len() == players.len() + count,
        humans(seat_bots(players, room, seeds, count)) == humans(players),
        forall|k: int|
            count <= k <= 9 ==> (has_player(
                seat_bots(players, room, seeds, count),
                #[trigger] bot_id(room, k, seeds[k].token),
            ) <==> has_player(players, bot_id(room, k, seeds[k].token))),
    decreases count,
{
    reveal(Seq::filter);
    if count <= 0 {
        assert(players =~= players + fresh_bots(room, seeds, count));
    } else {
        assert(seats_are_free(players, room, seeds, count - 1)) by {
            assert forall|k: int| 0 <= k < count - 1 implies !has_player(
                players,
                #[trigger] bot_id(room, k, seeds[k].token),
            ) by {}
        }
        lemma_seat_bots_fills(players, room, seeds, count - 1);
        lemma_seat_bots_ids(players, room, seeds, count - 1);
        let before = seat_bots(players, room, seeds, count - 1);
        let b = bot_from(room, count - 1, seeds[count - 1]);
        assert(b.id == bot_id(room, count - 1, seeds[count - 1].token));
        assert(!has_player(players, bot_id(room, count - 1, seeds[count - 1].token)));
        assert(!has_player(before, b.id));
        lemma_put(before, b);
        let after = put(before, b);
        assert(after == before.push(b));
        assert(after.drop_last() =~= before);
        assert(humans(after) =~= humans(before));
        assert(after =~= players + fresh_bots(room, seeds, count));
        assert forall|k: int| count <= k <= 9 implies (has_player(
            after,
            #[trigger] bot_id(room, k, seeds[k].token),
        ) <==> has_player(players, bot_id(room, k, seeds[k].token))) by {
            lemma_bot_ids_differ(room, k, count - 1, seeds[k].token, seeds[count - 1].token);
        }
    }
}

/// A start fills the room up to five. Where a countdown may start, with a
/// seed for every seat to be filled and none of the seats taken, the room
/// counts down from the time given with the passage given; everybody who was
/// there is there as they were; after them come the simulated players, as
/// many as were missing up to five, each rested, with the speed of its seed
/// and an id that nobody else has.
pub proof fn lemma_start_fills_to_five(r: RoomView, inputs: StartInputsView)
    requires
        wf(r),
        can_start(r),
        inputs.seeds.len() >= seats_to_fill(r.players.len() as int),
        seats_are_free(r.players, r.id, inputs.seeds, seats_to_fill(r.players.len() as int)),
    ensures
        try_start(r, inputs).room.state == RracerState::Countdown,
        try_start(r, inputs).room.countdown_start == Some(inputs.now),
        try_start(r, inputs).room.passage == Some(inputs.passage),
        try_start(r, inputs).room.players == r.players + fresh_bots(
            r.id,
            inputs.seeds,
            seats_to_fill(r.players.len() as int),
        ),
        try_start(r, inputs).room.players.len() == (if r.players.len() >= 5 {
            r.players.len() as int
        } else {
            5
        }),
        humans(try_start(r, inputs).room.players) == humans(r.players),
        ids_unique(try_start(r, inputs).room.players),
        forall|k: int|
            0 <= k < seats_to_fill(r.players.len() as int) ==> {
                let b = #[trigger] try_start(r, inputs).room.players[r.players.len() + k];
                &&& b == PlayerView::bot(
                    bot_id(r.id, k, inputs.seeds[k].token),
                    bot_name(k),
                    inputs.seeds[k].speed,
                )
                &&& b.is_bot()
                &&& b.position == 0 && b.errors == 0 && !b.finished && b.start_time is None
                &&& speeds_in_range(inputs.seeds) ==> BOT_SPEED_MIN <= inputs.seeds[k].speed
                    < BOT_SPEED_MAX
            },
        try_start(r, inputs).casts == seq![
            lobby(try_start(r, inputs).room),
            state_change(RracerState::Countdown),
            ServerMsgView::Countdown { passage: inputs.passage },
        ],
{
    let n = seats_to_fill(r.players.len() as int);
    assert(n == bots_wanted(r, inputs.seeds.len() as int));
    lemma_seat_bots_fills(r.players, r.id, inputs.seeds, n);
    lemma_try_start_wf(r, inputs);
}

/// The second person to enter starts the race. Where a waiting room holds
/// one person and nobody else, and another person enters under an id of
/// their own, with three seeds at hand and no seat taken, the room counts
/// down with the passage given and holds five players: two people and three
/// simulated players.
pub proof fn lemma_second_human_starts_the_countdown(
    r: RoomView,
    p: PlayerView,
    inputs: StartInputsView,
)
    requires
        wf(r),
        r.state == RracerState::Waiting,
        r.players.len() == 1,
        !r.players[0].is_bot(),
        !p.is_bot(),
        p.id != r.players[0].id,
        inputs.seeds.len() >= 3,
        seats_are_free(put(r.players, p), r.id, inputs.seeds, 3),
    ensures
        add_player(r, p, inputs).room.state == RracerState::Countdown,
        add_player(r, p, inputs).room.passage == Some(inputs.passage),
        add_player(r, p, inputs).room.countdown_start == Some(inputs.now),
        add_player(r, p, inputs).room.players.len() == 5,
        humans(add_player(r, p, inputs).room.players).len() == 2,
        bots(add_player(r, p, inputs).room.players).len() == 3,
        add_player(r, p, inputs).room.players == seq![r.players[0], p] + fresh_bots(
            r.id,
            inputs.seeds,
            3,
        ),
{
    reveal(Seq::filter);
    assert(!has_player(r.players, p.id)) by {
        if has_player(r.players, p.id) {
            let k = index_of(r.players, p.id);
            assert(k == 0);
        }
    }
    let seated = RoomView { players: put(r.players, p), ..r };
    lemma_put(r.players, p);
    assert(seated.players =~= seq![r.players[0], p]);
    assert(seated.players.drop_last() =~= seq![r.players[0]]);
    assert(seq![r.players[0]].drop_last() =~= Seq::<PlayerView>::empty());
    assert(humans(seq![r.players[0]]) =~= seq![r.players[0]]);
    assert(humans(seated.players) =~= seq![r.players[0], p]);
    assert(can_start(seated));
    let after = seat_bots(seated.players, seated.id, inputs.seeds, 3);
    assert(bots_wanted(seated, inputs.seeds.len() as int) == 3);
    lemma_seat_bots_fills(seated.players, seated.id, inputs.seeds, 3);
    lemma_humans_and_bots(after);
}

/// Whether a message announces that a race is finished.
pub open spec fn is_finished_notice(m: ServerMsgView) -> bool {
    m == state_change(RracerState::Finished)
}

/// How many of `casts` announce that a race is finished.
pub open spec fn finished_notices(casts: Seq<ServerMsgView>) -> nat {
    casts.filter(|m: ServerMsgView| is_finished_notice(m)).len()
}

/// What `op` publishes in the room `r`.
pub open spec fn casts_of(r: RoomView, op: RaceOp) -> Seq<ServerMsgView> {
    match op {
        RaceOp::Key { id, ch, ts } => keystroke(r, id, ch, ts).casts,
        RaceOp::Progress { id, pos } => sync_progress(r, id, pos).casts,
        RaceOp::Finish { id, wpm, accuracy } => report_finish(r, id, wpm, accuracy).casts,
        RaceOp::Tick { now } => tick(r, now).casts,
        RaceOp::Bot { run, now } => bot_step(r, run, now).casts,
    }
}

/// What all of `ops` publish, one after the other, from the room `r` on.
pub open spec fn casts_of_all(r: RoomView, ops: Seq<RaceOp>) -> Seq<ServerMsgView>
    decreases ops.len(),
{
    if ops.len() == 0 {
        Seq::empty()
    } else {
        casts_of_all(r, ops.drop_last()) + casts_of(applied_all(r, ops.drop_last()), ops.last())
    }
}

/// The announcements in two lists of messages add up.
pub proof fn lemma_notices_add(a: Seq<ServerMsgView>, b: Seq<ServerMsgView>)
    ensures
        finished_notices(a + b) == finished_notices(a) + finished_notices(b),
{
    Seq::filter_distributes_over_add(a, b, |m: ServerMsgView| is_finished_notice(m));
}

/// A single message is one announcement or none.
pub proof fn lemma_notices_one(m: ServerMsgView)
    ensures
        finished_notices(seq![m]) == (if is_finished_notice(m) {
            1nat
        } else {
            0nat
        }),
        finished_notices(Seq::<ServerMsgView>::empty()) == 0,
{
    reveal(Seq::filter);
    let notice = |m: ServerMsgView| is_finished_notice(m);
    let none = Seq::<ServerMsgView>::empty();
    assert(none.filter(notice) =~= none);
    assert(seq![m].drop_last() =~= none);
    assert(seq![m].last() == m);
    assert(seq![m].filter(notice) =~= if is_finished_notice(m) {
        seq![m]
    } else {
        none
    });
}

/// Ending a race announces it exactly when the state changes.
pub proof fn lemma_settle_notices(r: RoomView)
    ensures
        finished_notices(settle(r).casts) == (if r.state == RracerState::Racing && settle(
            r,
        ).room.state == RracerState::Finished {
            1nat
        } else {
            0nat
        }),
        r.state != RracerState::Racing ==> settle(r).room == r,
{
    lemma_notices_one(state_change(RracerState::Finished));
}

/// An operation of a race announces that the race is finished exactly when
/// it finishes the race: once where the room goes from racing to finished,
/// and not at all otherwise.
pub proof fn lemma_op_notices(r: RoomView, op: RaceOp)
    requires
        wf(r),
        passage_len(r) <= usize::MAX,
        op_wf(op),
        r.state == RracerState::Racing || r.state == RracerState::Finished,
    ensures
        finished_notices(casts_of(r, op)) == (if r.state == RracerState::Racing && applied(
            r,
            op,
        ).state == RracerState::Finished {
            1nat
        } else {
            0nat
        }),
{
    let none = Seq::<ServerMsgView>::empty();
    lemma_notices_one(state_change(RracerState::Finished));
    match op {
        RaceOp::Key { id, ch, ts } => {
            match verdict(r, id, ts) {
                KeyVerdict::NotRacing | KeyVerdict::Bot | KeyVerdict::TooSoon => {},
                KeyVerdict::Unknown => {
                    lemma_settle_notices(r);
                },
                KeyVerdict::TooFast => {
                    lemma_notices_one(
                        ServerMsgView::Error { message: crate::protocol::suspicious_speed_text() },
                    );
                },
                KeyVerdict::Scored => {
                    let i = index_of(r.players, id);
                    let before = stamped(r.players[i], ts);
                    let after = scored(before, r.passage.unwrap(), ch, ts);
                    let typed = RoomView { players: r.players.update(i, after), ..r };
                    let said = crate::model::score_casts(before, after, ts, passage_len(r));
                    lemma_settle_notices(typed);
                    lemma_notices_add(said, settle(typed).casts);
                    if said.len() > 0 {
                        lemma_notices_one(said[0]);
                        assert(said =~= seq![said[0]]);
                    }
                },
            }
        },
        RaceOp::Progress { id, pos } => {
            let said = sync_progress(r, id, pos).casts;
            if said.len() > 0 {
                lemma_notices_one(said[0]);
                assert(said =~= seq![said[0]]);
            }
        },
        RaceOp::Finish { id, wpm, accuracy } => {
            if has_player(r.players, id) {
                let i = index_of(r.players, id);
                let p = r.players[i];
                let marked = RoomView {
                    players: r.players.update(i, PlayerView { finished: true, ..p }),
                    ..r
                };
                let first = ServerMsgView::Finish { id: p.name, wpm, accuracy };
                lemma_notices_one(first);
                lemma_settle_notices(marked);
                lemma_notices_add(seq![first], settle(marked).casts);
            }
        },
        RaceOp::Tick { now } => {},
        RaceOp::Bot { run, now } => {
            if run_is_live(r, run) {
                let moved = advanced(run, now, passage_len(r));
                let pos = run_position(moved) as usize;
                let progress = ServerMsgView::Progress { id: run.name, pos };
                lemma_notices_one(progress);
                if pos >= passage_len(r) {
                    let i = index_of(r.players, run.id);
                    let marked = RoomView {
                        players: r.players.update(
                            i,
                            PlayerView { finished: true, position: pos, ..r.players[i] },
                        ),
                        ..r
                    };
                    let result = ServerMsgView::Finish {
                        id: run.name,
                        wpm: run.speed as i64,
                        accuracy: crate::scoring::FULL_ACCURACY,
                    };
                    lemma_notices_one(result);
                    lemma_notices_add(seq![progress], seq![result]);
                    assert(seq![progress] + seq![result] =~= seq![progress, result]);
                    lemma_settle_notices(marked);
                    lemma_notices_add(seq![progress, result], settle(marked).casts);
                }
            }
        },
    }
}

/// A race is announced as finished exactly once. Whatever keystrokes,
/// reports, steps of simulated players and ticks arrive in a racing room, in
/// whatever order, all that they publish holds the announcement once if the
/// race is finished at the end, and not at all if it is still on; and a race
/// that is finished stays finished.
pub proof fn lemma_finished_is_announced_once(r: RoomView, ops: Seq<RaceOp>)
    requires
        wf(r),
        passage_len(r) <= usize::MAX,
        forall|i: int| 0 <= i < ops.len() ==> op_wf(#[trigger] ops[i]),
        r.state == RracerState::Racing,
    ensures
        applied_all(r, ops).state == RracerState::Racing || applied_all(r, ops).state
            == RracerState::Finished,
        finished_notices(casts_of_all(r, ops)) == (if applied_all(r, ops).state
            == RracerState::Finished {
            1nat
        } else {
            0nat
        }),
        finished_notices(casts_of_all(r, ops)) <= 1,
    decreases ops.len(),
{
    if ops.len() == 0 {
        lemma_notices_one(state_change(RracerState::Finished));
    } else {
        let front = ops.drop_last();
        assert forall|i: int| 0 <= i < front.len() implies op_wf(#[trigger] front[i]) by {
            assert(front[i] == ops[i]);
        }
        lemma_finished_is_announced_once(r, front);
        lemma_position_never_decreases(r, front);
        let mid = applied_all(r, front);
        assert(op_wf(ops[ops.len() - 1]));
        assert(passage_len(mid) == passage_len(r));
        lemma_a_race_ends_once(mid, ops.last());
        lemma_op_notices(mid, ops.last());
        lemma_notices_add(casts_of_all(r, front), casts_of(mid, ops.last()));
    }
}

} // verus!
