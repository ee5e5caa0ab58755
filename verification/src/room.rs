//! A room: one race with its players, its passage and its timers.
//!
//! Every operation takes what arrives as plain values and returns the
//! messages to publish, in order. What each does is stated in `model`.

use crate::bots::BotRun;
use crate::fsm::RracerEvent;
use crate::fsm::RracerState;
use crate::inputs::BotSeed;
use crate::inputs::StartInputs;
use crate::laws;
use crate::model;
use crate::model::BotOutcome;
use crate::model::BotRunView;
use crate::model::COUNTDOWN_MS;
use crate::model::MIN_HUMANS;
use crate::model::RoomView;
use crate::model::SPEED_WINDOW_MS;
use crate::model::TARGET_OCCUPANCY;
use crate::model::WPM_CEILING;
use crate::player::MIN_KEY_INTERVAL_MS;
use crate::player::Player;
use crate::player::PlayerView;
use crate::protocol::casts;
use crate::protocol::ServerMsg;
use crate::protocol::ServerMsgView;
use crate::protocol::texts;
use crate::scoring::FULL_ACCURACY;
use crate::scoring::net_wpm_milli;
use crate::scoring::speed_exceeds;
use crate::scoring::typed_accuracy_milli;
use crate::table;
use vstd::prelude::*;

verus! {

/// A list of players as mathematical values.
pub open spec fn table_of(players: Seq<Player>) -> Seq<PlayerView> {
    players.map_values(|p: Player| p@)
}

/// One race with its players.
pub struct Room {
    id: String,
    state: RracerState,
    players: Vec<Player>,
    passage: Option<String>,
    countdown_start: Option<u64>,
    waiting_start: Option<u64>,
    last_timer_second: u64,
}

impl View for Room {
    type V = RoomView;

    closed spec fn view(&self) -> RoomView {
        RoomView {
            id: self.id@,
            state: self.state,
            players: table_of(self.players@),
            passage: match self.passage {
                Some(p) => Some(p@),
                None => None,
            },
            countdown_start: self.countdown_start,
            waiting_start: self.waiting_start,
            last_timer_second: self.last_timer_second,
        }
    }
}

/// Where the player known by `id` stands in `players`.
fn find_player(players: &Vec<Player>, id: &str) -> (found: Option<usize>)
    ensures
        match found {
            Some(i) => i < players@.len() && players@[i as int].id@ == id@,
            None => !table::has_player(table_of(players@), id@),
        },
        table::ids_unique(table_of(players@)) && found is Some ==> table::has_player(
            table_of(players@),
            id@,
        ) && table::index_of(table_of(players@), id@) == found->0,
{
    let wanted = id.to_owned();
    let mut i: usize = 0;
    while i < players.len()
        invariant
            i <= players@.len(),
            wanted@ == id@,
            forall|k: int| 0 <= k < i ==> (#[trigger] table_of(players@)[k]).id != id@,
        decreases players@.len() - i,
    {
        if players[i].id == wanted {
            proof {
                assert(table_of(players@)[i as int].id == id@);
                if table::ids_unique(table_of(players@)) {
                    table::lemma_index_of(table_of(players@), i as int);
                }
            }
            return Some(i);
        }
        i += 1;
    }
    None
}

/// Puts `p` into `players`: in the place of the entry with the same id where
/// there is one, else at the end.
fn put_player(players: &mut Vec<Player>, p: Player)
    requires
        table::ids_unique(table_of(old(players)@)),
    ensures
        table_of(final(players)@) == table::put(table_of(old(players)@), p@),
{
    match find_player(players, p.id.as_str()) {
        Some(i) => {
            players.set(i, p);
            assert(table_of(players@) =~= table::put(table_of(old(players)@), p@));
        },
        None => {
            players.push(p);
            assert(table_of(players@) =~= table::put(table_of(old(players)@), p@));
        },
    }
}

/// The display names of `players`, in their order.
fn names_of(players: &Vec<Player>) -> (out: Vec<String>)
    ensures
        texts(out@) == table::names(table_of(players@)),
{
    let mut out: Vec<String> = Vec::new();
    let mut i: usize = 0;
    while i < players.len()
        invariant
            i <= players@.len(),
            out@.len() == i,
            forall|k: int| 0 <= k < i ==> (#[trigger] out@[k])@ == players@[k].name@,
        decreases players@.len() - i,
    {
        out.push(players[i].name.clone());
        i += 1;
    }
    assert(texts(out@) =~= table::names(table_of(players@)));
    out
}

/// The number of people among `players`.
fn count_humans(players: &Vec<Player>) -> (n: usize)
    ensures
        n == table::humans(table_of(players@)).len(),
{
    let mut n: usize = 0;
    let mut i: usize = 0;
    proof {
        reveal(Seq::filter);
        assert(table_of(players@).take(0) =~= Seq::<PlayerView>::empty());
    }
    while i < players.len()
        invariant
            i <= players@.len(),
            n <= i,
            n == table::humans(table_of(players@).take(i as int)).len(),
        decreases players@.len() - i,
    {
        proof {
            reveal(Seq::filter);
            let next = table_of(players@).take(i as int + 1);
            assert(next.drop_last() =~= table_of(players@).take(i as int));
            assert(next.last() == players@[i as int]@);
        }
        if !players[i].is_bot() {
            n += 1;
        }
        i += 1;
    }
    assert(table_of(players@).take(i as int) =~= table_of(players@));
    n
}

/// Whether every one of `players` has completed the passage.
fn everyone_finished(players: &Vec<Player>) -> (all: bool)
    ensures
        all == table::all_finished(table_of(players@)),
{
    let mut i: usize = 0;
    while i < players.len()
        invariant
            i <= players@.len(),
            forall|k: int| 0 <= k < i ==> (#[trigger] table_of(players@)[k]).finished,
        decreases players@.len() - i,
    {
        if !players[i].finished {
            assert(!table_of(players@)[i as int].finished);
            return false;
        }
        i += 1;
    }
    true
}

/// Rests every one of `players`.
fn rest_all(players: &mut Vec<Player>)
    ensures
        table_of(final(players)@) == table::all_rested(table_of(old(players)@)),
{
    let mut i: usize = 0;
    while i < players.len()
        invariant
            i <= players@.len(),
            players@.len() == old(players)@.len(),
            forall|k: int| 0 <= k < i ==> (#[trigger] players@[k])@ == old(players)@[k]@.rested(),
            forall|k: int| i <= k < players@.len() ==> (#[trigger] players@[k]) == old(players)@[k],
        decreases players@.len() - i,
    {
        players[i].reset_race_fields();
        i += 1;
    }
    assert(table_of(players@) =~= table::all_rested(table_of(old(players)@)));
}

impl Room {
    /// Whether the room is well-formed: see `model::wf`.
    pub open spec fn wf(&self) -> bool {
        model::wf(self@)
    }

    /// A room that nobody has entered yet: it waits, without a passage.
    pub fn new(id: String) -> (room: Room)
        ensures
            room@ == model::fresh(id@),
            room.wf(),
    {
        let room = Room {
            id,
            state: RracerState::Waiting,
            players: Vec::new(),
            passage: None,
            countdown_start: None,
            waiting_start: None,
            last_timer_second: 0,
        };
        assert(table_of(room.players@) =~= Seq::<PlayerView>::empty());
        room
    }

    /// The name of the room.
    pub fn id(&self) -> (id: &str)
        ensures
            id@ == self@.id,
    {
        self.id.as_str()
    }

    /// The state of the room.
    pub fn state(&self) -> (state: RracerState)
        ensures
            state == self@.state,
    {
        self.state
    }

    /// The passage of the current race, if there is one.
    pub fn passage(&self) -> (passage: Option<&str>)
        ensures
            match passage {
                Some(p) => self@.passage == Some(p@),
                None => self@.passage is None,
            },
    {
        match &self.passage {
            Some(p) => Some(p.as_str()),
            None => None,
        }
    }

    /// When the countdown started, if it has.
    pub fn countdown_start(&self) -> (start: Option<u64>)
        ensures
            start == self@.countdown_start,
    {
        self.countdown_start
    }

    /// The number of players in the room, simulated ones included.
    pub fn player_count(&self) -> (n: usize)
        ensures
            n == self@.players.len(),
    {
        self.players.len()
    }

    /// The number of people in the room.
    pub fn human_count(&self) -> (n: usize)
        ensures
            n == table::humans(self@.players).len(),
    {
        count_humans(&self.players)
    }

    /// A copy of the player known by `id`, if there is one.
    pub fn player(&self, id: &str) -> (p: Option<Player>)
        requires
            self.wf(),
        ensures
            match p {
                Some(p) => table::has_player(self@.players, id@) && p@ == self@.players[table::index_of(
                    self@.players,
                    id@,
                )],
                None => !table::has_player(self@.players, id@),
            },
    {
        match find_player(&self.players, id) {
            Some(i) => Some(self.players[i].duplicate()),
            None => None,
        }
    }

    /// Copies of all players, in the order of their arrival.
    pub fn players(&self) -> (all: Vec<Player>)
        ensures
            table_of(all@) == self@.players,
    {
        let mut all: Vec<Player> = Vec::new();
        let mut i: usize = 0;
        while i < self.players.len()
            invariant
                i <= self.players@.len(),
                all@.len() == i,
                forall|k: int| 0 <= k < i ==> (#[trigger] all@[k])@ == self.players@[k]@,
            decreases self.players@.len() - i,
        {
            all.push(self.players[i].duplicate());
            i += 1;
        }
        assert(table_of(all@) =~= table_of(self.players@));
        all
    }

    /// The lobby roster: the display names of all players.
    pub fn broadcast_lobby(&self) -> (msg: ServerMsg)
        ensures
            msg@ == model::lobby(self@),
    {
        ServerMsg::Lobby { players: names_of(&self.players) }
    }
}

/// Adds `msg` to the end of `out`.
fn emit(out: &mut Vec<ServerMsg>, msg: ServerMsg)
    ensures
        casts(final(out)@) == casts(old(out)@).push(msg@),
{
    out.push(msg);
    assert(casts(out@) =~= casts(old(out)@).push(msg@));
}

/// The announcement that a room has entered `state`.
fn state_change(state: RracerState) -> (msg: ServerMsg)
    ensures
        msg@ == model::state_change(state),
{
    ServerMsg::StateChange { state: state.name().to_owned() }
}

/// The simulated player number `i` of the room `room`, made from `seed`.
fn make_bot(room: &str, i: usize, seed: &BotSeed) -> (bot: Player)
    requires
        i < 9,
    ensures
        bot@ == model::bot_from(room@, i as int, seed@),
        bot@.wf(),
{
    let mut id = "bot-".to_owned();
    id.append(room);
    id.append("-");
    id.append(crate::text::digit_str(i));
    id.append("-");
    id.append(seed.token.as_str());
    let mut name = "Bot ".to_owned();
    name.append(crate::text::digit_str(i + 1));
    Player::bot(id, name, seed.speed)
}

/// Copies of the people among `players`, in their order.
fn humans_only(players: &Vec<Player>) -> (kept: Vec<Player>)
    ensures
        table_of(kept@) == table::humans(table_of(players@)),
{
    let mut kept: Vec<Player> = Vec::new();
    let mut i: usize = 0;
    proof {
        reveal(Seq::filter);
        assert(table_of(players@).take(0) =~= Seq::<PlayerView>::empty());
        assert(table_of(kept@) =~= Seq::<PlayerView>::empty());
    }
    while i < players.len()
        invariant
            i <= players@.len(),
            table_of(kept@) == table::humans(table_of(players@).take(i as int)),
        decreases players@.len() - i,
    {
        proof {
            reveal(Seq::filter);
            let next = table_of(players@).take(i as int + 1);
            assert(next.drop_last() =~= table_of(players@).take(i as int));
            assert(next.last() == players@[i as int]@);
        }
        if !players[i].is_bot() {
            let ghost before = kept@;
            kept.push(players[i].duplicate());
            assert(table_of(kept@) =~= table_of(before).push(players@[i as int]@));
        }
        i += 1;
    }
    assert(table_of(players@).take(i as int) =~= table_of(players@));
    kept
}

/// The runs of the simulated players among `players`, starting at `now`.
fn runs_from(players: &Vec<Player>, now: u64) -> (runs: Vec<BotRun>)
    ensures
        runs_view(runs@) == model::runs_of(table_of(players@), now),
{
    let mut runs: Vec<BotRun> = Vec::new();
    let mut i: usize = 0;
    let ghost is_bot = |p: PlayerView| p.is_bot();
    let ghost to_run = |p: PlayerView| model::run_of(p, now);
    proof {
        reveal(Seq::filter);
        assert(table_of(players@).take(0) =~= Seq::<PlayerView>::empty());
        assert(runs_view(runs@) =~= Seq::<BotRunView>::empty());
        assert(table_of(players@).take(0).filter(is_bot).map_values(to_run) =~= Seq::<
            BotRunView,
        >::empty());
    }
    while i < players.len()
        invariant
            i <= players@.len(),
            is_bot == (|p: PlayerView| p.is_bot()),
            to_run == (|p: PlayerView| model::run_of(p, now)),
            runs_view(runs@) == table_of(players@).take(i as int).filter(is_bot).map_values(to_run),
        decreases players@.len() - i,
    {
        let ghost head = table_of(players@).take(i as int);
        let ghost next = table_of(players@).take(i as int + 1);
        proof {
            reveal(Seq::filter);
            assert(next.drop_last() =~= head);
            assert(next.last() == players@[i as int]@);
        }
        match players[i].bot_speed() {
            Some(speed) => {
                let ghost before = runs@;
                runs.push(
                    BotRun {
                        id: players[i].id.clone(),
                        name: players[i].name.clone(),
                        speed,
                        progress: 0,
                        last: now,
                    },
                );
                proof {
                    assert(next.filter(is_bot) =~= head.filter(is_bot).push(players@[i as int]@));
                    assert(runs_view(runs@) =~= runs_view(before).push(
                        model::run_of(players@[i as int]@, now),
                    ));
                    assert(next.filter(is_bot).map_values(to_run) =~= head.filter(
                        is_bot,
                    ).map_values(to_run).push(model::run_of(players@[i as int]@, now)));
                }
            },
            None => {
                assert(next.filter(is_bot) =~= head.filter(is_bot));
            },
        }
        i += 1;
    }
    assert(table_of(players@).take(i as int) =~= table_of(players@));
    runs
}

/// A list of runs as mathematical values.
pub open spec fn runs_view(runs: Seq<BotRun>) -> Seq<BotRunView> {
    runs.map_values(|r: BotRun| r@)
}

impl Room {
    /// Sends the room back to the lobby: no passage, no timers, everyone
    /// rested.
    fn force_reset(&mut self)
        ensures
            final(self)@ == model::force_reset(old(self)@),
    {
        self.state = RracerState::Waiting;
        self.passage = None;
        self.countdown_start = None;
        self.waiting_start = None;
        self.last_timer_second = 0;
        rest_all(&mut self.players);
    }

    /// Ends the race once everyone in it has finished, and says so in `out`.
    fn settle(&mut self, out: &mut Vec<ServerMsg>)
        ensures
            final(self)@ == model::settle(old(self)@).room,
            casts(final(out)@) == casts(old(out)@) + model::settle(old(self)@).casts,
    {
        if self.players.len() > 0 && everyone_finished(&self.players) {
            match RracerState::transition(&self.state, &RracerEvent::AllDone) {
                Some(next) => {
                    self.state = next;
                    emit(out, state_change(next));
                    assert(casts(out@) =~= casts(old(out)@) + model::settle(old(self)@).casts);
                    return ;
                },
                None => {},
            }
        }
        assert(casts(out@) =~= casts(old(out)@) + model::settle(old(self)@).casts);
    }

    /// Starts the countdown where it may start, and publishes it in `out`.
    fn start_into(&mut self, inputs: &StartInputs, out: &mut Vec<ServerMsg>)
        requires
            old(self).wf(),
        ensures
            final(self)@ == model::try_start(old(self)@, inputs@).room,
            casts(final(out)@) == casts(old(out)@) + model::try_start(old(self)@, inputs@).casts,
    {
        let ghost before = self@;
        let waiting = match self.state {
            RracerState::Waiting => true,
            _ => false,
        };
        if !waiting || count_humans(&self.players) < MIN_HUMANS {
            assert(casts(out@) =~= casts(old(out)@) + model::try_start(before, inputs@).casts);
            return ;
        }
        match RracerState::transition(&self.state, &RracerEvent::Join) {
            Some(next) => {
                self.state = next;
            },
            None => {},
        }
        self.countdown_start = Some(inputs.now);
        self.passage = Some(inputs.passage.clone());
        let total = self.players.len();
        let missing: usize = if total >= TARGET_OCCUPANCY {
            0
        } else {
            TARGET_OCCUPANCY - total
        };
        let wanted: usize = if missing <= inputs.seeds.len() {
            missing
        } else {
            inputs.seeds.len()
        };
        assert(wanted == model::bots_wanted(before, inputs@.seeds.len() as int));
        let mut i: usize = 0;
        while i < wanted
            invariant
                i <= wanted <= 5,
                wanted <= inputs.seeds@.len(),
                table::ids_unique(before.players),
                self.id@ == before.id,
                self.state == RracerState::Countdown,
                self.countdown_start == Some(inputs.now),
                self.passage matches Some(p) && p@ == inputs.passage@,
                self.waiting_start == before.waiting_start,
                self.last_timer_second == before.last_timer_second,
                table_of(self.players@) == model::seat_bots(
                    before.players,
                    before.id,
                    inputs@.seeds,
                    i as int,
                ),
            decreases wanted - i,
        {
            proof {
                laws::lemma_seat_bots_ids(before.players, before.id, inputs@.seeds, i as int);
            }
            let bot = make_bot(self.id.as_str(), i, &inputs.seeds[i]);
            assert(inputs@.seeds[i as int] == inputs.seeds@[i as int]@);
            put_player(&mut self.players, bot);
            i += 1;
        }
        assert(self@ == model::started(before, inputs@));
        emit(out, self.broadcast_lobby());
        emit(out, state_change(RracerState::Countdown));
        emit(out, ServerMsg::Countdown { passage: inputs.passage.clone() });
        assert(casts(out@) =~= casts(old(out)@) + model::try_start(before, inputs@).casts);
    }

    /// Starts the countdown if the room waits and holds at least two people:
    /// stamps the time, sets the passage, fills the room up to five players
    /// with simulated ones, and publishes the roster, the new state and the
    /// passage. Otherwise nothing happens.
    pub fn try_start_countdown(&mut self, inputs: &StartInputs) -> (out: Vec<ServerMsg>)
        requires
            old(self).wf(),
        ensures
            final(self).wf(),
            final(self)@ == model::try_start(old(self)@, inputs@).room,
            casts(out@) == model::try_start(old(self)@, inputs@).casts,
            table::humans(old(self)@.players).len() < 2 ==> final(self)@ == old(self)@ && out@.len()
                == 0,
    {
        let mut out: Vec<ServerMsg> = Vec::new();
        proof {
            laws::lemma_try_start_wf(self@, inputs@);
            assert(casts(out@) =~= Seq::<ServerMsgView>::empty());
        }
        self.start_into(inputs, &mut out);
        assert(casts(out@) =~= model::try_start(old(self)@, inputs@).casts);
        out
    }

    /// Admits `player`, who enters the table as they are and must stand
    /// within the passage of the room. A finished room then goes back to the
    /// lobby, with everyone rested; then the countdown starts where it may;
    /// the roster is published in any case.
    pub fn add_player(&mut self, player: Player, inputs: &StartInputs) -> (out: Vec<ServerMsg>)
        requires
            old(self).wf(),
            player@.wf(),
            player@.position <= model::passage_len(old(self)@),
        ensures
            final(self).wf(),
            final(self)@ == model::add_player(old(self)@, player@, inputs@).room,
            casts(out@) == model::add_player(old(self)@, player@, inputs@).casts,
            table::has_player(final(self)@.players, player@.id),
            out@.len() >= 1,
            old(self)@.state == RracerState::Countdown || old(self)@.state == RracerState::Racing
                ==> final(self)@ == (RoomView {
                players: table::put(old(self)@.players, player@),
                ..old(self)@
            }) && casts(out@) == seq![model::lobby(final(self)@)],
    {
        let ghost before = self@;
        let mut out: Vec<ServerMsg> = Vec::new();
        proof {
            laws::lemma_add_player_wf(before, player@, inputs@);
            laws::lemma_put_within(before.players, player@, model::passage_len(before));
            assert(casts(out@) =~= Seq::<ServerMsgView>::empty());
        }
        put_player(&mut self.players, player);
        let ghost seated = self@;
        let finished = match self.state {
            RracerState::Finished => true,
            _ => false,
        };
        if finished {
            proof {
                laws::lemma_force_reset(seated);
            }
            self.force_reset();
        }
        self.start_into(inputs, &mut out);
        emit(&mut out, self.broadcast_lobby());
        assert(casts(out@) =~= model::add_player(before, player@, inputs@).casts);
        out
    }

    /// Removes the player known by `player_id`. A room left empty goes back
    /// to the lobby, whatever its state was. The roster is published.
    pub fn remove_player(&mut self, player_id: &str) -> (out: Vec<ServerMsg>)
        requires
            old(self).wf(),
        ensures
            final(self).wf(),
            final(self)@ == model::remove_player(old(self)@, player_id@).room,
            casts(out@) == model::remove_player(old(self)@, player_id@).casts,
            !table::has_player(final(self)@.players, player_id@),
    {
        let ghost before = self@;
        let mut out: Vec<ServerMsg> = Vec::new();
        proof {
            laws::lemma_remove_player_wf(before, player_id@);
            assert(casts(out@) =~= Seq::<ServerMsgView>::empty());
        }
        match find_player(&self.players, player_id) {
            Some(i) => {
                let gone = self.players.remove(i);
                assert(table_of(self.players@) =~= table::without(before.players, player_id@));
            },
            None => {},
        }
        if self.players.len() == 0 {
            self.force_reset();
        }
        emit(&mut out, self.broadcast_lobby());
        assert(casts(out@) =~= model::remove_player(before, player_id@).casts);
        out
    }

    /// Answers a request to return to the lobby. Only a finished room
    /// follows it: simulated players leave, the people are rested, the new
    /// state and the roster are published, and the countdown starts again
    /// where it may. Any other room is left as it is and publishes nothing.
    pub fn reset(&mut self, inputs: &StartInputs) -> (out: Vec<ServerMsg>)
        requires
            old(self).wf(),
        ensures
            final(self).wf(),
            final(self)@ == model::reset(old(self)@, inputs@).room,
            casts(out@) == model::reset(old(self)@, inputs@).casts,
    {
        let ghost before = self@;
        let mut out: Vec<ServerMsg> = Vec::new();
        proof {
            laws::lemma_reset_wf(before, inputs@);
            assert(casts(out@) =~= Seq::<ServerMsgView>::empty());
        }
        match RracerState::transition(&self.state, &RracerEvent::Reset) {
            Some(next) => {
                self.players = humans_only(&self.players);
                let ghost kept = self@;
                proof {
                    table::lemma_humans(before.players);
                    laws::lemma_force_reset(kept);
                }
                self.force_reset();
                emit(&mut out, state_change(next));
                emit(&mut out, self.broadcast_lobby());
                self.start_into(inputs, &mut out);
                assert(casts(out@) =~= model::reset(before, inputs@).casts);
            },
            None => {},
        }
        out
    }

    /// Lets time pass. A countdown that has lasted its full length gives way
    /// to the race: the room publishes the passage with `now` as the origin
    /// of the race, and hands back the runs of its simulated players.
    /// Nothing else depends on time.
    pub fn tick(&mut self, now: u64) -> (out: (Vec<ServerMsg>, Vec<BotRun>))
        requires
            old(self).wf(),
        ensures
            final(self).wf(),
            final(self)@ == model::tick(old(self)@, now).room,
            casts(out.0@) == model::tick(old(self)@, now).casts,
            runs_view(out.1@) == (if model::countdown_over(old(self)@, now) {
                model::runs_of(old(self)@.players, now)
            } else {
                Seq::<BotRunView>::empty()
            }),
    {
        let ghost before = self@;
        let mut out: Vec<ServerMsg> = Vec::new();
        let mut runs: Vec<BotRun> = Vec::new();
        proof {
            laws::lemma_tick_wf(before, now);
            assert(casts(out@) =~= Seq::<ServerMsgView>::empty());
            assert(runs_view(runs@) =~= Seq::<BotRunView>::empty());
        }
        let counting = match self.state {
            RracerState::Countdown => true,
            _ => false,
        };
        if counting {
            match self.countdown_start {
                Some(start) => {
                    if now >= start && now - start >= COUNTDOWN_MS {
                        match RracerState::transition(
                            &self.state,
                            &RracerEvent::CountdownElapsed,
                        ) {
                            Some(next) => {
                                self.state = next;
                                match &self.passage {
                                    Some(passage) => {
                                        emit(
                                            &mut out,
                                            ServerMsg::Start { passage: passage.clone(), t0: now },
                                        );
                                    },
                                    None => {},
                                }
                                runs = self.start_bots(now);
                                assert(casts(out@) =~= model::tick(before, now).casts);
                            },
                            None => {},
                        }
                    }
                },
                None => {},
            }
        }
        (out, runs)
    }

    /// The runs of the simulated players of the room, starting at `now`: one
    /// for each, in table order, with no way made yet. A room without a
    /// passage sets nobody going.
    pub fn start_bots(&self, now: u64) -> (runs: Vec<BotRun>)
        ensures
            runs_view(runs@) == model::launched(self@, now),
            self@.passage is None ==> runs@.len() == 0,
            self@.passage is Some ==> runs_view(runs@) == model::runs_of(self@.players, now),
    {
        match &self.passage {
            Some(_) => runs_from(&self.players, now),
            None => {
                let runs: Vec<BotRun> = Vec::new();
                assert(runs_view(runs@) =~= Seq::<BotRunView>::empty());
                runs
            },
        }
    }

    /// Takes over a position that a client reports for itself, where it lies
    /// within the passage and not behind the position known, and publishes
    /// it. Any other report is passed over.
    pub fn update_player_progress(&mut self, player_id: &str, position: usize) -> (out: Vec<
        ServerMsg,
    >)
        requires
            old(self).wf(),
        ensures
            final(self).wf(),
            final(self)@ == model::sync_progress(old(self)@, player_id@, position).room,
            casts(out@) == model::sync_progress(old(self)@, player_id@, position).casts,
    {
        let ghost before = self@;
        let mut out: Vec<ServerMsg> = Vec::new();
        proof {
            laws::lemma_sync_progress_wf(before, player_id@, position);
            assert(casts(out@) =~= Seq::<ServerMsgView>::empty());
        }
        let len = self.passage_length();
        match find_player(&self.players, player_id) {
            Some(i) => {
                if self.players[i].position <= position && position <= len {
                    self.players[i].position = position;
                    assert(table_of(self.players@) =~= before.players.update(
                        i as int,
                        PlayerView { position, ..before.players[i as int] },
                    ));
                    emit(
                        &mut out,
                        ServerMsg::Progress { id: self.players[i].name.clone(), pos: position },
                    );
                    assert(casts(out@) =~= model::sync_progress(
                        before,
                        player_id@,
                        position,
                    ).casts);
                }
            },
            None => {},
        }
        out
    }

    /// Takes over a client's report that it has completed the passage: the
    /// player counts as finished, the result is published as reported, and
    /// the race ends if that was the last one.
    pub fn handle_player_finish(&mut self, player_id: &str, wpm: i64, accuracy: u64) -> (out: Vec<
        ServerMsg,
    >)
        requires
            old(self).wf(),
        ensures
            final(self).wf(),
            final(self)@ == model::report_finish(old(self)@, player_id@, wpm, accuracy).room,
            casts(out@) == model::report_finish(old(self)@, player_id@, wpm, accuracy).casts,
    {
        let ghost before = self@;
        let mut out: Vec<ServerMsg> = Vec::new();
        proof {
            laws::lemma_report_finish_wf(before, player_id@, wpm, accuracy);
            assert(casts(out@) =~= Seq::<ServerMsgView>::empty());
        }
        match find_player(&self.players, player_id) {
            Some(i) => {
                self.players[i].finished = true;
                assert(table_of(self.players@) =~= before.players.update(
                    i as int,
                    PlayerView { finished: true, ..before.players[i as int] },
                ));
                emit(
                    &mut out,
                    ServerMsg::Finish { id: self.players[i].name.clone(), wpm, accuracy },
                );
                self.settle(&mut out);
                assert(casts(out@) =~= model::report_finish(
                    before,
                    player_id@,
                    wpm,
                    accuracy,
                ).casts);
            },
            None => {},
        }
        out
    }

    /// Handles one keystroke of the player known by `player_id`, sent at
    /// `ts` by the client's clock.
    ///
    /// Outside a race, from a simulated player, or sooner than the minimum
    /// interval after the sender's last keystroke, it is passed over. At a
    /// speed beyond belief an error is shown and nothing changes. Otherwise
    /// it counts against the rate limit and is held against the
    /// passage: a match moves the sender on and publishes their position,
    /// or their result at the end of the passage; a miss is one more error.
    /// The race ends when everyone has finished.
    pub fn handle_keystroke(&mut self, player_id: &str, ch: char, ts: u64) -> (out: Vec<ServerMsg>)
        requires
            old(self).wf(),
        ensures
            final(self).wf(),
            final(self)@ == model::keystroke(old(self)@, player_id@, ch, ts).room,
            casts(out@) == model::keystroke(old(self)@, player_id@, ch, ts).casts,
            !model::accepted(old(self)@, player_id@, ts) ==> final(self)@.players == old(
                self,
            )@.players,
    {
        let ghost before = self@;
        let mut out: Vec<ServerMsg> = Vec::new();
        let len = self.passage_length();
        proof {
            laws::lemma_keystroke_wf(before, player_id@, ch, ts);
            laws::lemma_keystroke_acceptance(before, player_id@, ch, ts);
            assert(casts(out@) =~= Seq::<ServerMsgView>::empty());
        }
        let racing = match self.state {
            RracerState::Racing => true,
            _ => false,
        };
        if !racing {
            return out;
        }
        let i = match find_player(&self.players, player_id) {
            Some(i) => i,
            None => {
                self.settle(&mut out);
                assert(casts(out@) =~= model::keystroke(before, player_id@, ch, ts).casts);
                return out;
            },
        };
        let ghost p = before.players[i as int];
        assert(p == self.players@[i as int]@);
        assert(p.wf() && p.position <= len);
        if self.players[i].is_bot() {
            return out;
        }
        let last = self.players[i].last_keystroke;
        if ts < last || ts - last < MIN_KEY_INTERVAL_MS {
            return out;
        }
        match self.players[i].start_time {
            Some(start) => {
                let elapsed = ts - start;
                if elapsed > SPEED_WINDOW_MS && speed_exceeds(
                    self.players[i].position,
                    elapsed,
                    WPM_CEILING,
                ) {
                    emit(
                        &mut out,
                        ServerMsg::Error { message: "Suspicious typing speed detected".to_owned() },
                    );
                    assert(casts(out@) =~= model::keystroke(before, player_id@, ch, ts).casts);
                    return out;
                }
            },
            None => {},
        }
        assert(model::verdict(before, player_id@, ts) is Scored);
        self.players[i].last_keystroke = ts;
        self.players[i].keystroke_count += 1;
        let ghost stamped = model::stamped(p, ts);
        assert(self.players@[i as int]@ == stamped);
        let position = self.players[i].position;
        let ghost passage = before.passage.unwrap();
        let ghost after = model::scored(stamped, passage, ch, ts);
        if position < len {
            let expected = match &self.passage {
                Some(text) => text.as_str().get_char(position),
                None => ch,
            };
            if ch == expected {
                self.players[i].position = position + 1;
                let start = match self.players[i].start_time {
                    Some(start) => start,
                    None => ts,
                };
                self.players[i].start_time = Some(start);
                if position + 1 >= len {
                    self.players[i].finished = true;
                    assert(self.players@[i as int]@ == after);
                    let wpm = net_wpm_milli(position + 1, ts - start, self.players[i].errors);
                    let accuracy = typed_accuracy_milli(position + 1, self.players[i].errors);
                    emit(
                        &mut out,
                        ServerMsg::Finish { id: self.players[i].name.clone(), wpm, accuracy },
                    );
                } else {
                    assert(self.players@[i as int]@ == after);
                    emit(
                        &mut out,
                        ServerMsg::Progress { id: self.players[i].name.clone(), pos: position + 1 },
                    );
                }
            } else {
                self.players[i].errors += 1;
                assert(self.players@[i as int]@ == after);
            }
        }
        assert(self.players@[i as int]@ == after);
        assert(table_of(self.players@) =~= before.players.update(i as int, after));
        assert(casts(out@) =~= model::score_casts(stamped, after, ts, len as int));
        self.settle(&mut out);
        assert(casts(out@) =~= model::keystroke(before, player_id@, ch, ts).casts);
        out
    }

    /// One step of the simulated player that `run` belongs to, at `now`.
    ///
    /// A run whose player is no longer in a race, or has finished, is
    /// cancelled: nothing changes and nothing is published, so that a result
    /// is published once. Otherwise the run moves on and its
    /// position is published; at the end of the passage its nominal speed is
    /// published with full accuracy, the player counts as finished, and the
    /// race ends if that was the last one.
    pub fn bot_step(&mut self, run: &mut BotRun, now: u64) -> (out: (BotOutcome, Vec<ServerMsg>))
        requires
            old(self).wf(),
        ensures
            final(self).wf(),
            final(self)@ == model::bot_step(old(self)@, old(run)@, now).room,
            casts(out.1@) == model::bot_step(old(self)@, old(run)@, now).casts,
            out.0 == model::bot_outcome(old(self)@, old(run)@, now),
            final(run)@ == model::bot_run_after(old(self)@, old(run)@, now),
    {
        let ghost before = self@;
        let ghost run_before = run@;
        let mut out: Vec<ServerMsg> = Vec::new();
        let len = self.passage_length();
        proof {
            laws::lemma_bot_step_wf(before, run_before, now);
            assert(casts(out@) =~= Seq::<ServerMsgView>::empty());
        }
        let racing = match self.state {
            RracerState::Racing => true,
            _ => false,
        };
        if !racing {
            return (BotOutcome::Cancelled, out);
        }
        let i = match find_player(&self.players, run.id.as_str()) {
            Some(i) => i,
            None => {
                return (BotOutcome::Cancelled, out);
            },
        };
        assert(before.players[i as int] == self.players@[i as int]@);
        if !self.players[i].is_bot() || self.players[i].finished {
            return (BotOutcome::Cancelled, out);
        }
        let pos = run.advance(now, len);
        emit(&mut out, ServerMsg::Progress { id: run.name.clone(), pos });
        if pos >= len {
            emit(
                &mut out,
                ServerMsg::Finish {
                    id: run.name.clone(),
                    wpm: run.speed as i64,
                    accuracy: FULL_ACCURACY,
                },
            );
            self.players[i].finished = true;
            self.players[i].position = pos;
            assert(table_of(self.players@) =~= before.players.update(
                i as int,
                PlayerView { finished: true, position: pos, ..before.players[i as int] },
            ));
            self.settle(&mut out);
            assert(casts(out@) =~= model::bot_step(before, run_before, now).casts);
            (BotOutcome::Done, out)
        } else {
            assert(casts(out@) =~= model::bot_step(before, run_before, now).casts);
            (BotOutcome::Running, out)
        }
    }

    /// What brings a listener who has missed messages up to date: the
    /// roster, the passage if there is one, the state of the room, and the
    /// position of every player, in table order.
    pub fn snapshot(&self) -> (out: Vec<ServerMsg>)
        ensures
            casts(out@) == model::snapshot(self@),
    {
        let mut out: Vec<ServerMsg> = Vec::new();
        assert(casts(out@) =~= Seq::<ServerMsgView>::empty());
        emit(&mut out, self.broadcast_lobby());
        match &self.passage {
            Some(passage) => {
                emit(&mut out, ServerMsg::Countdown { passage: passage.clone() });
            },
            None => {},
        }
        emit(&mut out, state_change(self.state));
        let ghost head = casts(out@);
        let mut i: usize = 0;
        assert(model::standings(table_of(self.players@)).take(0) =~= Seq::<ServerMsgView>::empty());
        assert(casts(out@) =~= head + model::standings(table_of(self.players@)).take(0));
        while i < self.players.len()
            invariant
                i <= self.players@.len(),
                casts(out@) == head + model::standings(table_of(self.players@)).take(i as int),
            decreases self.players@.len() - i,
        {
            emit(
                &mut out,
                ServerMsg::Progress {
                    id: self.players[i].name.clone(),
                    pos: self.players[i].position,
                },
            );
            i += 1;
            assert(casts(out@) =~= head + model::standings(table_of(self.players@)).take(i as int));
        }
        assert(model::standings(table_of(self.players@)).take(i as int) =~= model::standings(
            table_of(self.players@),
        ));
        assert(casts(out@) =~= model::snapshot(self@));
        out
    }

    /// The length of the passage in characters; 0 where there is none.
    pub fn passage_length(&self) -> (len: usize)
        ensures
            len == model::passage_len(self@),
    {
        match &self.passage {
            Some(p) => p.as_str().unicode_len(),
            None => 0,
        }
    }
}

} // verus!
