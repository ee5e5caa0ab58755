//! The rooms of a server, by name, and what each message of a connection
//! does to them.
//!
//! A room comes into being when somebody first joins it, and stays. The
//! registry has one owner: every operation takes it by exclusive reference.

use crate::bots::BotRun;
use crate::clock::current_timestamp;
use crate::inputs::draw_start_inputs;
use crate::inputs::idle_inputs;
use crate::inputs::speeds_in_range;
use crate::inputs::StartInputs;
use crate::laws;
use crate::model;
use crate::model::BotOutcome;
use crate::model::BotRunView;
use crate::model::RoomView;
use crate::model::StartInputsView;
use crate::passages::is_bundled;
use crate::player::Player;
use crate::player::PlayerView;
use crate::protocol::casts;
use crate::protocol::ClientMsg;
use crate::protocol::ClientMsgView;
use crate::protocol::ServerMsg;
use crate::protocol::ServerMsgView;
use crate::room::Room;
use crate::room::runs_view;
use dashmap::DashMap;
use std::hash::RandomState;
use vstd::prelude::*;

verus! {

/// dashmap's `DashMap`: a hash map from keys to values. What a map of rooms
/// holds is spoken of through `rooms_in`.
#[verifier::external_type_specification]
#[verifier::external_body]
#[verifier::reject_recursive_types(K)]
#[verifier::reject_recursive_types(V)]
#[verifier::reject_recursive_types(S)]
pub struct ExDashMap<K, V, S>(DashMap<K, V, S>);

/// The rooms that a map holds, each under its key.
pub uninterp spec fn rooms_in(map: DashMap<String, Room, RandomState>) -> Map<Seq<char>, RoomView>;

/// No rooms.
pub open spec fn no_rooms() -> Map<Seq<char>, RoomView> {
    Map::empty()
}

/// `DashMap::new`: a map that holds nothing.
#[verifier::external_body]
fn rooms_new() -> (map: DashMap<String, Room, RandomState>)
    ensures
        rooms_in(map) == no_rooms(),
{
    DashMap::new()
}

/// `DashMap::contains_key`: whether the map holds an entry under `id`.
#[verifier::external_body]
fn rooms_has(map: &DashMap<String, Room, RandomState>, id: &str) -> (has: bool)
    ensures
        has == rooms_in(*map).dom().contains(id@),
{
    map.contains_key(id)
}

/// `DashMap::remove`: takes the entry under `id` out of the map and returns
/// its value; a map without such an entry stays as it is.
#[verifier::external_body]
fn rooms_take(map: &mut DashMap<String, Room, RandomState>, id: &str) -> (taken: Option<Room>)
    ensures
        match taken {
            Some(room) => rooms_in(*old(map)).dom().contains(id@) && room@ == rooms_in(*old(map))[id@]
                && rooms_in(*final(map)) == rooms_in(*old(map)).remove(id@),
            None => !rooms_in(*old(map)).dom().contains(id@) && rooms_in(*final(map)) == rooms_in(
                *old(map),
            ),
        },
{
    map.remove(id).map(|entry| entry.1)
}

/// `DashMap::insert`: puts `room` under `id`, in the place of what was there.
#[verifier::external_body]
fn rooms_put(map: &mut DashMap<String, Room, RandomState>, id: String, room: Room)
    ensures
        rooms_in(*final(map)) == rooms_in(*old(map)).insert(id@, room@),
{
    map.insert(id, room);
}

/// `DashMap::iter`, the keys copied out: every key of the map once, in no
/// order that could be named.
#[verifier::external_body]
fn rooms_ids(map: &DashMap<String, Room, RandomState>) -> (ids: Vec<String>)
    ensures
        forall|i: int| 0 <= i < ids@.len() ==> rooms_in(*map).dom().contains((#[trigger] ids@[i])@),
        forall|i: int, j: int|
            0 <= i < j < ids@.len() ==> (#[trigger] ids@[i])@ != (#[trigger] ids@[j])@,
        forall|id: Seq<char>|
            rooms_in(*map).dom().contains(id) ==> exists|i: int|
                0 <= i < ids@.len() && (#[trigger] ids@[i])@ == id,
{
    map.iter().map(|entry| entry.key().clone()).collect()
}

/// One connection: who it is, and the room it has entered.
#[derive(Debug)]
pub struct Connection {
    /// The id that the server has issued to the connection.
    pub player_id: String,
    /// The room that the connection has entered, if any.
    pub current_room: Option<String>,
}

/// A `Connection` as a mathematical value.
pub struct ConnectionView {
    pub player_id: Seq<char>,
    pub current_room: Option<Seq<char>>,
}

impl View for Connection {
    type V = ConnectionView;

    open spec fn view(&self) -> ConnectionView {
        ConnectionView {
            player_id: self.player_id@,
            current_room: match self.current_room {
                Some(r) => Some(r@),
                None => None,
            },
        }
    }
}

impl Connection {
    /// A connection that has entered no room yet.
    pub fn new(player_id: String) -> (conn: Connection)
        ensures
            conn@ == (ConnectionView { player_id: player_id@, current_room: None }),
    {
        Connection { player_id, current_room: None }
    }
}

/// What one room publishes, in order.
#[derive(Debug)]
pub struct RoomCast {
    /// The name of the room.
    pub room: String,
    /// The messages for everyone in it.
    pub msgs: Vec<ServerMsg>,
}

/// A `RoomCast` as a mathematical value.
pub struct RoomCastView {
    pub room: Seq<char>,
    pub casts: Seq<ServerMsgView>,
}

impl View for RoomCast {
    type V = RoomCastView;

    open spec fn view(&self) -> RoomCastView {
        RoomCastView { room: self.room@, casts: casts(self.msgs@) }
    }
}

/// A list of `RoomCast`s as mathematical values.
pub open spec fn room_casts(list: Seq<RoomCast>) -> Seq<RoomCastView> {
    list.map_values(|c: RoomCast| c@)
}

/// What the passing of time does to one room: what it publishes, and the
/// runs of the simulated players of a race that has just begun.
#[derive(Debug)]
pub struct RoomTick {
    /// The name of the room.
    pub room: String,
    /// The messages for everyone in it.
    pub msgs: Vec<ServerMsg>,
    /// The simulated players to set going.
    pub runs: Vec<BotRun>,
}

/// The rooms and a connection after a message, and what the rooms publish.
pub struct Outcome {
    pub rooms: Map<Seq<char>, RoomView>,
    pub conn: ConnectionView,
    pub casts: Seq<RoomCastView>,
}

/// What holds of every registry: each room is well-formed and stands under
/// its own name.
pub open spec fn rooms_wf(rooms: Map<Seq<char>, RoomView>) -> bool {
    forall|id: Seq<char>|
        rooms.dom().contains(id) ==> model::wf(#[trigger] rooms[id]) && rooms[id].id == id
}

/// The room that `conn` has entered, where it is known to the registry.
pub open spec fn room_of(rooms: Map<Seq<char>, RoomView>, conn: ConnectionView) -> Option<
    Seq<char>,
> {
    match conn.current_room {
        Some(r) => if rooms.dom().contains(r) {
            Some(r)
        } else {
            None
        },
        None => None,
    }
}

/// Applies `step` to the room that `conn` has entered. A connection that
/// has entered no room, or one that is not known, changes nothing.
pub open spec fn in_room(
    rooms: Map<Seq<char>, RoomView>,
    conn: ConnectionView,
    step: spec_fn(RoomView) -> model::Step,
) -> Outcome {
    match room_of(rooms, conn) {
        Some(r) => {
            let done = step(rooms[r]);
            Outcome {
                rooms: rooms.insert(r, done.room),
                conn,
                casts: seq![RoomCastView { room: r, casts: done.casts }],
            }
        },
        None => Outcome { rooms, conn, casts: Seq::empty() },
    }
}

/// The connection leaves the room it has entered: its player is removed
/// there. The connection itself still names the room.
pub open spec fn leave(rooms: Map<Seq<char>, RoomView>, conn: ConnectionView) -> Outcome {
    in_room(rooms, conn, |r: RoomView| model::remove_player(r, conn.player_id))
}

/// The connection enters `room` under the display name `name`: it leaves the
/// room it had entered, the room is made if it is not there yet, and the
/// connection's player is admitted to it.
pub open spec fn join(
    rooms: Map<Seq<char>, RoomView>,
    conn: ConnectionView,
    room: Seq<char>,
    name: Seq<char>,
    inputs: StartInputsView,
) -> Outcome {
    let left = leave(rooms, conn);
    let target = if left.rooms.dom().contains(room) {
        left.rooms[room]
    } else {
        model::fresh(room)
    };
    let entered = model::add_player(target, PlayerView::human(conn.player_id, name), inputs);
    Outcome {
        rooms: left.rooms.insert(room, entered.room),
        conn: ConnectionView { current_room: Some(room), ..conn },
        casts: left.casts.push(RoomCastView { room, casts: entered.casts }),
    }
}

/// What a message of a connection does.
pub open spec fn handle(
    rooms: Map<Seq<char>, RoomView>,
    conn: ConnectionView,
    msg: ClientMsgView,
    inputs: StartInputsView,
) -> Outcome {
    match msg {
        ClientMsgView::Join { room, name } => join(rooms, conn, room, name, inputs),
        ClientMsgView::Key { ch, ts } => in_room(
            rooms,
            conn,
            |r: RoomView| model::keystroke(r, conn.player_id, ch, ts),
        ),
        ClientMsgView::Progress { pos, ts } => in_room(
            rooms,
            conn,
            |r: RoomView| model::sync_progress(r, conn.player_id, pos),
        ),
        ClientMsgView::Finish { wpm, accuracy, time, ts } => in_room(
            rooms,
            conn,
            |r: RoomView| model::report_finish(r, conn.player_id, wpm, accuracy),
        ),
        ClientMsgView::Reset => in_room(rooms, conn, |r: RoomView| model::reset(r, inputs)),
    }
}

/// Whether a message may start a countdown: only entering a room and asking
/// for the lobby can.
pub open spec fn may_start(msg: ClientMsgView) -> bool {
    msg is Join || msg is Reset
}

/// Every room after time has moved to `now`.
pub open spec fn ticked(rooms: Map<Seq<char>, RoomView>, now: u64) -> Map<Seq<char>, RoomView> {
    rooms.map_values(|r: RoomView| model::tick(r, now).room)
}

/// Whether `tick` says what the passing of time to `now` does to the room
/// of that name in `rooms`.
pub open spec fn tick_matches(rooms: Map<Seq<char>, RoomView>, now: u64, tick: RoomTick) -> bool {
    &&& rooms.dom().contains(tick.room@)
    &&& casts(tick.msgs@) == model::tick(rooms[tick.room@], now).casts
    &&& runs_view(tick.runs@) == (if model::countdown_over(rooms[tick.room@], now) {
        model::runs_of(rooms[tick.room@].players, now)
    } else {
        Seq::<BotRunView>::empty()
    })
}

/// The rooms of a server, by name.
pub struct RoomRegistry {
    rooms: DashMap<String, Room, RandomState>,
}

impl View for RoomRegistry {
    type V = Map<Seq<char>, RoomView>;

    closed spec fn view(&self) -> Map<Seq<char>, RoomView> {
        rooms_in(self.rooms)
    }
}

impl RoomRegistry {
    /// Whether the registry is well-formed: see `rooms_wf`.
    pub open spec fn wf(&self) -> bool {
        rooms_wf(self@)
    }

    /// A registry without rooms.
    pub fn new() -> (registry: RoomRegistry)
        ensures
            registry@ == no_rooms(),
            registry.wf(),
    {
        RoomRegistry { rooms: rooms_new() }
    }

    /// Whether there is a room of that name.
    pub fn has_room(&self, id: &str) -> (has: bool)
        ensures
            has == self@.dom().contains(id@),
    {
        rooms_has(&self.rooms, id)
    }

    /// The names of all rooms, each once, in no particular order.
    pub fn room_ids(&self) -> (ids: Vec<String>)
        ensures
            forall|i: int| 0 <= i < ids@.len() ==> self@.dom().contains((#[trigger] ids@[i])@),
            forall|i: int, j: int|
                0 <= i < j < ids@.len() ==> (#[trigger] ids@[i])@ != (#[trigger] ids@[j])@,
            forall|id: Seq<char>|
                self@.dom().contains(id) ==> exists|i: int|
                    0 <= i < ids@.len() && (#[trigger] ids@[i])@ == id,
    {
        rooms_ids(&self.rooms)
    }

    /// Takes the room of that name out of the registry, to look at it or to
    /// put it back changed.
    pub fn take_room(&mut self, id: &str) -> (taken: Option<Room>)
        requires
            old(self).wf(),
        ensures
            final(self).wf(),
            match taken {
                Some(room) => old(self)@.dom().contains(id@) && room@ == old(self)@[id@]
                    && room.wf() && final(self)@ == old(self)@.remove(id@),
                None => !old(self)@.dom().contains(id@) && final(self)@ == old(self)@,
            },
    {
        rooms_take(&mut self.rooms, id)
    }

    /// Puts a room into the registry under its own name, in the place of
    /// the room that was there under that name.
    pub fn put_room(&mut self, room: Room)
        requires
            old(self).wf(),
            room.wf(),
        ensures
            final(self).wf(),
            final(self)@ == old(self)@.insert(room@.id, room@),
    {
        let id = room.id().to_owned();
        rooms_put(&mut self.rooms, id, room);
    }

    /// Applies the message of a connection that is in a room.
    fn apply_in_room(
        &mut self,
        conn: &Connection,
        msg: &ClientMsg,
        inputs: &StartInputs,
        out: &mut Vec<RoomCast>,
    )
        requires
            old(self).wf(),
            !(msg is Join),
            old(out)@.len() == 0,
        ensures
            final(self).wf(),
            final(self)@ == handle(old(self)@, conn@, msg@, inputs@).rooms,
            room_casts(final(out)@) == handle(old(self)@, conn@, msg@, inputs@).casts,
    {
        let ghost before = self@;
        assert(room_casts(out@) =~= Seq::<RoomCastView>::empty());
        let id = match &conn.current_room {
            Some(id) => id,
            None => {
                return ;
            },
        };
        let mut room = match self.take_room(id.as_str()) {
            Some(room) => room,
            None => {
                return ;
            },
        };
        let ghost was = room@;
        let msgs = match msg {
            ClientMsg::Key { ch, ts } => room.handle_keystroke(
                conn.player_id.as_str(),
                *ch,
                *ts,
            ),
            ClientMsg::Progress { pos, ts } => room.update_player_progress(
                conn.player_id.as_str(),
                *pos,
            ),
            ClientMsg::Finish { wpm, accuracy, time, ts } => room.handle_player_finish(
                conn.player_id.as_str(),
                *wpm,
                *accuracy,
            ),
            ClientMsg::Reset => room.reset(inputs),
            ClientMsg::Join { room: _, name: _ } => Vec::new(),
        };
        proof {
            lemma_step_keeps_id(was, conn@, msg@, inputs@);
        }
        self.put_room(room);
        out.push(RoomCast { room: id.clone(), msgs });
        proof {
            let expected = handle(before, conn@, msg@, inputs@);
            assert(self@ =~= expected.rooms);
            assert(room_casts(out@) =~= expected.casts);
        }
    }

    /// Removes the connection's player from the room it has entered, as when
    /// the connection is lost. The connection itself is left as it is.
    pub fn disconnect(&mut self, conn: &Connection) -> (out: Vec<RoomCast>)
        requires
            old(self).wf(),
        ensures
            final(self).wf(),
            final(self)@ == leave(old(self)@, conn@).rooms,
            room_casts(out@) == leave(old(self)@, conn@).casts,
    {
        let ghost before = self@;
        let mut out: Vec<RoomCast> = Vec::new();
        assert(room_casts(out@) =~= Seq::<RoomCastView>::empty());
        let id = match &conn.current_room {
            Some(id) => id,
            None => {
                return out;
            },
        };
        let mut room = match self.take_room(id.as_str()) {
            Some(room) => room,
            None => {
                return out;
            },
        };
        let msgs = room.remove_player(conn.player_id.as_str());
        self.put_room(room);
        out.push(RoomCast { room: id.clone(), msgs });
        proof {
            let expected = leave(before, conn@);
            assert(self@ =~= expected.rooms);
            assert(room_casts(out@) =~= expected.casts);
        }
        out
    }

    /// Applies one message of a connection, with `inputs` for a countdown
    /// that the message may start, and returns what each room concerned
    /// publishes.
    ///
    /// `Join` takes the connection out of the room it was in, makes the room
    /// asked for if it is not there, and admits the connection's player to
    /// it. Every other message goes to the room that the connection has
    /// entered, and is passed over where there is none.
    pub fn handle_message_with(
        &mut self,
        conn: &mut Connection,
        msg: ClientMsg,
        inputs: &StartInputs,
    ) -> (out: Vec<RoomCast>)
        requires
            old(self).wf(),
        ensures
            final(self).wf(),
            final(self)@ == handle(old(self)@, old(conn)@, msg@, inputs@).rooms,
            final(conn)@ == handle(old(self)@, old(conn)@, msg@, inputs@).conn,
            room_casts(out@) == handle(old(self)@, old(conn)@, msg@, inputs@).casts,
    {
        let ghost before = self@;
        let ghost conn_before = conn@;
        match msg {
            ClientMsg::Join { room, name } => {
                let mut out = self.disconnect(conn);
                let ghost left = self@;
                let mut target = match self.take_room(room.as_str()) {
                    Some(target) => target,
                    None => Room::new(room.clone()),
                };
                let ghost was = target@;
                proof {
                    laws::lemma_add_player_wf(
                        was,
                        PlayerView::human(conn_before.player_id, name@),
                        inputs@,
                    );
                    lemma_add_player_keeps_id(
                        was,
                        PlayerView::human(conn_before.player_id, name@),
                        inputs@,
                    );
                }
                let msgs = target.add_player(Player::human(conn.player_id.clone(), name), inputs);
                self.put_room(target);
                out.push(RoomCast { room: room.clone(), msgs });
                conn.current_room = Some(room);
                proof {
                    let expected = handle(before, conn_before, msg@, inputs@);
                    assert(self@ =~= expected.rooms);
                    assert(room_casts(out@) =~= expected.casts);
                }
                out
            },
            _ => {
                let mut out: Vec<RoomCast> = Vec::new();
                self.apply_in_room(conn, &msg, inputs, &mut out);
                out
            },
        }
    }

    /// Applies one message of a connection. What a countdown needs from
    /// outside is drawn here for the messages that may start one, `Join`
    /// and `Reset`: the time from the clock, one of the bundled passages,
    /// and random seeds for the simulated players. No other message depends
    /// on anything from outside.
    pub fn handle_message(&mut self, conn: &mut Connection, msg: ClientMsg) -> (out: Vec<RoomCast>)
        requires
            old(self).wf(),
        ensures
            final(self).wf(),
            may_start(msg@) ==> exists|inputs: StartInputsView|
                {
                    &&& inputs.seeds.len() == 3
                    &&& speeds_in_range(inputs.seeds)
                    &&& is_bundled(inputs.passage)
                    &&& inputs.passage.len() > 0
                    &&& final(self)@ == (#[trigger] handle(
                        old(self)@,
                        old(conn)@,
                        msg@,
                        inputs,
                    )).rooms
                    &&& final(conn)@ == handle(old(self)@, old(conn)@, msg@, inputs).conn
                    &&& room_casts(out@) == handle(old(self)@, old(conn)@, msg@, inputs).casts
                },
            !may_start(msg@) ==> forall|inputs: StartInputsView|
                {
                    &&& final(self)@ == (#[trigger] handle(
                        old(self)@,
                        old(conn)@,
                        msg@,
                        inputs,
                    )).rooms
                    &&& final(conn)@ == handle(old(self)@, old(conn)@, msg@, inputs).conn
                    &&& room_casts(out@) == handle(old(self)@, old(conn)@, msg@, inputs).casts
                },
    {
        let starts = match &msg {
            ClientMsg::Join { room: _, name: _ } => true,
            ClientMsg::Reset => true,
            _ => false,
        };
        if starts {
            let inputs = draw_start_inputs();
            let out = self.handle_message_with(conn, msg, &inputs);
            assert(self@ == handle(old(self)@, old(conn)@, msg@, inputs@).rooms);
            out
        } else {
            let inputs = idle_inputs(0);
            let out = self.handle_message_with(conn, msg, &inputs);
            assert forall|other: StartInputsView| #[trigger]
                handle(old(self)@, old(conn)@, msg@, other) == handle(
                    old(self)@,
                    old(conn)@,
                    msg@,
                    inputs@,
                ) by {}
            out
        }
    }

    /// What brings a listener of the room of that name up to date; nothing
    /// where there is no such room.
    pub fn snapshot(&mut self, room_id: &str) -> (out: Vec<ServerMsg>)
        requires
            old(self).wf(),
        ensures
            final(self).wf(),
            final(self)@ == old(self)@,
            casts(out@) == (if old(self)@.dom().contains(room_id@) {
                model::snapshot(old(self)@[room_id@])
            } else {
                Seq::<ServerMsgView>::empty()
            }),
    {
        let ghost before = self@;
        match self.take_room(room_id) {
            Some(room) => {
                let out = room.snapshot();
                self.put_room(room);
                assert(self@ =~= before);
                out
            },
            None => {
                let out: Vec<ServerMsg> = Vec::new();
                assert(casts(out@) =~= Seq::<ServerMsgView>::empty());
                out
            },
        }
    }

    /// One step of a simulated player in the room of that name. In a room
    /// that is not there the run is cancelled.
    pub fn bot_step(&mut self, room_id: &str, run: &mut BotRun, now: u64) -> (out: (
        BotOutcome,
        Vec<ServerMsg>,
    ))
        requires
            old(self).wf(),
        ensures
            final(self).wf(),
            !old(self)@.dom().contains(room_id@) ==> out.0 == BotOutcome::Cancelled && out.1@.len()
                == 0 && final(self)@ == old(self)@ && final(run)@ == old(run)@,
            old(self)@.dom().contains(room_id@) ==> {
                let room = old(self)@[room_id@];
                &&& final(self)@ == old(self)@.insert(
                    room_id@,
                    model::bot_step(room, old(run)@, now).room,
                )
                &&& casts(out.1@) == model::bot_step(room, old(run)@, now).casts
                &&& out.0 == model::bot_outcome(room, old(run)@, now)
                &&& final(run)@ == model::bot_run_after(room, old(run)@, now)
            },
    {
        let ghost before = self@;
        let mut room = match self.take_room(room_id) {
            Some(room) => room,
            None => {
                return (BotOutcome::Cancelled, Vec::new());
            },
        };
        let ghost was = room@;
        let out = room.bot_step(run, now);
        proof {
            lemma_bot_step_keeps_id(was, old(run)@, now);
        }
        self.put_room(room);
        assert(self@ =~= before.insert(room_id@, model::bot_step(was, old(run)@, now).room));
        out
    }

    /// Lets time pass to `now` in every room, and returns for each room what
    /// it publishes and the simulated players to set going. Each room
    /// appears once; the order is that in which the map hands out its keys.
    pub fn tick_all(&mut self, now: u64) -> (out: Vec<RoomTick>)
        requires
            old(self).wf(),
        ensures
            final(self).wf(),
            final(self)@ == ticked(old(self)@, now),
            forall|i: int| 0 <= i < out@.len() ==> tick_matches(old(self)@, now, #[trigger] out@[i]),
            forall|i: int, j: int|
                0 <= i < j < out@.len() ==> (#[trigger] out@[i]).room@ != (#[trigger] out@[j]).room@,
            forall|id: Seq<char>|
                old(self)@.dom().contains(id) ==> exists|i: int|
                    0 <= i < out@.len() && (#[trigger] out@[i]).room@ == id,
    {
        let ghost before = self@;
        let ids = self.room_ids();
        let mut out: Vec<RoomTick> = Vec::new();
        let mut i: usize = 0;
        while i < ids.len()
            invariant
                i <= ids@.len(),
                out@.len() == i,
                rooms_wf(before),
                self.wf(),
                self@.dom() == before.dom(),
                forall|k: int| 0 <= k < ids@.len() ==> before.dom().contains((#[trigger] ids@[k])@),
                forall|a: int, b: int|
                    0 <= a < b < ids@.len() ==> (#[trigger] ids@[a])@ != (#[trigger] ids@[b])@,
                forall|k: int| 0 <= k < i ==> (#[trigger] out@[k]).room@ == ids@[k]@,
                forall|k: int| 0 <= k < i ==> tick_matches(before, now, #[trigger] out@[k]),
                forall|k: int|
                    0 <= k < i ==> self@[(#[trigger] ids@[k])@] == model::tick(
                        before[ids@[k]@],
                        now,
                    ).room,
                forall|k: int| i <= k < ids@.len() ==> self@[(#[trigger] ids@[k])@] == before[ids@[k]@],
            decreases ids@.len() - i,
        {
            let ghost mid = self@;
            let id = &ids[i];
            match self.take_room(id.as_str()) {
                Some(mut room) => {
                    let ghost was = room@;
                    let (msgs, runs) = room.tick(now);
                    proof {
                        laws::lemma_tick_wf(was, now);
                    }
                    self.put_room(room);
                    out.push(RoomTick { room: id.clone(), msgs, runs });
                    proof {
                        assert(self@.dom() =~= before.dom());
                        assert forall|k: int| 0 <= k < i + 1 implies self@[(#[trigger] ids@[k])@]
                            == model::tick(before[ids@[k]@], now).room by {
                            if k < i {
                                assert(ids@[k]@ != ids@[i as int]@);
                                assert(self@[ids@[k]@] == mid[ids@[k]@]);
                            }
                        }
                        assert forall|k: int| i + 1 <= k < ids@.len() implies self@[(
                        #[trigger] ids@[k])@] == before[ids@[k]@] by {
                            assert(ids@[i as int]@ != ids@[k]@);
                            assert(self@[ids@[k]@] == mid[ids@[k]@]);
                        }
                    }
                },
                None => {
                    assert(false);
                },
            }
            i += 1;
        }
        proof {
            assert forall|id: Seq<char>| before.dom().contains(id) implies exists|k: int|
                0 <= k < out@.len() && (#[trigger] out@[k]).room@ == id by {
                let k = choose|k: int| 0 <= k < ids@.len() && (#[trigger] ids@[k])@ == id;
                assert(out@[k].room@ == id);
            }
            assert forall|id: Seq<char>| before.dom().contains(id) implies #[trigger] self@[id]
                == ticked(before, now)[id] by {
                let k = choose|k: int| 0 <= k < ids@.len() && (#[trigger] ids@[k])@ == id;
                assert(self@[ids@[k]@] == model::tick(before[ids@[k]@], now).room);
            }
            assert(self@ =~= ticked(before, now));
        }
        out
    }

    /// Lets time pass to what the clock says in every room.
    pub fn tick(&mut self) -> (out: Vec<RoomTick>)
        requires
            old(self).wf(),
        ensures
            final(self).wf(),
            exists|now: u64|
                {
                    &&& final(self)@ == #[trigger] ticked(old(self)@, now)
                    &&& forall|i: int|
                        0 <= i < out@.len() ==> tick_matches(old(self)@, now, #[trigger] out@[i])
                },
            forall|i: int, j: int|
                0 <= i < j < out@.len() ==> (#[trigger] out@[i]).room@ != (#[trigger] out@[j]).room@,
            forall|id: Seq<char>|
                old(self)@.dom().contains(id) ==> exists|i: int|
                    0 <= i < out@.len() && (#[trigger] out@[i]).room@ == id,
    {
        let now = current_timestamp();
        let out = self.tick_all(now);
        assert(self@ == ticked(old(self)@, now));
        out
    }
}

/// No operation of a connection changes the name of a room.
pub proof fn lemma_step_keeps_id(
    r: RoomView,
    conn: ConnectionView,
    msg: ClientMsgView,
    inputs: StartInputsView,
)
    requires
        model::wf(r),
    ensures
        forall|ch: char, ts: u64| (#[trigger] model::keystroke(r, conn.player_id, ch, ts)).room.id == r.id,
        forall|pos: usize| (#[trigger] model::sync_progress(r, conn.player_id, pos)).room.id == r.id,
        forall|wpm: i64, accuracy: u64|
            (#[trigger] model::report_finish(r, conn.player_id, wpm, accuracy)).room.id == r.id,
        model::reset(r, inputs).room.id == r.id,
        model::remove_player(r, conn.player_id).room.id == r.id,
{
}

/// Admitting a player does not change the name of a room.
pub proof fn lemma_add_player_keeps_id(r: RoomView, p: PlayerView, inputs: StartInputsView)
    ensures
        model::add_player(r, p, inputs).room.id == r.id,
{
}

/// A step of a simulated player does not change the name of a room.
pub proof fn lemma_bot_step_keeps_id(r: RoomView, run: BotRunView, now: u64)
    ensures
        model::bot_step(r, run, now).room.id == r.id,
{
}

} // verus!
