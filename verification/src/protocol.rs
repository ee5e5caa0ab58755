//! The messages that clients and rooms exchange.
//!
//! Scores travel as whole thousandths (of a word per minute, of a percent),
//! times as whole milliseconds.

use vstd::prelude::*;

verus! {

/// What a client sends.
#[derive(Debug)]
pub enum ClientMsg {
    /// Enter `room` under the display name `name`, leaving any room entered
    /// before.
    Join { room: String, name: String },
    /// One keystroke, with the client's clock in milliseconds.
    Key { ch: char, ts: u64 },
    /// The client's own count of completed characters.
    Progress { pos: usize, ts: u64 },
    /// The client's own report that it has completed the passage.
    Finish { wpm: i64, accuracy: u64, time: u64, ts: u64 },
    /// Ask for the room to return to the lobby.
    Reset,
}

/// What a room publishes to everyone in it.
#[derive(Debug)]
pub enum ServerMsg {
    /// The display names of the players in the room.
    Lobby { players: Vec<String> },
    /// The countdown has begun; the passage is shown ahead of the race.
    Countdown { passage: String },
    /// The race has begun at `t0`.
    Start { passage: String, t0: u64 },
    /// The player shown as `id` has completed `pos` characters.
    Progress { id: String, pos: usize },
    /// The player shown as `id` has completed the passage.
    Finish { id: String, wpm: i64, accuracy: u64 },
    /// The room has entered the state named `state`.
    StateChange { state: String },
    /// Seconds left until a waiting room starts by itself.
    WaitingTimer { seconds_left: u64 },
    /// Something a player should see.
    Error { message: String },
}

/// A `ServerMsg` as a mathematical value.
pub enum ServerMsgView {
    Lobby { players: Seq<Seq<char>> },
    Countdown { passage: Seq<char> },
    Start { passage: Seq<char>, t0: u64 },
    Progress { id: Seq<char>, pos: usize },
    Finish { id: Seq<char>, wpm: i64, accuracy: u64 },
    StateChange { state: Seq<char> },
    WaitingTimer { seconds_left: u64 },
    Error { message: Seq<char> },
}

/// A `ClientMsg` as a mathematical value.
pub enum ClientMsgView {
    Join { room: Seq<char>, name: Seq<char> },
    Key { ch: char, ts: u64 },
    Progress { pos: usize, ts: u64 },
    Finish { wpm: i64, accuracy: u64, time: u64, ts: u64 },
    Reset,
}

/// The texts of a list of strings.
pub open spec fn texts(names: Seq<String>) -> Seq<Seq<char>> {
    names.map_values(|s: String| s@)
}

impl View for ServerMsg {
    type V = ServerMsgView;

    open spec fn view(&self) -> ServerMsgView {
        match *self {
            ServerMsg::Lobby { players } => ServerMsgView::Lobby { players: texts(players@) },
            ServerMsg::Countdown { passage } => ServerMsgView::Countdown { passage: passage@ },
            ServerMsg::Start { passage, t0 } => ServerMsgView::Start { passage: passage@, t0 },
            ServerMsg::Progress { id, pos } => ServerMsgView::Progress { id: id@, pos },
            ServerMsg::Finish { id, wpm, accuracy } => ServerMsgView::Finish {
                id: id@,
                wpm,
                accuracy,
            },
            ServerMsg::StateChange { state } => ServerMsgView::StateChange { state: state@ },
            ServerMsg::WaitingTimer { seconds_left } => ServerMsgView::WaitingTimer {
                seconds_left,
            },
            ServerMsg::Error { message } => ServerMsgView::Error { message: message@ },
        }
    }
}

impl View for ClientMsg {
    type V = ClientMsgView;

    open spec fn view(&self) -> ClientMsgView {
        match *self {
            ClientMsg::Join { room, name } => ClientMsgView::Join { room: room@, name: name@ },
            ClientMsg::Key { ch, ts } => ClientMsgView::Key { ch, ts },
            ClientMsg::Progress { pos, ts } => ClientMsgView::Progress { pos, ts },
            ClientMsg::Finish { wpm, accuracy, time, ts } => ClientMsgView::Finish {
                wpm,
                accuracy,
                time,
                ts,
            },
            ClientMsg::Reset => ClientMsgView::Reset,
        }
    }
}

/// A list of messages as mathematical values, in order.
pub open spec fn casts(msgs: Seq<ServerMsg>) -> Seq<ServerMsgView> {
    msgs.map_values(|m: ServerMsg| m@)
}

/// What is shown to players when a typing speed is beyond belief.
pub open spec fn suspicious_speed_text() -> Seq<char> {
    "Suspicious typing speed detected"@
}

} // verus!
