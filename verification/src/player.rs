//! One participant of a room, human or simulated.

use vstd::prelude::*;

verus! {

/// The least time, in milliseconds, between two keystrokes of one player that
/// are both taken into account.
pub const MIN_KEY_INTERVAL_MS: u64 = 20;

/// What drives a player's progress: a person at a keyboard, or a simulation at
/// a fixed speed, given in thousandths of a word per minute.
#[derive(Clone, Copy, Debug, PartialEq, Eq, Structural)]
pub enum PlayerKind {
    Human,
    Bot { speed: u32 },
}

/// A participant and where they stand in the current race.
#[derive(Debug)]
pub struct Player {
    /// What the room knows the player by.
    pub id: String,
    /// What the other players see.
    pub name: String,
    /// Characters of the passage completed so far.
    pub position: usize,
    /// When the first correct keystroke of this race arrived.
    pub start_time: Option<u64>,
    /// When the last keystroke that was taken into account arrived.
    pub last_keystroke: u64,
    /// Keystrokes of this race that did not match the passage.
    pub errors: u64,
    /// Whether the player has completed the passage.
    pub finished: bool,
    /// Keystrokes of this race that were taken into account.
    pub keystroke_count: u64,
    /// A person or a simulation.
    pub kind: PlayerKind,
}

/// A `Player` as a mathematical value.
pub struct PlayerView {
    pub id: Seq<char>,
    pub name: Seq<char>,
    pub position: usize,
    pub start_time: Option<u64>,
    pub last_keystroke: u64,
    pub errors: u64,
    pub finished: bool,
    pub keystroke_count: u64,
    pub kind: PlayerKind,
}

impl PlayerView {
    /// Whether the player is simulated.
    pub open spec fn is_bot(self) -> bool {
        self.kind is Bot
    }

    /// The consistency of the counters. Every keystroke that was taken into
    /// account came at least the minimum interval after the one before, an
    /// error is such a keystroke, and the first correct keystroke is not later
    /// than the last one.
    pub open spec fn wf(self) -> bool {
        &&& self.keystroke_count * 20 <= self.last_keystroke
        &&& self.errors <= self.keystroke_count
        &&& self.start_time matches Some(t) ==> t <= self.last_keystroke
    }

    /// The player as a race begins for them: nothing typed, nothing counted.
    /// The time of the last keystroke stays, so that the rate limit carries
    /// over from one race to the next.
    pub open spec fn rested(self) -> PlayerView {
        PlayerView {
            position: 0,
            start_time: None,
            errors: 0,
            finished: false,
            keystroke_count: 0,
            ..self
        }
    }

    /// A person who has just connected.
    pub open spec fn human(id: Seq<char>, name: Seq<char>) -> PlayerView {
        PlayerView {
            id,
            name,
            position: 0,
            start_time: None,
            last_keystroke: 0,
            errors: 0,
            finished: false,
            keystroke_count: 0,
            kind: PlayerKind::Human,
        }
    }

    /// A simulated player that has not moved yet.
    pub open spec fn bot(id: Seq<char>, name: Seq<char>, speed: u32) -> PlayerView {
        PlayerView { kind: PlayerKind::Bot { speed }, ..Self::human(id, name) }
    }
}

impl View for Player {
    type V = PlayerView;

    open spec fn view(&self) -> PlayerView {
        PlayerView {
            id: self.id@,
            name: self.name@,
            position: self.position,
            start_time: self.start_time,
            last_keystroke: self.last_keystroke,
            errors: self.errors,
            finished: self.finished,
            keystroke_count: self.keystroke_count,
            kind: self.kind,
        }
    }
}

impl Player {
    /// A person who has just connected, known to the room as `id` and shown
    /// to others as `name`.
    pub fn human(id: String, name: String) -> (p: Player)
        ensures
            p@ == PlayerView::human(id@, name@),
            p@.wf(),
    {
        Player {
            id,
            name,
            position: 0,
            start_time: None,
            last_keystroke: 0,
            errors: 0,
            finished: false,
            keystroke_count: 0,
            kind: PlayerKind::Human,
        }
    }

    /// A simulated player that types at `speed` thousandths of a word per
    /// minute.
    pub fn bot(id: String, name: String, speed: u32) -> (p: Player)
        ensures
            p@ == PlayerView::bot(id@, name@, speed),
            p@.wf(),
    {
        Player {
            id,
            name,
            position: 0,
            start_time: None,
            last_keystroke: 0,
            errors: 0,
            finished: false,
            keystroke_count: 0,
            kind: PlayerKind::Bot { speed },
        }
    }

    /// Whether the player is simulated.
    pub fn is_bot(&self) -> (b: bool)
        ensures
            b == self@.is_bot(),
    {
        match self.kind {
            PlayerKind::Human => false,
            PlayerKind::Bot { .. } => true,
        }
    }

    /// The speed of a simulated player, in thousandths of a word per minute.
    pub fn bot_speed(&self) -> (s: Option<u32>)
        ensures
            s == (match self@.kind {
                PlayerKind::Human => None::<u32>,
                PlayerKind::Bot { speed } => Some(speed),
            }),
    {
        match self.kind {
            PlayerKind::Human => None,
            PlayerKind::Bot { speed } => Some(speed),
        }
    }

    /// A copy with the same contents.
    pub fn duplicate(&self) -> (p: Player)
        ensures
            p@ == self@,
    {
        Player {
            id: self.id.clone(),
            name: self.name.clone(),
            position: self.position,
            start_time: self.start_time,
            last_keystroke: self.last_keystroke,
            errors: self.errors,
            finished: self.finished,
            keystroke_count: self.keystroke_count,
            kind: self.kind,
        }
    }

    /// Puts the player back to where a race begins: position, errors and
    /// keystroke count at zero, no start time, not finished.
    pub fn reset_race_fields(&mut self)
        ensures
            final(self)@ == old(self)@.rested(),
            old(self)@.wf() ==> final(self)@.wf(),
    {
        self.position = 0;
        self.start_time = None;
        self.errors = 0;
        self.finished = false;
        self.keystroke_count = 0;
    }
}

} // verus!
