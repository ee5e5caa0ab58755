//! The simulated players: each advances through the passage at a constant
//! speed, measured against the clock rather than counted in steps.

use crate::model::advanced;
use crate::model::BotRunView;
use vstd::prelude::*;

verus! {

/// The progress of one simulated player through a race.
#[derive(Debug)]
pub struct BotRun {
    /// The id of the player in its room.
    pub id: String,
    /// The display name of the player.
    pub name: String,
    /// Typing speed in thousandths of a word per minute.
    pub speed: u32,
    /// The way made so far, in units of which twelve million make one
    /// character.
    pub progress: u128,
    /// When the run last moved, in milliseconds.
    pub last: u64,
}

impl View for BotRun {
    type V = BotRunView;

    open spec fn view(&self) -> BotRunView {
        BotRunView {
            id: self.id@,
            name: self.name@,
            speed: self.speed,
            progress: self.progress as int,
            last: self.last,
        }
    }
}

impl BotRun {
    /// Moves the run on to `now` through a passage of `len` characters, and
    /// returns the position reached, in whole characters.
    pub fn advance(&mut self, now: u64, len: usize) -> (pos: usize)
        ensures
            final(self)@ == advanced(old(self)@, now, len as int),
            pos == crate::model::run_position(final(self)@),
            pos <= len,
    {
        let dt: u64 = if now >= self.last {
            now - self.last
        } else {
            0
        };
        let cap: u128 = (len as u128) * 12_000_000u128;
        assert((self.speed as int) * (dt as int) <= 0xffff_ffff * 0xffff_ffff_ffff_ffff)
            by (nonlinear_arith)
            requires
                0 <= self.speed <= 0xffff_ffff,
                0 <= dt <= 0xffff_ffff_ffff_ffff,
        ;
        assert((self.speed as int) * (dt as int) >= 0) by (nonlinear_arith)
            requires
                0 <= self.speed,
                0 <= dt,
        ;
        let step: u128 = (self.speed as u128) * (dt as u128);
        if self.progress >= cap {
            self.progress = cap;
        } else {
            let grown: u128 = self.progress + step;
            self.progress = if grown >= cap {
                cap
            } else {
                grown
            };
        }
        self.last = now;
        let pos: u128 = self.progress / 12_000_000u128;
        pos as usize
    }
}

} // verus!
