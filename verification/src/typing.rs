//! The typist's side of a race: what each key does to the position in the
//! passage, and when the server is told.
//!
//! Typographic characters of the passage count as their keyboard
//! equivalents, and its invisible code points are passed over.

use crate::normalize::is_skippable;
use crate::normalize::normalized;
use crate::normalize::normalize_char;
use crate::normalize::skippable;
use crate::scoring::accuracy_rate;
use crate::scoring::clamp_u64;
use crate::scoring::gross_rate;
use crate::scoring::gross_wpm_milli;
use crate::scoring::typed_accuracy_milli;
use vstd::prelude::*;

verus! {

/// The least time, in milliseconds, between two reports of progress.
pub const PROGRESS_INTERVAL_MS: u64 = 100;

/// The least time, in milliseconds, that a speed is measured over.
pub const MIN_ELAPSED_MS: u64 = 100;

/// Where a typist stands.
#[derive(Clone, Copy, Debug, PartialEq, Eq, Structural)]
pub struct TypingState {
    /// Characters of the passage behind the typist.
    pub position: usize,
    /// Keys that did not match.
    pub errors: u64,
    /// When progress was last reported, in milliseconds.
    pub last_progress_sent: u64,
}

/// What a key did.
#[derive(Clone, Copy, Debug, PartialEq, Eq, Structural)]
pub enum KeyEffect {
    /// The typist is at the end of the passage: nothing.
    Nothing,
    /// The key was used up on an invisible code point of the passage.
    Skipped,
    /// The key matched. `report` says whether the position is to be
    /// reported now, `finished` whether the passage is complete.
    Hit { report: bool, finished: bool },
    /// The key did not match.
    Miss,
}

/// Whether progress is due to be reported at `now`.
pub open spec fn report_due(st: TypingState, now: u64) -> bool {
    now - st.last_progress_sent >= 100
}

/// The typist after the key `key` at `now`, in a passage of the characters
/// `passage`.
pub open spec fn after_key(st: TypingState, passage: Seq<char>, key: char, now: u64) -> TypingState {
    if st.position >= passage.len() {
        st
    } else if skippable(passage[st.position as int]) {
        TypingState { position: (st.position + 1) as usize, ..st }
    } else if normalized(key) == normalized(passage[st.position as int]) {
        TypingState {
            position: (st.position + 1) as usize,
            last_progress_sent: if report_due(st, now) {
                now
            } else {
                st.last_progress_sent
            },
            ..st
        }
    } else {
        TypingState { errors: if st.errors < u64::MAX {
            (st.errors + 1) as u64
        } else {
            st.errors
        }, ..st }
    }
}

/// What the key `key` at `now` does.
pub open spec fn effect_of(st: TypingState, passage: Seq<char>, key: char, now: u64) -> KeyEffect {
    if st.position >= passage.len() {
        KeyEffect::Nothing
    } else if skippable(passage[st.position as int]) {
        KeyEffect::Skipped
    } else if normalized(key) == normalized(passage[st.position as int]) {
        KeyEffect::Hit { report: report_due(st, now), finished: st.position + 1 >= passage.len() }
    } else {
        KeyEffect::Miss
    }
}

impl TypingState {
    /// A typist at the beginning of a passage.
    pub fn new() -> (st: TypingState)
        ensures
            st == (TypingState { position: 0, errors: 0, last_progress_sent: 0 }),
    {
        TypingState { position: 0, errors: 0, last_progress_sent: 0 }
    }

    /// Takes one key at `now`. At an invisible code point of the passage
    /// the key is used up on passing it. Otherwise a key that matches the
    /// next character, up to keyboard equivalence, moves the typist on, and
    /// any other is an error. Progress is reported at most once in a
    /// hundred milliseconds.
    pub fn on_key(&mut self, passage: &Vec<char>, key: char, now: u64) -> (effect: KeyEffect)
        ensures
            *final(self) == after_key(*old(self), passage@, key, now),
            effect == effect_of(*old(self), passage@, key, now),
            final(self).position >= old(self).position,
            old(self).position <= passage@.len() ==> final(self).position <= passage@.len(),
    {
        if self.position >= passage.len() {
            return KeyEffect::Nothing;
        }
        let expected = passage[self.position];
        if is_skippable(expected) {
            self.position += 1;
            return KeyEffect::Skipped;
        }
        if normalize_char(key) == normalize_char(expected) {
            self.position += 1;
            let report = now >= self.last_progress_sent && now - self.last_progress_sent
                >= PROGRESS_INTERVAL_MS;
            if report {
                self.last_progress_sent = now;
            }
            KeyEffect::Hit { report, finished: self.position >= passage.len() }
        } else {
            if self.errors < u64::MAX {
                self.errors += 1;
            }
            KeyEffect::Miss
        }
    }

    /// The typist's speed, in thousandths of a word per minute, over the
    /// time from `start` to `now`, taken as a tenth of a second at least.
    pub fn live_wpm(&self, start: u64, now: u64) -> (wpm: u64)
        ensures
            wpm == clamp_u64(
                gross_rate(self.position as int, if now - start > 100 {
                    now - start
                } else {
                    100
                }),
            ),
    {
        let elapsed = if now >= start && now - start > MIN_ELAPSED_MS {
            now - start
        } else {
            MIN_ELAPSED_MS
        };
        gross_wpm_milli(self.position, elapsed)
    }

    /// The typist's accuracy, in thousandths of a percent: the share of the
    /// keys that matched in all that were held against the passage.
    pub fn live_accuracy(&self) -> (acc: u64)
        ensures
            acc == accuracy_rate(self.position as int, self.position + self.errors),
            acc <= 100_000,
    {
        typed_accuracy_milli(self.position, self.errors)
    }
}

/// The key that is the next character of the passage always moves the
/// typist on by one, and is never an error.
pub proof fn lemma_matching_keys_advance(st: TypingState, passage: Seq<char>, now: u64)
    requires
        st.position < passage.len(),
        passage.len() <= usize::MAX,
    ensures
        after_key(st, passage, passage[st.position as int], now).position == st.position + 1,
        after_key(st, passage, passage[st.position as int], now).errors == st.errors,
{
}

} // verus!
