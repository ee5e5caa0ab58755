//! The bundled passages: what a race falls back on when no other source of
//! text is at hand.

use crate::clock::current_seconds;
use std::collections::hash_map::DefaultHasher;
use std::hash::Hash;
use std::hash::Hasher;
use vstd::prelude::*;

verus! {

/// Static passages for typing races.
pub const PASSAGES: [&'static str; 20] = [
    "The quick brown fox jumps over the lazy dog. This pangram contains every letter of the alphabet at least once.",
    "To be or not to be, that is the question: Whether 'tis nobler in the mind to suffer the slings and arrows of outrageous fortune.",
    "In the beginning was the Word, and the Word was with God, and the Word was God.",
    "It was the best of times, it was the worst of times, it was the age of wisdom, it was the age of foolishness.",
    "Call me Ishmael. Some years ago—never mind how long precisely—having little or no money in my purse.",
    "All happy families are alike; each unhappy family is unhappy in its own way.",
    "The only way to do great work is to love what you do. If you haven't found it yet, keep looking.",
    "Programming is not about typing, it's about thinking. The keyboard is just the interface between your thoughts and the computer.",
    "Rust empowers everyone to build reliable and efficient software. It prevents segfaults and guarantees thread safety.",
    "WebAssembly is a binary instruction format for a stack-based virtual machine designed as a portable compilation target.",
    "In a hole in the ground there lived a hobbit. Not a nasty, dirty, wet hole filled with the ends of worms and an oozy smell.",
    "It is a truth universally acknowledged, that a single man in possession of a good fortune, must be in want of a wife.",
    "Space: the final frontier. These are the voyages of the starship Enterprise, to boldly go where no one has gone before.",
    "Two roads diverged in a yellow wood, and sorry I could not travel both and be one traveler, long I stood.",
    "The best time to plant a tree was 20 years ago. The second best time is now. Every moment is a fresh beginning.",
    "Success is not final, failure is not fatal: it is the courage to continue that counts. Never give up on your dreams.",
    "Life is what happens to you while you're busy making other plans. The journey of a thousand miles begins with one step.",
    "Yesterday is history, tomorrow is a mystery, today is a gift. That's why they call it the present moment.",
    "The only impossible journey is the one you never begin. Believe you can and you're halfway there to success.",
    "In the middle of difficulty lies opportunity. Every problem is a gift without the wrapping paper of solutions.",
];

/// Whether `text` is one of the bundled passages.
pub open spec fn is_bundled(text: Seq<char>) -> bool {
    exists|i: int| 0 <= i < 20 && text == #[trigger] PASSAGES[i]@
}

/// The index that a hash value selects: the value cut to the machine word,
/// modulo the number of passages.
pub open spec fn index_for_hash(hash: u64) -> int {
    (hash as usize) as int % 20
}

/// The `Hash` impl of `u64`, feeding `value` to `hasher`. Nothing is claimed of
/// what the hasher then holds: std leaves the bytes written, and the hash they
/// give, unspecified.
#[verifier::external_body]
fn feed_hasher(hasher: &mut DefaultHasher, value: u64) {
    value.hash(hasher);
}

/// Gets the passage at `index`, or `None` beyond the end of the list.
pub fn get_passage_by_index(index: usize) -> (p: Option<&'static str>)
    ensures
        index < 20 ==> p.is_some() && p.unwrap()@ == PASSAGES[index as int]@,
        index >= 20 ==> p.is_none(),
{
    if index < PASSAGES.len() {
        Some(PASSAGES[index])
    } else {
        None
    }
}

/// The passage that a hash value selects.
pub fn passage_for_hash(hash: u64) -> (p: &'static str)
    ensures
        p@ == PASSAGES[index_for_hash(hash)]@,
        is_bundled(p@),
        p@.len() > 0,
{
    let index = (#[verifier::truncate] (hash as usize)) % PASSAGES.len();
    proof {
        lemma_bundled_passages_are_not_empty(PASSAGES[index as int]@);
    }
    PASSAGES[index]
}

/// Picks one of the bundled passages by hashing the current second of the
/// system clock. Which one comes back depends on the clock and on std's
/// hasher, so all that is promised is that it is one of the list, none of
/// which is empty.
pub fn get_random_passage() -> (p: &'static str)
    ensures
        is_bundled(p@),
        p@.len() > 0,
{
    let mut hasher = DefaultHasher::new();
    feed_hasher(&mut hasher, current_seconds());
    passage_for_hash(hasher.finish())
}

/// Every bundled passage holds some text.
pub proof fn lemma_bundled_passages_are_not_empty(text: Seq<char>)
    requires
        is_bundled(text),
    ensures
        text.len() > 0,
{
    reveal_strlit("The quick brown fox jumps over the lazy dog. This pangram contains every letter of the alphabet at least once.");
    reveal_strlit("To be or not to be, that is the question: Whether 'tis nobler in the mind to suffer the slings and arrows of outrageous fortune.");
    reveal_strlit("In the beginning was the Word, and the Word was with God, and the Word was God.");
    reveal_strlit("It was the best of times, it was the worst of times, it was the age of wisdom, it was the age of foolishness.");
    reveal_strlit("Call me Ishmael. Some years ago—never mind how long precisely—having little or no money in my purse.");
    reveal_strlit("All happy families are alike; each unhappy family is unhappy in its own way.");
    reveal_strlit("The only way to do great work is to love what you do. If you haven't found it yet, keep looking.");
    reveal_strlit("Programming is not about typing, it's about thinking. The keyboard is just the interface between your thoughts and the computer.");
    reveal_strlit("Rust empowers everyone to build reliable and efficient software. It prevents segfaults and guarantees thread safety.");
    reveal_strlit("WebAssembly is a binary instruction format for a stack-based virtual machine designed as a portable compilation target.");
    reveal_strlit("In a hole in the ground there lived a hobbit. Not a nasty, dirty, wet hole filled with the ends of worms and an oozy smell.");
    reveal_strlit("It is a truth universally acknowledged, that a single man in possession of a good fortune, must be in want of a wife.");
    reveal_strlit("Space: the final frontier. These are the voyages of the starship Enterprise, to boldly go where no one has gone before.");
    reveal_strlit("Two roads diverged in a yellow wood, and sorry I could not travel both and be one traveler, long I stood.");
    reveal_strlit("The best time to plant a tree was 20 years ago. The second best time is now. Every moment is a fresh beginning.");
    reveal_strlit("Success is not final, failure is not fatal: it is the courage to continue that counts. Never give up on your dreams.");
    reveal_strlit("Life is what happens to you while you're busy making other plans. The journey of a thousand miles begins with one step.");
    reveal_strlit("Yesterday is history, tomorrow is a mystery, today is a gift. That's why they call it the present moment.");
    reveal_strlit("The only impossible journey is the one you never begin. Believe you can and you're halfway there to success.");
    reveal_strlit("In the middle of difficulty lies opportunity. Every problem is a gift without the wrapping paper of solutions.");
    assert(PASSAGES[0]@.len() > 0);
    assert(PASSAGES[1]@.len() > 0);
    assert(PASSAGES[2]@.len() > 0);
    assert(PASSAGES[3]@.len() > 0);
    assert(PASSAGES[4]@.len() > 0);
    assert(PASSAGES[5]@.len() > 0);
    assert(PASSAGES[6]@.len() > 0);
    assert(PASSAGES[7]@.len() > 0);
    assert(PASSAGES[8]@.len() > 0);
    assert(PASSAGES[9]@.len() > 0);
    assert(PASSAGES[10]@.len() > 0);
    assert(PASSAGES[11]@.len() > 0);
    assert(PASSAGES[12]@.len() > 0);
    assert(PASSAGES[13]@.len() > 0);
    assert(PASSAGES[14]@.len() > 0);
    assert(PASSAGES[15]@.len() > 0);
    assert(PASSAGES[16]@.len() > 0);
    assert(PASSAGES[17]@.len() > 0);
    assert(PASSAGES[18]@.len() > 0);
    assert(PASSAGES[19]@.len() > 0);
    let i = choose|i: int| 0 <= i < 20 && text == #[trigger] PASSAGES[i]@;
    assert(text == PASSAGES[i]@);
}

} // verus!
