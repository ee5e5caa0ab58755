use rracer::text::to_chars;
use rracer::typing::KeyEffect;
use rracer::typing::TypingState;

fn at(position: usize, errors: u64, last: u64) -> TypingState {
    TypingState { position, errors, last_progress_sent: last }
}

#[test]
fn a_typist_starts_at_the_beginning() {
    assert_eq!(TypingState::new(), at(0, 0, 0));
}

#[test]
fn a_matching_key_moves_on() {
    let passage = to_chars("ab");
    let mut st = TypingState::new();
    assert_eq!(st.on_key(&passage, 'a', 1_000), KeyEffect::Hit { report: true, finished: false });
    assert_eq!(st, at(1, 0, 1_000));
    assert_eq!(st.on_key(&passage, 'b', 1_050), KeyEffect::Hit { report: false, finished: true });
    assert_eq!(st, at(2, 0, 1_000));
    assert_eq!(st.on_key(&passage, 'b', 2_000), KeyEffect::Nothing);
    assert_eq!(st, at(2, 0, 1_000));
}

#[test]
fn a_key_that_does_not_match_is_an_error() {
    let passage = to_chars("ab");
    let mut st = TypingState::new();
    assert_eq!(st.on_key(&passage, 'x', 1_000), KeyEffect::Miss);
    assert_eq!(st, at(0, 1, 0));
    st.errors = u64::MAX;
    assert_eq!(st.on_key(&passage, 'x', 1_000), KeyEffect::Miss);
    assert_eq!(st, at(0, u64::MAX, 0));
}

#[test]
fn typographic_characters_take_their_keyboard_equivalent() {
    let passage = to_chars("\u{201C}a\u{2014}b\u{00A0}\u{2026}");
    let mut st = TypingState::new();
    for (i, key) in ['"', 'a', '-', 'b', ' ', '.'].iter().enumerate() {
        let effect = st.on_key(&passage, *key, 10_000);
        assert!(matches!(effect, KeyEffect::Hit { .. }), "key {}", i);
    }
    assert_eq!(st.position, 6);
    assert_eq!(st.errors, 0);
    let mut st = TypingState::new();
    assert!(matches!(st.on_key(&passage, '\u{201D}', 0), KeyEffect::Hit { .. }));
}

#[test]
fn an_invisible_code_point_uses_up_a_key() {
    let passage = to_chars("a\u{200B}b");
    let mut st = at(1, 0, 0);
    assert_eq!(st.on_key(&passage, 'b', 500), KeyEffect::Skipped);
    assert_eq!(st, at(2, 0, 0));
    assert_eq!(st.on_key(&passage, 'b', 600), KeyEffect::Hit { report: true, finished: true });
    assert_eq!(st, at(3, 0, 600));
}

#[test]
fn progress_is_reported_once_in_a_hundred_milliseconds() {
    let passage = to_chars("abcdef");
    let mut st = at(0, 0, 1_000);
    assert_eq!(st.on_key(&passage, 'a', 1_099), KeyEffect::Hit { report: false, finished: false });
    assert_eq!(st.on_key(&passage, 'b', 1_100), KeyEffect::Hit { report: true, finished: false });
    assert_eq!(st.last_progress_sent, 1_100);
    assert_eq!(st.on_key(&passage, 'c', 900), KeyEffect::Hit { report: false, finished: false });
    assert_eq!(st.last_progress_sent, 1_100);
    assert_eq!(st.on_key(&passage, 'd', 1_200), KeyEffect::Hit { report: true, finished: false });
}

#[test]
fn a_position_beyond_the_passage_stays() {
    let passage = to_chars("ab");
    let mut st = at(7, 3, 9);
    assert_eq!(st.on_key(&passage, 'a', 1_000), KeyEffect::Nothing);
    assert_eq!(st, at(7, 3, 9));
    let mut st = TypingState::new();
    assert_eq!(st.on_key(&Vec::new(), 'a', 1_000), KeyEffect::Nothing);
}

#[test]
fn live_scores() {
    let st = at(50, 0, 0);
    // 50 characters in 10 s: 60 words per minute.
    assert_eq!(st.live_wpm(1_000, 11_000), 60_000);
    assert_eq!(st.live_accuracy(), 100_000);
    // Less than a tenth of a second counts as a tenth.
    assert_eq!(st.live_wpm(1_000, 1_000), 50 * 12_000_000 / 100);
    assert_eq!(st.live_wpm(1_000, 1_100), 50 * 12_000_000 / 100);
    assert_eq!(st.live_wpm(1_000, 1_101), 50 * 12_000_000 / 101);
    assert_eq!(st.live_wpm(1_000, 0), 50 * 12_000_000 / 100);
    assert_eq!(at(240, 20, 0).live_accuracy(), 92_307);
    assert_eq!(at(0, 0, 0).live_accuracy(), 100_000);
    assert_eq!(at(0, 5, 0).live_accuracy(), 0);
}
