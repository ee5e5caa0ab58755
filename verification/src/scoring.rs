//! Typing scores in whole thousandths: words per minute and accuracy, and the
//! bound past which a typing speed is taken for implausible.
//!
//! A word is five characters. All times are whole milliseconds.

use vstd::prelude::*;

verus! {

/// A full score for accuracy: one hundred percent, in thousandths.
pub const FULL_ACCURACY: u64 = 100_000;

/// Words per minute, in thousandths and rounded down, of `chars` characters
/// typed in `elapsed_ms` milliseconds. No time elapsed gives 0.
pub open spec fn gross_rate(chars: int, elapsed_ms: int) -> int {
    if elapsed_ms <= 0 {
        0
    } else {
        chars * 12_000_000 / elapsed_ms
    }
}

/// The penalty for `errors` errors made in `elapsed_ms` milliseconds, in
/// thousandths of a word per minute and rounded down: one word per minute for
/// each error per minute.
pub open spec fn penalty_rate(errors: int, elapsed_ms: int) -> int {
    if elapsed_ms <= 0 {
        0
    } else {
        errors * 60_000_000 / elapsed_ms
    }
}

/// Gross words per minute less the penalty for errors, in thousandths.
pub open spec fn net_rate(chars: int, errors: int, elapsed_ms: int) -> int {
    gross_rate(chars, elapsed_ms) - penalty_rate(errors, elapsed_ms)
}

/// The share of `correct` in `total`, in thousandths of a percent and rounded
/// down. Nothing attempted counts as fully accurate.
pub open spec fn accuracy_rate(correct: int, total: int) -> int {
    if total <= 0 {
        100_000
    } else {
        correct * 100_000 / total
    }
}

/// Whether `chars` characters in `elapsed_ms` milliseconds is faster than
/// `ceiling_wpm` words per minute. No time elapsed is never too fast.
pub open spec fn exceeds_ceiling(chars: int, elapsed_ms: int, ceiling_wpm: int) -> bool {
    elapsed_ms > 0 && chars * 12_000 > ceiling_wpm * elapsed_ms
}

/// `value`, held to the range of `i64`.
pub open spec fn clamp_i64(value: int) -> int {
    if value < i64::MIN {
        i64::MIN as int
    } else if value > i64::MAX {
        i64::MAX as int
    } else {
        value
    }
}

/// `value`, held to the range of `u64`.
pub open spec fn clamp_u64(value: int) -> int {
    if value < 0 {
        0
    } else if value > u64::MAX {
        u64::MAX as int
    } else {
        value
    }
}

/// Gross typing speed in thousandths of a word per minute, held to the range
/// of `u64`.
pub fn gross_wpm_milli(chars: usize, elapsed_ms: u64) -> (wpm: u64)
    ensures
        wpm == clamp_u64(gross_rate(chars as int, elapsed_ms as int)),
        elapsed_ms == 0 ==> wpm == 0,
{
    if elapsed_ms == 0 {
        return 0;
    }
    let scaled: u128 = (chars as u128) * 12_000_000u128;
    let q: u128 = scaled / (elapsed_ms as u128);
    if q > u64::MAX as u128 {
        u64::MAX
    } else {
        q as u64
    }
}

/// Net typing speed in thousandths of a word per minute: gross speed less one
/// word per minute for each error per minute, held to the range of `i64`.
pub fn net_wpm_milli(chars: usize, elapsed_ms: u64, errors: u64) -> (wpm: i64)
    ensures
        wpm == clamp_i64(net_rate(chars as int, errors as int, elapsed_ms as int)),
        elapsed_ms == 0 ==> wpm == 0,
{
    if elapsed_ms == 0 {
        return 0;
    }
    let gross: u128 = (chars as u128) * 12_000_000u128 / (elapsed_ms as u128);
    let penalty: u128 = (errors as u128) * 60_000_000u128 / (
    elapsed_ms as u128);
    assert(gross <= 0xffff_ffff_ffff_ffff * 12_000_000) by (nonlinear_arith)
        requires
            gross == (chars as int) * 12_000_000 / (elapsed_ms as int),
            chars <= 0xffff_ffff_ffff_ffff,
            elapsed_ms >= 1,
    ;
    assert(penalty <= 0xffff_ffff_ffff_ffff * 60_000_000) by (nonlinear_arith)
        requires
            penalty == (errors as int) * 60_000_000 / (elapsed_ms as int),
            errors <= 0xffff_ffff_ffff_ffff,
            elapsed_ms >= 1,
    ;
    if gross >= penalty {
        let net: u128 = gross - penalty;
        if net > 0x7fff_ffff_ffff_ffffu128 {
            i64::MAX
        } else {
            net as i64
        }
    } else {
        let deficit: u128 = penalty - gross;
        if deficit > 0x7fff_ffff_ffff_ffffu128 {
            i64::MIN
        } else {
            -(deficit as i64)
        }
    }
}

/// Accuracy in thousandths of a percent: the share of `correct_chars` in
/// `total_chars`, held to the range of `u64`. Nothing attempted counts as
/// fully accurate.
pub fn accuracy_milli(correct_chars: usize, total_chars: usize) -> (acc: u64)
    ensures
        acc == clamp_u64(accuracy_rate(correct_chars as int, total_chars as int)),
        total_chars == 0 ==> acc == FULL_ACCURACY,
        0 < total_chars && correct_chars <= total_chars ==> acc <= FULL_ACCURACY,
{
    if total_chars == 0 {
        return FULL_ACCURACY;
    }
    let scaled: u128 = (correct_chars as u128) * 100_000u128;
    let q: u128 = scaled / (total_chars as u128);
    assert(correct_chars <= total_chars ==> q <= 100_000) by (nonlinear_arith)
        requires
            q == (correct_chars as int) * 100_000 / (total_chars as int),
            total_chars >= 1,
    ;
    if q > u64::MAX as u128 {
        u64::MAX
    } else {
        q as u64
    }
}

/// The accuracy of a typist with `correct` matching keystrokes and `errors`
/// that did not match: the share of the matching ones in all of them, in
/// thousandths of a percent.
pub fn typed_accuracy_milli(correct: usize, errors: u64) -> (acc: u64)
    ensures
        acc == accuracy_rate(correct as int, correct + errors),
        acc <= FULL_ACCURACY,
        errors == 0 ==> acc == FULL_ACCURACY,
{
    let total: u128 = (correct as u128) + (errors as u128);
    if total == 0 {
        return FULL_ACCURACY;
    }
    let scaled: u128 = (correct as u128) * 100_000u128;
    let q: u128 = scaled / total;
    assert(q <= 100_000 && (errors == 0 ==> q == 100_000)) by (nonlinear_arith)
        requires
            q == (correct as int) * 100_000 / (total as int),
            total == correct + errors,
            total >= 1,
            correct >= 0,
            errors >= 0,
    ;
    q as u64
}

/// Whether a typist who has `chars` characters behind them after `elapsed_ms`
/// milliseconds is faster than `ceiling_wpm` words per minute.
pub fn speed_exceeds(chars: usize, elapsed_ms: u64, ceiling_wpm: u64) -> (too_fast: bool)
    ensures
        too_fast == exceeds_ceiling(chars as int, elapsed_ms as int, ceiling_wpm as int),
        elapsed_ms == 0 ==> !too_fast,
{
    if elapsed_ms == 0 {
        return false;
    }
    let lhs: u128 = (chars as u128) * 12_000u128;
    assert((ceiling_wpm as int) * (elapsed_ms as int) <= 0xffff_ffff_ffff_ffff
        * 0xffff_ffff_ffff_ffff) by (nonlinear_arith)
        requires
            ceiling_wpm <= 0xffff_ffff_ffff_ffff,
            elapsed_ms <= 0xffff_ffff_ffff_ffff,
    ;
    let rhs: u128 = (ceiling_wpm as u128) * (elapsed_ms as u128);
    lhs > rhs
}

/// With no time elapsed every speed is 0, and with nothing attempted accuracy
/// is full.
pub proof fn lemma_scores_at_zero(chars: int, errors: int, correct: int)
    ensures
        gross_rate(chars, 0) == 0,
        net_rate(chars, errors, 0) == 0,
        accuracy_rate(correct, 0) == 100_000,
        forall|ceiling: int| !exceeds_ceiling(chars, 0, ceiling),
{
}

/// A speed is over the ceiling exactly when its gross score is: the test on
/// products and the one on the quotient agree.
pub proof fn lemma_exceeds_ceiling_is_gross_over(chars: int, elapsed_ms: int, ceiling_wpm: int)
    requires
        0 <= chars,
        0 < elapsed_ms,
        0 <= ceiling_wpm,
    ensures
        exceeds_ceiling(chars, elapsed_ms, ceiling_wpm) <==> chars * 12_000 / elapsed_ms
            >= ceiling_wpm && !(chars * 12_000 == ceiling_wpm * elapsed_ms),
{
    let n = chars * 12_000;
    let q = n / elapsed_ms;
    assert(q * elapsed_ms <= n < (q + 1) * elapsed_ms) by (nonlinear_arith)
        requires
            q == n / elapsed_ms,
            elapsed_ms > 0,
            n >= 0,
    ;
    if n > ceiling_wpm * elapsed_ms {
        assert(q >= ceiling_wpm) by (nonlinear_arith)
            requires
                n < (q + 1) * elapsed_ms,
                n > ceiling_wpm * elapsed_ms,
                elapsed_ms > 0,
        ;
    } else if n < ceiling_wpm * elapsed_ms {
        assert(q < ceiling_wpm) by (nonlinear_arith)
            requires
                q * elapsed_ms <= n,
                n < ceiling_wpm * elapsed_ms,
                elapsed_ms > 0,
        ;
    }
}

} // verus!
