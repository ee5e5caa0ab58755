use rracer::scoring::accuracy_milli;
use rracer::scoring::FULL_ACCURACY;
use rracer::scoring::gross_wpm_milli;
use rracer::scoring::net_wpm_milli;
use rracer::scoring::speed_exceeds;
use rracer::scoring::typed_accuracy_milli;

#[test]
fn sixty_words_per_minute() {
    assert_eq!(gross_wpm_milli(300, 60_000), 60_000);
    assert_eq!(gross_wpm_milli(150, 30_000), 60_000);
    assert_eq!(gross_wpm_milli(100, 20_000), 60_000);
    assert_eq!(gross_wpm_milli(240, 48_000), 60_000);
    assert_eq!(gross_wpm_milli(350, 60_000), 70_000);
    assert_eq!(gross_wpm_milli(260, 48_000), 65_000);
}

#[test]
fn no_time_elapsed_is_no_speed() {
    assert_eq!(gross_wpm_milli(100, 0), 0);
    assert_eq!(net_wpm_milli(100, 0, 0), 0);
    assert_eq!(net_wpm_milli(100, 0, 7), 0);
    assert!(!speed_exceeds(100, 0, 300));
    assert!(!speed_exceeds(usize::MAX, 0, 0));
}

#[test]
fn gross_speed_rounds_down_and_saturates() {
    assert_eq!(gross_wpm_milli(1, 7), 1_714_285);
    assert_eq!(gross_wpm_milli(0, 5), 0);
    assert_eq!(gross_wpm_milli(usize::MAX, 1), u64::MAX);
}

#[test]
fn net_speed_takes_one_word_per_minute_off_for_each_error_per_minute() {
    assert_eq!(net_wpm_milli(300, 60_000, 0), 60_000);
    assert_eq!(net_wpm_milli(300, 60_000, 5), 55_000);
    assert_eq!(net_wpm_milli(10, 60_000, 5), 2_000 - 5_000);
    assert_eq!(net_wpm_milli(7, 1_000, 1), 84_000 - 60_000);
    assert_eq!(net_wpm_milli(0, 1, u64::MAX), i64::MIN);
    assert_eq!(net_wpm_milli(usize::MAX, 1, 0), i64::MAX);
}

#[test]
fn accuracy_is_the_share_of_correct_characters() {
    assert_eq!(accuracy_milli(90, 100), 90_000);
    assert_eq!(accuracy_milli(0, 0), FULL_ACCURACY);
    assert_eq!(accuracy_milli(100, 100), 100_000);
    assert_eq!(accuracy_milli(240, 260), 92_307);
    assert_eq!(accuracy_milli(5, 0), 100_000);
    assert_eq!(accuracy_milli(0, 9), 0);
}

#[test]
fn typed_accuracy_counts_errors_as_attempts() {
    assert_eq!(typed_accuracy_milli(10, 0), 100_000);
    assert_eq!(typed_accuracy_milli(0, 0), 100_000);
    assert_eq!(typed_accuracy_milli(240, 20), 92_307);
    assert_eq!(typed_accuracy_milli(1, 1), 50_000);
    assert_eq!(typed_accuracy_milli(0, 3), 0);
    assert_eq!(typed_accuracy_milli(usize::MAX, u64::MAX), 50_000);
}

#[test]
fn the_ceiling_is_exclusive() {
    // 25 characters a second is exactly 300 words per minute.
    assert!(!speed_exceeds(25, 1_000, 300));
    assert!(speed_exceeds(26, 1_000, 300));
    assert!(speed_exceeds(25, 999, 300));
    assert!(!speed_exceeds(0, 1, 0));
    assert!(speed_exceeds(1, u64::MAX, 0));
}
