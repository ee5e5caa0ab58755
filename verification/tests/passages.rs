use rracer::passages::get_passage_by_index;
use rracer::passages::get_random_passage;
use rracer::passages::PASSAGES;
use rracer::passages::passage_for_hash;

#[test]
fn test_passages_not_empty() {
    assert!(!PASSAGES.is_empty());
    assert!(PASSAGES.len() >= 5);
}

#[test]
fn test_get_passage_by_index() {
    assert!(get_passage_by_index(0).is_some());
    assert!(get_passage_by_index(PASSAGES.len()).is_none());
}

#[test]
fn test_random_passage() {
    let passage = get_random_passage();
    assert!(!passage.is_empty());
    assert!(PASSAGES.contains(&passage));
}

#[test]
fn passage_by_index_is_the_listed_one() {
    assert_eq!(get_passage_by_index(0), Some(PASSAGES[0]));
    assert_eq!(get_passage_by_index(19), Some(PASSAGES[19]));
    assert_eq!(get_passage_by_index(20), None);
    assert_eq!(get_passage_by_index(usize::MAX), None);
    assert!(PASSAGES[0].starts_with("The quick brown fox"));
    assert!(PASSAGES[19].starts_with("In the middle of difficulty"));
}

#[test]
fn passage_for_hash_goes_by_the_remainder() {
    assert_eq!(passage_for_hash(0), PASSAGES[0]);
    assert_eq!(passage_for_hash(7), PASSAGES[7]);
    assert_eq!(passage_for_hash(20), PASSAGES[0]);
    assert_eq!(passage_for_hash(39), PASSAGES[19]);
    assert_eq!(passage_for_hash(1_000_003), PASSAGES[3]);
}

#[test]
fn no_bundled_passage_is_empty() {
    assert_eq!(PASSAGES.len(), 20);
    for p in PASSAGES {
        assert!(!p.is_empty());
        assert!(!passage_for_hash(p.len() as u64).is_empty());
    }
    assert!(!get_random_passage().is_empty());
}
