use rracer::normalize::is_skippable;
use rracer::normalize::matches_normalized;
use rracer::normalize::normalize_char;
use rracer::normalize::tests_passage;

fn eq(a: char, b: char) -> bool {
    normalize_char(a) == normalize_char(b)
}

#[test]
fn quotes_normalize() {
    assert!(eq('\'', '\u{2019}'));
    assert!(eq('"', '\u{201C}'));
    assert!(eq('"', '\u{201D}'));
    assert!(eq('"', '\u{00AB}'));
    assert!(eq('"', '\u{00BB}'));
}

#[test]
fn dashes_normalize() {
    for c in [
        '\u{2010}', '\u{2011}', '\u{2012}', '\u{2013}', '\u{2014}', '\u{2015}', '\u{2212}',
        '\u{FF0D}', '\u{2E3A}', '\u{2E3B}',
    ] {
        assert!(eq('-', c));
    }
    assert!(eq('~', '\u{2053}'));
}

#[test]
fn spaces_normalize() {
    for c in [
        '\u{00A0}', '\u{2007}', '\u{202F}', '\u{2000}', '\u{2001}', '\u{2002}', '\u{2003}',
        '\u{2004}', '\u{2005}', '\u{2006}', '\u{2008}', '\u{2009}', '\u{200A}', '\u{205F}',
        '\u{3000}',
    ] {
        assert!(eq(' ', c));
    }
}

#[test]
fn ellipsis_normalize() {
    assert_eq!(normalize_char('\u{2026}'), '.');
}

#[test]
fn linebreaks_normalize() {
    for c in [
        '\u{0009}', '\u{000A}', '\u{000B}', '\u{000C}', '\u{000D}', '\u{0085}', '\u{2028}',
        '\u{2029}',
    ] {
        assert!(eq(' ', c));
    }
}

#[test]
fn skippables() {
    assert!(is_skippable('\u{200B}'));
    assert!(is_skippable('\u{00AD}'));
    assert!(!is_skippable('\u{2009}'));
    assert!(!is_skippable('\u{00A0}'));
    assert!(!is_skippable(' '));
}

#[test]
fn passage_quotes_match_ascii() {
    let expected = "\u{201C}You gettee in,\u{201D}";
    let typed = "\"You gettee in,\"";
    assert!(matches_normalized(expected, typed));
    let expected2 = "\u{2018}it\u{2019}s fine\u{2019}";
    let typed2 = "'it's fine'";
    assert!(matches_normalized(expected2, typed2));
}

#[test]
fn passage_dashes_match_ascii() {
    let expected = "added:\u{2014}.";
    let typed = "added:-.";
    assert!(matches_normalized(expected, typed));
    let expected2 = "wait\u{2E3A}go";
    let typed2 = "wait-go";
    assert!(matches_normalized(expected2, typed2));
    let expected3 = "swing\u{2053}dash";
    let typed3 = "swing~dash";
    assert!(matches_normalized(expected3, typed3));
}

#[test]
fn plain_characters_stay_as_they_are() {
    for c in ['a', 'Z', '0', '-', '\'', '"', ' ', '.', '~', '\u{00E9}', '\u{4E2D}'] {
        assert_eq!(normalize_char(c), c);
    }
}

#[test]
fn normalizing_twice_is_normalizing_once() {
    for c in ['\u{2018}', '\u{201C}', '\u{2014}', '\u{2053}', '\u{2026}', '\u{00A0}', 'x'] {
        assert_eq!(normalize_char(normalize_char(c)), normalize_char(c));
    }
}

#[test]
fn every_skippable_is_known() {
    for c in ['\u{200B}', '\u{200C}', '\u{200D}', '\u{2060}', '\u{FEFF}', '\u{00AD}'] {
        assert!(is_skippable(c));
    }
}

#[test]
fn invisible_code_points_are_passed_over() {
    assert!(matches_normalized("a\u{200B}b\u{00AD}", "ab"));
    assert!(matches_normalized("\u{FEFF}", ""));
    assert!(matches_normalized("", ""));
}

#[test]
fn mismatch_short_and_long_input_fail() {
    assert!(!matches_normalized("abc", "abd"));
    assert!(!matches_normalized("abc", "ab"));
    assert!(!matches_normalized("abc", "abcd"));
    assert!(!matches_normalized("", "a"));
    assert!(!matches_normalized("a\u{200B}", "a\u{200B}"));
}

#[test]
fn typed_typographic_characters_count_as_their_equivalent() {
    assert!(matches_normalized("it's", "it\u{2019}s"));
    assert!(matches_normalized("a b", "a\u{00A0}b"));
}

#[test]
fn test_passage_holds_every_kind() {
    let p = tests_passage();
    assert!(p.starts_with("\u{201C}You get in,\u{201D} he added"));
    assert!(p.ends_with("\u{2E3A}, \u{2E3B}, \u{2053}.\nEnd."));
    assert!(p.contains('\u{200B}'));
    assert!(p.contains('\u{00AD}'));
    assert!(p.contains('\u{2026}'));
    assert_eq!(p.lines().count(), 6);
    let typed = [
        "\"You get in,\" he added, motioning to me with his tomahawk. What's all to myself-the man's a human being just as I am.",
        "- -,  -, -, -,  -,  -.",
        " \"double\" and 'single'. .",
        "Hello ,  ,  . , .",
        "-, -, ~.",
        "End.",
    ]
    .join(" ");
    assert!(matches_normalized(&p, &typed));
}
