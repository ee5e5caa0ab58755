use rracer::ingest::extract_passages_from_html;
use rracer::ingest::normalize_space;
use rracer::ingest::parse_url_list;
use rracer::ingest::passages_from_paragraphs;
use rracer::ingest::passage_or_fallback;
use rracer::ingest::push_chunk;
use rracer::ingest::split_sentences;
use rracer::ingest::worth_storing;
use rracer::passages::PASSAGES;
use rracer::text::byte_len;
use rracer::text::is_whitespace;
use rracer::text::text_of;
use rracer::text::to_chars;
use rracer::text::trim_bounds;
use rracer::text::trim_text;

/// The same with std's own operations.
fn squeeze_by_std(s: &str) -> String {
    s.split_whitespace().collect::<Vec<_>>().join(" ")
}

const SAMPLES: [&str; 12] = [
    "",
    " ",
    "a",
    "  a  ",
    "a  b",
    "\ta\n\nb\r\n c \u{00A0}\u{2003} d\u{3000}",
    "  leading and   trailing  ",
    "\u{200B}zero width is no white space\u{200B}",
    "\u{1680}ogham\u{1680}space\u{1680}",
    "no-change",
    "\u{2028}\u{2029}\u{0085}",
    "\u{4E2D}\u{6587}  \u{00E9}t\u{00E9}\u{00A0}!",
];

#[test]
fn white_space_is_what_std_says() {
    let mut white = 0;
    for u in 0..=0x10FFFFu32 {
        if let Some(c) = char::from_u32(u) {
            assert_eq!(is_whitespace(c), c.is_whitespace(), "U+{:04X}", u);
            if is_whitespace(c) {
                white += 1;
            }
        }
    }
    assert_eq!(white, 25);
}

#[test]
fn trimming_is_what_std_does() {
    for s in SAMPLES {
        assert_eq!(trim_text(s), s.trim());
        let v = to_chars(s);
        let (from, to) = trim_bounds(&v);
        assert_eq!(text_of(&v, from, to), s.trim());
    }
    assert_eq!(trim_bounds(&to_chars("  ab ")), (2, 4));
    assert_eq!(trim_bounds(&to_chars("   ")), (3, 3));
    assert_eq!(trim_bounds(&to_chars("")), (0, 0));
}

#[test]
fn characters_and_bytes() {
    assert_eq!(to_chars("a\u{2014}\u{1F600}"), vec!['a', '\u{2014}', '\u{1F600}']);
    assert!(to_chars("").is_empty());
    assert_eq!(text_of(&vec!['a', 'b', 'c', 'd'], 1, 3), "bc");
    assert_eq!(text_of(&vec!['a', 'b'], 2, 2), "");
    assert_eq!(byte_len(""), 0);
    assert_eq!(byte_len("abc"), 3);
    assert_eq!(byte_len("a\u{00E9}\u{2014}\u{1F600}"), 1 + 2 + 3 + 4);
}

#[test]
fn runs_of_white_space_become_one_space() {
    assert_eq!(normalize_space(""), "");
    assert_eq!(normalize_space("   "), "");
    assert_eq!(normalize_space("a"), "a");
    assert_eq!(normalize_space("  a \t\n b  "), "a b");
    assert_eq!(normalize_space("a\u{00A0}\u{00A0}b\u{3000}"), "a b");
    assert_eq!(normalize_space("one\ntwo\r\nthree"), "one two three");
    for s in SAMPLES {
        assert_eq!(normalize_space(s), squeeze_by_std(s));
    }
}

#[test]
fn sentences_are_packed_into_chunks() {
    assert_eq!(
        split_sentences("One two. Three four! Five six? Seven", 20),
        vec!["One two Three four", "Five six Seven"]
    );
    assert_eq!(split_sentences("One two. Three four! Five six? Seven", 1_000),
        vec!["One two Three four Five six Seven"]);
    assert_eq!(split_sentences("Aaaa. Bbbb. Cccc.", 4), vec!["Aaaa", "Bbbb", "Cccc"]);
    // A chunk of n bytes and a sentence of m fit together where n + m + 1 <= max.
    assert_eq!(split_sentences("Aaaa. Bbbb.", 9), vec!["Aaaa Bbbb"]);
    assert_eq!(split_sentences("Aaaa. Bbbb.", 8), vec!["Aaaa", "Bbbb"]);
    // The first sentence is held to the same sum, with nothing before it.
    assert_eq!(split_sentences("Aaaa.", 0), vec!["Aaaa"]);
    assert!(split_sentences("", 10).is_empty());
    assert!(split_sentences("...!!??", 10).is_empty());
    assert!(split_sentences(" . \n ! ", 10).is_empty());
    assert_eq!(split_sentences("  a   b  .  c ", 100), vec!["a b c"]);
    assert_eq!(split_sentences("\u{00E9}\u{00E9}. \u{00E9}\u{00E9}", 9), vec!["\u{00E9}\u{00E9} \u{00E9}\u{00E9}"]);
    assert_eq!(split_sentences("\u{00E9}\u{00E9}. \u{00E9}\u{00E9}", 8), vec!["\u{00E9}\u{00E9}", "\u{00E9}\u{00E9}"]);
}

fn pushed(out: &[&str], buf: &str, next: &str, min: usize, max: usize) -> (Vec<String>, String) {
    let mut out: Vec<String> = out.iter().map(|s| s.to_string()).collect();
    let mut buf = buf.to_string();
    push_chunk(&mut out, &mut buf, next.to_string(), min, max);
    (out, buf)
}

#[test]
fn a_chunk_begins_joins_or_replaces() {
    assert_eq!(pushed(&[], "", "next", 3, 10), (vec![], "next".to_string()));
    assert_eq!(pushed(&["x"], "", "a much longer chunk", 3, 10), (vec!["x".to_string()], "a much longer chunk".to_string()));
    // 4 + 1 + 5 = 10 stays within 10.
    assert_eq!(pushed(&[], "abcd", "efghi", 3, 10), (vec![], "abcd efghi".to_string()));
    // 4 + 1 + 6 = 11 does not: the buffer has reached 3 and is kept.
    assert_eq!(pushed(&["x"], "abcd", "efghij", 3, 10), (vec!["x".to_string(), "abcd".to_string()], "efghij".to_string()));
    assert_eq!(pushed(&[], "abcd", "efghij", 4, 10), (vec!["abcd".to_string()], "efghij".to_string()));
    // A buffer that has not reached the minimum is dropped.
    assert_eq!(pushed(&["x"], "abcd", "efghij", 5, 10), (vec!["x".to_string()], "efghij".to_string()));
    // What is kept is trimmed; its length is taken before.
    assert_eq!(pushed(&[], " ab ", "efghij", 4, 8), (vec!["ab".to_string()], "efghij".to_string()));
    assert_eq!(pushed(&[], "abcd", "", 9, 4), (vec![], "".to_string()));
    assert_eq!(pushed(&[], "abcd", "", 9, 5), (vec![], "abcd ".to_string()));
}

fn sentence(n: usize, word: &str) -> String {
    let mut s = String::new();
    while s.len() + word.len() + 1 < n {
        s.push_str(word);
        s.push(' ');
    }
    while s.len() + 1 < n {
        s.push('x');
    }
    s.push('.');
    assert_eq!(s.len(), n);
    s
}

#[test]
fn paragraphs_are_combined_into_passages() {
    let a = sentence(100, "alpha");
    let b = sentence(150, "beta");
    let c = sentence(300, "gamma");
    let d = sentence(200, "delta");
    let short = sentence(80, "short");
    let just = sentence(81, "just");
    let paragraphs = vec![
        format!("  {}  ", a),
        short.clone(),
        b.clone(),
        c.clone(),
        d.clone(),
        just.clone(),
    ];
    let out = passages_from_paragraphs(&paragraphs);
    // a + b = 251, + c would be 552; then d makes 753 > 650: a b c is kept.
    // d + just = 282 is flushed at the end.
    assert_eq!(out, vec![format!("{} {} {}", a, b, c), format!("{} {}", d, just)]);
    // A single paragraph under the minimum is never kept.
    assert!(passages_from_paragraphs(&vec![d.clone()]).is_empty());
    assert!(passages_from_paragraphs(&vec![]).is_empty());
    assert!(passages_from_paragraphs(&vec![short]).is_empty());
    // One of 220 bytes is.
    let e = sentence(220, "epsilon");
    assert_eq!(passages_from_paragraphs(&vec![e.clone()]), vec![e.clone()]);
    // A buffer under the minimum is dropped when the next does not fit.
    let f = sentence(600, "phi");
    assert_eq!(passages_from_paragraphs(&vec![a.clone(), f.clone()]), vec![f.clone()]);
}

#[test]
fn a_passage_ends_with_a_mark_and_holds_a_letter() {
    let open = sentence(230, "open").trim_end_matches('.').to_string();
    assert_eq!(open.len(), 229);
    assert_eq!(passages_from_paragraphs(&vec![open.clone()]), vec![format!("{}.", open)]);
    let asks = format!("{}?", open);
    assert_eq!(passages_from_paragraphs(&vec![asks.clone()]), vec![asks]);
    let digits = "1234567890 ".repeat(25);
    assert!(passages_from_paragraphs(&vec![digits]).is_empty());
    let greek = "\u{03B1}\u{03B2}\u{03B3} ".repeat(40);
    let out = passages_from_paragraphs(&vec![greek.clone()]);
    assert_eq!(out, vec![format!("{}.", greek.trim())]);
    assert_eq!(out[0].len(), 40 * 7);
}

#[test]
fn a_long_paragraph_is_taken_apart_by_sentences() {
    let s1 = sentence(300, "one");
    let s2 = sentence(300, "two");
    let s3 = sentence(250, "three");
    let long = format!("{} {} {}", s1, s2, s3);
    assert!(long.len() > 650);
    let bare = |s: &str| s.trim_end_matches('.').to_string();
    // By sentences: 299 + 299 + 1 <= 650, then 249 no longer fits.
    assert_eq!(
        split_sentences(&long, 650),
        vec![format!("{} {}", bare(&s1), bare(&s2)), bare(&s3)]
    );
    let out = passages_from_paragraphs(&vec![long]);
    assert_eq!(out, vec![format!("{} {}.", bare(&s1), bare(&s2)), format!("{}.", bare(&s3))]);
}

#[test]
fn passages_come_out_of_a_page() {
    let a = sentence(120, "alpha");
    let b = sentence(130, "beta");
    let html = format!(
        "<html><head><title>T</title></head><body><h1>Heading {a}</h1>\
         <p>  {a}\n </p><div><p>short one.</p><p>{b1} <b>{b2}</b></p></div>\
         <script>var p = '<p>no</p>';</script></body></html>",
        a = a,
        b1 = &b[..60],
        b2 = &b[60..],
    );
    let out = extract_passages_from_html(&html).unwrap();
    assert_eq!(out, vec![format!("{} {}", a, normalize_space(&format!("{} {}", &b[..60], &b[60..])))]);
    assert!(extract_passages_from_html("").unwrap().is_empty());
    assert!(extract_passages_from_html("<p></p><p>   </p>").unwrap().is_empty());
    assert!(extract_passages_from_html("no markup at all").unwrap().is_empty());
    let entity = format!("<p>{}</p>", "caf&eacute; &amp; th&#233; ".repeat(20));
    let out = extract_passages_from_html(&entity).unwrap();
    assert_eq!(out, vec![format!("{}.", "caf\u{00E9} & th\u{00E9} ".repeat(20).trim())]);
}

#[test]
fn storing_takes_120_bytes() {
    assert!(!worth_storing(""));
    assert!(!worth_storing(&"x".repeat(119)));
    assert!(worth_storing(&"x".repeat(120)));
    assert!(worth_storing(&"\u{00E9}".repeat(60)));
    assert!(!worth_storing(&"\u{00E9}".repeat(59)));
}

#[test]
fn a_fetched_passage_is_preferred() {
    assert_eq!(passage_or_fallback(Some("from the store".to_string())), "from the store");
    assert_eq!(passage_or_fallback(Some(String::new())), "");
    let fallback = passage_or_fallback(None);
    assert!(PASSAGES.contains(&fallback.as_str()));
}

#[test]
fn a_list_of_addresses_is_read_line_by_line() {
    let content = "\
# a list
https://a.example/one
   https://b.example/two   # the second
\t
#https://c.example/three
https://d.example/#fragment
  # indented comment
https://e.example/five\r
https://f.example/six";
    assert_eq!(
        parse_url_list(content),
        vec![
            "https://a.example/one",
            "https://b.example/two",
            "https://d.example/",
            "https://e.example/five",
            "https://f.example/six",
        ]
    );
    assert!(parse_url_list("").is_empty());
    assert!(parse_url_list("\n\n  \n").is_empty());
    assert!(parse_url_list("#\n # \n##").is_empty());
    assert_eq!(parse_url_list("one"), vec!["one"]);
    assert_eq!(parse_url_list("one\n"), vec!["one"]);
    assert_eq!(parse_url_list("a b # c # d"), vec!["a b"]);
    assert_eq!(parse_url_list("\u{00A0}x\u{3000}#y"), vec!["x"]);
}
