//! Typing equivalence between typographic characters and what a keyboard
//! produces: curly quotes count as straight ones, long dashes as a hyphen,
//! exotic spaces and line breaks as a space, and invisible code points are
//! passed over.

use vstd::prelude::*;

verus! {

/// Single quotes and apostrophes that are typed as `'`.
pub open spec fn is_single_quote_like(c: char) -> bool {
    c == '\u{2018}' || c == '\u{2019}' || c == '\u{201B}' || c == '\u{2032}' || c == '\u{FF07}'
}

/// Double and angle quotes that are typed as `"`.
pub open spec fn is_double_quote_like(c: char) -> bool {
    c == '\u{201C}' || c == '\u{201D}' || c == '\u{201F}' || c == '\u{2033}' || c == '\u{00AB}'
        || c == '\u{00BB}' || c == '\u{2039}' || c == '\u{203A}' || c == '\u{FF02}'
}

/// Dashes and minus signs that are typed as `-`.
pub open spec fn is_dash_like(c: char) -> bool {
    ('\u{2010}' <= c && c <= '\u{2015}') || c == '\u{2212}' || c == '\u{FE58}' || c == '\u{FE63}'
        || c == '\u{FF0D}' || c == '\u{2043}' || c == '\u{2E3A}' || c == '\u{2E3B}'
}

/// Tabs, line breaks and Unicode spaces that are typed as a plain space.
pub open spec fn is_space_like(c: char) -> bool {
    ('\u{0009}' <= c && c <= '\u{000D}') || c == '\u{0085}' || c == '\u{2028}' || c == '\u{2029}'
        || c == '\u{00A0}' || c == '\u{202F}' || ('\u{2000}' <= c && c <= '\u{200A}') || c
        == '\u{205F}' || c == '\u{3000}'
}

/// The character a typist enters for `c`.
pub open spec fn normalized(c: char) -> char {
    if is_single_quote_like(c) {
        '\''
    } else if is_double_quote_like(c) {
        '"'
    } else if is_dash_like(c) {
        '-'
    } else if c == '\u{2053}' {
        '~'
    } else if c == '\u{2026}' {
        '.'
    } else if is_space_like(c) {
        ' '
    } else {
        c
    }
}

/// Code points that take no room on screen and are never typed: zero-width
/// spaces and joiners, the word joiner, the byte-order mark and the soft
/// hyphen.
pub open spec fn skippable(c: char) -> bool {
    c == '\u{200B}' || c == '\u{200C}' || c == '\u{200D}' || c == '\u{2060}' || c == '\u{FEFF}'
        || c == '\u{00AD}'
}

/// What has to be typed for `text`: the invisible code points dropped, every
/// other character replaced by its keyboard equivalent.
pub open spec fn typed_form(text: Seq<char>) -> Seq<char> {
    text.filter(|c: char| !skippable(c)).map_values(|c: char| normalized(c))
}

/// Maps a typographic character to its keyboard equivalent; any other
/// character is returned as it is.
pub fn normalize_char(c: char) -> (n: char)
    ensures
        n == normalized(c),
{
    match c {
        '\u{2018}' | '\u{2019}' | '\u{201B}' | '\u{2032}' | '\u{FF07}' => '\'',
        '\u{201C}' | '\u{201D}' | '\u{201F}' | '\u{2033}' | '\u{00AB}' | '\u{00BB}' | '\u{2039}'
        | '\u{203A}' | '\u{FF02}' => '"',
        '\u{2010}' | '\u{2011}' | '\u{2012}' | '\u{2013}' | '\u{2014}' | '\u{2015}' | '\u{2212}'
        | '\u{FE58}' | '\u{FE63}' | '\u{FF0D}' | '\u{2043}' | '\u{2E3A}' | '\u{2E3B}' => '-',
        '\u{2053}' => '~',
        '\u{2026}' => '.',
        '\u{0009}' | '\u{000A}' | '\u{000B}' | '\u{000C}' | '\u{000D}' | '\u{0085}' | '\u{2028}'
        | '\u{2029}' | '\u{00A0}' | '\u{2007}' | '\u{202F}' | '\u{2000}' | '\u{2001}' | '\u{2002}'
        | '\u{2003}' | '\u{2004}' | '\u{2005}' | '\u{2006}' | '\u{2008}' | '\u{2009}' | '\u{200A}'
        | '\u{205F}' | '\u{3000}' => ' ',
        _ => c,
    }
}

/// Whether `c` is an invisible code point that a typist passes over.
pub fn is_skippable(c: char) -> (b: bool)
    ensures
        b == skippable(c),
{
    c == '\u{200B}' || c == '\u{200C}' || c == '\u{200D}' || c == '\u{2060}' || c == '\u{FEFF}'
        || c == '\u{00AD}'
}

/// Normalizing twice is normalizing once, and no keyboard equivalent is
/// itself invisible.
pub proof fn lemma_normalized_is_fixed(c: char)
    ensures
        normalized(normalized(c)) == normalized(c),
        !skippable(c) ==> !skippable(normalized(c)),
{
}

/// The typed form of a text with one more character at its end.
pub proof fn lemma_typed_form_push(text: Seq<char>, c: char)
    ensures
        skippable(c) ==> typed_form(text.push(c)) == typed_form(text),
        !skippable(c) ==> typed_form(text.push(c)) == typed_form(text).push(normalized(c)),
{
    let keep = |c: char| !skippable(c);
    let norm = |c: char| normalized(c);
    reveal(Seq::filter);
    assert(text.push(c).drop_last() == text);
    if skippable(c) {
        assert(text.push(c).filter(keep) == text.filter(keep));
    } else {
        assert(text.push(c).filter(keep) == text.filter(keep).push(c));
        assert(text.filter(keep).push(c).map_values(norm) == text.filter(keep).map_values(
            norm,
        ).push(normalized(c)));
    }
}

/// Whether typing `typed` carries a typist through the whole of `expected`:
/// the two agree character by character up to keyboard equivalence, the
/// invisible code points of `expected` left aside, and nothing is typed beyond
/// its end.
pub fn matches_normalized(expected: &str, typed: &str) -> (ok: bool)
    ensures
        ok == (typed_form(expected@) == typed@.map_values(|c: char| normalized(c))),
{
    let norm = Ghost(|c: char| normalized(c));
    let elen = expected.unicode_len();
    let tlen = typed.unicode_len();
    let mut ei: usize = 0;
    let mut ti: usize = 0;
    proof {
        reveal(Seq::filter);
        assert(expected@.take(0) == Seq::<char>::empty());
        assert(typed_form(expected@.take(0)) == Seq::<char>::empty());
        assert(typed@.take(0).map_values(norm@) == Seq::<char>::empty());
    }
    while ei < elen
        invariant
            elen == expected@.len(),
            tlen == typed@.len(),
            ei <= elen,
            ti <= tlen,
            norm@ == (|c: char| normalized(c)),
            typed_form(expected@.take(ei as int)) == typed@.take(ti as int).map_values(norm@),
        decreases elen - ei,
    {
        let ec = expected.get_char(ei);
        proof {
            lemma_typed_form_push(expected@.take(ei as int), ec);
            assert(expected@.take(ei as int).push(ec) == expected@.take(ei as int + 1));
        }
        if is_skippable(ec) {
            ei += 1;
            continue ;
        }
        let en = normalize_char(ec);
        if ti >= tlen {
            proof {
                lemma_typed_form_prefix(expected@, ei as int + 1);
                assert(typed@.take(ti as int) == typed@);
            }
            return false;
        }
        let tn = normalize_char(typed.get_char(ti));
        if en == tn {
            proof {
                assert(typed@.take(ti as int).push(typed@[ti as int]) == typed@.take(
                    ti as int + 1,
                ));
                assert(typed@.take(ti as int).push(typed@[ti as int]).map_values(norm@)
                    == typed@.take(ti as int).map_values(norm@).push(tn));
            }
            ei += 1;
            ti += 1;
        } else {
            proof {
                lemma_typed_form_prefix(expected@, ei as int + 1);
                let whole = typed_form(expected@);
                let head = typed_form(expected@.take(ei as int + 1));
                assert(head[ti as int] == en);
                assert(whole[ti as int] == en);
                assert(typed@.map_values(norm@)[ti as int] == tn);
            }
            return false;
        }
    }
    proof {
        assert(expected@.take(ei as int) == expected@);
        if ti == tlen {
            assert(typed@.take(ti as int) == typed@);
        }
    }
    ti == tlen
}

/// The typed form of a prefix is a prefix of the typed form.
pub proof fn lemma_typed_form_prefix(text: Seq<char>, n: int)
    requires
        0 <= n <= text.len(),
    ensures
        typed_form(text.take(n)).len() <= typed_form(text).len(),
        typed_form(text.take(n)) == typed_form(text).take(typed_form(text.take(n)).len() as int),
{
    let keep = |c: char| !skippable(c);
    let norm = |c: char| normalized(c);
    let head = text.take(n);
    let tail = text.skip(n);
    assert(head + tail == text);
    Seq::filter_distributes_over_add(head, tail, keep);
    assert(text.filter(keep) == head.filter(keep) + tail.filter(keep));
    assert((head.filter(keep) + tail.filter(keep)).map_values(norm) == head.filter(
        keep,
    ).map_values(norm) + tail.filter(keep).map_values(norm));
    assert(typed_form(text) == typed_form(head) + typed_form(tail));
    assert(typed_form(text).take(typed_form(head).len() as int) == typed_form(head));
}

/// The text shown by `tests_passage`.
pub open spec fn tests_passage_text() -> Seq<char> {
    "\u{201C}You get in,\u{201D} he added, motioning to me with his tomahawk. What\u{2019}s all to myself\u{2014}the man\u{2019}s a human being just as I am.\n\u{2014} \u{2013},  \u{2012}, \u{2014}, \u{2015},  \u{2212},  \u{FF0D}.\n \"double\" and 'single'. \u{2026}\nHello\u{00A0}, \u{2009}, \u{200A}. \u{200B}, \u{00AD}.\n\u{2E3A}, \u{2E3B}, \u{2053}.\nEnd."@
}

/// A passage that holds every kind of character the normalization knows:
/// curly quotes, each dash, an ellipsis, narrow and non-breaking spaces,
/// invisible code points and line breaks.
pub fn tests_passage() -> (s: String)
    ensures
        s@ == tests_passage_text(),
{
    "\u{201C}You get in,\u{201D} he added, motioning to me with his tomahawk. What\u{2019}s all to myself\u{2014}the man\u{2019}s a human being just as I am.\n\u{2014} \u{2013},  \u{2012}, \u{2014}, \u{2015},  \u{2212},  \u{FF0D}.\n \"double\" and 'single'. \u{2026}\nHello\u{00A0}, \u{2009}, \u{200A}. \u{200B}, \u{00AD}.\n\u{2E3A}, \u{2E3B}, \u{2053}.\nEnd.".to_owned()
}

} // verus!
