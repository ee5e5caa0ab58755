//! Small operations on text that the rest of the library shares: taking
//! apart into characters and putting together again, white space, and
//! the length of a text in bytes.

use vstd::prelude::*;
use vstd::utf8::encode_scalar;
use vstd::utf8::encode_utf8;

verus! {

/// `String::push`: `c` is added at the end of `s`.
#[verifier::external_body]
pub(crate) fn push_char(s: &mut String, c: char)
    ensures
        final(s)@ == old(s)@.push(c),
{
    s.push(c);
}

/// The decimal digit `d` as text.
pub(crate) fn digit_str(d: usize) -> (s: &'static str)
    requires
        d < 10,
    ensures
        s@ == crate::model::digit_text(d as int),
{
    if d == 0 {
        "0"
    } else if d == 1 {
        "1"
    } else if d == 2 {
        "2"
    } else if d == 3 {
        "3"
    } else if d == 4 {
        "4"
    } else if d == 5 {
        "5"
    } else if d == 6 {
        "6"
    } else if d == 7 {
        "7"
    } else if d == 8 {
        "8"
    } else {
        "9"
    }
}

/// The characters of `s`, in order.
pub fn to_chars(s: &str) -> (v: Vec<char>)
    ensures
        v@ == s@,
{
    let mut v: Vec<char> = Vec::new();
    for c in it: s.chars()
        invariant
            v@ == it.seq().take(it.index() as int),
            it.seq() == s@,
    {
        v.push(c);
    }
    v
}

/// The text made of the characters of `v` from `from` up to `to`.
pub fn text_of(v: &Vec<char>, from: usize, to: usize) -> (s: String)
    requires
        from <= to <= v@.len(),
    ensures
        s@ == v@.subrange(from as int, to as int),
{
    let mut s = String::new();
    let mut i: usize = from;
    while i < to
        invariant
            from <= i <= to <= v@.len(),
            s@ == v@.subrange(from as int, i as int),
        decreases to - i,
    {
        push_char(&mut s, v[i]);
        i += 1;
        assert(s@ =~= v@.subrange(from as int, i as int));
    }
    s
}

/// The characters that count as white space: those with the Unicode property
/// White_Space.
pub open spec fn white_space(c: char) -> bool {
    ('\u{0009}' <= c && c <= '\u{000D}') || c == ' ' || c == '\u{0085}' || c == '\u{00A0}' || c
        == '\u{1680}' || ('\u{2000}' <= c && c <= '\u{200A}') || c == '\u{2028}' || c == '\u{2029}'
        || c == '\u{202F}' || c == '\u{205F}' || c == '\u{3000}'
}

/// Whether `c` is white space.
pub fn is_whitespace(c: char) -> (b: bool)
    ensures
        b == white_space(c),
{
    ('\u{0009}' <= c && c <= '\u{000D}') || c == ' ' || c == '\u{0085}' || c == '\u{00A0}' || c
        == '\u{1680}' || ('\u{2000}' <= c && c <= '\u{200A}') || c == '\u{2028}' || c == '\u{2029}'
        || c == '\u{202F}' || c == '\u{205F}' || c == '\u{3000}'
}

/// Whether `s` starts with `n` characters of white space.
pub open spec fn white_prefix(s: Seq<char>, n: int) -> bool {
    0 <= n <= s.len() && forall|k: int| 0 <= k < n ==> white_space(#[trigger] s[k])
}

/// Whether `s` ends with `n` characters of white space.
pub open spec fn white_suffix(s: Seq<char>, n: int) -> bool {
    0 <= n <= s.len() && forall|k: int| s.len() - n <= k < s.len() ==> white_space(#[trigger] s[k])
}

/// Whether `t` is `s` without the white space at its ends: `s` is white
/// space, then `t`, then white space, and `t` neither starts nor ends with
/// white space.
pub open spec fn is_trim_of(s: Seq<char>, t: Seq<char>) -> bool {
    exists|from: int, to: int|
        {
            &&& 0 <= from <= to <= s.len()
            &&& #[trigger] s.subrange(from, to) == t
            &&& white_prefix(s, from)
            &&& white_suffix(s, s.len() - to)
            &&& t.len() > 0 ==> !white_space(t[0]) && !white_space(t.last())
        }
}

/// `s` without the white space at its ends.
pub open spec fn trimmed(s: Seq<char>) -> Seq<char> {
    choose|t: Seq<char>| is_trim_of(s, t)
}

/// A text has exactly one trim.
pub proof fn lemma_trim_is_unique(s: Seq<char>, a: Seq<char>, b: Seq<char>)
    requires
        is_trim_of(s, a),
        is_trim_of(s, b),
    ensures
        a == b,
{
    let (fa, ta) = choose|from: int, to: int|
        {
            &&& 0 <= from <= to <= s.len()
            &&& #[trigger] s.subrange(from, to) == a
            &&& white_prefix(s, from)
            &&& white_suffix(s, s.len() - to)
            &&& a.len() > 0 ==> !white_space(a[0]) && !white_space(a.last())
        };
    let (fb, tb) = choose|from: int, to: int|
        {
            &&& 0 <= from <= to <= s.len()
            &&& #[trigger] s.subrange(from, to) == b
            &&& white_prefix(s, from)
            &&& white_suffix(s, s.len() - to)
            &&& b.len() > 0 ==> !white_space(b[0]) && !white_space(b.last())
        };
    if a.len() > 0 {
        assert(a[0] == s[fa]);
        assert(a.last() == s[ta - 1]);
        if b.len() > 0 {
            assert(b[0] == s[fb]);
            assert(b.last() == s[tb - 1]);
            assert(fa == fb);
            assert(ta == tb);
        } else {
            // All of `s` is white space by `b`, yet `a` holds a solid character.
            assert(white_space(s[fa]));
        }
    } else if b.len() > 0 {
        assert(b[0] == s[fb]);
        assert(white_space(s[fb]));
    } else {
        assert(a =~= b);
    }
}

/// Where the trim of `v` begins and ends.
pub fn trim_bounds(v: &Vec<char>) -> (bounds: (usize, usize))
    ensures
        bounds.0 <= bounds.1 <= v@.len(),
        v@.subrange(bounds.0 as int, bounds.1 as int) == trimmed(v@),
        is_trim_of(v@, trimmed(v@)),
{
    let mut from: usize = 0;
    while from < v.len() && is_whitespace(v[from])
        invariant
            white_prefix(v@, from as int),
        decreases v@.len() - from,
    {
        from += 1;
    }
    let mut to: usize = v.len();
    while to > from && is_whitespace(v[to - 1])
        invariant
            from <= to <= v@.len(),
            white_suffix(v@, v@.len() - to),
        decreases to,
    {
        to -= 1;
    }
    proof {
        let t = v@.subrange(from as int, to as int);
        if t.len() > 0 {
            assert(t[0] == v@[from as int]);
            assert(t.last() == v@[to as int - 1]);
        }
        assert(is_trim_of(v@, t));
        lemma_trim_is_unique(v@, t, trimmed(v@));
    }
    (from, to)
}

/// `s` without the white space at its ends.
pub fn trim_text(s: &str) -> (t: String)
    ensures
        t@ == trimmed(s@),
        is_trim_of(s@, t@),
{
    let v = to_chars(s);
    let (from, to) = trim_bounds(&v);
    text_of(&v, from, to)
}

/// The length of a text in bytes, as UTF-8.
pub open spec fn utf8_len(s: Seq<char>) -> nat {
    encode_utf8(s).len()
}

/// The length in bytes of a text made of two is the sum of their lengths.
pub proof fn lemma_utf8_len_add(a: Seq<char>, b: Seq<char>)
    ensures
        encode_utf8(a + b) == encode_utf8(a) + encode_utf8(b),
        utf8_len(a + b) == utf8_len(a) + utf8_len(b),
    decreases a.len(),
{
    if a.len() == 0 {
        assert(a + b =~= b);
        assert(encode_utf8(a) + encode_utf8(b) =~= encode_utf8(b));
    } else {
        lemma_utf8_len_add(a.drop_first(), b);
        assert((a + b).drop_first() =~= a.drop_first() + b);
        assert((a + b)[0] == a[0]);
        assert(encode_utf8(a + b) =~= encode_utf8(a) + encode_utf8(b));
    }
}

/// Every character takes from one to four bytes, so a text takes at least
/// as many bytes as it has characters and at most four times as many. An
/// empty text alone takes none.
pub proof fn lemma_utf8_len_bounds(s: Seq<char>)
    ensures
        s.len() <= utf8_len(s) <= 4 * s.len(),
        utf8_len(s) == 0 <==> s.len() == 0,
    decreases s.len(),
{
    if s.len() > 0 {
        lemma_utf8_len_bounds(s.drop_first());
        assert(1 <= encode_scalar(s[0] as u32).len() <= 4);
    }
}

/// A text of one plain character takes one byte.
pub proof fn lemma_utf8_len_ascii(c: char)
    requires
        c <= '\u{7f}',
    ensures
        utf8_len(seq![c]) == 1,
{
    assert(seq![c].drop_first() =~= Seq::<char>::empty());
    assert(encode_utf8(seq![c].drop_first()) =~= Seq::<u8>::empty());
    assert(encode_utf8(seq![c]) =~= encode_scalar(c as u32) + Seq::<u8>::empty());
}

/// The length of `s` in bytes.
pub fn byte_len(s: &str) -> (n: usize)
    ensures
        n == utf8_len(s@),
{
    s.as_bytes().len()
}

} // verus!
