//! Turning a fetched document into passages for races: the paragraphs of a
//! page are cleaned of stray white space and combined into passages of a
//! length that suits a race, long ones being taken apart at sentence ends.
//!
//! Lengths are counted in bytes of UTF-8.

use crate::passages::get_random_passage;
use crate::passages::is_bundled;
use crate::protocol::texts;
use crate::text::byte_len;
use crate::text::is_trim_of;
use crate::text::is_whitespace;
use crate::text::lemma_utf8_len_add;
use crate::text::lemma_utf8_len_ascii;
use crate::text::lemma_utf8_len_bounds;
use crate::text::push_char;
use crate::text::text_of;
use crate::text::to_chars;
use crate::text::trimmed;
use crate::text::trim_bounds;
use crate::text::trim_text;
use crate::text::utf8_len;
use crate::text::white_space;
use scraper::Html;
use scraper::Selector;
use vstd::prelude::*;

verus! {

/// A paragraph counts only if it is longer than this.
pub const MIN_PARAGRAPH_BYTES: usize = 80;

/// A passage made of several paragraphs is at least this long.
pub const MIN_PASSAGE_BYTES: usize = 220;

/// No paragraphs are combined beyond this length.
pub const MAX_PASSAGE_BYTES: usize = 650;

/// A passage is stored only if it is at least this long.
pub const MIN_STORED_BYTES: usize = 120;

/// The selector that finds the paragraphs of a page.
pub const PARAGRAPH_SELECTOR: &'static str = "p";

/// The texts of the elements that `selector` finds in the document `html`,
/// each the concatenation of the text nodes below the element, in the order
/// in which the search comes upon them; `None` where `selector` cannot be
/// read as a selector. Nothing here depends on that order.
pub uninterp spec fn selected_texts_of(html: Seq<char>, selector: Seq<char>) -> Option<
    Seq<Seq<char>>,
>;

/// Whether `c` has the Unicode property Alphabetic.
pub uninterp spec fn alphabetic(c: char) -> bool;

/// scraper's `Html::select` on the document that `Html::parse_document`
/// makes of `html`, with the selector that `Selector::parse` makes of
/// `selector`, the text of each element found gathered by
/// `ElementRef::text`; `None` where `Selector::parse` refuses `selector`.
/// Parsing is that of a browser and takes pages to state, so the result has
/// a name and nothing more is said of it.
#[verifier::external_body]
fn selected_texts(html: &str, selector: &str) -> (found: Option<Vec<String>>)
    ensures
        match found {
            Some(list) => selected_texts_of(html@, selector@) == Some(texts(list@)),
            None => selected_texts_of(html@, selector@) is None,
        },
{
    let document = Html::parse_document(html);
    match Selector::parse(selector) {
        Ok(parsed) => Some(
            document.select(&parsed).map(|found| found.text().collect::<String>()).collect(),
        ),
        Err(_) => None,
    }
}

/// `char::is_alphabetic`: whether `c` has the Unicode property Alphabetic.
#[verifier::external_body]
fn is_alphabetic(c: char) -> (b: bool)
    ensures
        b == alphabetic(c),
{
    c.is_alphabetic()
}

/// Passages in the making: those that are complete, and the one that is
/// being put together.
pub struct Packing {
    pub out: Seq<Seq<char>>,
    pub cur: Seq<char>,
}

/// `s` with every run of white space made one space. The ends are not yet
/// trimmed.
pub open spec fn squeezed(s: Seq<char>) -> Seq<char>
    decreases s.len(),
{
    if s.len() == 0 {
        Seq::empty()
    } else {
        let head = squeezed(s.drop_last());
        if white_space(s.last()) {
            if head.len() > 0 && head.last() == ' ' {
                head
            } else {
                head.push(' ')
            }
        } else {
            head.push(s.last())
        }
    }
}

/// `s` with every run of white space made one space, and none at the ends.
pub open spec fn normalized(s: Seq<char>) -> Seq<char> {
    trimmed(squeezed(s))
}

/// Whether a sentence may end with `c`.
pub open spec fn is_sentence_end(c: char) -> bool {
    c == '.' || c == '!' || c == '?'
}

/// The pieces that the sentence ends divide `s` into, the ends themselves
/// left out: one piece more than there are ends, empty ones included.
pub open spec fn pieces(s: Seq<char>) -> Seq<Seq<char>>
    decreases s.len(),
{
    if s.len() == 0 {
        seq![Seq::empty()]
    } else {
        let front = pieces(s.drop_last());
        if is_sentence_end(s.last()) {
            front.push(Seq::empty())
        } else {
            front.drop_last().push(front.last().push(s.last()))
        }
    }
}

/// One more sentence packed: a sentence of white space alone is dropped; one
/// that no longer fits within `max_len` closes the chunk in the making and
/// begins the next; any other is added after a space.
pub open spec fn sentence_packed(st: Packing, piece: Seq<char>, max_len: int) -> Packing {
    let s = normalized(piece);
    if s.len() == 0 {
        st
    } else if utf8_len(st.cur) + utf8_len(s) + 1 > max_len {
        Packing { out: if st.cur.len() > 0 {
            st.out.push(trimmed(st.cur))
        } else {
            st.out
        }, cur: s }
    } else {
        Packing { out: st.out, cur: if st.cur.len() > 0 {
            st.cur + seq![' '] + s
        } else {
            s
        } }
    }
}

/// All of `list` packed, one after the other.
pub open spec fn sentences_packed(list: Seq<Seq<char>>, max_len: int) -> Packing
    decreases list.len(),
{
    if list.len() == 0 {
        Packing { out: Seq::empty(), cur: Seq::empty() }
    } else {
        sentence_packed(sentences_packed(list.drop_last(), max_len), list.last(), max_len)
    }
}

/// The complete passages of a packing, the one in the making included if
/// there is one.
pub open spec fn closed(st: Packing) -> Seq<Seq<char>> {
    if st.cur.len() > 0 {
        st.out.push(trimmed(st.cur))
    } else {
        st.out
    }
}

/// A long text taken apart at its sentence ends and put together again in
/// chunks that stay within `max_len` where a single sentence does.
pub open spec fn sentence_chunks(long: Seq<char>, max_len: int) -> Seq<Seq<char>> {
    closed(sentences_packed(pieces(long), max_len))
}

/// One more chunk added to the passages in the making: it begins a passage,
/// or is added after a space where that stays within `max_len`, or else
/// takes the place of the passage in the making, which is kept if it has
/// reached `min_len`.
pub open spec fn chunk_pushed(st: Packing, next: Seq<char>, min_len: int, max_len: int) -> Packing {
    if st.cur.len() == 0 {
        Packing { out: st.out, cur: next }
    } else if utf8_len(st.cur) + 1 + utf8_len(next) <= max_len {
        Packing { out: st.out, cur: st.cur + seq![' '] + next }
    } else {
        Packing { out: if utf8_len(st.cur) >= min_len {
            st.out.push(trimmed(st.cur))
        } else {
            st.out
        }, cur: next }
    }
}

/// All of `chunks` added, one after the other.
pub open spec fn chunks_pushed(st: Packing, chunks: Seq<Seq<char>>) -> Packing
    decreases chunks.len(),
{
    if chunks.len() == 0 {
        st
    } else {
        chunk_pushed(
            chunks_pushed(st, chunks.drop_last()),
            chunks.last(),
            MIN_PASSAGE_BYTES as int,
            MAX_PASSAGE_BYTES as int,
        )
    }
}

/// One more paragraph taken in: cleaned of stray white space, passed over
/// unless it is longer than 80 bytes, taken apart by sentences if it is
/// longer than 650, and added to the passages in the making.
pub open spec fn paragraph_taken(st: Packing, paragraph: Seq<char>) -> Packing {
    let p = normalized(paragraph);
    if utf8_len(p) <= MIN_PARAGRAPH_BYTES {
        st
    } else if utf8_len(p) > MAX_PASSAGE_BYTES {
        chunks_pushed(st, sentence_chunks(p, MAX_PASSAGE_BYTES as int))
    } else {
        chunk_pushed(st, p, MIN_PASSAGE_BYTES as int, MAX_PASSAGE_BYTES as int)
    }
}

/// All of `paragraphs` taken in, one after the other.
pub open spec fn paragraphs_taken(paragraphs: Seq<Seq<char>>) -> Packing
    decreases paragraphs.len(),
{
    if paragraphs.len() == 0 {
        Packing { out: Seq::empty(), cur: Seq::empty() }
    } else {
        paragraph_taken(paragraphs_taken(paragraphs.drop_last()), paragraphs.last())
    }
}

/// The complete passages of a packing, the one in the making included if it
/// has reached 220 bytes.
pub open spec fn flushed(st: Packing) -> Seq<Seq<char>> {
    if st.cur.len() > 0 && utf8_len(st.cur) >= MIN_PASSAGE_BYTES {
        st.out.push(trimmed(st.cur))
    } else {
        st.out
    }
}

/// `p` with a full stop at its end, unless it ends a sentence already.
pub open spec fn ended(p: Seq<char>) -> Seq<char> {
    if p.len() > 0 && is_sentence_end(p.last()) {
        p
    } else {
        p.push('.')
    }
}

/// Whether `p` holds a letter.
pub open spec fn has_letter(p: Seq<char>) -> bool {
    exists|i: int| 0 <= i < p.len() && alphabetic(#[trigger] p[i])
}

/// The passages made of the paragraphs of a page: the paragraphs combined,
/// each passage ended with a full stop, those without any letter left out.
pub open spec fn passages_of(paragraphs: Seq<Seq<char>>) -> Seq<Seq<char>> {
    flushed(paragraphs_taken(paragraphs)).map_values(|p: Seq<char>| ended(p)).filter(
        |p: Seq<char>| has_letter(p),
    )
}

/// Whether a passage is long enough to be stored.
pub open spec fn storable(text: Seq<char>) -> bool {
    utf8_len(text) >= MIN_STORED_BYTES
}

/// The characters of `v` with every run of white space made one space.
fn squeeze_chars(v: &Vec<char>) -> (out: Vec<char>)
    ensures
        out@ == squeezed(v@),
{
    let mut out: Vec<char> = Vec::new();
    let mut last_space = false;
    let mut i: usize = 0;
    assert(v@.take(0) =~= Seq::<char>::empty());
    while i < v.len()
        invariant
            i <= v@.len(),
            out@ == squeezed(v@.take(i as int)),
            last_space == (out@.len() > 0 && out@.last() == ' '),
        decreases v@.len() - i,
    {
        let c = v[i];
        proof {
            assert(v@.take(i as int + 1).drop_last() =~= v@.take(i as int));
            assert(v@.take(i as int + 1).last() == c);
        }
        if is_whitespace(c) {
            if !last_space {
                out.push(' ');
                last_space = true;
            }
        } else {
            last_space = false;
            out.push(c);
        }
        i += 1;
    }
    assert(v@.take(i as int) =~= v@);
    out
}

/// The cleaned form of the characters `v`, as text.
fn normalize_chars(v: &Vec<char>) -> (out: String)
    ensures
        out@ == normalized(v@),
{
    let squeezed = squeeze_chars(v);
    let (from, to) = trim_bounds(&squeezed);
    text_of(&squeezed, from, to)
}

/// Makes one space of every run of white space in `s` and drops the white
/// space at its ends.
pub fn normalize_space(s: &str) -> (out: String)
    ensures
        out@ == normalized(s@),
        is_trim_of(squeezed(s@), out@),
{
    let v = to_chars(s);
    let squeezed = squeeze_chars(&v);
    let (from, to) = trim_bounds(&squeezed);
    text_of(&squeezed, from, to)
}

/// Whether a sentence may end with `c`.
fn ends_sentence(c: char) -> (b: bool)
    ensures
        b == is_sentence_end(c),
{
    c == '.' || c == '!' || c == '?'
}

/// Packs one more sentence.
fn pack_sentence(out: &mut Vec<String>, cur: &mut String, piece: &Vec<char>, max_len: usize)
    ensures
        (Packing { out: texts(final(out)@), cur: final(cur)@ }) == sentence_packed(
            Packing { out: texts(old(out)@), cur: old(cur)@ },
            piece@,
            max_len as int,
        ),
{
    let ghost before = Packing { out: texts(out@), cur: cur@ };
    let s = normalize_chars(piece);
    if s.as_str().is_empty() {
        return ;
    }
    let needed: u128 = (byte_len(cur.as_str()) as u128) + (byte_len(s.as_str()) as u128) + 1;
    if needed > max_len as u128 {
        if !cur.as_str().is_empty() {
            let done = trim_text(cur.as_str());
            out.push(done);
            assert(texts(out@) =~= before.out.push(trimmed(before.cur)));
        }
        *cur = s;
    } else {
        if !cur.as_str().is_empty() {
            push_char(cur, ' ');
            cur.append(s.as_str());
            assert(cur@ =~= before.cur + seq![' '] + s@);
        } else {
            cur.append(s.as_str());
            assert(cur@ =~= s@);
        }
    }
}

/// Takes a long text apart at its sentence ends and puts the sentences,
/// cleaned of stray white space, together again in chunks: a sentence goes
/// into the chunk in the making while that stays within `max_len` bytes, and
/// begins a new chunk where it does not. The marks that end the sentences
/// are not kept.
pub fn split_sentences(long: &str, max_len: usize) -> (out: Vec<String>)
    ensures
        texts(out@) == sentence_chunks(long@, max_len as int),
{
    let chars = to_chars(long);
    let mut out: Vec<String> = Vec::new();
    let mut cur = String::new();
    let mut piece: Vec<char> = Vec::new();
    let ghost mut done: Seq<Seq<char>> = Seq::empty();
    let mut i: usize = 0;
    proof {
        assert(chars@.take(0) =~= Seq::<char>::empty());
        assert(pieces(chars@.take(0)) =~= done.push(piece@));
        assert(texts(out@) =~= Seq::<Seq<char>>::empty());
    }
    while i < chars.len()
        invariant
            i <= chars@.len(),
            pieces(chars@.take(i as int)) == done.push(piece@),
            (Packing { out: texts(out@), cur: cur@ }) == sentences_packed(done, max_len as int),
        decreases chars@.len() - i,
    {
        let c = chars[i];
        proof {
            assert(chars@.take(i as int + 1).drop_last() =~= chars@.take(i as int));
            assert(chars@.take(i as int + 1).last() == c);
        }
        if ends_sentence(c) {
            pack_sentence(&mut out, &mut cur, &piece, max_len);
            proof {
                assert(done.push(piece@).drop_last() =~= done);
                done = done.push(piece@);
            }
            piece = Vec::new();
            assert(pieces(chars@.take(i as int + 1)) =~= done.push(piece@));
        } else {
            let ghost was = piece@;
            piece.push(c);
            assert(done.push(was).drop_last() =~= done);
            assert(pieces(chars@.take(i as int + 1)) =~= done.push(piece@));
        }
        i += 1;
    }
    pack_sentence(&mut out, &mut cur, &piece, max_len);
    proof {
        assert(chars@.take(i as int) =~= chars@);
        assert(done.push(piece@).drop_last() =~= done);
    }
    if !cur.as_str().is_empty() {
        let ghost before = texts(out@);
        out.push(trim_text(cur.as_str()));
        assert(texts(out@) =~= before.push(trimmed(cur@)));
    }
    out
}

/// Adds the chunk `next` to the passages in the making. Into an empty
/// buffer it goes as it is. Where the buffer with a space and the chunk
/// stays within `max_len` bytes, it is added after a space. Otherwise the
/// buffer is closed: its content goes to `out`, trimmed, if it has reached
/// `min_len` bytes, and is dropped if not; and the chunk begins the next.
pub fn push_chunk(
    out: &mut Vec<String>,
    buf: &mut String,
    next: String,
    min_len: usize,
    max_len: usize,
)
    ensures
        (Packing { out: texts(final(out)@), cur: final(buf)@ }) == chunk_pushed(
            Packing { out: texts(old(out)@), cur: old(buf)@ },
            next@,
            min_len as int,
            max_len as int,
        ),
{
    let ghost before = Packing { out: texts(out@), cur: buf@ };
    let cur_len = byte_len(buf.as_str());
    proof {
        lemma_utf8_len_bounds(buf@);
    }
    if cur_len == 0 {
        buf.append(next.as_str());
        assert(buf@ =~= next@);
    } else if (cur_len as u128) + 1 + (byte_len(next.as_str()) as u128) <= max_len as u128 {
        push_char(buf, ' ');
        buf.append(next.as_str());
        assert(buf@ =~= before.cur + seq![' '] + next@);
    } else {
        if cur_len >= min_len {
            out.push(trim_text(buf.as_str()));
            assert(texts(out@) =~= before.out.push(trimmed(before.cur)));
        }
        *buf = next;
    }
}

/// Adds every chunk of `chunks` to the passages in the making.
fn push_chunks(out: &mut Vec<String>, buf: &mut String, chunks: Vec<String>)
    ensures
        (Packing { out: texts(final(out)@), cur: final(buf)@ }) == chunks_pushed(
            Packing { out: texts(old(out)@), cur: old(buf)@ },
            texts(chunks@),
        ),
{
    let ghost before = Packing { out: texts(out@), cur: buf@ };
    let mut i: usize = 0;
    assert(texts(chunks@).take(0) =~= Seq::<Seq<char>>::empty());
    while i < chunks.len()
        invariant
            i <= chunks@.len(),
            (Packing { out: texts(out@), cur: buf@ }) == chunks_pushed(
                before,
                texts(chunks@).take(i as int),
            ),
        decreases chunks@.len() - i,
    {
        proof {
            assert(texts(chunks@).take(i as int + 1).drop_last() =~= texts(chunks@).take(i as int));
            assert(texts(chunks@).take(i as int + 1).last() == chunks@[i as int]@);
        }
        push_chunk(out, buf, chunks[i].clone(), MIN_PASSAGE_BYTES, MAX_PASSAGE_BYTES);
        i += 1;
    }
    assert(texts(chunks@).take(i as int) =~= texts(chunks@));
}

/// Whether `s` holds a letter.
fn holds_letter(s: &str) -> (b: bool)
    ensures
        b == has_letter(s@),
{
    let v = to_chars(s);
    let mut i: usize = 0;
    while i < v.len()
        invariant
            i <= v@.len(),
            v@ == s@,
            forall|k: int| 0 <= k < i ==> !alphabetic(#[trigger] v@[k]),
        decreases v@.len() - i,
    {
        if is_alphabetic(v[i]) {
            return true;
        }
        i += 1;
    }
    false
}

/// `p` with a full stop at its end, unless it ends a sentence already.
fn end_passage(p: &str) -> (out: String)
    ensures
        out@ == ended(p@),
{
    let v = to_chars(p);
    let mut out = p.to_owned();
    if v.len() > 0 && ends_sentence(v[v.len() - 1]) {
        out
    } else {
        push_char(&mut out, '.');
        out
    }
}

/// Makes passages of the paragraphs of a page. Each paragraph is cleaned of
/// stray white space; those of 80 bytes or less are passed over. The rest
/// are combined, a space between them, as long as a passage stays within
/// 650 bytes; a paragraph longer than that is first taken apart by
/// sentences. A passage is kept once it has reached 220 bytes. Every
/// passage kept ends with a full stop, question mark or exclamation mark,
/// and holds at least one letter.
pub fn passages_from_paragraphs(paragraphs: &Vec<String>) -> (out: Vec<String>)
    ensures
        texts(out@) == passages_of(texts(paragraphs@)),
{
    let mut made: Vec<String> = Vec::new();
    let mut buf = String::new();
    let mut i: usize = 0;
    proof {
        assert(texts(paragraphs@).take(0) =~= Seq::<Seq<char>>::empty());
        assert(texts(made@) =~= Seq::<Seq<char>>::empty());
    }
    while i < paragraphs.len()
        invariant
            i <= paragraphs@.len(),
            (Packing { out: texts(made@), cur: buf@ }) == paragraphs_taken(
                texts(paragraphs@).take(i as int),
            ),
        decreases paragraphs@.len() - i,
    {
        proof {
            assert(texts(paragraphs@).take(i as int + 1).drop_last() =~= texts(paragraphs@).take(
                i as int,
            ));
            assert(texts(paragraphs@).take(i as int + 1).last() == paragraphs@[i as int]@);
        }
        let p = normalize_space(paragraphs[i].as_str());
        let len = byte_len(p.as_str());
        if len > MIN_PARAGRAPH_BYTES {
            if len > MAX_PASSAGE_BYTES {
                let chunks = split_sentences(p.as_str(), MAX_PASSAGE_BYTES);
                push_chunks(&mut made, &mut buf, chunks);
            } else {
                push_chunk(&mut made, &mut buf, p, MIN_PASSAGE_BYTES, MAX_PASSAGE_BYTES);
            }
        }
        i += 1;
    }
    assert(texts(paragraphs@).take(i as int) =~= texts(paragraphs@));
    if !buf.as_str().is_empty() && byte_len(buf.as_str()) >= MIN_PASSAGE_BYTES {
        let ghost before = texts(made@);
        made.push(trim_text(buf.as_str()));
        assert(texts(made@) =~= before.push(trimmed(buf@)));
    }
    let ghost kept = texts(made@);
    let ghost end = |p: Seq<char>| ended(p);
    let ghost lettered = |p: Seq<char>| has_letter(p);
    let mut out: Vec<String> = Vec::new();
    let mut k: usize = 0;
    proof {
        reveal(Seq::filter);
        assert(kept.take(0) =~= Seq::<Seq<char>>::empty());
        assert(kept.take(0).map_values(end) =~= Seq::<Seq<char>>::empty());
        assert(texts(out@) =~= Seq::<Seq<char>>::empty());
    }
    while k < made.len()
        invariant
            k <= made@.len(),
            kept == texts(made@),
            end == (|p: Seq<char>| ended(p)),
            lettered == (|p: Seq<char>| has_letter(p)),
            texts(out@) == kept.take(k as int).map_values(end).filter(lettered),
        decreases made@.len() - k,
    {
        let p = end_passage(made[k].as_str());
        proof {
            reveal(Seq::filter);
            let next = kept.take(k as int + 1).map_values(end);
            assert(next.drop_last() =~= kept.take(k as int).map_values(end));
            assert(next.last() == p@);
        }
        if holds_letter(p.as_str()) {
            let ghost before = texts(out@);
            out.push(p);
            assert(texts(out@) =~= before.push(p@));
        }
        k += 1;
    }
    assert(kept.take(k as int) =~= kept);
    out
}

/// The passages of a page: those made of the texts of its paragraphs, or
/// `None` where the paragraphs cannot be searched for.
pub open spec fn page_passages(html: Seq<char>) -> Option<Seq<Seq<char>>> {
    match selected_texts_of(html, PARAGRAPH_SELECTOR@) {
        Some(paragraphs) => Some(passages_of(paragraphs)),
        None => None,
    }
}

/// Makes passages of a page of HTML: the texts of its `p` elements,
/// combined as `passages_from_paragraphs` combines them. `None` comes back
/// only where the selector for paragraphs is refused.
pub fn extract_passages_from_html(html: &str) -> (out: Option<Vec<String>>)
    ensures
        match out {
            Some(list) => page_passages(html@) == Some(texts(list@)),
            None => page_passages(html@) is None,
        },
{
    match selected_texts(html, PARAGRAPH_SELECTOR) {
        Some(paragraphs) => Some(passages_from_paragraphs(&paragraphs)),
        None => None,
    }
}

/// Whether a passage is long enough to be stored: 120 bytes or more.
pub fn worth_storing(text: &str) -> (b: bool)
    ensures
        b == storable(text@),
{
    byte_len(text) >= MIN_STORED_BYTES
}

/// The passage for a race: the one fetched from the store, if one was; else
/// one of the bundled passages.
pub fn passage_or_fallback(fetched: Option<String>) -> (passage: String)
    ensures
        match fetched {
            Some(p) => passage@ == p@,
            None => is_bundled(passage@) && passage@.len() > 0,
        },
{
    match fetched {
        Some(p) => p,
        None => get_random_passage().to_owned(),
    }
}

/// The lines of a text: what stands between its line feeds, one line more
/// than there are line feeds, empty ones included.
pub open spec fn lines_of(s: Seq<char>) -> Seq<Seq<char>>
    decreases s.len(),
{
    if s.len() == 0 {
        seq![Seq::empty()]
    } else {
        let front = lines_of(s.drop_last());
        if s.last() == '\n' {
            front.push(Seq::empty())
        } else {
            front.drop_last().push(front.last().push(s.last()))
        }
    }
}

/// Whether the first `#` of `t` stands at `n`, or `t` holds none and `n` is
/// its length.
pub open spec fn is_comment_start(t: Seq<char>, n: int) -> bool {
    &&& 0 <= n <= t.len()
    &&& forall|k: int| 0 <= k < n ==> #[trigger] t[k] != '#'
    &&& n < t.len() ==> t[n] == '#'
}

/// Where the comment of a line begins: at its first `#`, or at its end.
pub open spec fn comment_start(t: Seq<char>) -> int {
    choose|n: int| is_comment_start(t, n)
}

/// The address that a line of a list gives: the line without its comment,
/// which begins at the first `#`, and without white space at its ends.
pub open spec fn address_in(line: Seq<char>) -> Seq<char> {
    let t = trimmed(line);
    trimmed(t.take(comment_start(t)))
}

/// The addresses that a list gives, one to a line: comments and empty lines
/// left out.
pub open spec fn addresses_of(content: Seq<char>) -> Seq<Seq<char>> {
    lines_of(content).map_values(|line: Seq<char>| address_in(line)).filter(
        |a: Seq<char>| a.len() > 0,
    )
}

/// A comment begins in one place only.
pub proof fn lemma_comment_start_is_unique(t: Seq<char>, a: int, b: int)
    requires
        is_comment_start(t, a),
        is_comment_start(t, b),
    ensures
        a == b,
{
    if a < b {
        assert(t[a] != '#');
    } else if b < a {
        assert(t[b] != '#');
    }
}

/// The address that the line `line` gives.
fn address_of_line(line: &Vec<char>) -> (address: String)
    ensures
        address@ == address_in(line@),
{
    let (from, to) = trim_bounds(line);
    let mut t: Vec<char> = Vec::new();
    let mut i: usize = from;
    while i < to
        invariant
            from <= i <= to <= line@.len(),
            t@ == line@.subrange(from as int, i as int),
        decreases to - i,
    {
        t.push(line[i]);
        i += 1;
        assert(t@ =~= line@.subrange(from as int, i as int));
    }
    assert(t@ == trimmed(line@));
    let mut n: usize = 0;
    while n < t.len() && t[n] != '#'
        invariant
            n <= t@.len(),
            forall|k: int| 0 <= k < n ==> #[trigger] t@[k] != '#',
        decreases t@.len() - n,
    {
        n += 1;
    }
    proof {
        assert(is_comment_start(t@, n as int));
        lemma_comment_start_is_unique(t@, n as int, comment_start(t@));
    }
    t.truncate(n);
    assert(t@ =~= trimmed(line@).take(n as int));
    let (a, b) = trim_bounds(&t);
    text_of(&t, a, b)
}

/// Reads a list of addresses, one to a line. White space around a line does
/// not count; what follows a `#` is a comment; lines that are empty, or
/// hold a comment alone, are passed over.
pub fn parse_url_list(content: &str) -> (urls: Vec<String>)
    ensures
        texts(urls@) == addresses_of(content@),
{
    let chars = to_chars(content);
    let mut urls: Vec<String> = Vec::new();
    let mut line: Vec<char> = Vec::new();
    let ghost mut done: Seq<Seq<char>> = Seq::empty();
    let ghost address = |line: Seq<char>| address_in(line);
    let ghost filled = |a: Seq<char>| a.len() > 0;
    let mut i: usize = 0;
    proof {
        reveal(Seq::filter);
        assert(chars@.take(0) =~= Seq::<char>::empty());
        assert(lines_of(chars@.take(0)) =~= done.push(line@));
        assert(texts(urls@) =~= Seq::<Seq<char>>::empty());
        assert(done.map_values(address) =~= Seq::<Seq<char>>::empty());
    }
    while i < chars.len()
        invariant
            i <= chars@.len(),
            address == (|line: Seq<char>| address_in(line)),
            filled == (|a: Seq<char>| a.len() > 0),
            lines_of(chars@.take(i as int)) == done.push(line@),
            texts(urls@) == done.map_values(address).filter(filled),
        decreases chars@.len() - i,
    {
        let c = chars[i];
        proof {
            assert(chars@.take(i as int + 1).drop_last() =~= chars@.take(i as int));
            assert(chars@.take(i as int + 1).last() == c);
        }
        if c == '\n' {
            let found = address_of_line(&line);
            proof {
                reveal(Seq::filter);
                let next = done.push(line@).map_values(address);
                assert(next.drop_last() =~= done.map_values(address));
                assert(next.last() == found@);
                assert(done.push(line@).drop_last() =~= done);
            }
            if !found.as_str().is_empty() {
                let ghost before = texts(urls@);
                urls.push(found);
                assert(texts(urls@) =~= before.push(found@));
            }
            proof {
                done = done.push(line@);
            }
            line = Vec::new();
            assert(lines_of(chars@.take(i as int + 1)) =~= done.push(line@));
        } else {
            let ghost was = line@;
            line.push(c);
            assert(done.push(was).drop_last() =~= done);
            assert(lines_of(chars@.take(i as int + 1)) =~= done.push(line@));
        }
        i += 1;
    }
    let found = address_of_line(&line);
    proof {
        reveal(Seq::filter);
        assert(chars@.take(i as int) =~= chars@);
        let next = done.push(line@).map_values(address);
        assert(next.drop_last() =~= done.map_values(address));
        assert(next.last() == found@);
    }
    if !found.as_str().is_empty() {
        let ghost before = texts(urls@);
        urls.push(found);
        assert(texts(urls@) =~= before.push(found@));
    }
    urls
}

/// No passage in the making grows beyond the limit: where it and the chunk
/// to be added each stay within `max_len` bytes, so does what is in the
/// making afterwards.
pub proof fn lemma_chunk_stays_within(st: Packing, next: Seq<char>, min_len: int, max_len: int)
    requires
        utf8_len(st.cur) <= max_len,
        utf8_len(next) <= max_len,
    ensures
        utf8_len(chunk_pushed(st, next, min_len, max_len).cur) <= max_len,
        chunk_pushed(st, next, min_len, max_len).out.len() <= st.out.len() + 1,
{
    if st.cur.len() > 0 && utf8_len(st.cur) + 1 + utf8_len(next) <= max_len {
        lemma_utf8_len_ascii(' ');
        lemma_utf8_len_add(st.cur, seq![' ']);
        lemma_utf8_len_add(st.cur + seq![' '], next);
    }
}

/// Every passage made ends a sentence and holds a letter.
pub proof fn lemma_passages_end_and_hold_letters(paragraphs: Seq<Seq<char>>)
    ensures
        forall|i: int|
            0 <= i < passages_of(paragraphs).len() ==> {
                let p = #[trigger] passages_of(paragraphs)[i];
                &&& p.len() > 0
                &&& is_sentence_end(p.last())
                &&& has_letter(p)
            },
{
    let end = |p: Seq<char>| ended(p);
    let lettered = |p: Seq<char>| has_letter(p);
    let all = flushed(paragraphs_taken(paragraphs)).map_values(end);
    let kept = all.filter(lettered);
    assert forall|i: int| 0 <= i < kept.len() implies {
        let p = #[trigger] kept[i];
        &&& p.len() > 0
        &&& is_sentence_end(p.last())
        &&& has_letter(p)
    } by {
        all.lemma_filter_pred(lettered, i);
        assert(kept.contains(kept[i]));
        all.lemma_filter_contains_rev(lettered, kept[i]);
        let k = choose|k: int| 0 <= k < all.len() && all[k] == kept[i];
        assert(all[k] == ended(flushed(paragraphs_taken(paragraphs))[k]));
    }
}

} // verus!
