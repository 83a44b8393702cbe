//! The text model of the Canvas2D renderer: the drawn document kept as one
//! string, selections and search matches as byte offsets into it, and the
//! search index over those offsets.
use vstd::prelude::*;
use vstd::string::StringSliceAdditionalSpecFns;
use vstd::utf8::{encode_utf8, is_char_boundary};
use crate::document::{is_alphanumeric, is_word_char, push_char};
use vstd::string::StringExecFns;
use crate::search::{SearchTrie, word_key, trimmed};

verus! {

/// The byte offset of character `i` of `t` in its UTF-8 encoding.
pub open spec fn byte_offset(t: Seq<char>, i: int) -> int {
    encode_utf8(t.take(i)).len() as int
}

/// Encoding is done character by character.
pub proof fn lemma_encode_concat(a: Seq<char>, b: Seq<char>)
    ensures
        encode_utf8(a + b) == encode_utf8(a) + encode_utf8(b),
    decreases a.len(),
{
    if a.len() == 0 {
        assert(a + b =~= b);
        assert(encode_utf8(a) =~= Seq::<u8>::empty());
        assert(Seq::<u8>::empty() + encode_utf8(b) =~= encode_utf8(b));
    } else {
        lemma_encode_concat(a.drop_first(), b);
        assert((a + b)[0] == a[0]);
        assert((a + b).drop_first() =~= a.drop_first() + b);
        let h = vstd::utf8::encode_scalar(a[0] as u32);
        assert(h + (encode_utf8(a.drop_first()) + encode_utf8(b)) =~= h + encode_utf8(a.drop_first()) + encode_utf8(b));
    }
}

/// The byte offsets of characters `i` and `i + 1` differ by the length of
/// character `i`, and neither passes the end of the encoding.
proof fn lemma_byte_offset_step(t: Seq<char>, i: int)
    requires
        0 <= i < t.len(),
    ensures
        byte_offset(t, i + 1) == byte_offset(t, i) + encode_utf8(seq![t[i]]).len(),
        byte_offset(t, i + 1) <= encode_utf8(t).len(),
{
    assert(t.take(i + 1) =~= t.take(i) + seq![t[i]]);
    lemma_encode_concat(t.take(i), seq![t[i]]);
    assert(t =~= t.take(i + 1) + t.skip(i + 1));
    lemma_encode_concat(t.take(i + 1), t.skip(i + 1));
}

/// The number of bytes of the UTF-8 encoding of `c`.
fn utf8_len(c: char) -> (r: usize)
    ensures
        r == encode_utf8(seq![c]).len(),
        1 <= r <= 4,
{
    proof {
        vstd::utf8::char_is_scalar(c);
        assert(seq![c].drop_first() =~= Seq::<char>::empty());
        assert(encode_utf8(seq![c]) =~= vstd::utf8::encode_scalar(c as u32) + encode_utf8(Seq::<char>::empty()));
    }
    let v = c as u32;
    if v < 0x80 {
        1
    } else if v < 0x800 {
        2
    } else if v < 0x10000 {
        3
    } else {
        4
    }
}

/// Where indexing the text stands: the word being read and the byte offset
/// of each of its characters.
pub struct TextIndexState {
    pub word: Seq<char>,
    pub offsets: Seq<int>,
}

/// End the current word: each of its first 64 suffixes, at the byte offset
/// where the suffix starts.
pub open spec fn text_flush(st: TextIndexState) -> (TextIndexState, Seq<(Seq<char>, int)>) {
    let n = if st.word.len() < 64 { st.word.len() as int } else { 64 };
    (
        TextIndexState { word: Seq::empty(), offsets: Seq::empty() },
        Seq::new(n as nat, |k: int| (st.word.subrange(k, st.word.len() as int), st.offsets[k])),
    )
}

/// Read character `i` of `t`: a word character extends the word, any other
/// ends it.
pub open spec fn text_step(t: Seq<char>, i: int, st: TextIndexState) -> (TextIndexState, Seq<(Seq<char>, int)>) {
    if is_word_char(t[i]) {
        (TextIndexState { word: st.word.push(t[i]), offsets: st.offsets.push(byte_offset(t, i)) }, Seq::empty())
    } else {
        text_flush(st)
    }
}

/// Read the first `n` characters of `t`.
pub open spec fn text_run(t: Seq<char>, n: int) -> (TextIndexState, Seq<(Seq<char>, int)>)
    decreases n,
{
    if n <= 0 {
        (TextIndexState { word: Seq::empty(), offsets: Seq::empty() }, Seq::empty())
    } else {
        let (s1, e1) = text_run(t, n - 1);
        let (s2, e2) = text_step(t, n - 1, s1);
        (s2, e1 + e2)
    }
}

/// The words of a text with their suffixes (up to 64 of each word), each at
/// the byte offset where it starts, in order.
pub open spec fn text_words(t: Seq<char>) -> Seq<(Seq<char>, int)> {
    let (st, e) = text_run(t, t.len() as int);
    e + text_flush(st).1
}

/// Index keys of text words, as the trie stores them.
pub open spec fn keyed_offsets(words: Seq<(Seq<char>, int)>) -> Seq<(Seq<char>, usize)> {
    Seq::new(words.len(), |i: int| (word_key(words[i].0), words[i].1 as usize))
}

proof fn lemma_keyed_offsets_concat(a: Seq<(Seq<char>, int)>, b: Seq<(Seq<char>, int)>)
    ensures
        keyed_offsets(a + b) == keyed_offsets(a) + keyed_offsets(b),
{
    assert(keyed_offsets(a + b) =~= keyed_offsets(a) + keyed_offsets(b));
}

/// Index the words of the current word into `trie`.
fn flush_word(trie: &mut SearchTrie<usize>, word: &mut Vec<char>, offsets: &mut Vec<usize>)
    requires
        old(trie).wf(),
        old(word)@.len() == old(offsets)@.len(),
    ensures
        final(trie).wf(),
        final(word)@.len() == 0,
        final(offsets)@.len() == 0,
        final(trie).entries() == old(trie).entries() + keyed_offsets(text_flush(TextIndexState {
            word: old(word)@,
            offsets: old(offsets)@.map_values(|o: usize| o as int),
        }).1),
{
    let ghost st = TextIndexState { word: word@, offsets: offsets@.map_values(|o: usize| o as int) };
    let ghost all = text_flush(st).1;
    let ghost e0 = trie.entries();
    let n: usize = if word.len() < 64 { word.len() } else { 64 };
    let mut k: usize = 0;
    assert(all.take(0) =~= Seq::<(Seq<char>, int)>::empty());
    assert(e0 + keyed_offsets(Seq::<(Seq<char>, int)>::empty()) =~= e0);
    while k < n
        invariant
            trie.wf(),
            k <= n,
            n == all.len(),
            n <= word@.len(),
            word@.len() == offsets@.len(),
            st == (TextIndexState { word: word@, offsets: offsets@.map_values(|o: usize| o as int) }),
            all == text_flush(st).1,
            trie.entries() == e0 + keyed_offsets(all.take(k as int)),
        decreases n - k,
    {
        let (_, tail) = word.as_slice().split_at(k);
        let pos = offsets[k];
        trie.insert_chars(tail, pos);
        proof {
            assert(tail@ =~= word@.subrange(k as int, word@.len() as int));
            assert(all[k as int] == (tail@, pos as int));
            assert(all.take(k + 1) =~= all.take(k as int).push(all[k as int]));
            assert(keyed_offsets(all.take(k + 1)) =~= keyed_offsets(all.take(k as int)).push((word_key(tail@), pos)));
        }
        k = k + 1;
    }
    assert(all.take(n as int) =~= all);
    word.clear();
    offsets.clear();
}

/// Clear the index and index the words of `text` at their byte offsets.
pub fn rebuild_text_index(trie: &mut SearchTrie<usize>, text: &str)
    requires
        old(trie).wf(),
    ensures
        final(trie).wf(),
        final(trie).entries() == keyed_offsets(text_words(text@)),
{
    trie.clear();
    let chars = crate::text::str_chars(text);
    let ghost t = text@;
    let ghost total = text.spec_bytes().len();
    let byte_len = text.as_bytes().len();
    let mut word: Vec<char> = Vec::new();
    let mut offsets: Vec<usize> = Vec::new();
    let mut offset: usize = 0;
    let mut i: usize = 0;
    assert(t.take(0) =~= Seq::<char>::empty());
    assert(keyed_offsets(Seq::<(Seq<char>, int)>::empty()) =~= Seq::<(Seq<char>, usize)>::empty());
    assert(word@ =~= Seq::<char>::empty());
    assert(offsets@.map_values(|o: usize| o as int) =~= Seq::<int>::empty());
    while i < chars.len()
        invariant
            trie.wf(),
            chars@ == t,
            t == text@,
            byte_len == encode_utf8(t).len(),
            i <= chars.len(),
            offset == byte_offset(t, i as int),
            offset <= byte_len,
            word@.len() == offsets@.len(),
            text_run(t, i as int).0 == (TextIndexState { word: word@, offsets: offsets@.map_values(|o: usize| o as int) }),
            trie.entries() == keyed_offsets(text_run(t, i as int).1),
        decreases chars.len() - i,
    {
        let c = chars[i];
        let ghost before = text_run(t, i as int);
        proof {
            lemma_byte_offset_step(t, i as int);
        }
        if is_alphanumeric(c) || c == '_' {
            word.push(c);
            offsets.push(offset);
            proof {
                assert(offsets@.map_values(|o: usize| o as int) =~= before.0.offsets.push(byte_offset(t, i as int)));
                assert(before.1 + Seq::<(Seq<char>, int)>::empty() =~= before.1);
            }
        } else {
            flush_word(trie, &mut word, &mut offsets);
            proof {
                lemma_keyed_offsets_concat(before.1, text_flush(before.0).1);
                assert(word@ =~= Seq::<char>::empty());
                assert(offsets@.map_values(|o: usize| o as int) =~= Seq::<int>::empty());
            }
        }
        offset = offset + utf8_len(c);
        i = i + 1;
    }
    let ghost fin = text_run(t, t.len() as int);
    assert(chars@.len() == t.len());
    flush_word(trie, &mut word, &mut offsets);
    proof {
        lemma_keyed_offsets_concat(fin.1, text_flush(fin.0).1);
    }
}

/// The selection between an anchor and a focus byte offset, in order; none
/// while either is missing or both are equal.
pub open spec fn spec_byte_selection(anchor: Option<usize>, focus: Option<usize>) -> Option<(usize, usize)> {
    match (anchor, focus) {
        (Some(a), Some(b)) => if a == b {
            None
        } else if a < b {
            Some((a, b))
        } else {
            Some((b, a))
        },
        _ => None,
    }
}

/// The document text with one more drawn line: a line break first unless
/// the text is still empty, then the line.
pub open spec fn spec_with_line(text: Seq<char>, line: Seq<char>) -> Seq<char> {
    if text.len() == 0 {
        line
    } else {
        text.push('\n') + line
    }
}

/// Append a drawn line to the document text and return the byte range it
/// occupies there, which selections and search matches refer to.
pub fn append_line(text: &mut String, line: &str) -> (r: (usize, usize))
    ensures
        final(text)@ == spec_with_line(old(text)@, line@),
        r.1 == encode_utf8(final(text)@).len(),
        encode_utf8(final(text)@).subrange(r.0 as int, r.1 as int) == encode_utf8(line@),
        r.0 + encode_utf8(line@).len() == r.1,
{
    if !text.as_str().is_empty() {
        push_char(text, '\n');
    }
    let ghost head = text@;
    let start = text.as_str().as_bytes().len();
    text.append(line);
    let end = text.as_str().as_bytes().len();
    proof {
        lemma_encode_concat(head, line@);
        assert(encode_utf8(text@).subrange(start as int, end as int) =~= encode_utf8(line@));
    }
    (start, end)
}

/// The selection between an anchor and a focus byte offset, in order.
pub fn byte_selection_range(anchor: Option<usize>, focus: Option<usize>) -> (r: Option<(usize, usize)>)
    ensures
        r == spec_byte_selection(anchor, focus),
{
    match (anchor, focus) {
        (Some(a), Some(b)) => if a == b {
            None
        } else if a < b {
            Some((a, b))
        } else {
            Some((b, a))
        },
        _ => None,
    }
}

/// The selected text `[start, end)` of the drawn document (`str::get`): none
/// unless both ends are character boundaries in order.
pub fn selected_text(text: &str, start: usize, end: usize) -> (r: Option<&str>)
    ensures
        match r {
            Some(s) => start <= end && is_char_boundary(text.spec_bytes(), start as int)
                && is_char_boundary(text.spec_bytes(), end as int)
                && s.spec_bytes() == text.spec_bytes().subrange(start as int, end as int),
            None => !(start <= end && is_char_boundary(text.spec_bytes(), start as int)
                && is_char_boundary(text.spec_bytes(), end as int)),
        },
{
    if start <= end && text.is_char_boundary(start) && text.is_char_boundary(end) {
        proof {
            vstd::utf8::encode_utf8_valid_utf8(text@);
            if end > text.spec_bytes().len() {
                assert(!is_char_boundary(text.spec_bytes(), end as int));
            }
        }
        Some(crate::code::text_of(text, start, end))
    } else {
        None
    }
}

/// The highlighted byte ranges of search matches: from each match start, as
/// many bytes as the trimmed query has (stopping at the largest offset).
pub open spec fn spec_byte_match_ranges(starts: Seq<usize>, length: int) -> Seq<(usize, usize)> {
    Seq::new(starts.len(), |i: int| (starts[i], if starts[i] + length > usize::MAX { usize::MAX } else { (starts[i] + length) as usize }))
}

/// The highlighted byte range of each match start of `query`.
pub fn byte_match_ranges(starts: &[usize], query: &str) -> (r: Vec<(usize, usize)>)
    ensures
        r@ == spec_byte_match_ranges(starts@, encode_utf8(trimmed(query@)).len() as int),
{
    let length = crate::registry::trim_str(query).as_bytes().len();
    let mut out: Vec<(usize, usize)> = Vec::new();
    let mut i: usize = 0;
    while i < starts.len()
        invariant
            i <= starts.len(),
            length == encode_utf8(trimmed(query@)).len(),
            out@ =~= spec_byte_match_ranges(starts@, length as int).take(i as int),
        decreases starts.len() - i,
    {
        let s = starts[i];
        let end = if length > usize::MAX - s { usize::MAX } else { s + length };
        out.push((s, end));
        i = i + 1;
    }
    out
}

} // verus!
