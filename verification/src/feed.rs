//! Feeding a simulated stream to the Markdown parser: which tokens (GPU
//! renderer) or which byte range of the source (Canvas2D renderer) the next
//! frame hands over, and where the stream stands afterwards. The source is
//! streamed `repeats` times, with a blank line between repetitions of the
//! token stream.
use vstd::prelude::*;
use vstd::string::{StringExecFns, StringSliceAdditionalSpecFns};
use vstd::utf8::is_char_boundary;

verus! {

broadcast use vstd::string::group_string_axioms;

/// Where a repeated token stream stands: the next token to emit and how
/// many full passes are done.
#[derive(Clone, Copy, Debug, PartialEq, Eq, Structural)]
pub struct TokenCursor {
    pub next_token: usize,
    pub current_repeat: usize,
}

/// The text of each token.
pub open spec fn token_texts(tokens: Seq<String>) -> Seq<Seq<char>> {
    tokens.map_values(|t: String| t@)
}

/// Emitting up to `count` tokens from token `next` in pass `rep` of
/// `repeats`: the text handed over, how many tokens it holds, and the next
/// token and pass. A pass that completes (and is not the last) is followed
/// by a blank line.
pub open spec fn spec_emit(tokens: Seq<Seq<char>>, next: int, rep: int, repeats: int, count: int) -> (Seq<char>, int, int, int)
    decreases count,
{
    if count <= 0 || rep >= repeats || !(0 <= next < tokens.len()) {
        (Seq::empty(), 0, next, rep)
    } else {
        let wrapped = next + 1 == tokens.len();
        let n2 = if wrapped { 0 } else { next + 1 };
        let r2 = if wrapped { rep + 1 } else { rep };
        let sep = if wrapped && r2 < repeats { "\n\n"@ } else { Seq::empty() };
        let rest = spec_emit(tokens, n2, r2, repeats, count - 1);
        (tokens[next] + sep + rest.0, rest.1 + 1, rest.2, rest.3)
    }
}

/// The stream does not depend on how it is cut into frames: emitting `n`
/// tokens and then `m` more hands over the same text, the same number of
/// tokens, and ends at the same place as emitting `n + m` at once.
pub proof fn lemma_emit_split(tokens: Seq<Seq<char>>, next: int, rep: int, repeats: int, n: int, m: int)
    requires
        0 <= n,
        0 <= m,
    ensures
        ({
            let first = spec_emit(tokens, next, rep, repeats, n);
            let second = spec_emit(tokens, first.2, first.3, repeats, m);
            spec_emit(tokens, next, rep, repeats, n + m) == (first.0 + second.0, first.1 + second.1, second.2, second.3)
        }),
    decreases n,
{
    let first = spec_emit(tokens, next, rep, repeats, n);
    if n == 0 || rep >= repeats || !(0 <= next < tokens.len()) {
        assert(first.0 + spec_emit(tokens, first.2, first.3, repeats, m).0 =~= spec_emit(tokens, first.2, first.3, repeats, m).0);
        if n > 0 {
            assert(spec_emit(tokens, next, rep, repeats, n + m) == spec_emit(tokens, next, rep, repeats, m));
        }
    } else {
        let wrapped = next + 1 == tokens.len();
        let n2 = if wrapped { 0 } else { next + 1 };
        let r2 = if wrapped { rep + 1 } else { rep };
        lemma_emit_split(tokens, n2, r2, repeats, n - 1, m);
        let rest = spec_emit(tokens, n2, r2, repeats, n - 1);
        let second = spec_emit(tokens, rest.2, rest.3, repeats, m);
        let sep: Seq<char> = if wrapped && r2 < repeats { "\n\n"@ } else { Seq::empty() };
        assert(tokens[next] + sep + (rest.0 + second.0) =~= (tokens[next] + sep + rest.0) + second.0);
    }
}

/// Emit up to `count` tokens of the repeated stream from `cursor`: the text
/// for the parser, the number of tokens in it, and the new cursor.
pub fn emit_tokens(tokens: &[String], cursor: TokenCursor, repeats: usize, count: usize) -> (r: (String, usize, TokenCursor))
    requires
        cursor.current_repeat < repeats ==> cursor.next_token < tokens.len(),
    ensures
        spec_emit(token_texts(tokens@), cursor.next_token as int, cursor.current_repeat as int, repeats as int, count as int)
            == (r.0@, r.1 as int, r.2.next_token as int, r.2.current_repeat as int),
{
    let ghost texts = token_texts(tokens@);
    let mut chunk = String::new();
    let mut emitted: usize = 0;
    let mut next = cursor.next_token;
    let mut rep = cursor.current_repeat;
    while emitted < count && rep < repeats
        invariant
            emitted <= count,
            texts == token_texts(tokens@),
            rep < repeats ==> next < tokens.len(),
            ({
                let whole = spec_emit(texts, cursor.next_token as int, cursor.current_repeat as int, repeats as int, count as int);
                let rest = spec_emit(texts, next as int, rep as int, repeats as int, count - emitted);
                whole == (chunk@ + rest.0, emitted + rest.1, rest.2, rest.3)
            }),
        decreases count - emitted,
    {
        let ghost before = chunk@;
        let ghost (n0, r0) = (next as int, rep as int);
        chunk.append(tokens[next].as_str());
        next = next + 1;
        emitted = emitted + 1;
        if next == tokens.len() {
            next = 0;
            rep = rep + 1;
            if rep < repeats {
                chunk.append("\n\n");
            }
        }
        proof {
            let step = spec_emit(texts, n0, r0, repeats as int, count - (emitted - 1));
            let rest = spec_emit(texts, next as int, rep as int, repeats as int, count - emitted);
            assert(texts[n0] == tokens@[n0]@);
            assert(step == (chunk@.subrange(before.len() as int, chunk@.len() as int) + rest.0, rest.1 + 1, rest.2, rest.3));
            assert(before + (chunk@.subrange(before.len() as int, chunk@.len() as int) + rest.0) =~= chunk@ + rest.0);
        }
    }
    (chunk, emitted, TokenCursor { next_token: next, current_repeat: rep })
}

/// Where the streamed source stands: the byte offset of what comes next and
/// how many full passes are done.
#[derive(Clone, Copy, Debug, PartialEq, Eq, Structural)]
pub struct SourceCursor {
    pub offset: usize,
    pub current_repeat: usize,
}

/// The largest character boundary of `s` at or before `i` (the end of `s`
/// when `i` lies beyond it).
pub open spec fn floor_boundary(s: Seq<u8>, i: int) -> int
    decreases i,
{
    if i >= s.len() {
        s.len() as int
    } else if i <= 0 {
        0
    } else if is_char_boundary(s, i) {
        i
    } else {
        floor_boundary(s, i - 1)
    }
}

/// The end of the next slice of the source to hand over, with `remaining`
/// bytes of this frame's budget left: as many bytes as the budget and the
/// rest of the pass allow, cut back to a character boundary; none once the
/// budget is spent, the passes are done, the source is empty, or not even
/// one character fits.
pub open spec fn spec_next_slice(s: Seq<u8>, cursor: SourceCursor, repeats: int, remaining: int) -> Option<int> {
    if remaining <= 0 || cursor.current_repeat >= repeats || s.len() == 0 {
        None
    } else {
        let available = s.len() - cursor.offset;
        let requested = if remaining < available { remaining } else { available };
        let end = floor_boundary(s, cursor.offset + requested);
        if end == cursor.offset {
            None
        } else {
            Some(end)
        }
    }
}

/// Where the stream stands after handing over the source up to `end`: a
/// pass that reaches the end of the source starts over.
pub open spec fn spec_advance(s: Seq<u8>, cursor: SourceCursor, end: int) -> SourceCursor {
    if end == s.len() {
        SourceCursor { offset: 0, current_repeat: (cursor.current_repeat + 1) as usize }
    } else {
        SourceCursor { offset: end as usize, current_repeat: cursor.current_repeat }
    }
}

/// `floor_boundary` never goes past `i`, lands on a boundary, stays in `s`,
/// and is the last boundary up to `i`.
proof fn lemma_floor_boundary(s: Seq<u8>, i: int)
    requires
        0 <= i,
        vstd::utf8::valid_utf8(s),
    ensures
        0 <= floor_boundary(s, i) <= s.len(),
        i <= s.len() ==> floor_boundary(s, i) <= i,
        is_char_boundary(s, floor_boundary(s, i)),
        forall|j: int| 0 <= j <= i && j <= s.len() && is_char_boundary(s, j) ==> j <= floor_boundary(s, i),
    decreases i,
{
    vstd::utf8::is_char_boundary_start_end_of_seq(s);
    if i < s.len() && i > 0 && !is_char_boundary(s, i) {
        lemma_floor_boundary(s, i - 1);
    }
}

/// The largest character boundary of `text` at or before `i`.
fn floor_char_boundary(text: &str, i: usize) -> (r: usize)
    ensures
        r == floor_boundary(text.spec_bytes(), i as int),
{
    let len = text.as_bytes().len();
    if i >= len {
        return len;
    }
    let mut j = i;
    while j > 0 && !text.is_char_boundary(j)
        invariant
            j <= i < len,
            len == text.spec_bytes().len(),
            floor_boundary(text.spec_bytes(), i as int) == floor_boundary(text.spec_bytes(), j as int),
        decreases j,
    {
        j = j - 1;
    }
    j
}

/// The next slice of the source to hand over and where the stream stands
/// after it; `None` when nothing more goes out in this frame.
pub fn next_slice(source: &str, cursor: SourceCursor, repeats: usize, remaining: usize) -> (r: Option<(usize, SourceCursor)>)
    requires
        cursor.offset <= source.spec_bytes().len(),
        is_char_boundary(source.spec_bytes(), cursor.offset as int),
    ensures
        match r {
            Some((end, next)) => spec_next_slice(source.spec_bytes(), cursor, repeats as int, remaining as int)
                == Some(end as int) && next == spec_advance(source.spec_bytes(), cursor, end as int),
            None => spec_next_slice(source.spec_bytes(), cursor, repeats as int, remaining as int) is None,
        },
        r matches Some((end, next)) ==> {
            &&& cursor.offset < end <= source.spec_bytes().len()
            &&& is_char_boundary(source.spec_bytes(), end as int)
            &&& next.offset <= source.spec_bytes().len()
            &&& is_char_boundary(source.spec_bytes(), next.offset as int)
        },
{
    let len = source.as_bytes().len();
    if remaining == 0 || cursor.current_repeat >= repeats || len == 0 {
        return None;
    }
    let available = len - cursor.offset;
    let requested = if remaining < available { remaining } else { available };
    let end = floor_char_boundary(source, cursor.offset + requested);
    proof {
        vstd::utf8::encode_utf8_valid_utf8(source@);
        lemma_floor_boundary(source.spec_bytes(), cursor.offset + requested);
        vstd::utf8::is_char_boundary_start_end_of_seq(source.spec_bytes());
    }
    if end == cursor.offset {
        return None;
    }
    let next = if end == len {
        SourceCursor { offset: 0, current_repeat: cursor.current_repeat + 1 }
    } else {
        SourceCursor { offset: end, current_repeat: cursor.current_repeat }
    };
    Some((end, next))
}

} // verus!
