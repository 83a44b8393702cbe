//! Highlighting a fenced code block: resolve the fence to a profile, then
//! stream tokens that tile the source, so the concatenated token texts are
//! the source itself, whether or not the block is complete.
use vstd::prelude::*;
use vstd::string::StringSliceAdditionalSpecFns;
use vstd::utf8::is_char_boundary;
use crate::highlight::{
    Highlighter, Span, TokenKind, spec_tokens, spec_tokens_from, spec_highlight_step, spec_progress,
    HighlightModel,
};
use crate::language::{Language, ProfileModel};
use crate::registry::{
    LanguageRegistry, normalize_fence_name, is_cpp_fence, spec_resolve, spec_normalize_fence,
    spec_is_cpp_fence,
};
use crate::search::trimmed;
use crate::packs::{embedded_packs, spec_embedded_packs};
use crate::japanese::{LineCache, MorphToken, spec_is_japanese_fence, spec_highlight_run};

verus! {

/// The `(start, end, class)` triples of spans.
pub open spec fn span_triples(spans: Seq<Span>) -> Seq<(int, int, TokenKind)> {
    spans.map_values(|t: Span| (t.start as int, t.end as int, t.kind))
}

/// Range `i + 1` starts where range `i` ends.
pub open spec fn spec_meets(ranges: Seq<(int, int, TokenKind)>, i: int) -> bool {
    ranges[i].1 == ranges[i + 1].0
}

/// Ranges tile `[0, len)`: they are in order, each starts where the previous
/// one ended, the first starts at `0` and the last ends at `len`.
pub open spec fn spec_tiles(len: int, ranges: Seq<(int, int, TokenKind)>) -> bool {
    &&& (ranges.len() == 0 <==> len == 0)
    &&& ranges.len() > 0 ==> ranges[0].0 == 0 && ranges.last().1 == len
    &&& forall|i: int| 0 <= i < ranges.len() ==> (#[trigger] ranges[i]).0 <= ranges[i].1
    &&& forall|i: int| 0 <= i < ranges.len() - 1 ==> #[trigger] spec_meets(ranges, i)
}

/// Span `i + 1` starts where span `i` ends.
pub open spec fn spans_meet(out: Seq<Span>, i: int) -> bool {
    out[i].end == out[i + 1].start
}

/// The texts of the ranges of `s`, concatenated.
pub open spec fn spec_concat(s: Seq<u8>, ranges: Seq<(int, int, TokenKind)>) -> Seq<u8>
    decreases ranges.len(),
{
    if ranges.len() == 0 {
        Seq::empty()
    } else {
        spec_concat(s, ranges.drop_last()) + s.subrange(ranges.last().0, ranges.last().1)
    }
}

/// Tiling ranges partition the text: concatenating the token texts gives the
/// source back.
pub proof fn lemma_tiles_concat(s: Seq<u8>, ranges: Seq<(int, int, TokenKind)>)
    requires
        spec_tiles(s.len() as int, ranges),
    ensures
        spec_concat(s, ranges) == s,
{
    lemma_prefix_concat(s, ranges, ranges.len() as int);
    assert(ranges.take(ranges.len() as int) =~= ranges);
    if ranges.len() > 0 {
        assert(s.subrange(0, s.len() as int) =~= s);
    }
}

proof fn lemma_prefix_concat(s: Seq<u8>, ranges: Seq<(int, int, TokenKind)>, n: int)
    requires
        spec_tiles(s.len() as int, ranges),
        0 <= n <= ranges.len(),
    ensures
        n == 0 ==> spec_concat(s, ranges.take(n)) == Seq::<u8>::empty(),
        n > 0 ==> spec_concat(s, ranges.take(n)) == s.subrange(0, ranges[n - 1].1),
        n > 0 ==> 0 <= ranges[n - 1].1 <= s.len(),
    decreases n,
{
    if n > 0 {
        lemma_prefix_concat(s, ranges, n - 1);
        let t = ranges.take(n);
        assert(t.drop_last() =~= ranges.take(n - 1));
        lemma_ends_bounded(s.len() as int, ranges, n - 1);
        if n == 1 {
            assert(s.subrange(0, ranges[0].1) =~= Seq::<u8>::empty() + s.subrange(ranges[0].0, ranges[0].1));
        } else {
            assert(spec_meets(ranges, n - 2));
            assert(s.subrange(0, ranges[n - 1].1) =~= s.subrange(0, ranges[n - 2].1) + s.subrange(ranges[n - 1].0, ranges[n - 1].1));
        }
    }
}

proof fn lemma_ends_bounded(len: int, ranges: Seq<(int, int, TokenKind)>, i: int)
    requires
        spec_tiles(len, ranges),
        0 <= i < ranges.len(),
    ensures
        0 <= ranges[i].0 <= ranges[i].1 <= len,
    decreases i + (ranges.len() - i) * 2,
{
    lemma_starts_nonneg(len, ranges, i);
    lemma_ends_at_most(len, ranges, i);
}

proof fn lemma_starts_nonneg(len: int, ranges: Seq<(int, int, TokenKind)>, i: int)
    requires
        spec_tiles(len, ranges),
        0 <= i < ranges.len(),
    ensures
        0 <= ranges[i].0,
    decreases i,
{
    if i > 0 {
        lemma_starts_nonneg(len, ranges, i - 1);
        assert(spec_meets(ranges, i - 1));
    }
}

proof fn lemma_ends_at_most(len: int, ranges: Seq<(int, int, TokenKind)>, i: int)
    requires
        spec_tiles(len, ranges),
        0 <= i < ranges.len(),
    ensures
        ranges[i].1 <= len,
    decreases ranges.len() - i,
{
    if i < ranges.len() - 1 {
        lemma_ends_at_most(len, ranges, i + 1);
        assert(spec_meets(ranges, i));
    }
}

proof fn lemma_spans_tile(out: Seq<Span>, len: int)
    requires
        out.len() == 0 <==> len == 0,
        out.len() > 0 ==> out[0].start == 0 && out.last().end == len,
        forall|i: int| 0 <= i < out.len() ==> (#[trigger] out[i]).start <= out[i].end,
        forall|i: int| 0 <= i < out.len() - 1 ==> #[trigger] spans_meet(out, i),
    ensures
        spec_tiles(len, span_triples(out)),
{
    let tr = span_triples(out);
    assert(tr.len() == out.len());
    assert forall|i: int| 0 <= i < tr.len() implies (#[trigger] tr[i]).0 <= tr[i].1 by {
        assert(tr[i] == (out[i].start as int, out[i].end as int, out[i].kind));
    }
    assert forall|i: int| 0 <= i < tr.len() - 1 implies #[trigger] spec_meets(tr, i) by {
        assert(spans_meet(out, i));
        assert(tr[i] == (out[i].start as int, out[i].end as int, out[i].kind));
        assert(tr[i + 1] == (out[i + 1].start as int, out[i + 1].end as int, out[i + 1].kind));
    }
    if out.len() > 0 {
        assert(tr[0] == (out[0].start as int, out[0].end as int, out[0].kind));
        assert(tr.last() == tr[tr.len() - 1]);
        assert(tr[out.len() - 1] == (out.last().start as int, out.last().end as int, out.last().kind));
    }
}

/// The text of `[start, end)` of `source`, given both are character boundaries.
pub fn text_of<'a>(source: &'a str, start: usize, end: usize) -> (r: &'a str)
    requires
        start <= end <= source.spec_bytes().len(),
        is_char_boundary(source.spec_bytes(), start as int),
        is_char_boundary(source.spec_bytes(), end as int),
    ensures
        r.spec_bytes() == source.spec_bytes().subrange(start as int, end as int),
{
    proof {
        vstd::utf8::encode_utf8_valid_utf8(source@);
    }
    let (head, _) = source.split_at(end);
    proof {
        vstd::utf8::valid_utf8_split(source.spec_bytes(), end as int);
        vstd::utf8::is_char_boundary_start_end_of_seq(head.spec_bytes());
        if start < end {
            vstd::utf8::is_char_boundary_iff_not_is_continuation_byte(source.spec_bytes(), start as int);
            vstd::utf8::is_char_boundary_iff_not_is_continuation_byte(head.spec_bytes(), start as int);
        }
    }
    let (_, tail) = head.split_at(start);
    assert(tail.spec_bytes() =~= source.spec_bytes().subrange(start as int, end as int));
    tail
}

/// All tokens of `source` under a resolved profile.
pub fn tokenize_with(source: &str, language: Language, cpp_raw_strings: bool) -> (r: Vec<Span>)
    requires
        language.wf(),
    ensures
        span_triples(r@) == spec_tokens(source.spec_bytes(), language@, cpp_raw_strings),
        spec_tiles(source.spec_bytes().len() as int, span_triples(r@)),
        forall|i: int| 0 <= i < r@.len() ==> is_char_boundary(source.spec_bytes(), (#[trigger] r@[i]).start as int)
            && is_char_boundary(source.spec_bytes(), r@[i].end as int),
{
    let ghost s = source.spec_bytes();
    let ghost p = language@;
    let mut h = Highlighter::with_language(source, language, cpp_raw_strings);
    let mut out: Vec<Span> = Vec::new();
    proof {
        vstd::utf8::encode_utf8_valid_utf8(source@);
        vstd::utf8::is_char_boundary_start_end_of_seq(s);
    }
    assert(span_triples(out@) =~= Seq::<(int, int, TokenKind)>::empty());
    loop
        invariant
            h.wf(),
            h.bytes() == s,
            h.profile() == p,
            h.cpp() == cpp_raw_strings,
            spec_tokens(s, p, cpp_raw_strings) == span_triples(out@) + spec_tokens_from(s, p, cpp_raw_strings, h.model()),
            0 <= h.model().scan.cursor <= s.len(),
            out@.len() == 0 ==> h.model().scan.cursor == 0,
            out@.len() > 0 ==> s.len() > 0,
            out@.len() > 0 ==> out@[0].start == 0 && out@.last().end == h.model().scan.cursor,
            forall|i: int| 0 <= i < out@.len() ==> (#[trigger] out@[i]).start <= out@[i].end,
            forall|i: int| 0 <= i < out@.len() - 1 ==> #[trigger] spans_meet(out@, i),
            forall|i: int| 0 <= i < out@.len() ==> is_char_boundary(s, (#[trigger] out@[i]).start as int)
                && is_char_boundary(s, out@[i].end as int),
        ensures
            h.model().scan.cursor == s.len(),
            spec_tokens(s, p, cpp_raw_strings) == span_triples(out@),
            out@.len() == 0 ==> h.model().scan.cursor == 0,
            out@.len() > 0 ==> s.len() > 0,
            out@.len() > 0 ==> out@[0].start == 0 && out@.last().end == h.model().scan.cursor,
            forall|i: int| 0 <= i < out@.len() ==> (#[trigger] out@[i]).start <= out@[i].end,
            forall|i: int| 0 <= i < out@.len() - 1 ==> #[trigger] spans_meet(out@, i),
            forall|i: int| 0 <= i < out@.len() ==> is_char_boundary(s, (#[trigger] out@[i]).start as int)
                && is_char_boundary(s, out@[i].end as int),
        decreases s.len() - h.model().scan.cursor, h.model().scan.heredocs.len(),
    {
        let ghost before = h.model();
        let ghost out_before = out@;
        match h.next() {
            None => {
                assert(spec_tokens_from(s, p, cpp_raw_strings, before) =~= Seq::<(int, int, TokenKind)>::empty());
                assert(span_triples(out@) + Seq::<(int, int, TokenKind)>::empty() =~= span_triples(out@));
                break;
            },
            Some(t) => {
                assert(out@.len() > 0 ==> out@.last().end == t.start);
                out.push(t);
                assert(out@.last() == t);
                assert(forall|i: int| 0 <= i < out_before.len() ==> out@[i] == out_before[i]);
                assert forall|i: int| 0 <= i < out@.len() - 1 implies #[trigger] spans_meet(out@, i) by {
                    if i < out_before.len() - 1 {
                        assert(spans_meet(out_before, i));
                    }
                }
                assert(span_triples(out@) =~= span_triples(out_before).push((t.start as int, t.end as int, t.kind)));
                let ghost step = spec_highlight_step(s, p, cpp_raw_strings, before);
                assert(spec_tokens_from(s, p, cpp_raw_strings, before)
                    == seq![(t.start as int, t.end as int, t.kind)] + spec_tokens_from(s, p, cpp_raw_strings, h.model()));
                assert(span_triples(out_before) + spec_tokens_from(s, p, cpp_raw_strings, before)
                    =~= span_triples(out@) + spec_tokens_from(s, p, cpp_raw_strings, h.model()));
            },
        }
    }
    proof {
        lemma_spans_tile(out@, s.len() as int);
    }
    out
}

/// Call `i` of a run of `emit` calls matches token `i` of `tokens` over
/// `s`: its text is the bytes of the token's range, its class the token's,
/// and its answer one that `emit` can give for them.
pub open spec fn emitted_matches<'a, F: FnMut(&'a str, TokenKind) -> bool>(
    emit: F,
    s: Seq<u8>,
    tokens: Seq<(int, int, TokenKind)>,
    emitted: Seq<(&'a str, TokenKind, bool)>,
    i: int,
) -> bool {
    &&& emitted[i].0.spec_bytes() == s.subrange(tokens[i].0, tokens[i].1)
    &&& emitted[i].1 == tokens[i].2
    &&& call_ensures(emit, (emitted[i].0, emitted[i].1), emitted[i].2)
}

/// Every answer of a run of `emit` calls was `true`.
pub open spec fn all_answered_true<'a>(emitted: Seq<(&'a str, TokenKind, bool)>) -> bool {
    forall|i: int| 0 <= i < emitted.len() ==> (#[trigger] emitted[i]).2
}

/// What `emit` was handed and answered, as `(text, class, answer)`, when
/// the tokens `tokens` of `s` are handed over in order until `emit` answers
/// `false`: the calls match the first tokens one for one, every answer but
/// the last is `true`, and the run ends before the last token only after a
/// `false`.
pub open spec fn emitted_run<'a, F: FnMut(&'a str, TokenKind) -> bool>(
    emit: F,
    s: Seq<u8>,
    tokens: Seq<(int, int, TokenKind)>,
    emitted: Seq<(&'a str, TokenKind, bool)>,
) -> bool {
    &&& emitted.len() <= tokens.len()
    &&& forall|i: int| 0 <= i < emitted.len() ==> #[trigger] emitted_matches(emit, s, tokens, emitted, i)
    &&& forall|i: int| 0 <= i < emitted.len() - 1 ==> (#[trigger] emitted[i]).2
    &&& emitted.len() < tokens.len() ==> emitted.len() > 0 && !emitted.last().2
}

/// The first `n` token ranges tile the front of `s`: the first starts at
/// `0`, each starts where the one before it ended, each lies on character
/// boundaries; when they are all the tokens, they reach the end of `s`.
pub open spec fn spec_tiles_upto(s: Seq<u8>, tokens: Seq<(int, int, TokenKind)>, n: int) -> bool {
    &&& 0 <= n <= tokens.len()
    &&& n > 0 ==> tokens[0].0 == 0
    &&& forall|i: int| 0 <= i < n ==> (#[trigger] tokens[i]).0 <= tokens[i].1 <= s.len()
        && is_char_boundary(s, tokens[i].0) && is_char_boundary(s, tokens[i].1)
    &&& forall|i: int| 0 <= i < n - 1 ==> #[trigger] spec_meets(tokens, i)
    &&& n == tokens.len() ==> spec_tiles(s.len() as int, tokens)
}

/// The texts handed to `emit`, concatenated in call order.
pub open spec fn emitted_texts<'a>(emitted: Seq<(&'a str, TokenKind, bool)>) -> Seq<u8>
    decreases emitted.len(),
{
    if emitted.len() == 0 {
        Seq::empty()
    } else {
        emitted_texts(emitted.drop_last()) + emitted.last().0.spec_bytes()
    }
}

proof fn lemma_emitted_texts_prefix<'a, F: FnMut(&'a str, TokenKind) -> bool>(
    emit: F,
    s: Seq<u8>,
    tokens: Seq<(int, int, TokenKind)>,
    emitted: Seq<(&'a str, TokenKind, bool)>,
    k: int,
)
    requires
        emitted_run(emit, s, tokens, emitted),
        0 <= k <= emitted.len(),
    ensures
        emitted_texts(emitted.take(k)) == spec_concat(s, tokens.take(k)),
    decreases k,
{
    if k > 0 {
        lemma_emitted_texts_prefix(emit, s, tokens, emitted, k - 1);
        assert(emitted.take(k).drop_last() =~= emitted.take(k - 1));
        assert(tokens.take(k).drop_last() =~= tokens.take(k - 1));
        assert(emitted_matches(emit, s, tokens, emitted, k - 1));
    }
}

/// When `emit` never asks to stop, the texts it is handed, in call order,
/// put the source back together exactly: no gap, no overlap, no reordering.
pub proof fn lemma_emitted_texts_are_source<'a, F: FnMut(&'a str, TokenKind) -> bool>(
    emit: F,
    s: Seq<u8>,
    tokens: Seq<(int, int, TokenKind)>,
    emitted: Seq<(&'a str, TokenKind, bool)>,
)
    requires
        emitted_run(emit, s, tokens, emitted),
        spec_tiles_upto(s, tokens, emitted.len() as int),
        all_answered_true(emitted),
    ensures
        emitted.len() == tokens.len(),
        emitted_texts(emitted) == s,
{
    if emitted.len() < tokens.len() {
        assert(!emitted[emitted.len() - 1].2);
    }
    lemma_emitted_texts_prefix(emit, s, tokens, emitted, emitted.len() as int);
    assert(emitted.take(emitted.len() as int) =~= emitted);
    assert(tokens.take(tokens.len() as int) =~= tokens);
    lemma_tiles_concat(s, tokens);
}

/// Handing over token `n` of `tokens`, when the tokens still to come were
/// `tok` followed by `rest`: that token is `tok`, and `rest` is what comes
/// after it (nothing exactly when it was the last).
proof fn lemma_token_step(
    tokens: Seq<(int, int, TokenKind)>,
    n: int,
    tok: (int, int, TokenKind),
    rest: Seq<(int, int, TokenKind)>,
)
    requires
        0 <= n <= tokens.len(),
        tokens.subrange(n, tokens.len() as int) == seq![tok] + rest,
    ensures
        n < tokens.len(),
        tokens[n] == tok,
        tokens.subrange(n + 1, tokens.len() as int) == rest,
        rest.len() == 0 <==> n + 1 == tokens.len(),
{
    let tail = tokens.subrange(n, tokens.len() as int);
    assert(tail.len() == rest.len() + 1);
    assert(tail[0] == tok);
    assert(tokens.subrange(n + 1, tokens.len() as int) =~= rest) by {
        assert forall|i: int| 0 <= i < rest.len() implies tokens.subrange(n + 1, tokens.len() as int)[i] == rest[i] by {
            assert(tail[i + 1] == rest[i]);
        }
    }
}

/// Highlight `source` under a resolved profile, handing each token's text and
/// class to `emit` in order; stops as soon as `emit` returns `false`.
#[verifier::spinoff_prover]
pub fn highlight_with<'a, F: FnMut(&'a str, TokenKind) -> bool>(
    source: &'a str,
    language: Language,
    cpp_raw_strings: bool,
    emit: F,
)
    requires
        language.wf(),
        forall|t: &'a str, k: TokenKind| call_requires(emit, (t, k)),
    ensures
        exists|emitted: Seq<(&'a str, TokenKind, bool)>|
            #[trigger] emitted_run(emit, source.spec_bytes(), spec_tokens(source.spec_bytes(), language@, cpp_raw_strings), emitted)
            && spec_tiles_upto(source.spec_bytes(), spec_tokens(source.spec_bytes(), language@, cpp_raw_strings), emitted.len() as int),
{
    let ghost s = source.spec_bytes();
    let ghost p = language@;
    let ghost tokens = spec_tokens(s, p, cpp_raw_strings);
    let ghost mut emitted: Seq<(&'a str, TokenKind, bool)> = Seq::empty();
    let mut sink = emit;
    let mut h = Highlighter::with_language(source, language, cpp_raw_strings);
    assert(tokens.subrange(0, tokens.len() as int) =~= tokens);
    loop
        invariant
            h.wf(),
            h.bytes() == s,
            s == source.spec_bytes(),
            h.profile() == p,
            h.cpp() == cpp_raw_strings,
            tokens == spec_tokens(s, p, cpp_raw_strings),
            sink == emit,
            p == language@,
            forall|t: &'a str, k: TokenKind| call_requires(sink, (t, k)),
            emitted.len() <= tokens.len(),
            tokens.subrange(emitted.len() as int, tokens.len() as int) == spec_tokens_from(s, p, cpp_raw_strings, h.model()),
            forall|i: int| 0 <= i < emitted.len() ==> #[trigger] emitted_matches(emit, s, tokens, emitted, i),
            all_answered_true(emitted),
            0 <= h.model().scan.cursor <= s.len(),
            emitted.len() == 0 ==> h.model().scan.cursor == 0,
            emitted.len() > 0 ==> tokens[emitted.len() - 1].1 == h.model().scan.cursor,
            spec_tiles_upto(s, tokens, emitted.len() as int) || emitted.len() < tokens.len(),
            emitted.len() > 0 ==> tokens[0].0 == 0,
            forall|i: int| 0 <= i < emitted.len() ==> (#[trigger] tokens[i]).0 <= tokens[i].1 <= s.len()
                && is_char_boundary(s, tokens[i].0) && is_char_boundary(s, tokens[i].1),
            forall|i: int| 0 <= i < emitted.len() - 1 ==> #[trigger] spec_meets(tokens, i),
        decreases h.bytes().len() - h.model().scan.cursor, h.model().scan.heredocs.len(),
    {
        let ghost before = h.model();
        match h.next() {
            None => {
                proof {
                    assert(spec_tokens_from(s, p, cpp_raw_strings, before).len() == 0);
                    assert(emitted_run(emit, s, tokens, emitted));
                    vstd::utf8::encode_utf8_valid_utf8(source@);
                    vstd::utf8::is_char_boundary_start_end_of_seq(s);
                    assert(spec_tiles(s.len() as int, tokens));
                    assert(spec_tiles_upto(s, tokens, emitted.len() as int));
                }
                return;
            },
            Some(t) => {
                let text = text_of(source, t.start, t.end);
                let answer = sink(text, t.kind);
                proof {
                    let n = emitted.len() as int;
                    assert(spec_tokens_from(s, p, cpp_raw_strings, before)
                        == seq![(t.start as int, t.end as int, t.kind)] + spec_tokens_from(s, p, cpp_raw_strings, h.model()));
                    lemma_token_step(tokens, n, (t.start as int, t.end as int, t.kind), spec_tokens_from(s, p, cpp_raw_strings, h.model()));
                    let prev = emitted;
                    emitted = emitted.push((text, t.kind, answer));
                    assert forall|i: int| 0 <= i < emitted.len() implies #[trigger] emitted_matches(emit, s, tokens, emitted, i) by {
                        if i < n {
                            assert(emitted[i] == prev[i]);
                            assert(emitted_matches(emit, s, tokens, prev, i));
                        }
                    }
                    assert forall|i: int| 0 <= i < emitted.len() - 1 implies (#[trigger] emitted[i]).2 by {
                        assert(emitted[i] == prev[i]);
                    }
                }
                proof {
                    let n = emitted.len() as int;
                    assert(tokens[n - 1] == (t.start as int, t.end as int, t.kind));
                    if n >= 2 {
                        assert(spec_meets(tokens, n - 2));
                    }
                    assert forall|i: int| 0 <= i < n - 1 implies #[trigger] spec_meets(tokens, i) by {
                        if i == n - 2 {
                            assert(tokens[n - 2].1 == t.start);
                        }
                    }
                }
                if !answer {
                    assert(emitted_run(emit, s, tokens, emitted));
                    proof {
                        if emitted.len() == tokens.len() {
                            assert(spec_tokens_from(s, p, cpp_raw_strings, h.model()).len() == 0);
                            assert(h.model().scan.cursor == s.len());
                            assert(t.end == h.model().scan.cursor);
                            assert(before.scan.cursor < s.len());
                            assert(spec_tiles(s.len() as int, tokens));
                        }
                    }
                    assert(spec_tiles_upto(s, tokens, emitted.len() as int) || emitted.len() < tokens.len());
                    return;
                }
                proof {
                    assert forall|i: int| 0 <= i < emitted.len() implies (#[trigger] emitted[i]).2 by {
                        if i < emitted.len() - 1 {
                            assert(emitted[i] == emitted.drop_last()[i]);
                        }
                    }
                }
            },
        }
    }
}

/// The normalized fence of an optional info string; no info string is the
/// empty fence (plain text).
pub open spec fn spec_fence(language: Option<&str>) -> Seq<u8> {
    match language {
        Some(n) => spec_normalize_fence(vstd::utf8::encode_utf8(trimmed(n@))),
        None => Seq::empty(),
    }
}

fn fence_of(language: Option<&str>) -> (r: Vec<u8>)
    ensures
        r@ == spec_fence(language),
{
    match language {
        Some(n) => normalize_fence_name(n),
        None => Vec::new(),
    }
}

/// The tokens of a code block whose fence info string is `language`, under
/// the profile the fence resolves to among the built-in packs.
pub open spec fn spec_fence_tokens(s: Seq<u8>, language: Option<&str>) -> Seq<(int, int, TokenKind)> {
    spec_tokens(
        s,
        spec_resolve(Seq::empty(), spec_fence(language), spec_embedded_packs()),
        spec_is_cpp_fence(spec_fence(language)),
    )
}

/// All tokens of a code block whose fence info string is `language`, with the
/// profiles of the built-in packs.
pub fn tokenize(source: &str, language: Option<&str>) -> (r: Vec<Span>)
    ensures
        span_triples(r@) == spec_tokens(
            source.spec_bytes(),
            spec_resolve(Seq::empty(), spec_fence(language), spec_embedded_packs()),
            spec_is_cpp_fence(spec_fence(language)),
        ),
        spec_tiles(source.spec_bytes().len() as int, span_triples(r@)),
        forall|i: int| 0 <= i < r@.len() ==> is_char_boundary(source.spec_bytes(), (#[trigger] r@[i]).start as int)
            && is_char_boundary(source.spec_bytes(), r@[i].end as int),
{
    let fence = fence_of(language);
    let mut registry = LanguageRegistry::new();
    let lang = registry.resolve(fence.as_slice(), embedded_packs());
    let cpp = is_cpp_fence(fence.as_slice());
    tokenize_with(source, lang, cpp)
}

/// Highlight a code block by the profile its fence resolves to among the
/// built-in packs.
fn highlight_code<'a, F: FnMut(&'a str, TokenKind) -> bool>(source: &'a str, language: Option<&str>, emit: F)
    requires
        forall|t: &'a str, k: TokenKind| call_requires(emit, (t, k)),
    ensures
        exists|emitted: Seq<(&'a str, TokenKind, bool)>|
            #[trigger] emitted_run(emit, source.spec_bytes(), spec_fence_tokens(source.spec_bytes(), language), emitted)
            && spec_tiles_upto(source.spec_bytes(), spec_fence_tokens(source.spec_bytes(), language), emitted.len() as int),
{
    let fence = fence_of(language);
    let mut registry = LanguageRegistry::new();
    let lang = registry.resolve(fence.as_slice(), embedded_packs());
    let cpp = is_cpp_fence(fence.as_slice());
    assert(spec_fence_tokens(source.spec_bytes(), language) == spec_tokens(source.spec_bytes(), lang@, cpp));
    highlight_with(source, lang, cpp, emit)
}

/// The fence selects Japanese prose.
pub open spec fn spec_prose_fence(language: Option<&str>) -> bool {
    match language {
        Some(n) => spec_is_japanese_fence(vstd::utf8::encode_utf8(trimmed(n@))),
        None => false,
    }
}

/// Parse complete or still-streaming code and hand each token's text and
/// class to `emit`, in source order; unterminated constructs are accepted as
/// provisional tokens. A Japanese prose fence (`日本語`, `japanese`,
/// `nihongo`, `ja`, `jp`) is highlighted line by line instead, from the
/// morphemes the analyzer `analyze` finds, through the span cache `cache`;
/// any other fence by the profile it resolves to. Returning `false` from
/// `emit` stops immediately, so a renderer can stop after the visible range.
pub fn highlight<'a, A: FnMut(&str) -> Vec<MorphToken>, F: FnMut(&'a str, TokenKind) -> bool>(
    source: &'a str,
    language: Option<&str>,
    cache: &mut LineCache,
    analyze: A,
    emit: F,
)
    requires
        old(cache).wf(),
        forall|l: &str| call_requires(analyze, (l,)),
        forall|t: &'a str, k: TokenKind| call_requires(emit, (t, k)),
    ensures
        final(cache).wf(),
        !spec_prose_fence(language) ==> final(cache)@ == old(cache)@,
        spec_prose_fence(language) ==> exists|
            ms: Seq<Seq<Option<(Seq<u8>, Seq<Span>)>>>,
            runs: Seq<(Seq<Span>, Seq<(&'a str, TokenKind, bool)>)>,
        | #[trigger] spec_highlight_run(analyze, emit, old(cache)@, final(cache)@, ms, runs, source.spec_bytes()),
        !spec_prose_fence(language) ==> exists|emitted: Seq<(&'a str, TokenKind, bool)>|
            #[trigger] emitted_run(emit, source.spec_bytes(), spec_fence_tokens(source.spec_bytes(), language), emitted)
            && spec_tiles_upto(source.spec_bytes(), spec_fence_tokens(source.spec_bytes(), language), emitted.len() as int),
{
    if crate::japanese::is_fence(language) {
        crate::japanese::highlight(source, cache, analyze, emit);
    } else {
        highlight_code(source, language, emit);
    }
}

} // verus!
