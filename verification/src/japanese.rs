//! Japanese prose blocks: fences that select morphological highlighting, the
//! classes of morphemes, how adjacent morphemes of one class merge into a
//! single highlighted span, and the per-line cache of those spans. The
//! morphological analyzer itself runs outside and is handed in.
use vstd::prelude::*;
use vstd::string::StringSliceAdditionalSpecFns;
use crate::bytes::spec_lower_seq;
use crate::highlight::{Span, TokenKind};
use crate::language::eq_ignore_case;
use crate::search::trimmed;
use crate::shell::bytes_equal;
use crate::bytes::{find_byte, lemma_find_byte, NL};
use crate::code::{text_of, emitted_run, emitted_matches, all_answered_true};

verus! {

/// The class the analyzer gives a morpheme: a lexicon class, or the script of
/// an unknown run of text.
#[derive(Clone, Copy, Debug, PartialEq, Eq, Structural)]
pub enum MorphTag {
    Noun,
    Particle,
    Auxiliary,
    Verb,
    Adjective,
    Connective,
    UnknownHan,
    UnknownHiragana,
    UnknownKatakana,
    UnknownLatin,
    UnknownNumber,
    UnknownPunct,
    UnknownSpace,
    UnknownOther,
    Other,
}

/// A morpheme: the byte range `[start, end)` of the line and its class.
#[derive(Clone, Copy, Debug, PartialEq, Eq, Structural)]
pub struct MorphToken {
    pub start: usize,
    pub end: usize,
    pub tag: MorphTag,
}

/// How a morpheme class is drawn: nouns and kanji or katakana runs as types,
/// particles and connectives as keywords, auxiliaries as macros, verbs as
/// functions, adjectives as strings, numbers and punctuation as such.
pub open spec fn spec_token_kind(tag: MorphTag) -> TokenKind {
    match tag {
        MorphTag::Noun | MorphTag::UnknownHan | MorphTag::UnknownKatakana => TokenKind::Type,
        MorphTag::Particle | MorphTag::Connective => TokenKind::Keyword,
        MorphTag::Auxiliary => TokenKind::Macro,
        MorphTag::Verb => TokenKind::Function,
        MorphTag::Adjective => TokenKind::String,
        MorphTag::UnknownNumber => TokenKind::Number,
        MorphTag::UnknownPunct => TokenKind::Operator,
        _ => TokenKind::Plain,
    }
}

pub fn token_kind(tag: MorphTag) -> (r: TokenKind)
    ensures
        r == spec_token_kind(tag),
{
    match tag {
        MorphTag::Noun | MorphTag::UnknownHan | MorphTag::UnknownKatakana => TokenKind::Type,
        MorphTag::Particle | MorphTag::Connective => TokenKind::Keyword,
        MorphTag::Auxiliary => TokenKind::Macro,
        MorphTag::Verb => TokenKind::Function,
        MorphTag::Adjective => TokenKind::String,
        MorphTag::UnknownNumber => TokenKind::Number,
        MorphTag::UnknownPunct => TokenKind::Operator,
        _ => TokenKind::Plain,
    }
}

/// The spans of a line's morphemes: a morpheme of the same (non-plain) class
/// that starts where the previous span ends extends that span.
pub open spec fn spec_merge(tokens: Seq<MorphToken>) -> Seq<Span>
    decreases tokens.len(),
{
    if tokens.len() == 0 {
        Seq::empty()
    } else {
        let spans = spec_merge(tokens.drop_last());
        let t = tokens.last();
        let kind = spec_token_kind(t.tag);
        if spans.len() > 0 && spans.last().kind == kind && kind != TokenKind::Plain && spans.last().end == t.start {
            spans.update(spans.len() - 1, Span { end: t.end, ..spans.last() })
        } else {
            spans.push(Span { start: t.start, end: t.end, kind: kind })
        }
    }
}

/// Morphemes tile `[0, n)`: in order, each starting where the one before it
/// ended, the first at 0 and the last ending at `n`.
pub open spec fn morphs_tile(t: Seq<MorphToken>, n: int) -> bool {
    &&& (t.len() == 0 ==> n == 0)
    &&& (t.len() > 0 ==> t[0].start == 0 && t.last().end == n)
    &&& forall|i: int| 0 <= i < t.len() ==> (#[trigger] t[i]).start <= t[i].end
    &&& forall|i: int| 0 <= i < t.len() - 1 ==> #[trigger] morph_meets(t, i)
}

/// Morpheme `i + 1` starts where morpheme `i` ends.
pub open spec fn morph_meets(t: Seq<MorphToken>, i: int) -> bool {
    t[i].end == t[i + 1].start
}

/// Span `i + 1` starts where span `i` ends.
pub open spec fn span_meets(t: Seq<Span>, i: int) -> bool {
    t[i].end == t[i + 1].start
}

/// Spans `i` and `i + 1` do not share a class other than plain.
pub open spec fn apart_at(t: Seq<Span>, i: int) -> bool {
    !(t[i].kind == t[i + 1].kind && t[i].kind != TokenKind::Plain)
}

/// Spans tile `[0, n)` in the same way.
pub open spec fn spans_tile(t: Seq<Span>, n: int) -> bool {
    &&& (t.len() == 0 ==> n == 0)
    &&& (t.len() > 0 ==> t[0].start == 0 && t.last().end == n)
    &&& forall|i: int| 0 <= i < t.len() ==> (#[trigger] t[i]).start <= t[i].end
    &&& forall|i: int| 0 <= i < t.len() - 1 ==> #[trigger] span_meets(t, i)
}

/// No two neighbouring spans share a class other than plain.
pub open spec fn merged_apart(t: Seq<Span>) -> bool {
    forall|i: int| 0 <= i < t.len() - 1 ==> #[trigger] apart_at(t, i)
}

/// Extending the last span to `end` keeps spans tiled and apart.
proof fn lemma_extend_last(spans: Seq<Span>, m: int, end: usize)
    requires
        spans.len() > 0,
        spans_tile(spans, m),
        merged_apart(spans),
        m <= end,
    ensures
        spans_tile(spans.update(spans.len() - 1, Span { end: end, ..spans.last() }), end as int),
        merged_apart(spans.update(spans.len() - 1, Span { end: end, ..spans.last() })),
{
    let merged = spans.update(spans.len() - 1, Span { end: end, ..spans.last() });
    assert forall|i: int| 0 <= i < merged.len() implies (#[trigger] merged[i]).start <= merged[i].end by {
        if i < merged.len() - 1 {
            assert(merged[i] == spans[i]);
        } else {
            assert(spans[spans.len() - 1].start <= spans[spans.len() - 1].end);
        }
    }
    assert forall|i: int| 0 <= i < merged.len() - 1 implies #[trigger] span_meets(merged, i) by {
        assert(merged[i] == spans[i]);
        assert(span_meets(spans, i));
    }
    assert forall|i: int| 0 <= i < merged.len() - 1 implies #[trigger] apart_at(merged, i) by {
        assert(merged[i] == spans[i]);
        assert(apart_at(spans, i));
    }
}

/// Adding a span that starts where the last ends, and cannot merge with it,
/// keeps spans tiled and apart.
proof fn lemma_push_span(spans: Seq<Span>, m: int, sp: Span)
    requires
        spans_tile(spans, m),
        merged_apart(spans),
        sp.start == m,
        sp.start <= sp.end,
        spans.len() > 0 ==> !(spans.last().kind == sp.kind && sp.kind != TokenKind::Plain),
    ensures
        spans_tile(spans.push(sp), sp.end as int),
        merged_apart(spans.push(sp)),
{
    let merged = spans.push(sp);
    assert forall|i: int| 0 <= i < merged.len() implies (#[trigger] merged[i]).start <= merged[i].end by {
        if i < spans.len() {
            assert(merged[i] == spans[i]);
        }
    }
    assert forall|i: int| 0 <= i < merged.len() - 1 implies #[trigger] span_meets(merged, i) by {
        assert(merged[i] == spans[i]);
        if i < spans.len() - 1 {
            assert(merged[i + 1] == spans[i + 1]);
            assert(span_meets(spans, i));
        }
    }
    assert forall|i: int| 0 <= i < merged.len() - 1 implies #[trigger] apart_at(merged, i) by {
        assert(merged[i] == spans[i]);
        if i < spans.len() - 1 {
            assert(merged[i + 1] == spans[i + 1]);
            assert(apart_at(spans, i));
        }
    }
}

/// Merging keeps a line whole and merges as far as it can: when the
/// morphemes tile the line, so do the spans, and no two neighbouring spans
/// share a class other than plain (those would have been one span).
pub proof fn lemma_merge_tiles(t: Seq<MorphToken>, n: int)
    requires
        morphs_tile(t, n),
    ensures
        spans_tile(spec_merge(t), n),
        merged_apart(spec_merge(t)),
    decreases t.len(),
{
    if t.len() > 0 {
        let init = t.drop_last();
        let last = t.last();
        let m = if init.len() > 0 { init.last().end as int } else { 0 };
        assert(morphs_tile(init, m)) by {
            assert forall|i: int| 0 <= i < init.len() implies (#[trigger] init[i]).start <= init[i].end by {
                assert(init[i] == t[i]);
            }
            assert forall|i: int| 0 <= i < init.len() - 1 implies #[trigger] morph_meets(init, i) by {
                assert(init[i] == t[i] && init[i + 1] == t[i + 1]);
                assert(morph_meets(t, i));
            }
        }
        lemma_merge_tiles(init, m);
        let spans = spec_merge(init);
        let kind = spec_token_kind(last.tag);
        assert(last == t[t.len() - 1]);
        assert(last.start <= last.end);
        assert(last.start == m) by {
            if init.len() > 0 {
                assert(morph_meets(t, t.len() - 2));
                assert(init.last() == t[t.len() - 2]);
            }
        }
        if spans.len() > 0 && spans.last().kind == kind && kind != TokenKind::Plain && spans.last().end == last.start {
            lemma_extend_last(spans, m, last.end);
        } else {
            if spans.len() > 0 {
                assert(spans.last().end == m);
            }
            lemma_push_span(spans, m, Span { start: last.start, end: last.end, kind: kind });
        }
    } else {
        assert(spec_merge(t) =~= Seq::<Span>::empty());
    }
}

/// The morphemes with every connective retagged as a particle.
pub open spec fn connectives_as_particles(tokens: Seq<MorphToken>) -> Seq<MorphToken> {
    tokens.map_values(|t: MorphToken| if t.tag == MorphTag::Connective { MorphToken { tag: MorphTag::Particle, ..t } } else { t })
}

/// Connectives are drawn as particles are, as keywords: retagging every
/// connective of a line as a particle changes none of its spans.
pub proof fn lemma_connectives_read_as_particles(tokens: Seq<MorphToken>)
    ensures
        spec_token_kind(MorphTag::Connective) == TokenKind::Keyword,
        spec_token_kind(MorphTag::Particle) == TokenKind::Keyword,
        spec_merge(connectives_as_particles(tokens)) == spec_merge(tokens),
    decreases tokens.len(),
{
    if tokens.len() > 0 {
        lemma_connectives_read_as_particles(tokens.drop_last());
        assert(connectives_as_particles(tokens).drop_last() =~= connectives_as_particles(tokens.drop_last()));
    }
}

/// Merge a line's morphemes into highlighted spans.
pub fn merge_spans(tokens: &[MorphToken]) -> (r: Vec<Span>)
    ensures
        r@ == spec_merge(tokens@),
{
    let mut spans: Vec<Span> = Vec::new();
    let mut i: usize = 0;
    assert(tokens@.take(0) =~= Seq::<MorphToken>::empty());
    while i < tokens.len()
        invariant
            i <= tokens.len(),
            spans@ == spec_merge(tokens@.take(i as int)),
        decreases tokens.len() - i,
    {
        let t = tokens[i];
        let kind = token_kind(t.tag);
        assert(tokens@.take(i + 1).drop_last() =~= tokens@.take(i as int));
        assert(tokens@.take(i + 1).last() == t);
        let n = spans.len();
        if n > 0 && spans[n - 1].kind == kind && kind != TokenKind::Plain && spans[n - 1].end == t.start {
            let last = spans[n - 1];
            spans.set(n - 1, Span { end: t.end, ..last });
        } else {
            spans.push(Span { start: t.start, end: t.end, kind });
        }
        i = i + 1;
    }
    assert(tokens@.take(tokens.len() as int) =~= tokens@);
    spans
}

/// Fence names that select Japanese prose highlighting.
pub open spec fn spec_is_japanese_fence(t: Seq<u8>) -> bool {
    t == "\u{65e5}\u{672c}\u{8a9e}".spec_bytes()
        || spec_lower_seq(t) == spec_lower_seq("japanese".spec_bytes())
        || spec_lower_seq(t) == spec_lower_seq("nihongo".spec_bytes())
        || spec_lower_seq(t) == spec_lower_seq("ja".spec_bytes())
        || spec_lower_seq(t) == spec_lower_seq("jp".spec_bytes())
}

/// The fence (after trimming) selects Japanese prose highlighting.
pub fn is_fence(language: Option<&str>) -> (r: bool)
    ensures
        r == match language {
            Some(n) => spec_is_japanese_fence(vstd::utf8::encode_utf8(trimmed(n@))),
            None => false,
        },
{
    let name = match language {
        Some(n) => n,
        None => {
            return false;
        },
    };
    let t = crate::registry::trim_str(name).as_bytes();
    bytes_equal(t, "\u{65e5}\u{672c}\u{8a9e}".as_bytes()) || eq_ignore_case(t, "japanese".as_bytes())
        || eq_ignore_case(t, "nihongo".as_bytes()) || eq_ignore_case(t, "ja".as_bytes())
        || eq_ignore_case(t, "jp".as_bytes())
}

/// The little-endian word of the bytes `b[start + k ..]`, at most `8 - k` of them.
pub open spec fn spec_word_bytes(b: Seq<u8>, start: int, k: u64) -> u64
    decreases 8 - k,
{
    if k >= 8 || start + k >= b.len() {
        0
    } else {
        ((b[start + k] as u64) << (k * 8)) | spec_word_bytes(b, start, (k + 1) as u64)
    }
}

/// Up to eight bytes from `start` (fewer at the end of the line), little endian.
pub fn sampled_word(b: &[u8], start: usize) -> (r: u64)
    requires
        start <= b.len(),
    ensures
        r == spec_word_bytes(b@, start as int, 0),
{
    let n: u64 = if b.len() - start < 8 { (b.len() - start) as u64 } else { 8 };
    let mut k: u64 = n;
    let mut word: u64 = 0;
    while k > 0
        invariant
            k <= n <= 8,
            start + n <= b.len(),
            n == 8 || start + n == b.len(),
            word == spec_word_bytes(b@, start as int, k),
        decreases k,
    {
        k = k - 1;
        word = ((b[start + k as usize] as u64) << (k * 8)) | word;
    }
    word
}

/// Rotate a 64-bit word left by 23 bits.
pub open spec fn spec_rotl23(h: u64) -> u64 {
    (h << 23u64) | (h >> 41u64)
}

/// One mixing round of the line hash with a sampled word.
pub open spec fn spec_mix(h: u64, w: u64) -> u64 {
    spec_rotl23(h ^ w.wrapping_mul(0xc2b2ae3d27d4eb4fu64)).wrapping_mul(0x165667b19e3779f9u64)
}

/// Twice `len`, saturating at `usize::MAX`.
pub open spec fn spec_double_saturating(len: usize) -> usize {
    if len > usize::MAX / 2 {
        usize::MAX
    } else {
        (len * 2) as usize
    }
}

/// The hash of a line that selects its cache slot: its length mixed with four
/// sampled words (at the start, a third in, two thirds in, and the end).
pub open spec fn spec_line_hash(b: Seq<u8>) -> u64 {
    let len = b.len() as usize;
    let h0 = (len as u64).wrapping_mul(0x9e3779b185ebca87u64);
    let h1 = spec_mix(h0, spec_word_bytes(b, 0, 0));
    let h2 = spec_mix(h1, spec_word_bytes(b, (len / 3) as int, 0));
    let h3 = spec_mix(h2, spec_word_bytes(b, (spec_double_saturating(len) / 3) as int, 0));
    let h4 = spec_mix(h3, spec_word_bytes(b, if len >= 8 { len - 8 } else { 0 }, 0));
    h4 ^ (h4 >> 29u64)
}

fn mix(h: u64, w: u64) -> (r: u64)
    ensures
        r == spec_mix(h, w),
{
    let x = h ^ w.wrapping_mul(0xc2b2ae3d27d4eb4fu64);
    ((x << 23u64) | (x >> 41u64)).wrapping_mul(0x165667b19e3779f9u64)
}

/// The cache-slot hash of a line.
pub fn line_hash(b: &[u8]) -> (r: u64)
    ensures
        r == spec_line_hash(b@),
{
    let len = b.len();
    let h0 = (len as u64).wrapping_mul(0x9e3779b185ebca87u64);
    let h1 = mix(h0, sampled_word(b, 0));
    let h2 = mix(h1, sampled_word(b, len / 3));
    let doubled = if len > usize::MAX / 2 { usize::MAX } else { len * 2 };
    let h3 = mix(h2, sampled_word(b, doubled / 3));
    let h4 = mix(h3, sampled_word(b, if len >= 8 { len - 8 } else { 0 }));
    h4 ^ (h4 >> 29u64)
}

/// How many lines the span cache holds.
pub const LINE_CACHE_SLOTS: usize = 128;

/// The longest line (in bytes) the span cache keeps.
pub const MAX_CACHED_LINE_BYTES: usize = 4096;

/// The cache slot of a line: its hash modulo the number of slots.
pub open spec fn spec_slot(b: Seq<u8>) -> int {
    (spec_line_hash(b) % (LINE_CACHE_SLOTS as u64)) as int
}

/// A cached line: its hash, its bytes and its spans.
struct CachedLine {
    hash: u64,
    source: Vec<u8>,
    spans: Vec<Span>,
}

/// A direct-mapped cache of the spans of recently highlighted lines, so a
/// line redrawn every frame is analyzed once. A line is kept in the slot its
/// hash selects; a hit needs the whole line to be equal.
pub struct LineCache {
    slots: Vec<Option<CachedLine>>,
}

impl View for LineCache {
    type V = Seq<Option<(Seq<u8>, Seq<Span>)>>;

    closed spec fn view(&self) -> Seq<Option<(Seq<u8>, Seq<Span>)>> {
        self.slots@.map_values(|e: Option<CachedLine>| match e {
            Some(c) => Some((c.source@, c.spans@)),
            None => None,
        })
    }
}

/// The spans the cache `m` holds for line `b`, if it holds that line.
pub open spec fn spec_lookup(m: Seq<Option<(Seq<u8>, Seq<Span>)>>, b: Seq<u8>) -> Option<Seq<Span>> {
    if b.len() > MAX_CACHED_LINE_BYTES {
        None
    } else {
        match m[spec_slot(b)] {
            Some((src, spans)) => if src == b { Some(spans) } else { None },
            None => None,
        }
    }
}

/// The cache `m` after keeping `spans` for line `b` (lines longer than
/// `MAX_CACHED_LINE_BYTES` are not kept); the line replaces whatever its
/// slot held.
pub open spec fn spec_store(m: Seq<Option<(Seq<u8>, Seq<Span>)>>, b: Seq<u8>, spans: Seq<Span>) -> Seq<Option<(Seq<u8>, Seq<Span>)>> {
    if b.len() > MAX_CACHED_LINE_BYTES {
        m
    } else {
        m.update(spec_slot(b), Some((b, spans)))
    }
}

/// What a read gives back of a write: after the spans of a line are kept,
/// looking the line up gives exactly those spans (if the line is short
/// enough to be kept); looking up a line of another slot is unaffected.
pub proof fn lemma_line_cache_read_after_write(
    m: Seq<Option<(Seq<u8>, Seq<Span>)>>,
    b: Seq<u8>,
    spans: Seq<Span>,
    other: Seq<u8>,
)
    requires
        m.len() == LINE_CACHE_SLOTS,
    ensures
        spec_lookup(spec_store(m, b, spans), b) == if b.len() <= MAX_CACHED_LINE_BYTES { Some(spans) } else { None::<Seq<Span>> },
        spec_slot(other) != spec_slot(b) ==> spec_lookup(spec_store(m, b, spans), other) == spec_lookup(m, other),
{
}

impl LineCache {
    /// The cache has its slots, and each kept line sits in its own slot.
    pub closed spec fn wf(&self) -> bool {
        &&& self.slots@.len() == LINE_CACHE_SLOTS
        &&& forall|k: int| 0 <= k < LINE_CACHE_SLOTS ==> match #[trigger] self.slots@[k] {
            Some(c) => c.hash == spec_line_hash(c.source@),
            None => true,
        }
    }

    /// An empty cache.
    pub fn new() -> (r: Self)
        ensures
            r.wf(),
            r@ == Seq::new(LINE_CACHE_SLOTS as nat, |k: int| None::<(Seq<u8>, Seq<Span>)>),
    {
        let mut slots: Vec<Option<CachedLine>> = Vec::new();
        let mut k: usize = 0;
        while k < LINE_CACHE_SLOTS
            invariant
                k <= LINE_CACHE_SLOTS,
                slots@.len() == k,
                forall|j: int| 0 <= j < k ==> #[trigger] slots@[j] is None,
            decreases LINE_CACHE_SLOTS - k,
        {
            slots.push(None);
            k = k + 1;
        }
        let r = LineCache { slots };
        assert(r@ =~= Seq::new(LINE_CACHE_SLOTS as nat, |k: int| None::<(Seq<u8>, Seq<Span>)>));
        r
    }

    /// The spans kept for `line`, if the cache holds that line.
    pub fn lookup(&self, line: &str) -> (r: Option<Vec<Span>>)
        requires
            self.wf(),
        ensures
            match r {
                Some(v) => spec_lookup(self@, line.spec_bytes()) == Some(v@),
                None => spec_lookup(self@, line.spec_bytes()) is None,
            },
    {
        let b = line.as_bytes();
        if b.len() > MAX_CACHED_LINE_BYTES {
            return None;
        }
        let hash = line_hash(b);
        let slot = (hash % 128) as usize;
        assert(slot == spec_slot(b@));
        match &self.slots[slot] {
            Some(entry) => {
                assert(self@[slot as int] == Some((entry.source@, entry.spans@)));
                if entry.hash == hash && bytes_equal(entry.source.as_slice(), b) {
                    Some(entry.spans.clone())
                } else {
                    proof {
                        if entry.source@ == b@ {
                            assert(entry.hash == spec_line_hash(b@));
                        }
                    }
                    None
                }
            },
            None => None,
        }
    }

    /// Keep `spans` for `line`.
    pub fn store(&mut self, line: &str, spans: Vec<Span>)
        requires
            old(self).wf(),
        ensures
            final(self).wf(),
            final(self)@ == spec_store(old(self)@, line.spec_bytes(), spans@),
    {
        let b = line.as_bytes();
        if b.len() > MAX_CACHED_LINE_BYTES {
            return;
        }
        let hash = line_hash(b);
        let slot = (hash % 128) as usize;
        let ghost sv = spans@;
        let entry = CachedLine { hash, source: vstd::slice::slice_to_vec(b), spans };
        self.slots.set(slot, Some(entry));
        assert(self@ =~= old(self)@.update(slot as int, Some((b@, sv))));
    }
}

/// The lines of `s` from byte `i` on, each with its line break, as byte
/// ranges (`str::split_inclusive('\n')`).
pub open spec fn spec_lines(s: Seq<u8>, i: int) -> Seq<(int, int)>
    decreases s.len() - i,
{
    if i < 0 || i >= s.len() {
        Seq::empty()
    } else {
        let n = find_byte(s, i, NL);
        let end = if n < s.len() { n + 1 } else { s.len() as int };
        proof {
            lemma_find_byte(s, i, NL);
        }
        seq![(i, end)] + spec_lines(s, end)
    }
}

/// The byte ranges of the lines of `source`, each with its line break.
pub fn line_ranges(source: &str) -> (r: Vec<(usize, usize)>)
    ensures
        r@.len() == spec_lines(source.spec_bytes(), 0).len(),
        forall|k: int| 0 <= k < r@.len() ==> (#[trigger] r@[k]).0 == spec_lines(source.spec_bytes(), 0)[k].0
            && r@[k].1 == spec_lines(source.spec_bytes(), 0)[k].1,
{
    let s = source.as_bytes();
    let ghost all = spec_lines(s@, 0);
    let mut out: Vec<(usize, usize)> = Vec::new();
    let mut i: usize = 0;
    while i < s.len()
        invariant
            i <= s@.len(),
            all == spec_lines(s@, 0),
            all == out@.map_values(|p: (usize, usize)| (p.0 as int, p.1 as int)) + spec_lines(s@, i as int),
        decreases s@.len() - i,
    {
        let n = crate::bytes::find_byte_from(s, i, NL);
        proof {
            lemma_find_byte(s@, i as int, NL);
        }
        let end = if n < s.len() { n + 1 } else { s.len() };
        let ghost before = out@.map_values(|p: (usize, usize)| (p.0 as int, p.1 as int));
        out.push((i, end));
        proof {
            assert(out@.map_values(|p: (usize, usize)| (p.0 as int, p.1 as int)) =~= before.push((i as int, end as int)));
            assert(spec_lines(s@, i as int) == seq![(i as int, end as int)] + spec_lines(s@, end as int));
            assert(before + (seq![(i as int, end as int)] + spec_lines(s@, end as int))
                =~= before.push((i as int, end as int)) + spec_lines(s@, end as int));
        }
        i = end;
    }
    let ghost m = out@.map_values(|p: (usize, usize)| (p.0 as int, p.1 as int));
    assert(all =~= m);
    assert forall|k: int| 0 <= k < out@.len() implies (#[trigger] out@[k]).0 == all[k].0 && out@[k].1 == all[k].1 by {
        assert(m[k] == (out@[k].0 as int, out@[k].1 as int));
    }
    out
}

/// The span is a range of character boundaries of `line`, so its text can
/// be handed over.
pub open spec fn span_fits(line: Seq<u8>, sp: Span) -> bool {
    sp.start <= sp.end <= line.len() && vstd::utf8::is_char_boundary(line, sp.start as int)
        && vstd::utf8::is_char_boundary(line, sp.end as int)
}

/// The spans of `line` that fit it, in order, as `(start, end, class)`: the
/// tokens a line's spans hand over.
pub open spec fn spec_fitting(line: Seq<u8>, spans: Seq<Span>) -> Seq<(int, int, TokenKind)>
    decreases spans.len(),
{
    if spans.len() == 0 {
        Seq::empty()
    } else {
        let rest = spec_fitting(line, spans.drop_last());
        let sp = spans.last();
        if span_fits(line, sp) {
            rest.push((sp.start as int, sp.end as int, sp.kind))
        } else {
            rest
        }
    }
}

/// The fitting spans of a prefix of the spans come first among those of the
/// whole.
proof fn lemma_fitting_prefix(line: Seq<u8>, spans: Seq<Span>, i: int, j: int)
    requires
        0 <= i <= j <= spans.len(),
    ensures
        spec_fitting(line, spans.take(i)).len() <= spec_fitting(line, spans.take(j)).len(),
        spec_fitting(line, spans.take(j)).take(spec_fitting(line, spans.take(i)).len() as int)
            == spec_fitting(line, spans.take(i)),
    decreases j - i,
{
    let fi = spec_fitting(line, spans.take(i));
    if i == j {
        assert(spec_fitting(line, spans.take(j)).take(fi.len() as int) =~= fi);
    } else {
        lemma_fitting_prefix(line, spans, i, j - 1);
        assert(spans.take(j).drop_last() =~= spans.take(j - 1));
        let fj1 = spec_fitting(line, spans.take(j - 1));
        let fj = spec_fitting(line, spans.take(j));
        assert(fj.take(fi.len() as int) =~= fj1.take(fi.len() as int));
    }
}

/// Hand the spans of `line` to `emit` in order until it returns `false`;
/// `true` when every span was handed over. A span that is not a range of
/// character boundaries of the line is passed over.
fn emit_spans<'a, F: FnMut(&'a str, TokenKind) -> bool>(line: &'a str, spans: &Vec<Span>, emit: &mut F) -> (r: bool)
    requires
        forall|t: &'a str, k: TokenKind| call_requires(*old(emit), (t, k)),
    ensures
        *final(emit) == *old(emit),
        exists|emitted: Seq<(&'a str, TokenKind, bool)>|
            #[trigger] emitted_run(*old(emit), line.spec_bytes(), spec_fitting(line.spec_bytes(), spans@), emitted)
            && r == all_answered_true(emitted),
{
    let ghost b = line.spec_bytes();
    let ghost e0 = *emit;
    let ghost mut emitted: Seq<(&'a str, TokenKind, bool)> = Seq::empty();
    let n = line.as_bytes().len();
    let mut i: usize = 0;
    assert(spans@.take(0) =~= Seq::<Span>::empty());
    while i < spans.len()
        invariant
            i <= spans.len(),
            n == b.len(),
            b == line.spec_bytes(),
            *emit == e0,
            e0 == *old(emit),
            forall|t: &'a str, k: TokenKind| call_requires(*emit, (t, k)),
            emitted.len() == spec_fitting(b, spans@.take(i as int)).len(),
            forall|k: int| 0 <= k < emitted.len() ==> #[trigger] emitted_matches(e0, b, spec_fitting(b, spans@.take(i as int)), emitted, k),
            all_answered_true(emitted),
        decreases spans.len() - i,
    {
        let sp = spans[i];
        let ghost before = spec_fitting(b, spans@.take(i as int));
        assert(spans@.take(i + 1).drop_last() =~= spans@.take(i as int));
        assert(spans@.take(i + 1).last() == sp);
        if sp.start <= sp.end && sp.end <= n && line.is_char_boundary(sp.start) && line.is_char_boundary(sp.end) {
            let text = text_of(line, sp.start, sp.end);
            let answer = (*emit)(text, sp.kind);
            proof {
                let now = spec_fitting(b, spans@.take(i + 1));
                assert(now == before.push((sp.start as int, sp.end as int, sp.kind)));
                let prev = emitted;
                emitted = emitted.push((text, sp.kind, answer));
                assert forall|k: int| 0 <= k < emitted.len() implies #[trigger] emitted_matches(e0, b, now, emitted, k) by {
                    if k < prev.len() {
                        assert(emitted[k] == prev[k]);
                        assert(emitted_matches(e0, b, before, prev, k));
                    }
                }
            }
            if !answer {
                proof {
                    let now = spec_fitting(b, spans@.take(i + 1));
                    let all = spec_fitting(b, spans@);
                    lemma_fitting_prefix(b, spans@, i + 1, spans@.len() as int);
                    assert(spans@.take(spans@.len() as int) =~= spans@);
                    assert forall|k: int| 0 <= k < emitted.len() implies #[trigger] emitted_matches(e0, b, all, emitted, k) by {
                        assert(emitted_matches(e0, b, now, emitted, k));
                        assert(all[k] == all.take(now.len() as int)[k]);
                    }
                    assert forall|k: int| 0 <= k < emitted.len() - 1 implies (#[trigger] emitted[k]).2 by {
                        assert(emitted[k] == emitted.drop_last()[k]);
                    }
                    assert(!emitted[emitted.len() - 1].2);
                    assert(!all_answered_true(emitted));
                    assert(emitted_run(e0, b, all, emitted));
                }
                return false;
            }
            proof {
                assert forall|k: int| 0 <= k < emitted.len() implies (#[trigger] emitted[k]).2 by {
                    if k < emitted.len() - 1 {
                        assert(emitted[k] == emitted.drop_last()[k]);
                    }
                }
            }
        } else {
            proof {
                assert(!span_fits(b, sp));
                assert(spec_fitting(b, spans@.take(i + 1)) == before);
            }
        }
        i = i + 1;
    }
    proof {
        assert(spans@.take(spans@.len() as int) =~= spans@);
        assert(emitted_run(e0, b, spec_fitting(b, spans@), emitted));
    }
    true
}

/// What analyzing `b` can give: the analyzer's morphemes for a line with
/// those bytes, merged into spans.
pub open spec fn spec_analyzed<A: FnMut(&str) -> Vec<MorphToken>>(analyze: A, b: Seq<u8>, spans: Seq<Span>) -> bool {
    exists|l: &str, tokens: Vec<MorphToken>|
        l.spec_bytes() == b && #[trigger] call_ensures(analyze, (l,), tokens) && spans == spec_merge(tokens@)
}

/// Highlighting line `b` takes the cache from `m1` to `m2`, with `spans` the
/// line's spans and `emitted` the calls of `emit` over them: a line the cache
/// holds takes its kept spans and leaves the cache as it is; any other line
/// gets the analyzer's morphemes merged into spans, which are then kept.
/// The spans that fit the line are handed over in order until `emit` answers
/// `false`.
#[verifier::opaque]
pub open spec fn spec_line_step<'a, A: FnMut(&str) -> Vec<MorphToken>, F: FnMut(&'a str, TokenKind) -> bool>(
    analyze: A,
    emit: F,
    m1: Seq<Option<(Seq<u8>, Seq<Span>)>>,
    m2: Seq<Option<(Seq<u8>, Seq<Span>)>>,
    b: Seq<u8>,
    spans: Seq<Span>,
    emitted: Seq<(&'a str, TokenKind, bool)>,
) -> bool {
    &&& match spec_lookup(m1, b) {
        Some(kept) => m2 == m1 && spans == kept,
        None => m2 == spec_store(m1, b, spans) && spec_analyzed(analyze, b, spans),
    }
    &&& emitted_run(emit, b, spec_fitting(b, spans), emitted)
}

/// The analyzer gives one answer per line text: the same bytes always get
/// the same morphemes.
pub open spec fn analyzer_deterministic<A: FnMut(&str) -> Vec<MorphToken>>(analyze: A) -> bool {
    forall|l1: &str, l2: &str, t1: Vec<MorphToken>, t2: Vec<MorphToken>|
        #![trigger call_ensures(analyze, (l1,), t1), call_ensures(analyze, (l2,), t2)]
        l1.spec_bytes() == l2.spec_bytes() && call_ensures(analyze, (l1,), t1) && call_ensures(analyze, (l2,), t2)
            ==> t1@ == t2@
}

/// Every line the cache keeps has spans the analyzer gives for it.
pub open spec fn cache_consistent<A: FnMut(&str) -> Vec<MorphToken>>(analyze: A, m: Seq<Option<(Seq<u8>, Seq<Span>)>>) -> bool {
    forall|k: int| 0 <= k < m.len() ==> match #[trigger] m[k] {
        Some(kept) => spec_analyzed(analyze, kept.0, kept.1),
        None => true,
    }
}

/// The line cache never changes what is highlighted: with an analyzer that
/// answers each line text the same way, and a cache holding only its
/// answers, the spans a line gets (kept or fresh) are the ones analyzing it
/// anew gives, and the cache still holds only the analyzer's answers.
pub proof fn lemma_cached_spans_are_fresh<'a, A: FnMut(&str) -> Vec<MorphToken>, F: FnMut(&'a str, TokenKind) -> bool>(
    analyze: A,
    emit: F,
    m1: Seq<Option<(Seq<u8>, Seq<Span>)>>,
    m2: Seq<Option<(Seq<u8>, Seq<Span>)>>,
    b: Seq<u8>,
    spans: Seq<Span>,
    emitted: Seq<(&'a str, TokenKind, bool)>,
    fresh: Seq<Span>,
)
    requires
        m1.len() == LINE_CACHE_SLOTS,
        analyzer_deterministic(analyze),
        cache_consistent(analyze, m1),
        spec_line_step(analyze, emit, m1, m2, b, spans, emitted),
        spec_analyzed(analyze, b, fresh),
    ensures
        spans == fresh,
        cache_consistent(analyze, m2),
        m2.len() == LINE_CACHE_SLOTS,
{
    reveal(spec_line_step);
    let (l2, t2) = choose|l: &str, tokens: Vec<MorphToken>|
        l.spec_bytes() == b && #[trigger] call_ensures(analyze, (l,), tokens) && fresh == spec_merge(tokens@);
    match spec_lookup(m1, b) {
        Some(kept) => {
            let k = spec_slot(b);
            assert(m1[k] == Some((b, kept)));
            assert(spec_analyzed(analyze, b, kept));
            let (l1, t1) = choose|l: &str, tokens: Vec<MorphToken>|
                l.spec_bytes() == b && #[trigger] call_ensures(analyze, (l,), tokens) && kept == spec_merge(tokens@);
            assert(t1@ == t2@);
        },
        None => {
            let (l1, t1) = choose|l: &str, tokens: Vec<MorphToken>|
                l.spec_bytes() == b && #[trigger] call_ensures(analyze, (l,), tokens) && spans == spec_merge(tokens@);
            assert(t1@ == t2@);
            if b.len() <= MAX_CACHED_LINE_BYTES {
                assert forall|k: int| 0 <= k < m2.len() implies match #[trigger] m2[k] {
                    Some(kept) => spec_analyzed(analyze, kept.0, kept.1),
                    None => true,
                } by {
                    if k != spec_slot(b) {
                        assert(m2[k] == m1[k]);
                    }
                }
            }
        },
    }
}

/// Highlight one line: its spans come from the cache when it holds the line,
/// else from `analyze` (the morphological analyzer) merged by class, and are
/// then kept. Returns `false` once `emit` asks to stop.
pub fn highlight_line<'a, A: FnMut(&str) -> Vec<MorphToken>, F: FnMut(&'a str, TokenKind) -> bool>(
    line: &'a str,
    cache: &mut LineCache,
    analyze: &mut A,
    emit: &mut F,
) -> (r: bool)
    requires
        old(cache).wf(),
        forall|l: &str| call_requires(*old(analyze), (l,)),
        forall|t: &'a str, k: TokenKind| call_requires(*old(emit), (t, k)),
    ensures
        final(cache).wf(),
        *final(analyze) == *old(analyze),
        *final(emit) == *old(emit),
        exists|spans: Seq<Span>, emitted: Seq<(&'a str, TokenKind, bool)>|
            #[trigger] spec_line_step(*old(analyze), *old(emit), old(cache)@, final(cache)@, line.spec_bytes(), spans, emitted)
            && r == all_answered_true(emitted),
{
    proof {
        reveal(spec_line_step);
    }
    match cache.lookup(line) {
        Some(spans) => {
            let r = emit_spans(line, &spans, emit);
            proof {
                let emitted = choose|emitted: Seq<(&'a str, TokenKind, bool)>|
                    #[trigger] emitted_run(*old(emit), line.spec_bytes(), spec_fitting(line.spec_bytes(), spans@), emitted)
                    && r == all_answered_true(emitted);
                assert(spec_line_step(*old(analyze), *old(emit), old(cache)@, cache@, line.spec_bytes(), spans@, emitted));
            }
            r
        },
        None => {
            let tokens = (*analyze)(line);
            let spans = merge_spans(tokens.as_slice());
            let ghost sv = spans@;
            proof {
                assert(spec_analyzed(*old(analyze), line.spec_bytes(), sv));
            }
            let keep_going = emit_spans(line, &spans, emit);
            cache.store(line, spans);
            proof {
                let emitted = choose|emitted: Seq<(&'a str, TokenKind, bool)>|
                    #[trigger] emitted_run(*old(emit), line.spec_bytes(), spec_fitting(line.spec_bytes(), sv), emitted)
                    && keep_going == all_answered_true(emitted);
                assert(spec_line_step(*old(analyze), *old(emit), old(cache)@, cache@, line.spec_bytes(), sv, emitted));
            }
            keep_going
        },
    }
}

/// The bytes of line `j` of `s` (with its line break).
pub open spec fn spec_line_at(s: Seq<u8>, j: int) -> Seq<u8> {
    s.subrange(spec_lines(s, 0)[j].0, spec_lines(s, 0)[j].1)
}

/// Highlighting the lines of `s` in order, from `m0` to `m`: `ms` are the
/// caches it goes through and `runs` each line's spans and `emit` calls.
/// One step per line highlighted, from the first line on: at least one line
/// when there is one, at most all of them. Every line but the last one
/// highlighted had all its answers `true`, and highlighting stops before the
/// last line only after an answer `false`.
pub open spec fn spec_highlight_run<'a, A: FnMut(&str) -> Vec<MorphToken>, F: FnMut(&'a str, TokenKind) -> bool>(
    analyze: A,
    emit: F,
    m0: Seq<Option<(Seq<u8>, Seq<Span>)>>,
    m: Seq<Option<(Seq<u8>, Seq<Span>)>>,
    ms: Seq<Seq<Option<(Seq<u8>, Seq<Span>)>>>,
    runs: Seq<(Seq<Span>, Seq<(&'a str, TokenKind, bool)>)>,
    s: Seq<u8>,
) -> bool {
    let n = spec_lines(s, 0).len();
    &&& 1 <= ms.len() <= n + 1
    &&& (n > 0 ==> ms.len() >= 2)
    &&& runs.len() == ms.len() - 1
    &&& ms[0] == m0
    &&& ms.last() == m
    &&& forall|j: int| 0 <= j < runs.len() ==>
        #[trigger] spec_line_step(analyze, emit, ms[j], ms[j + 1], spec_line_at(s, j), runs[j].0, runs[j].1)
    &&& forall|j: int| 0 <= j < runs.len() - 1 ==> all_answered_true(#[trigger] runs[j].1)
    &&& runs.len() < n ==> !all_answered_true(runs.last().1)
}

/// One more highlighted line extends the caches and runs.
proof fn lemma_highlight_run_push<'a, A: FnMut(&str) -> Vec<MorphToken>, F: FnMut(&'a str, TokenKind) -> bool>(
    analyze: A,
    emit: F,
    ms: Seq<Seq<Option<(Seq<u8>, Seq<Span>)>>>,
    runs: Seq<(Seq<Span>, Seq<(&'a str, TokenKind, bool)>)>,
    s: Seq<u8>,
    k: int,
    m: Seq<Option<(Seq<u8>, Seq<Span>)>>,
    spans: Seq<Span>,
    emitted: Seq<(&'a str, TokenKind, bool)>,
)
    requires
        0 <= k,
        ms.len() == k + 1,
        runs.len() == k,
        forall|j: int| 0 <= j < k ==>
            #[trigger] spec_line_step(analyze, emit, ms[j], ms[j + 1], spec_line_at(s, j), runs[j].0, runs[j].1),
        forall|j: int| 0 <= j < k ==> all_answered_true(#[trigger] runs[j].1),
        spec_line_step(analyze, emit, ms.last(), m, spec_line_at(s, k), spans, emitted),
    ensures
        ms.push(m).len() == k + 2,
        runs.push((spans, emitted)).len() == k + 1,
        ms.push(m)[0] == ms[0],
        ms.push(m).last() == m,
        runs.push((spans, emitted)).last() == (spans, emitted),
        forall|j: int| 0 <= j < k + 1 ==>
            #[trigger] spec_line_step(analyze, emit, ms.push(m)[j], ms.push(m)[j + 1], spec_line_at(s, j),
                runs.push((spans, emitted))[j].0, runs.push((spans, emitted))[j].1),
        forall|j: int| 0 <= j < k ==> all_answered_true(#[trigger] runs.push((spans, emitted))[j].1),
{
    let next = ms.push(m);
    let rs = runs.push((spans, emitted));
    assert forall|j: int| 0 <= j < k + 1 implies
        #[trigger] spec_line_step(analyze, emit, next[j], next[j + 1], spec_line_at(s, j), rs[j].0, rs[j].1) by {
        if j < k {
            assert(next[j] == ms[j] && next[j + 1] == ms[j + 1] && rs[j] == runs[j]);
        } else {
            assert(next[j] == ms.last() && next[j + 1] == m && rs[j] == (spans, emitted));
        }
    }
    assert forall|j: int| 0 <= j < k implies all_answered_true(#[trigger] rs[j].1) by {
        assert(rs[j] == runs[j]);
    }
}

/// Highlight Japanese prose line by line (each line with its line break),
/// stopping as soon as `emit` returns `false`: lines below the stop are never
/// analyzed.
pub fn highlight<'a, A: FnMut(&str) -> Vec<MorphToken>, F: FnMut(&'a str, TokenKind) -> bool>(
    source: &'a str,
    cache: &mut LineCache,
    analyze: A,
    emit: F,
)
    requires
        old(cache).wf(),
        forall|l: &str| call_requires(analyze, (l,)),
        forall|t: &'a str, k: TokenKind| call_requires(emit, (t, k)),
    ensures
        final(cache).wf(),
        exists|
            ms: Seq<Seq<Option<(Seq<u8>, Seq<Span>)>>>,
            runs: Seq<(Seq<Span>, Seq<(&'a str, TokenKind, bool)>)>,
        | #[trigger] spec_highlight_run(analyze, emit, old(cache)@, final(cache)@, ms, runs, source.spec_bytes()),
{
    let ghost m0 = cache@;
    let ghost mut ms: Seq<Seq<Option<(Seq<u8>, Seq<Span>)>>> = seq![m0];
    let ghost mut runs: Seq<(Seq<Span>, Seq<(&'a str, TokenKind, bool)>)> = Seq::empty();
    let mut analyzer = analyze;
    let mut sink = emit;
    let lines = line_ranges(source);
    let ghost s = source.spec_bytes();
    proof {
        vstd::utf8::encode_utf8_valid_utf8(source@);
        lemma_lines_boundaries(s, 0);
    }
    let mut k: usize = 0;
    while k < lines.len()
        invariant
            cache.wf(),
            k <= lines.len(),
            s == source.spec_bytes(),
            lines@.len() == spec_lines(s, 0).len(),
            forall|j: int| 0 <= j < lines@.len() ==> (#[trigger] lines@[j]).0 == spec_lines(s, 0)[j].0
                && lines@[j].1 == spec_lines(s, 0)[j].1,
            forall|j: int| 0 <= j < spec_lines(s, 0).len() ==> {
                let (a, b) = #[trigger] spec_lines(s, 0)[j];
                0 <= a <= b <= s.len() && vstd::utf8::is_char_boundary(s, a) && vstd::utf8::is_char_boundary(s, b)
            },
            analyzer == analyze,
            sink == emit,
            forall|l: &str| call_requires(analyzer, (l,)),
            forall|t: &'a str, k: TokenKind| call_requires(sink, (t, k)),
            ms.len() == k + 1,
            runs.len() == k,
            m0 == old(cache)@,
            ms[0] == m0,
            ms.last() == cache@,
            forall|j: int| 0 <= j < k ==>
                #[trigger] spec_line_step(analyze, emit, ms[j], ms[j + 1], spec_line_at(s, j), runs[j].0, runs[j].1),
            forall|j: int| 0 <= j < k ==> all_answered_true(#[trigger] runs[j].1),
        decreases lines.len() - k,
    {
        let (a, b) = lines[k];
        assert(spec_lines(s, 0)[k as int] == (a as int, b as int));
        let line = text_of(source, a, b);
        let keep_going = highlight_line(line, cache, &mut analyzer, &mut sink);
        proof {
            assert(line.spec_bytes() == spec_line_at(s, k as int));
            let (spans, emitted) = choose|spans: Seq<Span>, emitted: Seq<(&'a str, TokenKind, bool)>|
                #[trigger] spec_line_step(analyze, emit, ms.last(), cache@, line.spec_bytes(), spans, emitted)
                && keep_going == all_answered_true(emitted);
            lemma_highlight_run_push(analyze, emit, ms, runs, s, k as int, cache@, spans, emitted);
            ms = ms.push(cache@);
            runs = runs.push((spans, emitted));
        }
        if !keep_going {
            assert(spec_highlight_run(analyze, emit, m0, cache@, ms, runs, s));
            return;
        }
        k = k + 1;
    }
    assert(spec_highlight_run(analyze, emit, m0, cache@, ms, runs, s));
}

/// Every line range lies in the text and starts and ends on character
/// boundaries.
proof fn lemma_lines_boundaries(s: Seq<u8>, i: int)
    requires
        vstd::utf8::valid_utf8(s),
        0 <= i <= s.len(),
        vstd::utf8::is_char_boundary(s, i),
    ensures
        forall|j: int| 0 <= j < spec_lines(s, i).len() ==> {
            let (a, b) = #[trigger] spec_lines(s, i)[j];
            0 <= a <= b <= s.len() && vstd::utf8::is_char_boundary(s, a) && vstd::utf8::is_char_boundary(s, b)
        },
    decreases s.len() - i,
{
    if i < s.len() {
        let n = find_byte(s, i, NL);
        lemma_find_byte(s, i, NL);
        let end = if n < s.len() { n + 1 } else { s.len() as int };
        if n < s.len() {
            crate::bytes::lemma_ascii_boundaries(s, n);
        } else {
            vstd::utf8::is_char_boundary_start_end_of_seq(s);
        }
        lemma_lines_boundaries(s, end);
        let rest = spec_lines(s, end);
        let all = spec_lines(s, i);
        assert(all == seq![(i, end)] + rest);
        assert forall|j: int| 0 <= j < all.len() implies {
            let (a, b) = #[trigger] all[j];
            0 <= a <= b <= s.len() && vstd::utf8::is_char_boundary(s, a) && vstd::utf8::is_char_boundary(s, b)
        } by {
            if j > 0 {
                assert(all[j] == rest[j - 1]);
            }
        }
    }
}

} // verus!
