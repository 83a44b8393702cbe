//! Renderer compatibility policy: the backend a page asks for, the order in
//! which backends are tried, and coverage quantization for slower backends.
use vstd::prelude::*;
use vstd::string::StringSliceAdditionalSpecFns;
use crate::bytes::{find_byte, lemma_find_byte, lemma_find_byte_shift, find_byte_from, lower, spec_lower_seq, starts_at};

verus! {

/// The backend requested through the page's query string.
#[derive(Clone, Copy, Debug, PartialEq, Eq, Structural)]
pub enum RendererPreference {
    Auto,
    WebGpu,
    WebGl2,
    Canvas2d,
}

/// A concrete rendering backend.
#[derive(Clone, Copy, Debug, PartialEq, Eq, Structural)]
pub enum RendererBackend {
    WebGpu,
    WebGl2,
    Canvas2d,
}

impl Default for RendererPreference {
    fn default() -> (r: Self)
        ensures
            r == RendererPreference::Auto,
    {
        RendererPreference::Auto
    }
}

/// Bytes of `renderer`, the query key that selects a backend.
pub open spec fn renderer_key() -> Seq<u8> {
    seq![0x72u8, 0x65u8, 0x6eu8, 0x64u8, 0x65u8, 0x72u8, 0x65u8, 0x72u8]
}

pub open spec fn webgpu_word() -> Seq<u8> {
    seq![0x77u8, 0x65u8, 0x62u8, 0x67u8, 0x70u8, 0x75u8]
}

pub open spec fn webgl_word() -> Seq<u8> {
    seq![0x77u8, 0x65u8, 0x62u8, 0x67u8, 0x6cu8]
}

pub open spec fn webgl2_word() -> Seq<u8> {
    seq![0x77u8, 0x65u8, 0x62u8, 0x67u8, 0x6cu8, 0x32u8]
}

pub open spec fn canvas_word() -> Seq<u8> {
    seq![0x63u8, 0x61u8, 0x6eu8, 0x76u8, 0x61u8, 0x73u8]
}

pub open spec fn canvas2d_word() -> Seq<u8> {
    seq![0x63u8, 0x61u8, 0x6eu8, 0x76u8, 0x61u8, 0x73u8, 0x32u8, 0x64u8]
}

/// The preference named by a `renderer` value (compared without ASCII case);
/// unknown values mean `Auto`.
pub open spec fn value_preference(value: Seq<u8>) -> RendererPreference {
    let v = spec_lower_seq(value);
    if v == webgpu_word() {
        RendererPreference::WebGpu
    } else if v == webgl_word() || v == webgl2_word() {
        RendererPreference::WebGl2
    } else if v == canvas_word() || v == canvas2d_word() {
        RendererPreference::Canvas2d
    } else {
        RendererPreference::Auto
    }
}

/// The preference stated by one `key=value` part, split at its first `=`.
pub open spec fn part_preference(part: Seq<u8>) -> Option<RendererPreference> {
    let eq = find_byte(part, 0, 0x3du8);
    if eq >= part.len() {
        None
    } else if part.subrange(0, eq) == renderer_key() {
        Some(value_preference(part.subrange(eq + 1, part.len() as int)))
    } else {
        None
    }
}

/// The preference of the first `&`-separated part of `s[from..]` that sets
/// `renderer`.
pub open spec fn parts_preference(s: Seq<u8>, from: int) -> Option<RendererPreference>
    decreases s.len() - from,
{
    if from < 0 || from > s.len() {
        None
    } else {
        let end = find_byte(s, from, 0x26u8);
        let here = if end < from { None } else { part_preference(s.subrange(from, end)) };
        if here is Some {
            here
        } else if end >= s.len() || end < from {
            None
        } else {
            parts_preference(s, end + 1)
        }
    }
}

/// Number of leading `?` bytes.
pub open spec fn leading_questions(s: Seq<u8>, from: int) -> int
    decreases s.len() - from,
{
    if 0 <= from < s.len() && s[from] == 0x3fu8 {
        leading_questions(s, from + 1)
    } else {
        from
    }
}

/// The preference a query string selects: the first `renderer=` part after
/// the leading `?` marks, `Auto` when there is none.
pub open spec fn spec_from_search(s: Seq<u8>) -> RendererPreference {
    match parts_preference(s, leading_questions(s, 0)) {
        Some(p) => p,
        None => RendererPreference::Auto,
    }
}

/// The bytes of an ASCII string are its characters' codes.
proof fn lemma_ascii_bytes(s: &str)
    requires
        vstd::utf8::is_ascii_chars(s@),
    ensures
        s.spec_bytes() == Seq::new(s@.len(), |i: int| s@[i] as u8),
{
    vstd::string::is_ascii_spec_bytes(s);
}

/// A `renderer=` part running from `from` to the end of `t` sets the
/// preference its value names.
proof fn lemma_renderer_part_at(t: Seq<u8>, from: int, w: Seq<u8>)
    requires
        0 <= from <= t.len(),
        t.subrange(from, t.len() as int) == renderer_key() + seq![0x3du8] + w,
        forall|k: int| 0 <= k < w.len() ==> w[k] != 0x26u8,
    ensures
        parts_preference(t, from) == Some(value_preference(w)),
{
    let part = renderer_key() + seq![0x3du8] + w;
    assert(renderer_key().len() == 8);
    assert(part.len() == 9 + w.len());
    assert(t.subrange(from, t.len() as int).len() == t.len() - from);
    assert(t.len() == from + 9 + w.len());
    assert forall|k: int| from <= k < t.len() implies t[k] != 0x26u8 by {
        assert(t[k] == part[k - from]);
        if k - from >= 9 {
            assert(part[k - from] == w[k - from - 9]);
        }
    }
    lemma_find_byte(t, from, 0x26u8);
    let end = find_byte(t, from, 0x26u8);
    assert(end == t.len());
    assert(t.subrange(from, end) == part);
    lemma_find_byte(part, 0, 0x3du8);
    let eq = find_byte(part, 0, 0x3du8);
    assert(part[8] == 0x3du8);
    assert forall|k: int| 0 <= k < 8 implies part[k] != 0x3du8 by {
        assert(part[k] == renderer_key()[k]);
    }
    assert(eq == 8);
    assert(part.subrange(0, 8) =~= renderer_key());
    assert(part.subrange(9, part.len() as int) =~= w);
}

/// A `renderer=w` part names what `w` names.
proof fn lemma_renderer_part_value(w: Seq<u8>)
    ensures
        part_preference(renderer_key() + seq![0x3du8] + w) == Some(value_preference(w)),
{
    let part = renderer_key() + seq![0x3du8] + w;
    assert(renderer_key().len() == 8);
    lemma_find_byte(part, 0, 0x3du8);
    assert(part[8] == 0x3du8);
    assert forall|k: int| 0 <= k < 8 implies part[k] != 0x3du8 by {
        assert(part[k] == renderer_key()[k]);
    }
    assert(find_byte(part, 0, 0x3du8) == 8);
    assert(part.subrange(0, 8) =~= renderer_key());
    assert(part.subrange(9, part.len() as int) =~= w);
}

/// The first `renderer=` part decides: whatever parts follow it, even other
/// `renderer=` parts, the query selects what its value names.
pub proof fn lemma_first_renderer_part_wins(w: Seq<u8>, rest: Seq<u8>)
    requires
        forall|k: int| 0 <= k < w.len() ==> w[k] != 0x26u8,
    ensures
        spec_from_search(renderer_key() + seq![0x3du8] + w + seq![0x26u8] + rest) == value_preference(w),
{
    let part = renderer_key() + seq![0x3du8] + w;
    let s = part + seq![0x26u8] + rest;
    assert(renderer_key() + seq![0x3du8] + w + seq![0x26u8] + rest =~= s);
    assert(s[0] == 0x72u8);
    assert(leading_questions(s, 0) == 0);
    lemma_find_byte(s, 0, 0x26u8);
    assert(renderer_key().len() == 8);
    assert forall|k: int| 0 <= k < part.len() implies s[k] != 0x26u8 by {
        assert(s[k] == part[k]);
        if k >= 9 {
            assert(part[k] == w[k - 9]);
        } else if k < 8 {
            assert(part[k] == renderer_key()[k]);
        }
    }
    assert(s[part.len() as int] == 0x26u8);
    assert(find_byte(s, 0, 0x26u8) == part.len());
    assert(s.subrange(0, part.len() as int) =~= part);
    lemma_renderer_part_value(w);
}

/// The `&`-separated parts of a query read after a prefix are read as they
/// would be on their own.
proof fn lemma_parts_preference_shift(p: Seq<u8>, r: Seq<u8>, i: int)
    requires
        0 <= i <= r.len(),
    ensures
        parts_preference(p + r, p.len() + i) == parts_preference(r, i),
    decreases r.len() - i,
{
    let s = p + r;
    lemma_find_byte_shift(p, r, i, 0x26u8);
    lemma_find_byte(r, i, 0x26u8);
    let end = find_byte(r, i, 0x26u8);
    assert(s.subrange(p.len() + i, p.len() + end) =~= r.subrange(i, end));
    if end < r.len() {
        lemma_parts_preference_shift(p, r, end + 1);
    }
}

/// Parts that do not set the renderer are passed over: a query that starts
/// with such a part (not starting with `?`, holding no `&`) followed by `&`
/// selects what the rest of the query selects on its own.
pub proof fn lemma_other_parts_are_skipped(part: Seq<u8>, rest: Seq<u8>)
    requires
        forall|k: int| 0 <= k < part.len() ==> part[k] != 0x26u8,
        part.len() > 0 ==> part[0] != 0x3fu8,
        rest.len() > 0 ==> rest[0] != 0x3fu8,
        part_preference(part) is None,
    ensures
        spec_from_search(part + seq![0x26u8] + rest) == spec_from_search(rest),
{
    let p = part + seq![0x26u8];
    let s = p + rest;
    assert(s =~= part + seq![0x26u8] + rest);
    assert(leading_questions(s, 0) == 0) by {
        if part.len() > 0 {
            assert(s[0] == part[0]);
        } else {
            assert(s[0] == 0x26u8);
        }
    }
    assert(leading_questions(rest, 0) == 0);
    lemma_find_byte(s, 0, 0x26u8);
    assert forall|k: int| 0 <= k < part.len() implies s[k] != 0x26u8 by {
        assert(s[k] == part[k]);
    }
    assert(s[part.len() as int] == 0x26u8);
    assert(find_byte(s, 0, 0x26u8) == part.len());
    assert(s.subrange(0, part.len() as int) =~= part);
    lemma_parts_preference_shift(p, rest, 0);
    assert(parts_preference(s, 0) == parts_preference(s, p.len() as int));
}

/// A `renderer=` part selects its preference wherever it stands: after any
/// part that does not set the renderer, `renderer=w` still selects what `w`
/// names (when `w` holds no `&`).
pub proof fn lemma_renderer_part_anywhere(part: Seq<u8>, w: Seq<u8>)
    requires
        forall|k: int| 0 <= k < part.len() ==> part[k] != 0x26u8,
        part.len() > 0 ==> part[0] != 0x3fu8,
        part_preference(part) is None,
        forall|k: int| 0 <= k < w.len() ==> w[k] != 0x26u8,
    ensures
        spec_from_search(part + seq![0x26u8] + renderer_key() + seq![0x3du8] + w) == value_preference(w),
        spec_from_search(seq![0x3fu8] + part + seq![0x26u8] + renderer_key() + seq![0x3du8] + w) == value_preference(w),
{
    let rest = renderer_key() + seq![0x3du8] + w;
    let s = part + seq![0x26u8] + rest;
    let q = seq![0x3fu8] + s;
    assert(seq![0x3fu8] + part + seq![0x26u8] + renderer_key() + seq![0x3du8] + w =~= q);
    assert(leading_questions(s, 0) == 0) by {
        if part.len() > 0 {
            assert(s[0] == part[0]);
        } else {
            assert(s[0] == 0x26u8);
        }
    }
    assert(q[1] == s[0]);
    assert(leading_questions(q, 1) == 1);
    assert(leading_questions(q, 0) == 1);
    lemma_parts_preference_shift(seq![0x3fu8], s, 0);
    assert(rest[0] == 0x72u8);
    lemma_other_parts_are_skipped(part, rest);
    assert(part + seq![0x26u8] + renderer_key() + seq![0x3du8] + w =~= part + seq![0x26u8] + rest);
    lemma_renderer_query(w);
}

/// The query value that spells a preference, as `as_str` writes it.
pub open spec fn spec_spelling(p: RendererPreference) -> Seq<u8> {
    match p {
        RendererPreference::Auto => seq![0x61u8, 0x75u8, 0x74u8, 0x6fu8],
        RendererPreference::WebGpu => webgpu_word(),
        RendererPreference::WebGl2 => webgl2_word(),
        RendererPreference::Canvas2d => canvas2d_word(),
    }
}

/// A `renderer=` query, with or without a leading `?`, selects the
/// preference its value names, whatever the value (when it holds no `&`).
pub proof fn lemma_renderer_query(w: Seq<u8>)
    requires
        forall|k: int| 0 <= k < w.len() ==> w[k] != 0x26u8,
    ensures
        spec_from_search(renderer_key() + seq![0x3du8] + w) == value_preference(w),
        spec_from_search(seq![0x3fu8] + renderer_key() + seq![0x3du8] + w) == value_preference(w),
{
    let t = renderer_key() + seq![0x3du8] + w;
    assert(t[0] == 0x72u8);
    assert(leading_questions(t, 0) == 0);
    assert(t.subrange(0, t.len() as int) =~= t);
    lemma_renderer_part_at(t, 0, w);
    let q = seq![0x3fu8] + t;
    assert(q[0] == 0x3fu8);
    assert(q[1] == 0x72u8);
    assert(leading_questions(q, 1) == 1);
    assert(leading_questions(q, 0) == 1);
    assert(q.subrange(1, q.len() as int) =~= t);
    assert(seq![0x3fu8] + renderer_key() + seq![0x3du8] + w =~= q);
    lemma_renderer_part_at(q, 1, w);
}

/// Writing a preference into the query string and reading it back gives the
/// same preference: `renderer=` followed by its spelling selects it, with
/// or without a leading `?`.
pub proof fn lemma_preference_round_trip(p: RendererPreference)
    ensures
        spec_from_search(renderer_key() + seq![0x3du8] + spec_spelling(p)) == p,
        spec_from_search(seq![0x3fu8] + renderer_key() + seq![0x3du8] + spec_spelling(p)) == p,
{
    let w = spec_spelling(p);
    assert forall|k: int| 0 <= k < w.len() implies w[k] != 0x26u8 by {}
    lemma_renderer_query(w);
    let v = spec_lower_seq(w);
    assert(v =~= w);
    match p {
        RendererPreference::Auto => {
            assert(v != webgpu_word() && v != webgl_word() && v != webgl2_word());
            assert(v != canvas_word() && v != canvas2d_word());
        },
        RendererPreference::WebGpu => {},
        RendererPreference::WebGl2 => {
            assert(v[4] != webgpu_word()[4]);
            assert(v != webgl_word());
        },
        RendererPreference::Canvas2d => {
            assert(v != webgpu_word() && v != webgl_word() && v != webgl2_word() && v != canvas_word());
        },
    }
}

/// The short name of a backend, as its `as_str` writes it.
pub open spec fn spec_backend_spelling(b: RendererBackend) -> Seq<u8> {
    match b {
        RendererBackend::WebGpu => webgpu_word(),
        RendererBackend::WebGl2 => webgl_word(),
        RendererBackend::Canvas2d => canvas2d_word(),
    }
}

/// A page that asks for a backend by its short name tries that backend
/// first.
pub proof fn lemma_backend_name_selects_backend(b: RendererBackend)
    ensures
        spec_fallback_chain(spec_from_search(renderer_key() + seq![0x3du8] + spec_backend_spelling(b)))[0] == b,
{
    let w = spec_backend_spelling(b);
    assert forall|k: int| 0 <= k < w.len() implies w[k] != 0x26u8 by {}
    lemma_renderer_query(w);
    let v = spec_lower_seq(w);
    assert(v =~= w);
    match b {
        RendererBackend::WebGpu => {},
        RendererBackend::WebGl2 => {
            assert(v != webgpu_word());
        },
        RendererBackend::Canvas2d => {
            assert(v != webgpu_word() && v != webgl_word() && v != webgl2_word() && v != canvas_word());
        },
    }
}

/// Rank of a backend from most to least capable.
pub open spec fn backend_rank(b: RendererBackend) -> int {
    match b {
        RendererBackend::WebGpu => 0,
        RendererBackend::WebGl2 => 1,
        RendererBackend::Canvas2d => 2,
    }
}

/// The full fallback order.
pub open spec fn auto_chain() -> Seq<RendererBackend> {
    seq![RendererBackend::WebGpu, RendererBackend::WebGl2, RendererBackend::Canvas2d]
}

/// The backends tried for a preference, in order.
pub open spec fn spec_fallback_chain(p: RendererPreference) -> Seq<RendererBackend> {
    match p {
        RendererPreference::Auto | RendererPreference::WebGpu => auto_chain(),
        RendererPreference::WebGl2 => seq![RendererBackend::WebGl2, RendererBackend::Canvas2d],
        RendererPreference::Canvas2d => seq![RendererBackend::Canvas2d],
    }
}

/// Quantized coverage: extremes and unit quanta are kept, other values are
/// rounded to the nearest multiple of `quantum` and capped at 255.
pub open spec fn spec_quantize(value: u8, quantum: u8) -> u8 {
    if quantum <= 1 || value == 0 || value == 255 {
        value
    } else {
        let q = ((value + quantum / 2) / (quantum as int)) * quantum;
        if q > 255 {
            255
        } else {
            q as u8
        }
    }
}

fn lowercase_equals(s: &[u8], from: usize, to: usize, word: &[u8]) -> (r: bool)
    requires
        from <= to <= s.len(),
    ensures
        r == (spec_lower_seq(s@.subrange(from as int, to as int)) == word@),
{
    let ghost v = spec_lower_seq(s@.subrange(from as int, to as int));
    if to - from != word.len() {
        assert(v.len() != word@.len());
        return false;
    }
    let mut k: usize = 0;
    while k < word.len()
        invariant
            from <= to <= s.len(),
            to - from == word.len(),
            k <= word.len(),
            v == spec_lower_seq(s@.subrange(from as int, to as int)),
            forall|m: int| 0 <= m < k ==> v[m] == word@[m],
        decreases word.len() - k,
    {
        if lower(s[from + k]) != word[k] {
            assert(v[k as int] != word@[k as int]);
            return false;
        }
        k = k + 1;
    }
    assert(v =~= word@);
    true
}

fn value_preference_exec(s: &[u8], from: usize, to: usize) -> (r: RendererPreference)
    requires
        from <= to <= s.len(),
    ensures
        r == value_preference(s@.subrange(from as int, to as int)),
{
    let webgpu: [u8; 6] = [0x77, 0x65, 0x62, 0x67, 0x70, 0x75];
    let webgl: [u8; 5] = [0x77, 0x65, 0x62, 0x67, 0x6c];
    let webgl2: [u8; 6] = [0x77, 0x65, 0x62, 0x67, 0x6c, 0x32];
    let canvas: [u8; 6] = [0x63, 0x61, 0x6e, 0x76, 0x61, 0x73];
    let canvas2d: [u8; 8] = [0x63, 0x61, 0x6e, 0x76, 0x61, 0x73, 0x32, 0x64];
    assert(webgpu@ =~= webgpu_word());
    assert(webgl@ =~= webgl_word());
    assert(webgl2@ =~= webgl2_word());
    assert(canvas@ =~= canvas_word());
    assert(canvas2d@ =~= canvas2d_word());
    if lowercase_equals(s, from, to, webgpu.as_slice()) {
        RendererPreference::WebGpu
    } else if lowercase_equals(s, from, to, webgl.as_slice()) || lowercase_equals(
        s,
        from,
        to,
        webgl2.as_slice(),
    ) {
        RendererPreference::WebGl2
    } else if lowercase_equals(s, from, to, canvas.as_slice()) || lowercase_equals(
        s,
        from,
        to,
        canvas2d.as_slice(),
    ) {
        RendererPreference::Canvas2d
    } else {
        RendererPreference::Auto
    }
}

fn part_preference_exec(s: &[u8], from: usize, to: usize) -> (r: Option<RendererPreference>)
    requires
        from <= to <= s.len(),
    ensures
        r == part_preference(s@.subrange(from as int, to as int)),
{
    let ghost part = s@.subrange(from as int, to as int);
    let mut eq = from;
    while eq < to && s[eq] != 0x3du8
        invariant
            from <= eq <= to <= s.len(),
            part == s@.subrange(from as int, to as int),
            find_byte(part, 0, 0x3du8) == find_byte(part, eq - from, 0x3du8),
        decreases to - eq,
    {
        eq = eq + 1;
    }
    let ghost rel = eq - from;
    assert(find_byte(part, 0, 0x3du8) == rel);
    if eq == to {
        return None;
    }
    let key: [u8; 8] = [0x72, 0x65, 0x6e, 0x64, 0x65, 0x72, 0x65, 0x72];
    assert(key@ =~= renderer_key());
    let same = eq - from == 8 && starts_at(s, from, key.as_slice());
    assert(same == (part.subrange(0, rel) == renderer_key())) by {
        if eq - from == 8 {
            assert(part.subrange(0, rel) =~= s@.subrange(from as int, from + 8));
        }
    }
    if same {
        assert(part.subrange(rel + 1, part.len() as int) =~= s@.subrange(eq + 1, to as int));
        Some(value_preference_exec(s, eq + 1, to))
    } else {
        None
    }
}

impl RendererPreference {
    /// Read the `renderer` query parameter of a location search string.
    pub fn from_search(search: &str) -> (r: Self)
        ensures
            r == spec_from_search(search.spec_bytes()),
    {
        let s = search.as_bytes();
        let mut start: usize = 0;
        while start < s.len() && s[start] == 0x3fu8
            invariant
                start <= s.len(),
                leading_questions(s@, 0) == leading_questions(s@, start as int),
            decreases s.len() - start,
        {
            start = start + 1;
        }
        let ghost first = start as int;
        let mut from = start;
        loop
            invariant
                s@ == search.spec_bytes(),
                first == leading_questions(s@, 0),
                first <= from <= s.len(),
                parts_preference(s@, first) == parts_preference(s@, from as int),
            decreases s.len() - from,
        {
            let end = find_byte_from(s, from, 0x26u8);
            proof {
                lemma_find_byte(s@, from as int, 0x26u8);
            }
            let here = part_preference_exec(s, from, end);
            if let Some(p) = here {
                return p;
            }
            if end >= s.len() {
                return RendererPreference::Auto;
            }
            from = end + 1;
        }
    }

    /// The backends to try for this preference, from first to last resort.
    pub fn fallback_chain(self) -> (r: &'static [RendererBackend])
        ensures
            r@ == spec_fallback_chain(self),
    {
        match self {
            RendererPreference::Auto | RendererPreference::WebGpu => {
                let r: &'static [RendererBackend] = &[
                    RendererBackend::WebGpu,
                    RendererBackend::WebGl2,
                    RendererBackend::Canvas2d,
                ];
                r
            },
            RendererPreference::WebGl2 => {
                let r: &'static [RendererBackend] = &[
                    RendererBackend::WebGl2,
                    RendererBackend::Canvas2d,
                ];
                r
            },
            RendererPreference::Canvas2d => {
                let r: &'static [RendererBackend] = &[RendererBackend::Canvas2d];
                r
            },
        }
    }
}


impl RendererPreference {
    /// The query-string spelling of the preference.
    pub fn as_str(self) -> (r: &'static str)
        ensures
            r@ == match self {
                RendererPreference::Auto => "auto"@,
                RendererPreference::WebGpu => "webgpu"@,
                RendererPreference::WebGl2 => "webgl2"@,
                RendererPreference::Canvas2d => "canvas2d"@,
            },
            r.spec_bytes() == spec_spelling(self),
    {
        match self {
            RendererPreference::Auto => {
                proof {
                    reveal_strlit("auto");
                    lemma_ascii_bytes("auto");
                    assert("auto".spec_bytes() =~= spec_spelling(self));
                }
                "auto"
            },
            RendererPreference::WebGpu => {
                proof {
                    reveal_strlit("webgpu");
                    lemma_ascii_bytes("webgpu");
                    assert("webgpu".spec_bytes() =~= spec_spelling(self));
                }
                "webgpu"
            },
            RendererPreference::WebGl2 => {
                proof {
                    reveal_strlit("webgl2");
                    lemma_ascii_bytes("webgl2");
                    assert("webgl2".spec_bytes() =~= spec_spelling(self));
                }
                "webgl2"
            },
            RendererPreference::Canvas2d => {
                proof {
                    reveal_strlit("canvas2d");
                    lemma_ascii_bytes("canvas2d");
                    assert("canvas2d".spec_bytes() =~= spec_spelling(self));
                }
                "canvas2d"
            },
        }
    }
}

impl RendererBackend {
    /// The short backend name used in page metadata.
    pub fn as_str(self) -> (r: &'static str)
        ensures
            r@ == match self {
                RendererBackend::WebGpu => "webgpu"@,
                RendererBackend::WebGl2 => "webgl"@,
                RendererBackend::Canvas2d => "canvas2d"@,
            },
            r.spec_bytes() == spec_backend_spelling(self),
    {
        match self {
            RendererBackend::WebGpu => {
                proof {
                    reveal_strlit("webgpu");
                    lemma_ascii_bytes("webgpu");
                    assert("webgpu".spec_bytes() =~= spec_backend_spelling(self));
                }
                "webgpu"
            },
            RendererBackend::WebGl2 => {
                proof {
                    reveal_strlit("webgl");
                    lemma_ascii_bytes("webgl");
                    assert("webgl".spec_bytes() =~= spec_backend_spelling(self));
                }
                "webgl"
            },
            RendererBackend::Canvas2d => {
                proof {
                    reveal_strlit("canvas2d");
                    lemma_ascii_bytes("canvas2d");
                    assert("canvas2d".spec_bytes() =~= spec_backend_spelling(self));
                }
                "canvas2d"
            },
        }
    }

    /// The backend name shown to the user.
    pub fn display_name(self) -> (r: &'static str)
        ensures
            r@ == match self {
                RendererBackend::WebGpu => "WEBGPU"@,
                RendererBackend::WebGl2 => "WEBGL2"@,
                RendererBackend::Canvas2d => "CANVAS2D"@,
            },
    {
        match self {
            RendererBackend::WebGpu => "WEBGPU",
            RendererBackend::WebGl2 => "WEBGL2",
            RendererBackend::Canvas2d => "CANVAS2D",
        }
    }

    /// How this backend renders: WebGL2 rebuilds its scene at most every
    /// 33 ms (about 30 Hz) and draws coverage in steps of 32; WebGPU rebuilds
    /// freely at full coverage; both draw the instanced-rectangle GPU scene,
    /// which Canvas2D does not.
    pub fn policy(self) -> (r: RendererPolicy)
        ensures
            r == spec_policy(self),
    {
        match self {
            RendererBackend::WebGpu => RendererPolicy {
                scene_rebuild_interval_ms: 0,
                glyph_coverage_quantum: 1,
                gpu_scene: true,
            },
            RendererBackend::WebGl2 => RendererPolicy {
                scene_rebuild_interval_ms: 33,
                glyph_coverage_quantum: 32,
                gpu_scene: true,
            },
            RendererBackend::Canvas2d => RendererPolicy {
                scene_rebuild_interval_ms: 0,
                glyph_coverage_quantum: 1,
                gpu_scene: false,
            },
        }
    }
}

/// How a backend renders.
#[derive(Clone, Copy, Debug, PartialEq, Eq, Structural)]
pub struct RendererPolicy {
    /// Minimum delay, in whole milliseconds, between expensive scene
    /// rebuilds; presenting still happens every animation frame.
    pub scene_rebuild_interval_ms: u32,
    /// Coverage values are rounded to this quantum before GPU rectangle runs
    /// are generated.
    pub glyph_coverage_quantum: u8,
    /// Whether this backend uses the instanced-rectangle GPU scene.
    pub gpu_scene: bool,
}

/// The policy of each backend.
pub open spec fn spec_policy(b: RendererBackend) -> RendererPolicy {
    match b {
        RendererBackend::WebGpu => RendererPolicy { scene_rebuild_interval_ms: 0, glyph_coverage_quantum: 1, gpu_scene: true },
        RendererBackend::WebGl2 => RendererPolicy { scene_rebuild_interval_ms: 33, glyph_coverage_quantum: 32, gpu_scene: true },
        RendererBackend::Canvas2d => RendererPolicy { scene_rebuild_interval_ms: 0, glyph_coverage_quantum: 1, gpu_scene: false },
    }
}

/// The fastest backend leaves coverage untouched: its quantum maps every
/// coverage value to itself.
pub proof fn lemma_webgpu_keeps_full_coverage(value: u8)
    ensures
        spec_quantize(value, spec_policy(RendererBackend::WebGpu).glyph_coverage_quantum) == value,
{
}

/// Round glyph coverage to `quantum` so that slow backends draw fewer runs.
pub fn quantize_coverage(value: u8, quantum: u8) -> (r: u8)
    ensures
        r == spec_quantize(value, quantum),
{
    if quantum <= 1 || value == 0 || value == 255 {
        return value;
    }
    let q = quantum as u16;
    let sum = value as u16 + q / 2;
    let k = sum / q;
    assert(k * q <= sum) by (nonlinear_arith)
        requires
            k == sum / q,
            q > 0,
    ;
    let rounded = k * q;
    if rounded > 255 {
        255
    } else {
        rounded as u8
    }
}

/// Coverage quantization keeps fully transparent and fully opaque values.
pub proof fn lemma_quantize_keeps_extremes(quantum: u8)
    ensures
        spec_quantize(0, quantum) == 0,
        spec_quantize(255, quantum) == 255,
{
}

/// Quantizing an already quantized coverage value changes nothing.
pub proof fn lemma_quantize_idempotent(value: u8, quantum: u8)
    ensures
        spec_quantize(spec_quantize(value, quantum), quantum) == spec_quantize(value, quantum),
{
    if quantum > 1 && value != 0 && value != 255 {
        let q = quantum as int;
        let k = (value + q / 2) / q;
        let r = spec_quantize(value, quantum);
        if k * q <= 255 {
            assert(r == k * q);
            if r != 0 && r != 255 {
                assert((k * q + q / 2) / q == k) by (nonlinear_arith)
                    requires
                        q > 1,
                        k >= 0,
                ;
            }
        }
    }
}

/// Quantization moves a value by at most half a quantum, except where it is
/// capped at 255.
pub proof fn lemma_quantize_is_near(value: u8, quantum: u8)
    ensures
        spec_quantize(value, quantum) == 255 || (
            value - quantum / 2 <= spec_quantize(value, quantum) <= value + quantum / 2),
{
    if quantum > 1 && value != 0 && value != 255 {
        let q = quantum as int;
        let s = value + q / 2;
        let k = s / q;
        assert(k * q <= s && s < k * q + q) by (nonlinear_arith)
            requires
                k == s / q,
                q > 1,
                s >= 0,
        ;
    }
}

/// A fallback chain starts at the requested backend (WebGPU for `Auto`),
/// never moves to a more capable backend than the one before it, and always
/// ends at Canvas2D; it is the tail of the full chain.
pub proof fn lemma_fallback_never_upgrades(p: RendererPreference)
    ensures
        ({
            let c = spec_fallback_chain(p);
            &&& c.len() >= 1
            &&& c.last() == RendererBackend::Canvas2d
            &&& forall|i: int, j: int|
                0 <= i < j < c.len() ==> backend_rank(c[i]) < backend_rank(c[j])
            &&& c == auto_chain().subrange(3 - c.len(), 3)
            &&& match p {
                RendererPreference::Auto => c[0] == RendererBackend::WebGpu,
                RendererPreference::WebGpu => c[0] == RendererBackend::WebGpu,
                RendererPreference::WebGl2 => c[0] == RendererBackend::WebGl2,
                RendererPreference::Canvas2d => c[0] == RendererBackend::Canvas2d,
            }
        }),
{
    let c = spec_fallback_chain(p);
    assert(c =~= auto_chain().subrange(3 - c.len(), 3));
}

/// The `&`-separated parts of `s` from byte `from` on, as byte ranges
/// (`str::split('&')`: empty parts included, at least one part).
pub open spec fn query_parts(s: Seq<u8>, from: int) -> Seq<(int, int)>
    decreases s.len() - from,
{
    if from < 0 || from > s.len() {
        Seq::empty()
    } else {
        let end = find_byte(s, from, 0x26u8);
        proof {
            lemma_find_byte(s, from, 0x26u8);
        }
        if end >= s.len() {
            seq![(from, s.len() as int)]
        } else {
            seq![(from, end)] + query_parts(s, end + 1)
        }
    }
}

/// The parts of a location search string, after its leading `?` marks.
pub open spec fn search_parts(s: Seq<u8>) -> Seq<(int, int)> {
    query_parts(s, leading_questions(s, 0))
}

/// The byte ranges of the parts of a location search string.
fn search_part_ranges(s: &[u8]) -> (r: Vec<(usize, usize)>)
    ensures
        r@.len() == search_parts(s@).len(),
        forall|k: int| 0 <= k < r@.len() ==> (#[trigger] r@[k]).0 == search_parts(s@)[k].0
            && r@[k].1 == search_parts(s@)[k].1 && r@[k].0 <= r@[k].1 <= s@.len(),
{
    let mut start: usize = 0;
    while start < s.len() && s[start] == 0x3fu8
        invariant
            start <= s.len(),
            leading_questions(s@, 0) == leading_questions(s@, start as int),
        decreases s.len() - start,
    {
        start = start + 1;
    }
    let ghost all = search_parts(s@);
    let mut out: Vec<(usize, usize)> = Vec::new();
    let mut from = start;
    loop
        invariant_except_break
            all == out@.map_values(|p: (usize, usize)| (p.0 as int, p.1 as int)) + query_parts(s@, from as int),
        invariant
            from <= s@.len(),
            all == search_parts(s@),
            forall|k: int| 0 <= k < out@.len() ==> (#[trigger] out@[k]).0 <= out@[k].1 <= s@.len(),
        ensures
            all == out@.map_values(|p: (usize, usize)| (p.0 as int, p.1 as int)),
            forall|k: int| 0 <= k < out@.len() ==> (#[trigger] out@[k]).0 <= out@[k].1 <= s@.len(),
        decreases s@.len() - from,
    {
        let end = find_byte_from(s, from, 0x26u8);
        proof {
            lemma_find_byte(s@, from as int, 0x26u8);
        }
        let ghost before = out@.map_values(|p: (usize, usize)| (p.0 as int, p.1 as int));
        out.push((from, end));
        proof {
            assert(out@.map_values(|p: (usize, usize)| (p.0 as int, p.1 as int)) =~= before.push((from as int, end as int)));
        }
        if end >= s.len() {
            proof {
                assert(query_parts(s@, from as int) == seq![(from as int, s@.len() as int)]);
                assert(before + seq![(from as int, end as int)] =~= before.push((from as int, end as int)));
            }
            break;
        }
        proof {
            assert(before + (seq![(from as int, end as int)] + query_parts(s@, end + 1))
                =~= before.push((from as int, end as int)) + query_parts(s@, end + 1));
        }
        from = end + 1;
    }
    let ghost m = out@.map_values(|p: (usize, usize)| (p.0 as int, p.1 as int));
    assert forall|k: int| 0 <= k < out@.len() implies (#[trigger] out@[k]).0 == all[k].0 && out@[k].1 == all[k].1 by {
        assert(m[k] == (out@[k].0 as int, out@[k].1 as int));
    }
    out
}

/// The bytes of `"doc=easy"`.
pub open spec fn doc_easy() -> Seq<u8> {
    seq![0x64u8, 0x6fu8, 0x63u8, 0x3du8, 0x65u8, 0x61u8, 0x73u8, 0x79u8]
}

/// The bytes of `"doc=stress"`.
pub open spec fn doc_stress() -> Seq<u8> {
    seq![0x64u8, 0x6fu8, 0x63u8, 0x3du8, 0x73u8, 0x74u8, 0x72u8, 0x65u8, 0x73u8, 0x73u8]
}

/// The bytes of `"doc=code"`.
pub open spec fn doc_code() -> Seq<u8> {
    seq![0x64u8, 0x6fu8, 0x63u8, 0x3du8, 0x63u8, 0x6fu8, 0x64u8, 0x65u8]
}

/// The demonstration document a page shows.
#[derive(Clone, Copy, Debug, PartialEq, Eq, Structural)]
pub enum MockDocument {
    /// The binary format description (the default).
    Format,
    /// The easy reading test.
    Easy,
    /// The math stress test.
    Stress,
    /// The code highlighting test.
    Code,
}

/// The document a search part names, if any.
pub open spec fn part_document(part: Seq<u8>) -> Option<MockDocument> {
    if part == doc_easy() {
        Some(MockDocument::Easy)
    } else if part == doc_stress() {
        Some(MockDocument::Stress)
    } else if part == doc_code() {
        Some(MockDocument::Code)
    } else {
        None
    }
}

/// The document named by the first of `parts[k..]` that names one.
pub open spec fn document_from(s: Seq<u8>, parts: Seq<(int, int)>, k: int) -> MockDocument
    decreases parts.len() - k,
{
    if k < 0 || k >= parts.len() {
        MockDocument::Format
    } else {
        match part_document(s.subrange(parts[k].0, parts[k].1)) {
            Some(d) => d,
            None => document_from(s, parts, k + 1),
        }
    }
}

/// The document a location search string selects: the first part that is
/// exactly `doc=easy`, `doc=stress` or `doc=code`; the format description
/// otherwise.
pub open spec fn spec_selected_mock(s: Seq<u8>) -> MockDocument {
    document_from(s, search_parts(s), 0)
}

fn equals_at(s: &[u8], from: usize, to: usize, word: &[u8]) -> (r: bool)
    requires
        from <= to <= s.len(),
    ensures
        r == (s@.subrange(from as int, to as int) == word@),
{
    if to - from != word.len() {
        return false;
    }
    let r = starts_at(s, from, word);
    assert(r == (s@.subrange(from as int, to as int) == word@)) by {
        assert(s@.subrange(from as int, from + word@.len()) =~= s@.subrange(from as int, to as int));
    }
    r
}

/// The demonstration document a location search string selects.
pub fn selected_mock(search: &str) -> (r: MockDocument)
    ensures
        r == spec_selected_mock(search.spec_bytes()),
{
    let s = search.as_bytes();
    let parts = search_part_ranges(s);
    let easy: [u8; 8] = [0x64, 0x6f, 0x63, 0x3d, 0x65, 0x61, 0x73, 0x79];
    let stress: [u8; 10] = [0x64, 0x6f, 0x63, 0x3d, 0x73, 0x74, 0x72, 0x65, 0x73, 0x73];
    let code: [u8; 8] = [0x64, 0x6f, 0x63, 0x3d, 0x63, 0x6f, 0x64, 0x65];
    assert(easy@ =~= doc_easy());
    assert(stress@ =~= doc_stress());
    assert(code@ =~= doc_code());
    let ghost ps = search_parts(s@);
    let mut k: usize = 0;
    while k < parts.len()
        invariant
            s@ == search.spec_bytes(),
            ps == search_parts(s@),
            parts@.len() == ps.len(),
            forall|j: int| 0 <= j < parts@.len() ==> (#[trigger] parts@[j]).0 == ps[j].0
                && parts@[j].1 == ps[j].1 && parts@[j].0 <= parts@[j].1 <= s@.len(),
            easy@ == doc_easy(),
            stress@ == doc_stress(),
            code@ == doc_code(),
            k <= parts.len(),
            document_from(s@, ps, 0) == document_from(s@, ps, k as int),
        decreases parts.len() - k,
    {
        let (a, b) = parts[k];
        if equals_at(s, a, b, easy.as_slice()) {
            return MockDocument::Easy;
        }
        if equals_at(s, a, b, stress.as_slice()) {
            return MockDocument::Stress;
        }
        if equals_at(s, a, b, code.as_slice()) {
            return MockDocument::Code;
        }
        k = k + 1;
    }
    MockDocument::Format
}

/// The key and value of a search part, split at its first `=`.
pub open spec fn part_key_value(part: Seq<u8>) -> Option<(Seq<u8>, Seq<u8>)> {
    let eq = find_byte(part, 0, 0x3du8);
    if eq >= part.len() {
        None
    } else {
        Some((part.subrange(0, eq), part.subrange(eq + 1, part.len() as int)))
    }
}

/// The bytes of `simulate_gpu_loss`.
pub open spec fn gpu_loss_key() -> Seq<u8> {
    seq![
        0x73u8, 0x69u8, 0x6du8, 0x75u8, 0x6cu8, 0x61u8, 0x74u8, 0x65u8, 0x5fu8, 0x67u8, 0x70u8, 0x75u8,
        0x5fu8, 0x6cu8, 0x6fu8, 0x73u8, 0x73u8
    ]
}

/// The bytes of `simulate_webgl_context_loss`.
pub open spec fn context_loss_key() -> Seq<u8> {
    seq![
        0x73u8, 0x69u8, 0x6du8, 0x75u8, 0x6cu8, 0x61u8, 0x74u8, 0x65u8, 0x5fu8, 0x77u8, 0x65u8, 0x62u8,
        0x67u8, 0x6cu8, 0x5fu8, 0x63u8, 0x6fu8, 0x6eu8, 0x74u8, 0x65u8, 0x78u8, 0x74u8, 0x5fu8, 0x6cu8,
        0x6fu8, 0x73u8, 0x73u8
    ]
}

/// A `simulate_gpu_loss` value that names `backend` (ignoring ASCII case):
/// `webgpu` for WebGPU, `webgl` or `webgl2` for WebGL2; never Canvas2D.
pub open spec fn names_gpu_backend(value: Seq<u8>, backend: RendererBackend) -> bool {
    match backend {
        RendererBackend::WebGpu => spec_lower_seq(value) == webgpu_word(),
        RendererBackend::WebGl2 => spec_lower_seq(value) == webgl_word() || spec_lower_seq(value) == webgl2_word(),
        RendererBackend::Canvas2d => false,
    }
}

/// The search part asks to simulate losing the GPU device of `backend`: it
/// is `simulate_gpu_loss=<value>` with a value that names the backend.
pub open spec fn asks_gpu_loss(part: Seq<u8>, backend: RendererBackend) -> bool {
    match part_key_value(part) {
        Some((key, value)) => key == gpu_loss_key() && names_gpu_backend(value, backend),
        None => false,
    }
}

/// The search part asks to simulate losing the WebGL context: it is
/// `simulate_webgl_context_loss=` with value `1`, or `webgl` or `webgl2`
/// (ignoring ASCII case).
pub open spec fn asks_context_loss(part: Seq<u8>) -> bool {
    match part_key_value(part) {
        Some((key, value)) => key == context_loss_key()
            && (value == seq![0x31u8] || spec_lower_seq(value) == webgl_word() || spec_lower_seq(value) == webgl2_word()),
        None => false,
    }
}

/// Some part of the search string asks to simulate losing the GPU device of
/// `backend`.
pub open spec fn spec_simulates_gpu_loss(s: Seq<u8>, backend: RendererBackend) -> bool {
    let parts = search_parts(s);
    exists|k: int| 0 <= k < parts.len() && #[trigger] asks_gpu_loss(s.subrange(parts[k].0, parts[k].1), backend)
}

/// The backend is WebGL2 and some part of the search string asks to
/// simulate losing its context.
pub open spec fn spec_simulates_context_loss(s: Seq<u8>, backend: RendererBackend) -> bool {
    let parts = search_parts(s);
    backend == RendererBackend::WebGl2
        && exists|k: int| 0 <= k < parts.len() && #[trigger] asks_context_loss(s.subrange(parts[k].0, parts[k].1))
}

/// The key and value of the part `s[from..to]`, as positions of `s`.
fn key_value_at(s: &[u8], from: usize, to: usize) -> (r: Option<usize>)
    requires
        from <= to <= s.len(),
    ensures
        match r {
            None => part_key_value(s@.subrange(from as int, to as int)) is None,
            Some(eq) => from <= eq < to && part_key_value(s@.subrange(from as int, to as int))
                == Some((s@.subrange(from as int, eq as int), s@.subrange(eq + 1, to as int))),
        },
{
    let ghost part = s@.subrange(from as int, to as int);
    let mut eq = from;
    while eq < to && s[eq] != 0x3du8
        invariant
            from <= eq <= to <= s.len(),
            part == s@.subrange(from as int, to as int),
            find_byte(part, 0, 0x3du8) == find_byte(part, eq - from, 0x3du8),
        decreases to - eq,
    {
        eq = eq + 1;
    }
    if eq == to {
        return None;
    }
    assert(part.subrange(0, eq - from) =~= s@.subrange(from as int, eq as int));
    assert(part.subrange(eq - from + 1, part.len() as int) =~= s@.subrange(eq + 1, to as int));
    Some(eq)
}

/// Whether the page asks to simulate losing the GPU device of `backend`.
pub fn simulates_gpu_loss(search: &str, backend: RendererBackend) -> (r: bool)
    ensures
        r == spec_simulates_gpu_loss(search.spec_bytes(), backend),
{
    let s = search.as_bytes();
    let parts = search_part_ranges(s);
    let key: [u8; 17] = [
        0x73, 0x69, 0x6d, 0x75, 0x6c, 0x61, 0x74, 0x65, 0x5f, 0x67, 0x70, 0x75, 0x5f, 0x6c, 0x6f, 0x73, 0x73,
    ];
    assert(key@ =~= gpu_loss_key());
    let ghost ps = search_parts(s@);
    let mut k: usize = 0;
    while k < parts.len()
        invariant
            s@ == search.spec_bytes(),
            ps == search_parts(s@),
            parts@.len() == ps.len(),
            forall|j: int| 0 <= j < parts@.len() ==> (#[trigger] parts@[j]).0 == ps[j].0
                && parts@[j].1 == ps[j].1 && parts@[j].0 <= parts@[j].1 <= s@.len(),
            key@ == gpu_loss_key(),
            k <= parts.len(),
            forall|j: int| 0 <= j < k ==> !#[trigger] asks_gpu_loss(s@.subrange(ps[j].0, ps[j].1), backend),
        decreases parts.len() - k,
    {
        let (a, b) = parts[k];
        match key_value_at(s, a, b) {
            Some(eq) => {
                if equals_at(s, a, eq, key.as_slice()) {
                    let named = match backend {
                        RendererBackend::WebGpu => value_preference_exec(s, eq + 1, b) == RendererPreference::WebGpu,
                        RendererBackend::WebGl2 => value_preference_exec(s, eq + 1, b) == RendererPreference::WebGl2,
                        RendererBackend::Canvas2d => false,
                    };
                    proof {
                        let v = s@.subrange(eq + 1, b as int);
                        assert(named == names_gpu_backend(v, backend)) by {
                            if spec_lower_seq(v) == canvas_word() || spec_lower_seq(v) == canvas2d_word() {
                                assert(spec_lower_seq(v) != webgpu_word());
                                assert(spec_lower_seq(v) != webgl_word());
                                assert(spec_lower_seq(v) != webgl2_word());
                            }
                        }
                    }
                    if named {
                        assert(asks_gpu_loss(s@.subrange(ps[k as int].0, ps[k as int].1), backend));
                        return true;
                    }
                }
            },
            None => {},
        }
        k = k + 1;
    }
    false
}

/// Whether the page asks to simulate losing the WebGL context of `backend`.
pub fn simulates_context_loss(search: &str, backend: RendererBackend) -> (r: bool)
    ensures
        r == spec_simulates_context_loss(search.spec_bytes(), backend),
{
    match backend {
        RendererBackend::WebGl2 => {},
        _ => {
            return false;
        },
    }
    let s = search.as_bytes();
    let parts = search_part_ranges(s);
    let key: [u8; 27] = [
        0x73, 0x69, 0x6d, 0x75, 0x6c, 0x61, 0x74, 0x65, 0x5f, 0x77, 0x65, 0x62, 0x67, 0x6c, 0x5f, 0x63,
        0x6f, 0x6e, 0x74, 0x65, 0x78, 0x74, 0x5f, 0x6c, 0x6f, 0x73, 0x73,
    ];
    assert(key@ =~= context_loss_key());
    let one: [u8; 1] = [0x31];
    assert(one@ =~= seq![0x31u8]);
    let ghost ps = search_parts(s@);
    let mut k: usize = 0;
    while k < parts.len()
        invariant
            s@ == search.spec_bytes(),
            backend == RendererBackend::WebGl2,
            ps == search_parts(s@),
            parts@.len() == ps.len(),
            forall|j: int| 0 <= j < parts@.len() ==> (#[trigger] parts@[j]).0 == ps[j].0
                && parts@[j].1 == ps[j].1 && parts@[j].0 <= parts@[j].1 <= s@.len(),
            key@ == context_loss_key(),
            one@ == seq![0x31u8],
            k <= parts.len(),
            forall|j: int| 0 <= j < k ==> !#[trigger] asks_context_loss(s@.subrange(ps[j].0, ps[j].1)),
        decreases parts.len() - k,
    {
        let (a, b) = parts[k];
        match key_value_at(s, a, b) {
            Some(eq) => {
                if equals_at(s, a, eq, key.as_slice()) {
                    let named = equals_at(s, eq + 1, b, one.as_slice())
                        || value_preference_exec(s, eq + 1, b) == RendererPreference::WebGl2;
                    proof {
                        let v = s@.subrange(eq + 1, b as int);
                        if spec_lower_seq(v) == webgpu_word() {
                            assert(spec_lower_seq(v) != webgl_word());
                            assert(spec_lower_seq(v) != webgl2_word());
                        }
                        if spec_lower_seq(v) == canvas_word() || spec_lower_seq(v) == canvas2d_word() {
                            assert(spec_lower_seq(v) != webgl_word());
                            assert(spec_lower_seq(v) != webgl2_word());
                        }
                    }
                    if named {
                        assert(asks_context_loss(s@.subrange(ps[k as int].0, ps[k as int].1)));
                        return true;
                    }
                }
            },
            None => {},
        }
        k = k + 1;
    }
    false
}

/// The bytes of `recovery_probe=1`.
pub open spec fn probe_one() -> Seq<u8> {
    seq![
        0x72u8, 0x65u8, 0x63u8, 0x6fu8, 0x76u8, 0x65u8, 0x72u8, 0x79u8, 0x5fu8, 0x70u8, 0x72u8, 0x6fu8,
        0x62u8, 0x65u8, 0x3du8, 0x31u8
    ]
}

/// The bytes of `recovery_probe=true`.
pub open spec fn probe_true() -> Seq<u8> {
    seq![
        0x72u8, 0x65u8, 0x63u8, 0x6fu8, 0x76u8, 0x65u8, 0x72u8, 0x79u8, 0x5fu8, 0x70u8, 0x72u8, 0x6fu8,
        0x62u8, 0x65u8, 0x3du8, 0x74u8, 0x72u8, 0x75u8, 0x65u8
    ]
}

/// Some part of the search string is exactly `recovery_probe=1` or
/// `recovery_probe=true`: a renderer failure is then reported on the page
/// instead of reloading it with a lower backend.
pub open spec fn spec_recovery_probe(s: Seq<u8>) -> bool {
    let parts = search_parts(s);
    exists|k: int| 0 <= k < parts.len() && #[trigger] is_probe_part(s.subrange(parts[k].0, parts[k].1))
}

/// The part asks for a recovery probe.
pub open spec fn is_probe_part(part: Seq<u8>) -> bool {
    part == probe_one() || part == probe_true()
}

/// Whether the page asks to report a renderer recovery instead of doing it.
pub fn recovery_probe(search: &str) -> (r: bool)
    ensures
        r == spec_recovery_probe(search.spec_bytes()),
{
    let s = search.as_bytes();
    let parts = search_part_ranges(s);
    let one: [u8; 16] = [0x72, 0x65, 0x63, 0x6f, 0x76, 0x65, 0x72, 0x79, 0x5f, 0x70, 0x72, 0x6f, 0x62, 0x65, 0x3d, 0x31];
    let yes: [u8; 19] = [
        0x72, 0x65, 0x63, 0x6f, 0x76, 0x65, 0x72, 0x79, 0x5f, 0x70, 0x72, 0x6f, 0x62, 0x65, 0x3d, 0x74, 0x72, 0x75, 0x65,
    ];
    assert(one@ =~= probe_one());
    assert(yes@ =~= probe_true());
    let ghost ps = search_parts(s@);
    let mut k: usize = 0;
    while k < parts.len()
        invariant
            s@ == search.spec_bytes(),
            ps == search_parts(s@),
            parts@.len() == ps.len(),
            forall|j: int| 0 <= j < parts@.len() ==> (#[trigger] parts@[j]).0 == ps[j].0
                && parts@[j].1 == ps[j].1 && parts@[j].0 <= parts@[j].1 <= s@.len(),
            one@ == probe_one(),
            yes@ == probe_true(),
            k <= parts.len(),
            forall|j: int| 0 <= j < k ==> !#[trigger] is_probe_part(s@.subrange(ps[j].0, ps[j].1)),
        decreases parts.len() - k,
    {
        let (a, b) = parts[k];
        if equals_at(s, a, b, one.as_slice()) || equals_at(s, a, b, yes.as_slice()) {
            assert(is_probe_part(s@.subrange(ps[k as int].0, ps[k as int].1)));
            return true;
        }
        k = k + 1;
    }
    false
}

} // verus!
