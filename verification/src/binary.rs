//! The binary form of a language profile, as a host page hands it over:
//! the magic `SLP1`, a little-endian `u32` of flag bits, the thirteen word
//! lists (a `u16` count, then each word as a `u16` length and UTF-8 bytes),
//! and, when the top flag bit is set, a list of comment-style names.
use vstd::prelude::*;
use vstd::utf8::valid_utf8;
use crate::language::{Language, ProfileModel, NUM_SECTIONS, NUM_FLAGS, STYLE_BRACE, SECTION_ALIASES};
use crate::pack::{spec_style_of, style_of};
use crate::registry::{LanguageRegistry, spec_accepts};

verus! {

/// The largest binary profile that is read at all.
pub const MAX_BINARY_BYTES: usize = 16384;

/// The most words one list may hold.
pub const MAX_BINARY_WORDS: usize = 4096;

/// The most comment styles a profile may name.
pub const MAX_BINARY_STYLES: usize = 16;

/// The flag bit that announces the comment-style list.
pub const EXTENDED_SECTIONS_FLAG: u32 = 0x8000_0000u32;

/// How many flag bits map onto feature flags, in feature-flag order.
pub const BINARY_FLAG_BITS: u32 = 31;

/// The magic bytes `SLP1`.
pub open spec fn binary_magic() -> Seq<u8> {
    seq![0x53u8, 0x4cu8, 0x50u8, 0x31u8]
}

/// The little-endian `u16` at `at`.
pub open spec fn le16(s: Seq<u8>, at: int) -> int {
    s[at] + 256 * s[at + 1]
}

/// The little-endian `u32` at `at`.
pub open spec fn le32(s: Seq<u8>, at: int) -> int {
    s[at] + 256 * s[at + 1] + 65536 * s[at + 2] + 16777216 * s[at + 3]
}

/// Read `n` more words from `at` onto `acc`: the words and where they end, or
/// `None` when the bytes run out or a word is not UTF-8.
pub open spec fn spec_words_acc(s: Seq<u8>, at: int, n: int, acc: Seq<Seq<u8>>) -> Option<(Seq<Seq<u8>>, int)>
    decreases n,
{
    if n <= 0 {
        Some((acc, at))
    } else if at < 0 || at + 2 > s.len() {
        None
    } else {
        let b = at + 2;
        let e = b + le16(s, at);
        if e > s.len() || !valid_utf8(s.subrange(b, e)) {
            None
        } else {
            spec_words_acc(s, e, n - 1, acc.push(s.subrange(b, e)))
        }
    }
}

/// One word list at `at`: its words and where it ends.
pub open spec fn spec_words(s: Seq<u8>, at: int) -> Option<(Seq<Seq<u8>>, int)> {
    if at < 0 || at + 2 > s.len() || le16(s, at) > MAX_BINARY_WORDS {
        None
    } else {
        spec_words_acc(s, at + 2, le16(s, at), Seq::empty())
    }
}

/// The word lists from section `k` on, appended to `acc`.
pub open spec fn spec_sections_acc(s: Seq<u8>, at: int, k: int, acc: Seq<Seq<Seq<u8>>>) -> Option<(Seq<Seq<Seq<u8>>>, int)>
    decreases NUM_SECTIONS - k,
{
    if k >= NUM_SECTIONS {
        Some((acc, at))
    } else {
        match spec_words(s, at) {
            None => None,
            Some((ws, e)) => spec_sections_acc(s, e, k + 1, acc.push(ws)),
        }
    }
}

/// Read `n` more style names from `at`, setting their bits in `bits`.
pub open spec fn spec_styles_acc(s: Seq<u8>, at: int, n: int, bits: Seq<bool>) -> Option<(Seq<bool>, int)>
    decreases n,
{
    if n <= 0 {
        Some((bits, at))
    } else if at < 0 || at + 2 > s.len() {
        None
    } else {
        let b = at + 2;
        let e = b + le16(s, at);
        if e > s.len() {
            None
        } else {
            match spec_style_of(s.subrange(b, e), 0) {
                None => None,
                Some(st) => spec_styles_acc(s, e, n - 1, bits.update(st, true)),
            }
        }
    }
}

/// The comment-style list at `at`: the styles it names and where it ends.
pub open spec fn spec_styles(s: Seq<u8>, at: int) -> Option<(Seq<bool>, int)> {
    if at < 0 || at + 2 > s.len() || le16(s, at) > MAX_BINARY_STYLES {
        None
    } else {
        spec_styles_acc(s, at + 2, le16(s, at), Seq::new(6, |i: int| false))
    }
}

/// Feature flag `i` of a binary profile with flag bits `bits` and comment
/// styles `styles`: the low 31 bits are the first 31 feature flags, and the
/// others come only from the style list.
pub open spec fn spec_binary_flag(bits: u32, styles: Seq<bool>, i: int) -> bool {
    if 0 <= i < BINARY_FLAG_BITS {
        bits & (1u32 << (i as u32)) != 0
    } else if STYLE_BRACE <= i < NUM_FLAGS {
        styles[i - STYLE_BRACE]
    } else {
        false
    }
}

/// The profile that a binary form describes, or `None` when it is malformed:
/// too long, without the magic, cut short, with a list that is too long, a
/// word that is not UTF-8, an unknown comment style, bytes left over, or no
/// alias.
pub open spec fn spec_decode_binary(s: Seq<u8>) -> Option<ProfileModel> {
    if s.len() > MAX_BINARY_BYTES || s.len() < 8 || s.subrange(0, 4) != binary_magic() {
        None
    } else {
        let bits = le32(s, 4) as u32;
        match spec_sections_acc(s, 8, 0, Seq::empty()) {
            None => None,
            Some((sections, e)) => {
                let styles = if bits & EXTENDED_SECTIONS_FLAG != 0 {
                    spec_styles(s, e)
                } else {
                    Some((Seq::new(6, |i: int| false), e))
                };
                match styles {
                    None => None,
                    Some((st, end)) => if end != s.len() || sections[SECTION_ALIASES as int].len() == 0 {
                        None
                    } else {
                        Some(ProfileModel {
                            words: sections,
                            flags: Seq::new(NUM_FLAGS as nat, |i: int| spec_binary_flag(bits, st, i)),
                        })
                    },
                }
            },
        }
    }
}

/// A word list read from `s` reads the same from `s` with more bytes after
/// it.
proof fn lemma_words_acc_extend(s: Seq<u8>, t: Seq<u8>, at: int, n: int, acc: Seq<Seq<u8>>)
    requires
        spec_words_acc(s, at, n, acc) is Some,
    ensures
        spec_words_acc(s + t, at, n, acc) == spec_words_acc(s, at, n, acc),
    decreases n,
{
    if n > 0 {
        let u = s + t;
        let b = at + 2;
        assert(le16(u, at) == le16(s, at)) by {
            assert(u[at] == s[at] && u[at + 1] == s[at + 1]);
        }
        let e = b + le16(s, at);
        assert(u.subrange(b, e) =~= s.subrange(b, e));
        lemma_words_acc_extend(s, t, e, n - 1, acc.push(s.subrange(b, e)));
    }
}

proof fn lemma_sections_acc_extend(s: Seq<u8>, t: Seq<u8>, at: int, k: int, acc: Seq<Seq<Seq<u8>>>)
    requires
        spec_sections_acc(s, at, k, acc) is Some,
    ensures
        spec_sections_acc(s + t, at, k, acc) == spec_sections_acc(s, at, k, acc),
    decreases NUM_SECTIONS - k,
{
    if k < NUM_SECTIONS {
        let u = s + t;
        assert(le16(u, at) == le16(s, at)) by {
            assert(u[at] == s[at] && u[at + 1] == s[at + 1]);
        }
        lemma_words_acc_extend(s, t, at + 2, le16(s, at), Seq::empty());
        let (ws, e) = spec_words(s, at).unwrap();
        lemma_sections_acc_extend(s, t, e, k + 1, acc.push(ws));
    }
}

proof fn lemma_styles_acc_extend(s: Seq<u8>, t: Seq<u8>, at: int, n: int, bits: Seq<bool>)
    requires
        spec_styles_acc(s, at, n, bits) is Some,
    ensures
        spec_styles_acc(s + t, at, n, bits) == spec_styles_acc(s, at, n, bits),
    decreases n,
{
    if n > 0 {
        let u = s + t;
        let b = at + 2;
        assert(le16(u, at) == le16(s, at)) by {
            assert(u[at] == s[at] && u[at + 1] == s[at + 1]);
        }
        let e = b + le16(s, at);
        assert(u.subrange(b, e) =~= s.subrange(b, e));
        let st = spec_style_of(s.subrange(b, e), 0).unwrap();
        lemma_styles_acc_extend(s, t, e, n - 1, bits.update(st, true));
    }
}

/// A binary profile is read to its last byte: bytes appended after a valid
/// profile make it invalid.
pub proof fn lemma_binary_no_trailing_bytes(s: Seq<u8>, t: Seq<u8>)
    requires
        spec_decode_binary(s) is Some,
        t.len() > 0,
    ensures
        spec_decode_binary(s + t) is None,
{
    let u = s + t;
    if u.len() <= MAX_BINARY_BYTES {
        assert(u.subrange(0, 4) =~= s.subrange(0, 4));
        assert(le32(u, 4) == le32(s, 4)) by {
            assert(u[4] == s[4] && u[5] == s[5] && u[6] == s[6] && u[7] == s[7]);
        }
        let bits = le32(s, 4) as u32;
        lemma_sections_acc_extend(s, t, 8, 0, Seq::empty());
        let (sections, e) = spec_sections_acc(s, 8, 0, Seq::empty()).unwrap();
        if bits & EXTENDED_SECTIONS_FLAG != 0 {
            assert(le16(u, e) == le16(s, e)) by {
                assert(u[e] == s[e] && u[e + 1] == s[e + 1]);
            }
            lemma_styles_acc_extend(s, t, e + 2, le16(s, e), Seq::new(6, |i: int| false));
        }
    }
}


/// `std::str::from_utf8` accepts `b`: it returns `Ok` exactly when the bytes
/// are well-formed UTF-8 (no overlong forms, no surrogates, nothing past
/// U+10FFFF), which is what `valid_utf8` states.
#[verifier::external_body]
fn is_utf8(b: &[u8]) -> (r: bool)
    ensures
        r == valid_utf8(b@),
{
    std::str::from_utf8(b).is_ok()
}

/// The `u16` at `at`, if two bytes are left there.
fn read_u16(s: &[u8], at: usize) -> (r: Option<usize>)
    ensures
        (r is Some) == (at + 2 <= s.len()),
        r matches Some(v) ==> v == le16(s@, at as int) && v < 65536,
{
    if at < s.len() && s.len() - at >= 2 {
        Some(s[at] as usize + 256 * (s[at + 1] as usize))
    } else {
        None
    }
}

/// One word list at `at`: its words and where it ends.
fn read_words(s: &[u8], at: usize) -> (r: Option<(Vec<Vec<u8>>, usize)>)
    ensures
        match r {
            None => spec_words(s@, at as int) is None,
            Some((ws, e)) => spec_words(s@, at as int) == Some((ws.deep_view(), e as int)),
        },
{
    let first = read_u16(s, at);
    let n = match first {
        None => return None,
        Some(n) => n,
    };
    if n > MAX_BINARY_WORDS {
        return None;
    }
    let mut out: Vec<Vec<u8>> = Vec::new();
    assert(out.deep_view() =~= Seq::<Seq<u8>>::empty());
    let mut pos: usize = at + 2;
    let mut i: usize = 0;
    while i < n
        invariant
            i <= n,
            n == le16(s@, at as int),
            pos <= s@.len(),
            spec_words(s@, at as int) == spec_words_acc(s@, pos as int, n - i, out.deep_view()),
        decreases n - i,
    {
        let len = match read_u16(s, pos) {
            None => return None,
            Some(len) => len,
        };
        let b = pos + 2;
        if len > s.len() - b {
            return None;
        }
        let e = b + len;
        let w = crate::scan::slice_range(s, b, e);
        if !is_utf8(w) {
            return None;
        }
        let wv = vstd::slice::slice_to_vec(w);
        let ghost before = out.deep_view();
        let ghost wd = wv.deep_view();
        assert(wd =~= s@.subrange(b as int, e as int));
        out.push(wv);
        assert(out.deep_view() =~= before.push(wd));
        pos = e;
        i = i + 1;
    }
    Some((out, pos))
}

/// The comment-style list at `at`: the styles it names and where it ends.
fn read_styles(s: &[u8], at: usize) -> (r: Option<(Vec<bool>, usize)>)
    ensures
        match r {
            None => spec_styles(s@, at as int) is None,
            Some((st, e)) => spec_styles(s@, at as int) == Some((st@, e as int)) && st@.len() == 6,
        },
{
    let n = match read_u16(s, at) {
        None => return None,
        Some(n) => n,
    };
    if n > MAX_BINARY_STYLES {
        return None;
    }
    let mut bits: Vec<bool> = vec![false, false, false, false, false, false];
    assert(bits@ =~= Seq::new(6, |i: int| false));
    let mut pos: usize = at + 2;
    let mut i: usize = 0;
    while i < n
        invariant
            i <= n,
            n == le16(s@, at as int),
            pos <= s@.len(),
            bits@.len() == 6,
            spec_styles(s@, at as int) == spec_styles_acc(s@, pos as int, n - i, bits@),
        decreases n - i,
    {
        let len = match read_u16(s, pos) {
            None => return None,
            Some(len) => len,
        };
        let b = pos + 2;
        if len > s.len() - b {
            return None;
        }
        let e = b + len;
        match style_of(crate::scan::slice_range(s, b, e)) {
            None => return None,
            Some(st) => {
                bits.set(st, true);
            },
        }
        pos = e;
        i = i + 1;
    }
    Some((bits, pos))
}

/// The profile a binary form describes, or `None` when it is malformed.
pub fn decode_binary_profile(s: &[u8]) -> (r: Option<Language>)
    ensures
        match r {
            None => spec_decode_binary(s@) is None,
            Some(l) => l.wf() && spec_decode_binary(s@) == Some(l@),
        },
{
    if s.len() > MAX_BINARY_BYTES || s.len() < 8 {
        return None;
    }
    if !(s[0] == 0x53u8 && s[1] == 0x4cu8 && s[2] == 0x50u8 && s[3] == 0x31u8) {
        assert(s@.subrange(0, 4) != binary_magic()) by {
            if s@.subrange(0, 4) == binary_magic() {
                assert(s@.subrange(0, 4)[0] == s@[0]);
                assert(s@.subrange(0, 4)[1] == s@[1]);
                assert(s@.subrange(0, 4)[2] == s@[2]);
                assert(s@.subrange(0, 4)[3] == s@[3]);
            }
        }
        return None;
    }
    assert(s@.subrange(0, 4) =~= binary_magic());
    let bits: u32 = s[4] as u32 + 256 * (s[5] as u32) + 65536 * (s[6] as u32) + 16777216 * (s[7] as u32);
    assert(bits == le32(s@, 4) as u32);
    let mut sections: Vec<Vec<Vec<u8>>> = Vec::new();
    assert(sections.deep_view() =~= Seq::<Seq<Seq<u8>>>::empty());
    let mut pos: usize = 8;
    let mut k: usize = 0;
    while k < NUM_SECTIONS
        invariant
            k <= NUM_SECTIONS,
            sections.deep_view().len() == k,
            spec_sections_acc(s@, 8, 0, Seq::empty()) == spec_sections_acc(s@, pos as int, k as int, sections.deep_view()),
        decreases NUM_SECTIONS - k,
    {
        match read_words(s, pos) {
            None => return None,
            Some((ws, e)) => {
                let ghost before = sections.deep_view();
                let ghost wv = ws.deep_view();
                sections.push(ws);
                assert(sections.deep_view() =~= before.push(wv));
                pos = e;
            },
        }
        k = k + 1;
    }
    let (styles, end) = if bits & EXTENDED_SECTIONS_FLAG != 0 {
        match read_styles(s, pos) {
            None => return None,
            Some(r) => r,
        }
    } else {
        let st: Vec<bool> = vec![false, false, false, false, false, false];
        assert(st@ =~= Seq::new(6, |i: int| false));
        (st, pos)
    };
    if end != s.len() || sections[SECTION_ALIASES].len() == 0 {
        proof {
            if end == s.len() {
                assert(sections.deep_view()[SECTION_ALIASES as int].len() == 0);
            }
        }
        return None;
    }
    let mut flags: Vec<bool> = Vec::new();
    let mut i: usize = 0;
    while i < NUM_FLAGS
        invariant
            i <= NUM_FLAGS,
            styles@.len() == 6,
            flags@.len() == i,
            forall|j: int| 0 <= j < i ==> flags@[j] == spec_binary_flag(bits, styles@, j),
        decreases NUM_FLAGS - i,
    {
        let f = if i < 31 {
            let sh: u32 = i as u32;
            bits & (1u32 << sh) != 0
        } else if i >= STYLE_BRACE {
            styles[i - STYLE_BRACE]
        } else {
            false
        };
        flags.push(f);
        i = i + 1;
    }
    let l = Language { words: sections, flags };
    assert(l@.flags =~= Seq::new(NUM_FLAGS as nat, |j: int| spec_binary_flag(bits, styles@, j)));
    Some(l)
}

/// Register the profile of a binary form: `true` when it was well formed and
/// none of its aliases was registered yet, and then it is added; otherwise
/// nothing changes.
pub fn register_language_pack_binary(registry: &mut LanguageRegistry, bytes: &[u8]) -> (r: bool)
    requires
        old(registry).wf(),
    ensures
        final(registry).wf(),
        r == match spec_decode_binary(bytes@) {
            None => false,
            Some(p) => spec_accepts(old(registry)@, p),
        },
        final(registry)@ == match spec_decode_binary(bytes@) {
            Some(p) if r => old(registry)@.push(p),
            _ => old(registry)@,
        },
{
    match decode_binary_profile(bytes) {
        None => false,
        Some(p) => registry.register_profile(p),
    }
}

} // verus!
