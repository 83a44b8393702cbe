//! Byte-level helpers shared by the scanners: ASCII classes, bounded reads
//! and pattern tests on UTF-8 encoded source.
use vstd::prelude::*;

verus! {

/// `b` is an ASCII decimal digit.
pub open spec fn spec_is_digit(b: u8) -> bool {
    0x30u8 <= b <= 0x39u8
}

/// `b` is an ASCII upper-case letter.
pub open spec fn spec_is_upper(b: u8) -> bool {
    0x41u8 <= b <= 0x5au8
}

/// `b` is an ASCII lower-case letter.
pub open spec fn spec_is_lower(b: u8) -> bool {
    0x61u8 <= b <= 0x7au8
}

/// `b` is an ASCII letter.
pub open spec fn spec_is_alpha(b: u8) -> bool {
    spec_is_upper(b) || spec_is_lower(b)
}

/// `b` is an ASCII letter or digit.
pub open spec fn spec_is_alnum(b: u8) -> bool {
    spec_is_alpha(b) || spec_is_digit(b)
}

/// `b` is an ASCII hexadecimal digit.
pub open spec fn spec_is_hex(b: u8) -> bool {
    spec_is_digit(b) || (0x61u8 <= b <= 0x66u8) || (0x41u8 <= b <= 0x46u8)
}

/// ASCII whitespace as std defines it for `u8::is_ascii_whitespace`:
/// space, tab, line feed, form feed and carriage return.
pub open spec fn spec_is_space(b: u8) -> bool {
    b == 0x20u8 || b == 0x09u8 || b == 0x0au8 || b == 0x0cu8 || b == 0x0du8
}

/// ASCII control characters (`u8::is_ascii_control`).
pub open spec fn spec_is_control(b: u8) -> bool {
    b < 0x20u8 || b == 0x7fu8
}

/// ASCII lower-casing of one byte (`u8::to_ascii_lowercase`).
pub open spec fn spec_lower(b: u8) -> u8 {
    if spec_is_upper(b) {
        (b + 32) as u8
    } else {
        b
    }
}

/// ASCII lower-casing of a byte string.
pub open spec fn spec_lower_seq(s: Seq<u8>) -> Seq<u8> {
    Seq::new(s.len(), |i: int| spec_lower(s[i]))
}

/// The byte at `i`, if `i` is inside `s` (`<[u8]>::get`).
pub open spec fn at(s: Seq<u8>, i: int) -> Option<u8> {
    if 0 <= i < s.len() {
        Some(s[i])
    } else {
        None
    }
}

/// `pat` occurs in `s` starting at `i`.
pub open spec fn has_at(s: Seq<u8>, i: int, pat: Seq<u8>) -> bool {
    0 <= i && i + pat.len() <= s.len() && s.subrange(i, i + pat.len()) == pat
}

/// Every byte of `s` in `[i, j)` equals `b` (and the range lies inside `s`).
pub open spec fn all_eq(s: Seq<u8>, i: int, j: int, b: u8) -> bool {
    0 <= i <= j <= s.len() && forall|k: int| i <= k < j ==> s[k] == b
}

/// Number of bytes the scanners step over from position `i`: the length of the
/// UTF-8 sequence announced by the byte there, never past the end.
pub open spec fn char_step(s: Seq<u8>, i: int) -> int {
    let b = s[i];
    let w = if b < 0xc0u8 {
        1int
    } else if b < 0xe0u8 {
        2int
    } else if b < 0xf0u8 {
        3int
    } else {
        4int
    };
    if i + w <= s.len() {
        w
    } else {
        s.len() - i
    }
}

/// The first index `>= from` at which `b` occurs, or `s.len()` when none does.
pub open spec fn find_byte(s: Seq<u8>, from: int, b: u8) -> int
    decreases s.len() - from,
{
    if from < 0 || from >= s.len() {
        s.len() as int
    } else if s[from] == b {
        from
    } else {
        find_byte(s, from + 1, b)
    }
}

/// The first index `>= from` at which `pat` occurs, if any.
pub open spec fn find_pat(s: Seq<u8>, from: int, pat: Seq<u8>) -> Option<int>
    decreases s.len() + 1 - from,
{
    if from < 0 || from + pat.len() > s.len() {
        None
    } else if has_at(s, from, pat) {
        Some(from)
    } else {
        find_pat(s, from + 1, pat)
    }
}

pub fn is_digit(b: u8) -> (r: bool)
    ensures
        r == spec_is_digit(b),
{
    0x30u8 <= b && b <= 0x39u8
}

pub fn is_upper(b: u8) -> (r: bool)
    ensures
        r == spec_is_upper(b),
{
    0x41u8 <= b && b <= 0x5au8
}

pub fn is_lower(b: u8) -> (r: bool)
    ensures
        r == spec_is_lower(b),
{
    0x61u8 <= b && b <= 0x7au8
}

pub fn is_alpha(b: u8) -> (r: bool)
    ensures
        r == spec_is_alpha(b),
{
    is_upper(b) || is_lower(b)
}

pub fn is_alnum(b: u8) -> (r: bool)
    ensures
        r == spec_is_alnum(b),
{
    is_alpha(b) || is_digit(b)
}

pub fn is_hex(b: u8) -> (r: bool)
    ensures
        r == spec_is_hex(b),
{
    is_digit(b) || (0x61u8 <= b && b <= 0x66u8) || (0x41u8 <= b && b <= 0x46u8)
}

pub fn is_space(b: u8) -> (r: bool)
    ensures
        r == spec_is_space(b),
{
    b == 0x20u8 || b == 0x09u8 || b == 0x0au8 || b == 0x0cu8 || b == 0x0du8
}

pub fn is_control(b: u8) -> (r: bool)
    ensures
        r == spec_is_control(b),
{
    b < 0x20u8 || b == 0x7fu8
}

pub fn lower(b: u8) -> (r: u8)
    ensures
        r == spec_lower(b),
{
    if is_upper(b) {
        b + 32
    } else {
        b
    }
}

/// `s.get(i)`.
pub fn get(s: &[u8], i: usize) -> (r: Option<u8>)
    ensures
        r == at(s@, i as int),
{
    if i < s.len() {
        Some(s[i])
    } else {
        None
    }
}

/// `s.get(i) == Some(&b)`.
pub fn is_at(s: &[u8], i: usize, b: u8) -> (r: bool)
    ensures
        r == (at(s@, i as int) == Some(b)),
{
    i < s.len() && s[i] == b
}

/// `s.get(i..i + pat.len()) == Some(pat)`.
pub fn starts_at(s: &[u8], i: usize, pat: &[u8]) -> (r: bool)
    ensures
        r == has_at(s@, i as int, pat@),
        r ==> i + pat.len() <= s.len(),
{
    if i > s.len() || pat.len() > s.len() - i {
        return false;
    }
    let mut k: usize = 0;
    while k < pat.len()
        invariant
            i + pat.len() <= s.len(),
            k <= pat.len(),
            forall|m: int| 0 <= m < k ==> s@[i + m] == pat@[m],
        decreases pat.len() - k,
    {
        if s[i + k] != pat[k] {
            assert(s@.subrange(i as int, i + pat.len())[k as int] != pat@[k as int]);
            return false;
        }
        k = k + 1;
    }
    assert(s@.subrange(i as int, i + pat.len()) =~= pat@);
    true
}

/// `s` holds the two bytes `a b` at `i`.
pub fn has2(s: &[u8], i: usize, a: u8, b: u8) -> (r: bool)
    ensures
        r == has_at(s@, i as int, seq![a, b]),
        r ==> i + 2 <= s.len(),
{
    let pat: [u8; 2] = [a, b];
    assert(pat@ =~= seq![a, b]);
    starts_at(s, i, pat.as_slice())
}

/// `s` holds the three bytes `a b c` at `i`.
pub fn has3(s: &[u8], i: usize, a: u8, b: u8, c: u8) -> (r: bool)
    ensures
        r == has_at(s@, i as int, seq![a, b, c]),
        r ==> i + 3 <= s.len(),
{
    let pat: [u8; 3] = [a, b, c];
    assert(pat@ =~= seq![a, b, c]);
    starts_at(s, i, pat.as_slice())
}

/// `s` holds the four bytes `a b c d` at `i`.
pub fn has4(s: &[u8], i: usize, a: u8, b: u8, c: u8, d: u8) -> (r: bool)
    ensures
        r == has_at(s@, i as int, seq![a, b, c, d]),
        r ==> i + 4 <= s.len(),
{
    let pat: [u8; 4] = [a, b, c, d];
    assert(pat@ =~= seq![a, b, c, d]);
    starts_at(s, i, pat.as_slice())
}

/// All bytes in `[i, j)` equal `b`, with the range inside `s`.
pub fn all_bytes_eq(s: &[u8], i: usize, j: usize, b: u8) -> (r: bool)
    ensures
        r == all_eq(s@, i as int, j as int, b),
{
    if i > j || j > s.len() {
        return false;
    }
    let mut k = i;
    while k < j
        invariant
            i <= k <= j <= s.len(),
            forall|m: int| i <= m < k ==> s@[m] == b,
        decreases j - k,
    {
        if s[k] != b {
            return false;
        }
        k = k + 1;
    }
    true
}

/// Step over one UTF-8 encoded character (or a stray byte) starting at `i`.
pub fn step(s: &[u8], i: usize) -> (r: usize)
    requires
        i < s.len(),
    ensures
        r == i + char_step(s@, i as int),
        i < r <= s.len(),
{
    let b = s[i];
    let w: usize = if b < 0xc0u8 {
        1
    } else if b < 0xe0u8 {
        2
    } else if b < 0xf0u8 {
        3
    } else {
        4
    };
    if w <= s.len() - i {
        i + w
    } else {
        s.len()
    }
}

/// Index of the first `b` at or after `from`, or `s.len()`.
pub fn find_byte_from(s: &[u8], from: usize, b: u8) -> (r: usize)
    ensures
        r == find_byte(s@, from as int, b),
        from <= s.len() ==> from <= r <= s.len(),
{
    if from >= s.len() {
        return s.len();
    }
    let mut k = from;
    while k < s.len()
        invariant
            from <= k <= s.len(),
            find_byte(s@, from as int, b) == find_byte(s@, k as int, b),
        decreases s.len() - k,
    {
        if s[k] == b {
            return k;
        }
        k = k + 1;
    }
    k
}

/// Index of the first occurrence of `pat` at or after `from`.
pub fn find_pat_from(s: &[u8], from: usize, pat: &[u8]) -> (r: Option<usize>)
    ensures
        r matches Some(k) ==> find_pat(s@, from as int, pat@) == Some(k as int),
        r is None ==> find_pat(s@, from as int, pat@) is None,
{
    let mut k = from;
    while k <= s.len() && pat.len() <= s.len() - k
        invariant
            from <= k,
            find_pat(s@, from as int, pat@) == find_pat(s@, k as int, pat@),
        decreases s.len() - k,
    {
        if starts_at(s, k, pat) {
            return Some(k);
        }
        if k == s.len() {
            assert(find_pat(s@, k as int + 1, pat@) is None);
            return None;
        }
        k = k + 1;
    }
    None
}

/// Lemma: `find_byte` stays inside `[from, len]` and lands on `b` when it is before the end.
pub proof fn lemma_find_byte(s: Seq<u8>, from: int, b: u8)
    requires
        0 <= from <= s.len(),
    ensures
        from <= find_byte(s, from, b) <= s.len(),
        find_byte(s, from, b) < s.len() ==> s[find_byte(s, from, b)] == b,
        forall|k: int| from <= k < find_byte(s, from, b) ==> s[k] != b,
    decreases s.len() - from,
{
    if from < s.len() && s[from] != b {
        lemma_find_byte(s, from + 1, b);
    }
}

/// Searching for a byte after a prefix finds it where searching the rest
/// does, moved by the prefix's length.
pub proof fn lemma_find_byte_shift(p: Seq<u8>, t: Seq<u8>, i: int, b: u8)
    requires
        0 <= i <= t.len(),
    ensures
        find_byte(p + t, p.len() + i, b) == p.len() + find_byte(t, i, b),
    decreases t.len() - i,
{
    if i < t.len() {
        assert((p + t)[p.len() + i] == t[i]);
        if t[i] != b {
            lemma_find_byte_shift(p, t, i + 1, b);
        }
    }
}

/// In valid UTF-8, an ASCII byte is a whole character: the positions on both
/// sides of it are character boundaries.
pub proof fn lemma_ascii_boundaries(s: Seq<u8>, i: int)
    requires
        vstd::utf8::valid_utf8(s),
        0 <= i < s.len(),
        s[i] < 0x80u8,
    ensures
        vstd::utf8::is_char_boundary(s, i),
        vstd::utf8::is_char_boundary(s, i + 1),
{
    vstd::utf8::is_char_boundary_iff_not_is_continuation_byte(s, i);
    if i + 1 < s.len() {
        vstd::utf8::valid_utf8_split(s, i);
        let t = s.subrange(i, s.len() as int);
        assert(t[0] == s[i]);
        assert(vstd::utf8::valid_first_scalar(t) && vstd::utf8::valid_utf8(vstd::utf8::pop_first_scalar(t)));
        let u = vstd::utf8::pop_first_scalar(t);
        assert(u =~= s.subrange(i + 1, s.len() as int));
        assert(u.len() > 0);
        assert(vstd::utf8::valid_first_scalar(u));
        assert(u[0] == s[i + 1]);
        vstd::utf8::is_char_boundary_iff_not_is_continuation_byte(s, i + 1);
    } else {
        vstd::utf8::is_char_boundary_start_end_of_seq(s);
    }
}

/// Lemma: a found pattern lies inside `s` at or after `from`.
pub proof fn lemma_find_pat(s: Seq<u8>, from: int, pat: Seq<u8>)
    requires
        0 <= from,
    ensures
        find_pat(s, from, pat) matches Some(k) ==> from <= k && k + pat.len() <= s.len()
            && has_at(s, k, pat),
    decreases s.len() + 1 - from,
{
    if from + pat.len() <= s.len() && !has_at(s, from, pat) {
        lemma_find_pat(s, from + 1, pat);
    }
}


/// The byte `\n`.
pub const NL: u8 = 0x0au8;

/// The byte `\r`.
pub const CR: u8 = 0x0du8;

/// The byte `\t`.
pub const TAB: u8 = 0x09u8;

/// The byte ` `.
pub const SPACE: u8 = 0x20u8;

/// The byte `!`.
pub const BANG: u8 = 0x21u8;

/// The byte `"`.
pub const DQUOTE: u8 = 0x22u8;

/// The byte `#`.
pub const HASH: u8 = 0x23u8;

/// The byte `$`.
pub const DOLLAR: u8 = 0x24u8;

/// The byte `%`.
pub const PERCENT: u8 = 0x25u8;

/// The byte `&`.
pub const AMP: u8 = 0x26u8;

/// The byte `'`.
pub const QUOTE: u8 = 0x27u8;

/// The byte `(`.
pub const LPAREN: u8 = 0x28u8;

/// The byte `)`.
pub const RPAREN: u8 = 0x29u8;

/// The byte `*`.
pub const STAR: u8 = 0x2au8;

/// The byte `+`.
pub const PLUS: u8 = 0x2bu8;

/// The byte `,`.
pub const COMMA: u8 = 0x2cu8;

/// The byte `-`.
pub const MINUS: u8 = 0x2du8;

/// The byte `.`.
pub const DOT: u8 = 0x2eu8;

/// The byte `/`.
pub const SLASH: u8 = 0x2fu8;

/// The byte `:`.
pub const COLON: u8 = 0x3au8;

/// The byte `;`.
pub const SEMI: u8 = 0x3bu8;

/// The byte `<`.
pub const LT: u8 = 0x3cu8;

/// The byte `=`.
pub const EQ: u8 = 0x3du8;

/// The byte `>`.
pub const GT: u8 = 0x3eu8;

/// The byte `?`.
pub const QUESTION: u8 = 0x3fu8;

/// The byte `@`.
pub const AT: u8 = 0x40u8;

/// The byte `[`.
pub const LBRACKET: u8 = 0x5bu8;

/// The byte `\\`.
pub const BSLASH: u8 = 0x5cu8;

/// The byte `]`.
pub const RBRACKET: u8 = 0x5du8;

/// The byte `^`.
pub const CARET: u8 = 0x5eu8;

/// The byte `_`.
pub const UNDERSCORE: u8 = 0x5fu8;

/// The byte ```.
pub const BACKTICK: u8 = 0x60u8;

/// The byte `{`.
pub const LBRACE: u8 = 0x7bu8;

/// The byte `|`.
pub const PIPE: u8 = 0x7cu8;

/// The byte `}`.
pub const RBRACE: u8 = 0x7du8;

/// The byte `~`.
pub const TILDE: u8 = 0x7eu8;

} // verus!
