//! End-of-literal scanners. Each takes UTF-8 source bytes and the position
//! where a comment, string or other literal starts, and returns the position
//! just past it; unterminated literals run to the end of the source, as a
//! streaming code block may not be complete yet.
use vstd::prelude::*;
use crate::bytes::{
    at, has_at, all_eq, all_bytes_eq, char_step, step, get, is_at, starts_at, spec_is_space,
    is_space, spec_is_alpha, is_alpha, spec_is_alnum, is_alnum, spec_is_upper, is_upper,
    spec_is_lower, is_lower, spec_is_digit, is_digit, spec_is_hex, is_hex, spec_is_control,
    is_control, spec_lower, lower, find_pat, find_pat_from, lemma_find_pat, BSLASH, NL, CR, TAB,
    SPACE, LBRACKET, RBRACKET, SLASH, LPAREN, RPAREN, LBRACE, RBRACE, LT, GT, BACKTICK, DOLLAR,
    DQUOTE, QUOTE, UNDERSCORE, EQ, HASH, PIPE, PERCENT, TILDE, AT, MINUS, DOT, PLUS,
};

use vstd::utf8::encode_utf8;
use crate::canvas::lemma_encode_concat;

verus! {

/// Step past a backslash escape: two bytes, clamped to the end.
pub open spec fn skip_escape(s: Seq<u8>, i: int) -> int {
    if i + 2 <= s.len() {
        i + 2
    } else {
        s.len() as int
    }
}

/// Scanning state of a quoted string from `i` on.
pub open spec fn spec_quoted_from(s: Seq<u8>, i: int, quote: u8, triple: bool, multiline: bool) -> int
    decreases s.len() - i,
{
    if i < 0 || i >= s.len() {
        i
    } else if s[i] == BSLASH {
        spec_quoted_from(s, skip_escape(s, i), quote, triple, multiline)
    } else if triple && has_at(s, i, seq![quote, quote, quote]) {
        i + 3
    } else if !triple && s[i] == quote {
        i + 1
    } else if !multiline && s[i] == NL {
        i
    } else {
        spec_quoted_from(s, i + char_step(s, i), quote, triple, multiline)
    }
}

/// Bytes a UTF-8 scanner steps over from a byte it meets: the width its
/// leading bits announce.
pub open spec fn announced_width(b: u8) -> int {
    if b < 0xc0u8 {
        1
    } else if b < 0xe0u8 {
        2
    } else if b < 0xf0u8 {
        3
    } else {
        4
    }
}

/// The encoding of a character starts with a byte announcing its length; an
/// ASCII character is its own byte, any other starts with a byte of 0xC0 or
/// more.
proof fn lemma_scalar_lead(c: char)
    ensures
        1 <= vstd::utf8::encode_scalar(c as u32).len() <= 4,
        announced_width(vstd::utf8::encode_scalar(c as u32)[0]) == vstd::utf8::encode_scalar(c as u32).len(),
        (c as u32) < 0x80 ==> vstd::utf8::encode_scalar(c as u32)[0] as u32 == c as u32,
        (c as u32) >= 0x80 ==> vstd::utf8::encode_scalar(c as u32)[0] >= 0xc0,
{
    let e = vstd::utf8::encode_scalar(c as u32);
    vstd::utf8::encode_utf8_first_scalar(seq![c]);
    assert(encode_utf8(seq![c]) =~= e) by {
        reveal_with_fuel(encode_utf8, 2);
        assert(seq![c].drop_first() =~= Seq::<char>::empty());
        assert(e + Seq::<u8>::empty() =~= e);
    }
    let v = c as u32;
    if v <= 0x7f {
        assert((v & 0x7f) == v) by (bit_vector)
            requires
                v <= 0x7f,
        ;
    }
}

/// Scanning a string over characters that are not the quote, a backslash
/// or a line break steps over them all.
proof fn lemma_quoted_skips(s: Seq<u8>, i: int, u: Seq<char>, q: char, multiline: bool)
    requires
        0 <= i,
        i + encode_utf8(u).len() <= s.len(),
        s.subrange(i, i + encode_utf8(u).len()) == encode_utf8(u),
        (q as u32) < 0x80,
        forall|k: int| 0 <= k < u.len() ==> #[trigger] u[k] != q && u[k] != '\\' && u[k] != '\n',
    ensures
        spec_quoted_from(s, i, q as u8, false, multiline) == spec_quoted_from(s, i + encode_utf8(u).len(), q as u8, false, multiline),
    decreases u.len(),
{
    if u.len() > 0 {
        let c = u[0];
        let e = vstd::utf8::encode_scalar(c as u32);
        let rest = u.drop_first();
        lemma_scalar_lead(c);
        assert(encode_utf8(u) == e + encode_utf8(rest));
        assert(s[i] == e[0]) by {
            assert(s.subrange(i, i + encode_utf8(u).len())[0] == encode_utf8(u)[0]);
        }
        if (c as u32) < 0x80 {
            assert(s[i] as u32 == c as u32);
            vstd::utf8::char_u32_cast(c, c as u32);
            vstd::utf8::char_u32_cast(q, q as u32);
            vstd::utf8::char_u32_cast('\\', '\\' as u32);
            vstd::utf8::char_u32_cast('\n', '\n' as u32);
            assert(('\\' as u32) == 0x5c);
            assert(('\n' as u32) == 0x0a);
            assert(s[i] != BSLASH);
            assert(s[i] != q as u8);
            assert(s[i] != NL);
        }
        assert(char_step(s, i) == e.len());
        assert(s.subrange(i + e.len(), i + e.len() + encode_utf8(rest).len()) =~= encode_utf8(rest)) by {
            assert forall|k: int| 0 <= k < encode_utf8(rest).len() implies
                s.subrange(i + e.len(), i + e.len() + encode_utf8(rest).len())[k] == encode_utf8(rest)[k] by {
                assert(s.subrange(i, i + encode_utf8(u).len())[e.len() + k] == encode_utf8(u)[e.len() + k]);
            }
        }
        assert forall|k: int| 0 <= k < rest.len() implies #[trigger] rest[k] != q && rest[k] != '\\' && rest[k] != '\n' by {
            assert(rest[k] == u[k + 1]);
        }
        lemma_quoted_skips(s, i + e.len(), rest, q, multiline);
    }
}

/// A backslash escapes the byte after it: a one-line string whose body has a
/// backslash-escaped quote in it runs on to its real closing quote. For
/// any texts `a` and `b` without the quote, backslashes or line breaks, the
/// string `q a \q b q` is one string, ending at the end of the text.
pub proof fn lemma_escaped_quote_stays_inside(a: Seq<char>, b: Seq<char>, q: char, multiline: bool)
    requires
        (q as u32) < 0x80,
        q != '\\',
        q != '\n',
        forall|k: int| 0 <= k < a.len() ==> #[trigger] a[k] != q && a[k] != '\\' && a[k] != '\n',
        forall|k: int| 0 <= k < b.len() ==> #[trigger] b[k] != q && b[k] != '\\' && b[k] != '\n',
    ensures
        ({
            let s = encode_utf8(seq![q] + a + seq!['\\', q] + b + seq![q]);
            spec_quoted_string_end(s, 0, q as u8, false, multiline) == s.len()
        }),
{
    let qb = q as u8;
    let ea = encode_utf8(a);
    let eb = encode_utf8(b);
    lemma_scalar_lead(q);
    lemma_scalar_lead('\\');
    assert(('\\' as u32) == 0x5c);
    let eq1 = encode_utf8(seq![q]);
    assert(eq1 =~= seq![qb]) by {
        reveal_with_fuel(encode_utf8, 2);
        assert(seq![q].drop_first() =~= Seq::<char>::empty());
    }
    let esq = encode_utf8(seq!['\\', q]);
    assert(esq =~= seq![BSLASH, qb]) by {
        reveal_with_fuel(encode_utf8, 3);
        assert(seq!['\\', q].drop_first() =~= seq![q]);
        assert(seq![q].drop_first() =~= Seq::<char>::empty());
    }
    lemma_encode_concat(seq![q], a);
    lemma_encode_concat(seq![q] + a, seq!['\\', q]);
    lemma_encode_concat(seq![q] + a + seq!['\\', q], b);
    lemma_encode_concat(seq![q] + a + seq!['\\', q] + b, seq![q]);
    let s = encode_utf8(seq![q] + a + seq!['\\', q] + b + seq![q]);
    assert(s =~= seq![qb] + ea + seq![BSLASH, qb] + eb + seq![qb]);
    let n = ea.len() as int;
    let m = eb.len() as int;
    assert(s.subrange(1, 1 + n) =~= ea);
    lemma_quoted_skips(s, 1, a, q, multiline);
    assert(s[1 + n] == BSLASH);
    assert(skip_escape(s, 1 + n) == 3 + n);
    assert(s.subrange(3 + n, 3 + n + m) =~= eb);
    lemma_quoted_skips(s, 3 + n, b, q, multiline);
    assert(s[3 + n + m] == qb);
    assert(s.len() == 4 + n + m);
}

/// An unescaped quote closes a one-line string, and a line break ends it
/// unclosed: for a text `a` without the quote, backslashes or line breaks,
/// the string `q a q` ends just after its second quote, whatever follows,
/// and `q a` followed by a line break ends before the line break.
pub proof fn lemma_quote_closes_string(a: Seq<char>, t: Seq<u8>, q: char)
    requires
        (q as u32) < 0x80,
        q != '\\',
        q != '\n',
        forall|k: int| 0 <= k < a.len() ==> #[trigger] a[k] != q && a[k] != '\\' && a[k] != '\n',
    ensures
        ({
            let s = encode_utf8(seq![q] + a + seq![q]) + t;
            spec_quoted_string_end(s, 0, q as u8, false, false) == encode_utf8(seq![q] + a + seq![q]).len()
        }),
        ({
            let s = encode_utf8(seq![q] + a) + seq![NL] + t;
            spec_quoted_string_end(s, 0, q as u8, false, false) == encode_utf8(seq![q] + a).len()
        }),
{
    let qb = q as u8;
    let ea = encode_utf8(a);
    let n = ea.len() as int;
    lemma_scalar_lead(q);
    let eq1 = encode_utf8(seq![q]);
    assert(eq1 =~= seq![qb]) by {
        reveal_with_fuel(encode_utf8, 2);
        assert(seq![q].drop_first() =~= Seq::<char>::empty());
    }
    lemma_encode_concat(seq![q], a);
    lemma_encode_concat(seq![q] + a, seq![q]);
    let s = encode_utf8(seq![q] + a + seq![q]) + t;
    assert(s =~= seq![qb] + ea + seq![qb] + t);
    assert(s.subrange(1, 1 + n) =~= ea);
    lemma_quoted_skips(s, 1, a, q, false);
    assert(s[1 + n] == qb);
    assert(encode_utf8(seq![q] + a + seq![q]).len() == 2 + n);
    let s2 = encode_utf8(seq![q] + a) + seq![NL] + t;
    assert(s2 =~= seq![qb] + ea + seq![NL] + t);
    assert(s2.subrange(1, 1 + n) =~= ea);
    lemma_quoted_skips(s2, 1, a, q, false);
    assert(s2[1 + n] == NL);
    assert(('\\' as u32) == 0x5c);
    assert(qb != NL && qb != BSLASH) by {
        vstd::utf8::char_u32_cast(q, q as u32);
        vstd::utf8::char_u32_cast('\n', '\n' as u32);
        vstd::utf8::char_u32_cast('\\', '\\' as u32);
    }
}

/// End of a quoted string whose opening delimiter (one quote, or three when
/// `triple`) starts at `quote_at`. Backslash escapes the next byte; a single
/// line string stops before a line break.
pub open spec fn spec_quoted_string_end(s: Seq<u8>, quote_at: int, quote: u8, triple: bool, multiline: bool) -> int {
    spec_quoted_from(s, quote_at + if triple { 3int } else { 1int }, quote, triple, multiline)
}

pub fn quoted_string_end(s: &[u8], quote_at: usize, quote: u8, triple: bool, multiline: bool) -> (r: usize)
    requires
        quote_at + (if triple { 3int } else { 1int }) <= s.len(),
    ensures
        r == spec_quoted_string_end(s@, quote_at as int, quote, triple, multiline),
        quote_at < r <= s.len(),
{
    let delimiter_len: usize = if triple { 3 } else { 1 };
    let mut i = quote_at + delimiter_len;
    while i < s.len()
        invariant
            quote_at < i <= s.len(),
            spec_quoted_string_end(s@, quote_at as int, quote, triple, multiline)
                == spec_quoted_from(s@, i as int, quote, triple, multiline),
        decreases s.len() - i,
    {
        if s[i] == BSLASH {
            i = if i + 1 < s.len() { i + 2 } else { s.len() };
        } else if triple && s.len() - i >= 3 && s[i] == quote && s[i + 1] == quote && s[i + 2] == quote {
            assert(has_at(s@, i as int, seq![quote, quote, quote])) by {
                assert(s@.subrange(i as int, i + 3) =~= seq![quote, quote, quote]);
            }
            return i + 3;
        } else if !triple && s[i] == quote {
            return i + 1;
        } else if !multiline && s[i] == NL {
            return i;
        } else {
            if triple {
                assert(!has_at(s@, i as int, seq![quote, quote, quote])) by {
                    if i + 3 <= s.len() {
                        let w = s@.subrange(i as int, i + 3);
                        if w == seq![quote, quote, quote] {
                            assert(w[0] == s@[i as int] && w[1] == s@[i + 1] && w[2] == s@[i + 2]);
                        }
                    }
                }
            }
            i = step(s, i);
        }
    }
    i
}

/// Scanning state of a JavaScript regular expression literal.
pub open spec fn spec_regex_from(s: Seq<u8>, i: int, in_class: bool) -> int
    decreases s.len() - i,
{
    if i < 0 || i >= s.len() {
        i
    } else if s[i] == BSLASH {
        spec_regex_from(s, skip_escape(s, i), in_class)
    } else if s[i] == LBRACKET {
        spec_regex_from(s, i + 1, true)
    } else if s[i] == RBRACKET {
        spec_regex_from(s, i + 1, false)
    } else if s[i] == SLASH && !in_class {
        spec_alpha_run(s, i + 1)
    } else if s[i] == NL {
        i
    } else {
        spec_regex_from(s, i + 1, in_class)
    }
}

/// End of the run of ASCII letters starting at `i`.
pub open spec fn spec_alpha_run(s: Seq<u8>, i: int) -> int
    decreases s.len() - i,
{
    if 0 <= i < s.len() && spec_is_alpha(s[i]) {
        spec_alpha_run(s, i + 1)
    } else {
        i
    }
}

/// End of a JavaScript regular expression literal starting at the `/` at
/// `start`, including its flags; a `/` inside a character class does not end
/// it, and a line break does.
pub open spec fn spec_js_regex_end(s: Seq<u8>, start: int) -> int {
    spec_regex_from(s, start + 1, false)
}

pub fn alpha_run(s: &[u8], i: usize) -> (r: usize)
    requires
        i <= s.len(),
    ensures
        r == spec_alpha_run(s@, i as int),
        i <= r <= s.len(),
{
    let mut k = i;
    while k < s.len() && is_alpha(s[k])
        invariant
            i <= k <= s.len(),
            spec_alpha_run(s@, i as int) == spec_alpha_run(s@, k as int),
        decreases s.len() - k,
    {
        k = k + 1;
    }
    k
}

pub fn js_regex_end(s: &[u8], start: usize) -> (r: usize)
    requires
        start < s.len(),
    ensures
        r == spec_js_regex_end(s@, start as int),
        start < r <= s.len(),
{
    let mut i = start + 1;
    let mut in_class = false;
    while i < s.len()
        invariant
            start < i <= s.len(),
            spec_js_regex_end(s@, start as int) == spec_regex_from(s@, i as int, in_class),
        decreases s.len() - i,
    {
        if s[i] == BSLASH {
            i = if i + 1 < s.len() { i + 2 } else { s.len() };
        } else if s[i] == LBRACKET {
            in_class = true;
            i = i + 1;
        } else if s[i] == RBRACKET {
            in_class = false;
            i = i + 1;
        } else if s[i] == SLASH && !in_class {
            return alpha_run(s, i + 1);
        } else if s[i] == NL {
            return i;
        } else {
            i = i + 1;
        }
    }
    i
}

/// Scanning state of a block comment with the given delimiters and nesting depth.
pub open spec fn spec_block_from(s: Seq<u8>, i: int, opener: Seq<u8>, closer: Seq<u8>, nested: bool, depth: int) -> int
    decreases s.len() - i,
{
    if i < 0 || i >= s.len() {
        s.len() as int
    } else if nested && opener.len() > 0 && has_at(s, i, opener) {
        spec_block_from(s, i + opener.len(), opener, closer, nested, depth + 1)
    } else if closer.len() > 0 && has_at(s, i, closer) {
        if depth - 1 == 0 {
            i + closer.len()
        } else {
            spec_block_from(s, i + closer.len(), opener, closer, nested, depth - 1)
        }
    } else {
        spec_block_from(s, i + char_step(s, i), opener, closer, nested, depth)
    }
}

/// End of a block comment opened at `start`; nested comments count their
/// depth, so the comment closes at the matching closer.
pub open spec fn spec_block_comment_end(s: Seq<u8>, start: int, opener: Seq<u8>, closer: Seq<u8>, nested: bool) -> int {
    spec_block_from(s, start + opener.len(), opener, closer, nested, 1)
}

pub fn block_comment_end(s: &[u8], start: usize, opener: &[u8], closer: &[u8], nested: bool) -> (r: usize)
    requires
        start + opener.len() <= s.len(),
        opener.len() > 0,
        closer.len() > 0,
    ensures
        r == spec_block_comment_end(s@, start as int, opener@, closer@, nested),
        start + opener.len() <= r <= s.len(),
{
    let mut cursor = start + opener.len();
    let mut depth: usize = 1;
    while cursor < s.len()
        invariant
            start + opener.len() <= cursor <= s.len(),
            opener.len() > 0,
            closer.len() > 0,
            depth >= 1,
            depth <= cursor,
            spec_block_comment_end(s@, start as int, opener@, closer@, nested)
                == spec_block_from(s@, cursor as int, opener@, closer@, nested, depth as int),
        decreases s.len() - cursor,
    {
        if nested && starts_at(s, cursor, opener) {
            depth = depth + 1;
            cursor = cursor + opener.len();
        } else if starts_at(s, cursor, closer) {
            if depth == 1 {
                return cursor + closer.len();
            }
            depth = depth - 1;
            cursor = cursor + closer.len();
        } else {
            cursor = step(s, cursor);
        }
    }
    s.len()
}

/// Scanning state of a delimited literal with backslash escapes.
pub open spec fn spec_delimited_from(s: Seq<u8>, i: int, open: u8, close: u8, nested: bool, depth: int) -> int
    decreases s.len() - i,
{
    if i < 0 || i >= s.len() {
        s.len() as int
    } else if s[i] == BSLASH && open != BSLASH {
        spec_delimited_from(s, skip_escape(s, i), open, close, nested, depth)
    } else if nested && s[i] == open {
        spec_delimited_from(s, i + 1, open, close, nested, depth + 1)
    } else if s[i] == close {
        if depth - 1 == 0 {
            i + 1
        } else {
            spec_delimited_from(s, i + 1, open, close, nested, depth - 1)
        }
    } else {
        spec_delimited_from(s, i + char_step(s, i), open, close, nested, depth)
    }
}

/// End of a literal whose opening delimiter is at `delimiter_at` and which
/// closes at `close` (counting nested openers when `nested`).
pub open spec fn spec_escaped_delimited_end(s: Seq<u8>, delimiter_at: int, close: u8, nested: bool) -> int {
    spec_delimited_from(s, delimiter_at + 1, s[delimiter_at], close, nested, 1)
}

pub fn escaped_delimited_literal_end(s: &[u8], delimiter_at: usize, close: u8, nested: bool) -> (r: usize)
    requires
        delimiter_at < s.len(),
    ensures
        r == spec_escaped_delimited_end(s@, delimiter_at as int, close, nested),
        delimiter_at < r <= s.len(),
{
    let open = s[delimiter_at];
    let mut cursor = delimiter_at + 1;
    let mut depth: usize = 1;
    while cursor < s.len()
        invariant
            delimiter_at < cursor <= s.len(),
            open == s@[delimiter_at as int],
            depth >= 1,
            depth <= cursor,
            spec_escaped_delimited_end(s@, delimiter_at as int, close, nested)
                == spec_delimited_from(s@, cursor as int, open, close, nested, depth as int),
        decreases s.len() - cursor,
    {
        if s[cursor] == BSLASH && open != BSLASH {
            cursor = if cursor + 1 < s.len() { cursor + 2 } else { s.len() };
        } else if nested && s[cursor] == open {
            depth = depth + 1;
            cursor = cursor + 1;
        } else if s[cursor] == close {
            if depth == 1 {
                return cursor + 1;
            }
            depth = depth - 1;
            cursor = cursor + 1;
        } else {
            cursor = step(s, cursor);
        }
    }
    s.len()
}

/// The closing delimiter for an opening one, and whether it nests.
pub open spec fn spec_delimiter_pair(open: u8) -> (u8, bool) {
    if open == LPAREN {
        (RPAREN, true)
    } else if open == LBRACKET {
        (RBRACKET, true)
    } else if open == LBRACE {
        (RBRACE, true)
    } else if open == LT {
        (GT, true)
    } else {
        (open, false)
    }
}

pub fn delimiter_pair(open: u8) -> (r: (u8, bool))
    ensures
        r == spec_delimiter_pair(open),
{
    if open == LPAREN {
        (RPAREN, true)
    } else if open == LBRACKET {
        (RBRACKET, true)
    } else if open == LBRACE {
        (RBRACE, true)
    } else if open == LT {
        (GT, true)
    } else {
        (open, false)
    }
}

/// Scanning state of a verbatim string (`""` stands for one quote).
pub open spec fn spec_verbatim_from(s: Seq<u8>, i: int, quote: u8) -> int
    decreases s.len() - i,
{
    if i < 0 || i >= s.len() {
        s.len() as int
    } else if s[i] == quote && at(s, i + 1) == Some(quote) {
        spec_verbatim_from(s, i + 2, quote)
    } else if s[i] == quote {
        i + 1
    } else {
        spec_verbatim_from(s, i + char_step(s, i), quote)
    }
}

/// End of a verbatim string whose quote is at `quote_at`.
pub open spec fn spec_verbatim_end(s: Seq<u8>, quote_at: int, quote: u8) -> int {
    spec_verbatim_from(s, quote_at + 1, quote)
}

pub fn verbatim_quoted_string_end(s: &[u8], quote_at: usize, quote: u8) -> (r: usize)
    requires
        quote_at < s.len(),
    ensures
        r == spec_verbatim_end(s@, quote_at as int, quote),
        quote_at < r <= s.len(),
{
    let mut i = quote_at + 1;
    while i < s.len()
        invariant
            quote_at < i,
            spec_verbatim_end(s@, quote_at as int, quote) == spec_verbatim_from(s@, i as int, quote),
        decreases s.len() - i,
    {
        if s[i] == quote && is_at(s, i + 1, quote) {
            i = i + 2;
        } else if s[i] == quote {
            return i + 1;
        } else {
            i = step(s, i);
        }
    }
    s.len()
}

/// Scanning state of a backtick-quoted identifier.
pub open spec fn spec_quoted_identifier_from(s: Seq<u8>, i: int) -> int
    decreases s.len() - i,
{
    if i < 0 || i >= s.len() {
        i
    } else if s[i] == BSLASH {
        spec_quoted_identifier_from(s, skip_escape(s, i))
    } else if s[i] == BACKTICK && at(s, i + 1) == Some(BACKTICK) {
        spec_quoted_identifier_from(s, i + 2)
    } else if s[i] == BACKTICK {
        i + 1
    } else if s[i] == NL {
        i
    } else {
        spec_quoted_identifier_from(s, i + char_step(s, i))
    }
}

/// End of a backtick-quoted identifier starting at `start`; it cannot span lines.
pub open spec fn spec_quoted_identifier_end(s: Seq<u8>, start: int) -> int {
    spec_quoted_identifier_from(s, start + 1)
}

pub fn quoted_identifier_end(s: &[u8], start: usize) -> (r: usize)
    requires
        start < s.len(),
    ensures
        r == spec_quoted_identifier_end(s@, start as int),
        start < r <= s.len(),
{
    let mut cursor = start + 1;
    while cursor < s.len()
        invariant
            start < cursor <= s.len(),
            spec_quoted_identifier_end(s@, start as int) == spec_quoted_identifier_from(s@, cursor as int),
        decreases s.len() - cursor,
    {
        if s[cursor] == BSLASH {
            cursor = if cursor + 1 < s.len() { cursor + 2 } else { s.len() };
        } else if s[cursor] == BACKTICK && is_at(s, cursor + 1, BACKTICK) {
            cursor = cursor + 2;
        } else if s[cursor] == BACKTICK {
            return cursor + 1;
        } else if s[cursor] == NL {
            return cursor;
        } else {
            cursor = step(s, cursor);
        }
    }
    cursor
}

/// End of a `<header>` operand: through the closing `>`, or up to the line
/// break or end when there is none.
pub open spec fn spec_header_string_end(s: Seq<u8>, start: int) -> int {
    let e = crate::bytes::find_byte(s, start + 1, GT);
    let n = crate::bytes::find_byte(s, start + 1, NL);
    if e < n {
        e + 1
    } else if n < s.len() {
        n
    } else {
        s.len() as int
    }
}

pub fn header_string_end(s: &[u8], start: usize) -> (r: usize)
    requires
        start < s.len(),
    ensures
        r == spec_header_string_end(s@, start as int),
        start < r <= s.len(),
{
    let mut i = start + 1;
    while i < s.len() && s[i] != GT && s[i] != NL
        invariant
            start < i <= s.len(),
            crate::bytes::find_byte(s@, start as int + 1, GT) == crate::bytes::find_byte(s@, i as int, GT),
            crate::bytes::find_byte(s@, start as int + 1, NL) == crate::bytes::find_byte(s@, i as int, NL),
        decreases s.len() - i,
    {
        i = i + 1;
    }
    if i < s.len() && s[i] == GT {
        assert(crate::bytes::find_byte(s@, i as int, GT) == i);
        proof {
            crate::bytes::lemma_find_byte(s@, i as int + 1, NL);
        }
        assert(crate::bytes::find_byte(s@, i as int, NL) > i);
        i + 1
    } else if i < s.len() {
        proof {
            crate::bytes::lemma_find_byte(s@, i as int, GT);
        }
        i
    } else {
        s.len()
    }
}

/// The first non-whitespace position at or after `from`.
pub open spec fn spec_next_significant_index(s: Seq<u8>, from: int) -> Option<int>
    decreases s.len() - from,
{
    if from < 0 || from >= s.len() {
        None
    } else if !spec_is_space(s[from]) {
        Some(from)
    } else {
        spec_next_significant_index(s, from + 1)
    }
}

/// The first non-whitespace byte at or after `from`.
pub open spec fn spec_next_significant_byte(s: Seq<u8>, from: int) -> Option<u8> {
    match spec_next_significant_index(s, from) {
        Some(i) => Some(s[i]),
        None => None,
    }
}

pub fn next_significant_index(s: &[u8], from: usize) -> (r: Option<usize>)
    requires
        from <= s.len(),
    ensures
        r is Some <==> spec_next_significant_index(s@, from as int) is Some,
        r matches Some(i) ==> spec_next_significant_index(s@, from as int) == Some(i as int)
            && from <= i < s.len(),
{
    let mut i = from;
    while i < s.len()
        invariant
            from <= i <= s.len(),
            spec_next_significant_index(s@, from as int) == spec_next_significant_index(s@, i as int),
        decreases s.len() - i,
    {
        if !is_space(s[i]) {
            return Some(i);
        }
        i = i + 1;
    }
    None
}

pub fn next_significant_byte(s: &[u8], from: usize) -> (r: Option<u8>)
    requires
        from <= s.len(),
    ensures
        r == spec_next_significant_byte(s@, from as int),
{
    match next_significant_index(s, from) {
        Some(i) => Some(s[i]),
        None => None,
    }
}


/// End of the run of bytes equal to `b` starting at `i`.
pub open spec fn spec_run_end(s: Seq<u8>, i: int, b: u8) -> int
    decreases s.len() - i,
{
    if 0 <= i < s.len() && s[i] == b {
        spec_run_end(s, i + 1, b)
    } else {
        i
    }
}

pub fn run_end(s: &[u8], i: usize, b: u8) -> (r: usize)
    requires
        i <= s.len(),
    ensures
        r == spec_run_end(s@, i as int, b),
        i <= r <= s.len(),
        all_eq(s@, i as int, r as int, b),
{
    let mut k = i;
    while k < s.len() && s[k] == b
        invariant
            i <= k <= s.len(),
            spec_run_end(s@, i as int, b) == spec_run_end(s@, k as int, b),
            all_eq(s@, i as int, k as int, b),
        decreases s.len() - k,
    {
        k = k + 1;
    }
    k
}

/// `b` may continue a word: ASCII letter, digit or `_`.
pub open spec fn spec_is_word(b: u8) -> bool {
    spec_is_alnum(b) || b == UNDERSCORE
}

pub fn is_word(b: u8) -> (r: bool)
    ensures
        r == spec_is_word(b),
{
    is_alnum(b) || b == UNDERSCORE
}

/// `b` may start a word: ASCII letter or `_`.
pub open spec fn spec_is_word_start(b: u8) -> bool {
    spec_is_alpha(b) || b == UNDERSCORE
}

/// End of the run of word bytes starting at `i`.
pub open spec fn spec_word_end(s: Seq<u8>, i: int) -> int
    decreases s.len() - i,
{
    if 0 <= i < s.len() && spec_is_word(s[i]) {
        spec_word_end(s, i + 1)
    } else {
        i
    }
}

pub fn word_end(s: &[u8], i: usize) -> (r: usize)
    requires
        i <= s.len(),
    ensures
        r == spec_word_end(s@, i as int),
        i <= r <= s.len(),
{
    let mut k = i;
    while k < s.len() && is_word(s[k])
        invariant
            i <= k <= s.len(),
            spec_word_end(s@, i as int) == spec_word_end(s@, k as int),
        decreases s.len() - k,
    {
        k = k + 1;
    }
    k
}

/// End of the run of ASCII letters and digits starting at `i`.
pub open spec fn spec_alnum_run(s: Seq<u8>, i: int) -> int
    decreases s.len() - i,
{
    if 0 <= i < s.len() && spec_is_alnum(s[i]) {
        spec_alnum_run(s, i + 1)
    } else {
        i
    }
}

pub fn alnum_run(s: &[u8], i: usize) -> (r: usize)
    requires
        i <= s.len(),
    ensures
        r == spec_alnum_run(s@, i as int),
        i <= r <= s.len(),
{
    let mut k = i;
    while k < s.len() && is_alnum(s[k])
        invariant
            i <= k <= s.len(),
            spec_alnum_run(s@, i as int) == spec_alnum_run(s@, k as int),
        decreases s.len() - k,
    {
        k = k + 1;
    }
    k
}

/// Start of the quotes of a C# interpolated raw string (`$$"""...`) at `start`.
pub open spec fn spec_csharp_interpolated_raw_quote_start(s: Seq<u8>, start: int) -> Option<int> {
    if at(s, start) != Some(DOLLAR) {
        None
    } else {
        let quote_start = spec_run_end(s, start, DOLLAR);
        let quote_end = spec_run_end(s, quote_start, DQUOTE);
        if quote_end - quote_start >= 3 {
            Some(quote_start)
        } else {
            None
        }
    }
}

pub fn csharp_interpolated_raw_quote_start(s: &[u8], start: usize) -> (r: Option<usize>)
    requires
        start <= s.len(),
    ensures
        r is Some <==> spec_csharp_interpolated_raw_quote_start(s@, start as int) is Some,
        r matches Some(q) ==> spec_csharp_interpolated_raw_quote_start(s@, start as int) == Some(q as int)
            && start < q && q + 3 <= s.len(),
{
    if !is_at(s, start, DOLLAR) {
        return None;
    }
    let quote_start = run_end(s, start, DOLLAR);
    let quote_end = run_end(s, quote_start, DQUOTE);
    if quote_end - quote_start >= 3 {
        Some(quote_start)
    } else {
        None
    }
}

/// Scanning state of a raw string closed by `quotes` quote bytes in a row.
pub open spec fn spec_raw_quotes_from(s: Seq<u8>, i: int, quotes: int) -> int
    decreases s.len() - i,
{
    if i < 0 || i >= s.len() {
        s.len() as int
    } else if i + quotes <= s.len() && all_eq(s, i, i + quotes, DQUOTE) {
        i + quotes
    } else {
        spec_raw_quotes_from(s, i + char_step(s, i), quotes)
    }
}

/// End of a C# raw string whose run of at least three quotes starts at `quote_start`.
pub open spec fn spec_csharp_raw_string_end(s: Seq<u8>, quote_start: int) -> Option<int> {
    if at(s, quote_start) != Some(DQUOTE) {
        None
    } else {
        let cursor = spec_run_end(s, quote_start, DQUOTE);
        let quotes = cursor - quote_start;
        if quotes < 3 {
            None
        } else {
            Some(spec_raw_quotes_from(s, cursor, quotes))
        }
    }
}

pub fn csharp_raw_string_end(s: &[u8], quote_start: usize) -> (r: Option<usize>)
    requires
        quote_start <= s.len(),
    ensures
        r is Some <==> spec_csharp_raw_string_end(s@, quote_start as int) is Some,
        r matches Some(e) ==> spec_csharp_raw_string_end(s@, quote_start as int) == Some(e as int)
            && quote_start < e <= s.len(),
{
    if !is_at(s, quote_start, DQUOTE) {
        return None;
    }
    let mut cursor = run_end(s, quote_start, DQUOTE);
    let quotes = cursor - quote_start;
    if quotes < 3 {
        return None;
    }
    let ghost first = cursor as int;
    assert(spec_csharp_raw_string_end(s@, quote_start as int) == Some(spec_raw_quotes_from(s@, first, quotes as int)));
    while cursor < s.len()
        invariant
            quote_start < first <= cursor <= s.len(),
            quotes == first - quote_start,
            spec_csharp_raw_string_end(s@, quote_start as int) == Some(spec_raw_quotes_from(s@, first, quotes as int)),
            spec_raw_quotes_from(s@, first, quotes as int) == spec_raw_quotes_from(s@, cursor as int, quotes as int),
        decreases s.len() - cursor,
    {
        if quotes <= s.len() - cursor && all_bytes_eq(s, cursor, cursor + quotes, DQUOTE) {
            return Some(cursor + quotes);
        }
        cursor = step(s, cursor);
    }
    Some(s.len())
}

/// End of a C# interpolated raw string starting at the `$` at `start`.
pub open spec fn spec_csharp_interpolated_raw_string_end(s: Seq<u8>, start: int) -> Option<int> {
    match spec_csharp_interpolated_raw_quote_start(s, start) {
        Some(q) => spec_csharp_raw_string_end(s, q),
        None => None,
    }
}

pub fn csharp_interpolated_raw_string_end(s: &[u8], start: usize) -> (r: Option<usize>)
    requires
        start <= s.len(),
    ensures
        r is Some <==> spec_csharp_interpolated_raw_string_end(s@, start as int) is Some,
        r matches Some(e) ==> spec_csharp_interpolated_raw_string_end(s@, start as int) == Some(e as int)
            && start < e <= s.len(),
{
    match csharp_interpolated_raw_quote_start(s, start) {
        Some(q) => csharp_raw_string_end(s, q),
        None => None,
    }
}

/// End of a dollar-quote tag (`$$` or `$tag$`) starting at `start`; the `$`
/// must not continue a preceding word.
pub open spec fn spec_dollar_quote_delimiter_end(s: Seq<u8>, start: int) -> Option<int> {
    if at(s, start) != Some(DOLLAR) {
        None
    } else if start > 0 && (spec_is_alnum(s[start - 1]) || s[start - 1] == UNDERSCORE || s[start - 1] == DOLLAR) {
        None
    } else if at(s, start + 1) == Some(DOLLAR) {
        Some(start + 2)
    } else if !(at(s, start + 1) matches Some(b) && spec_is_word_start(b)) {
        None
    } else {
        let cursor = spec_word_end(s, start + 2);
        if at(s, cursor) == Some(DOLLAR) {
            Some(cursor + 1)
        } else {
            None
        }
    }
}

pub fn dollar_quote_delimiter_end(s: &[u8], start: usize) -> (r: Option<usize>)
    requires
        start <= s.len(),
    ensures
        r is Some <==> spec_dollar_quote_delimiter_end(s@, start as int) is Some,
        r matches Some(e) ==> spec_dollar_quote_delimiter_end(s@, start as int) == Some(e as int)
            && start + 2 <= e <= s.len(),
{
    if !is_at(s, start, DOLLAR) {
        return None;
    }
    if start > 0 && (is_alnum(s[start - 1]) || s[start - 1] == UNDERSCORE || s[start - 1] == DOLLAR) {
        return None;
    }
    if is_at(s, start + 1, DOLLAR) {
        return Some(start + 2);
    }
    match get(s, start + 1) {
        Some(b) => {
            if !(is_alpha(b) || b == UNDERSCORE) {
                return None;
            }
        },
        None => {
            return None;
        },
    }
    let cursor = word_end(s, start + 2);
    if is_at(s, cursor, DOLLAR) {
        Some(cursor + 1)
    } else {
        None
    }
}

/// End of a dollar-quoted string: through the repeated tag, or the end of the source.
pub open spec fn spec_dollar_quoted_string_end(s: Seq<u8>, start: int) -> Option<int> {
    match spec_dollar_quote_delimiter_end(s, start) {
        Some(d) => {
            let tag = s.subrange(start, d);
            match find_pat(s, d, tag) {
                Some(k) => Some(k + tag.len()),
                None => Some(s.len() as int),
            }
        },
        None => None,
    }
}

pub fn dollar_quoted_string_end(s: &[u8], start: usize) -> (r: Option<usize>)
    requires
        start <= s.len(),
    ensures
        r is Some <==> spec_dollar_quoted_string_end(s@, start as int) is Some,
        r matches Some(e) ==> spec_dollar_quoted_string_end(s@, start as int) == Some(e as int)
            && start < e <= s.len(),
{
    let d = match dollar_quote_delimiter_end(s, start) {
        Some(d) => d,
        None => {
            return None;
        },
    };
    let tag = slice_range(s, start, d);
    match find_pat_from(s, d, tag) {
        Some(k) => {
            proof {
                lemma_find_pat(s@, d as int, tag@);
            }
            Some(k + tag.len())
        },
        None => Some(s.len()),
    }
}

/// `&s[from..to]`.
pub fn slice_range(s: &[u8], from: usize, to: usize) -> (r: &[u8])
    requires
        from <= to <= s.len(),
    ensures
        r@ == s@.subrange(from as int, to as int),
{
    let (head, _) = s.split_at(to);
    let (_, tail) = head.split_at(from);
    assert(tail@ =~= s@.subrange(from as int, to as int));
    tail
}

/// End of a shell `$'...'` or `$"..."` string starting at `start`.
pub open spec fn spec_shell_prefixed_string_end(s: Seq<u8>, start: int) -> Option<int> {
    if has_at(s, start, seq![DOLLAR, QUOTE]) {
        Some(spec_quoted_string_end(s, start + 1, QUOTE, false, true))
    } else if has_at(s, start, seq![DOLLAR, DQUOTE]) {
        Some(spec_quoted_string_end(s, start + 1, DQUOTE, false, true))
    } else {
        None
    }
}

pub fn shell_prefixed_string_end(s: &[u8], start: usize) -> (r: Option<usize>)
    requires
        start <= s.len(),
    ensures
        r is Some <==> spec_shell_prefixed_string_end(s@, start as int) is Some,
        r matches Some(e) ==> spec_shell_prefixed_string_end(s@, start as int) == Some(e as int)
            && start < e <= s.len(),
{
    let sq: [u8; 2] = [DOLLAR, QUOTE];
    let dq: [u8; 2] = [DOLLAR, DQUOTE];
    assert(sq@ =~= seq![DOLLAR, QUOTE]);
    assert(dq@ =~= seq![DOLLAR, DQUOTE]);
    if starts_at(s, start, sq.as_slice()) {
        Some(quoted_string_end(s, start + 1, QUOTE, false, true))
    } else if starts_at(s, start, dq.as_slice()) {
        Some(quoted_string_end(s, start + 1, DQUOTE, false, true))
    } else {
        None
    }
}

/// `b` may appear in an OCaml quoted-string tag.
pub open spec fn spec_is_tag_byte(b: u8) -> bool {
    spec_is_lower(b) || b == UNDERSCORE
}

/// End of the run of tag bytes starting at `i`.
pub open spec fn spec_tag_end(s: Seq<u8>, i: int) -> int
    decreases s.len() - i,
{
    if 0 <= i < s.len() && spec_is_tag_byte(s[i]) {
        spec_tag_end(s, i + 1)
    } else {
        i
    }
}

/// Scanning state of an OCaml quoted string closed by `|tag}`.
pub open spec fn spec_ocaml_from(s: Seq<u8>, i: int, tag: Seq<u8>) -> int
    decreases s.len() - i,
{
    if i < 0 || i >= s.len() {
        s.len() as int
    } else if s[i] == PIPE && has_at(s, i + 1, tag) && at(s, i + 1 + tag.len()) == Some(RBRACE) {
        i + 2 + tag.len()
    } else {
        spec_ocaml_from(s, i + char_step(s, i), tag)
    }
}

/// End of an OCaml quoted string `{tag|...|tag}` starting at `start`.
pub open spec fn spec_ocaml_quoted_string_end(s: Seq<u8>, start: int) -> Option<int> {
    if at(s, start) != Some(LBRACE) {
        None
    } else {
        let open_bar = spec_tag_end(s, start + 1);
        if at(s, open_bar) != Some(PIPE) {
            None
        } else {
            Some(spec_ocaml_from(s, open_bar + 1, s.subrange(start + 1, open_bar)))
        }
    }
}

pub fn ocaml_quoted_string_end(s: &[u8], start: usize) -> (r: Option<usize>)
    requires
        start <= s.len(),
    ensures
        r is Some <==> spec_ocaml_quoted_string_end(s@, start as int) is Some,
        r matches Some(e) ==> spec_ocaml_quoted_string_end(s@, start as int) == Some(e as int)
            && start < e <= s.len(),
{
    if !is_at(s, start, LBRACE) {
        return None;
    }
    let mut open_bar = start + 1;
    while open_bar < s.len() && (is_lower(s[open_bar]) || s[open_bar] == UNDERSCORE)
        invariant
            start < open_bar <= s.len(),
            spec_tag_end(s@, start as int + 1) == spec_tag_end(s@, open_bar as int),
        decreases s.len() - open_bar,
    {
        open_bar = open_bar + 1;
    }
    if !is_at(s, open_bar, PIPE) {
        return None;
    }
    let tag = slice_range(s, start + 1, open_bar);
    let mut cursor = open_bar + 1;
    while cursor < s.len()
        invariant
            start < open_bar < cursor <= s.len(),
            tag@ == s@.subrange(start as int + 1, open_bar as int),
            spec_ocaml_quoted_string_end(s@, start as int) == Some(spec_ocaml_from(s@, cursor as int, tag@)),
        decreases s.len() - cursor,
    {
        if s[cursor] == PIPE && starts_at(s, cursor + 1, tag) && is_at(s, cursor + 1 + tag.len(), RBRACE) {
            return Some(cursor + 2 + tag.len());
        }
        cursor = step(s, cursor);
    }
    Some(s.len())
}


/// Kinds of Ruby percent literals: `q Q w W i I r s x`.
pub open spec fn spec_is_percent_kind(b: u8) -> bool {
    b == 0x71u8 || b == 0x51u8 || b == 0x77u8 || b == 0x57u8 || b == 0x69u8 || b == 0x49u8
        || b == 0x72u8 || b == 0x73u8 || b == 0x78u8
}

/// End of a Ruby percent literal such as `%w[...]` starting at `start`;
/// regular expressions (`%r`) keep their trailing flags.
pub open spec fn spec_ruby_percent_literal_end(s: Seq<u8>, start: int) -> Option<int> {
    if at(s, start) != Some(PERCENT) {
        None
    } else if !(at(s, start + 1) matches Some(k) && spec_is_percent_kind(k)) {
        None
    } else if !(at(s, start + 2) matches Some(open) && !spec_is_alnum(open) && !spec_is_space(open)) {
        None
    } else {
        let pair = spec_delimiter_pair(s[start + 2]);
        let end = spec_escaped_delimited_end(s, start + 2, pair.0, pair.1);
        if s[start + 1] == 0x72u8 && end < s.len() {
            Some(spec_alpha_run(s, end))
        } else {
            Some(end)
        }
    }
}

pub fn ruby_percent_literal_end(s: &[u8], start: usize) -> (r: Option<usize>)
    requires
        start <= s.len(),
    ensures
        r is Some <==> spec_ruby_percent_literal_end(s@, start as int) is Some,
        r matches Some(e) ==> spec_ruby_percent_literal_end(s@, start as int) == Some(e as int)
            && start < e <= s.len(),
{
    if !is_at(s, start, PERCENT) {
        return None;
    }
    let kind = match get(s, start + 1) {
        Some(k) => k,
        None => {
            return None;
        },
    };
    if !(kind == 0x71u8 || kind == 0x51u8 || kind == 0x77u8 || kind == 0x57u8 || kind == 0x69u8
        || kind == 0x49u8 || kind == 0x72u8 || kind == 0x73u8 || kind == 0x78u8) {
        return None;
    }
    let open = match get(s, start + 2) {
        Some(o) => o,
        None => {
            return None;
        },
    };
    if is_alnum(open) || is_space(open) {
        return None;
    }
    let (close, nested) = delimiter_pair(open);
    let end = escaped_delimited_literal_end(s, start + 2, close, nested);
    if kind == 0x72u8 && end < s.len() {
        Some(alpha_run(s, end))
    } else {
        Some(end)
    }
}

/// `b` may open an Elixir sigil's content.
pub open spec fn spec_is_sigil_open(b: u8) -> bool {
    b == SLASH || b == PIPE || b == DQUOTE || b == QUOTE || b == LPAREN || b == LBRACKET
        || b == LBRACE || b == LT
}

/// End of the run of upper-case letters and digits of a sigil name.
pub open spec fn spec_sigil_name_end(s: Seq<u8>, i: int) -> int
    decreases s.len() - i,
{
    if 0 <= i < s.len() && (spec_is_upper(s[i]) || spec_is_digit(s[i])) {
        spec_sigil_name_end(s, i + 1)
    } else {
        i
    }
}

/// End of an Elixir sigil (`~r/.../i`, `~S"""..."""`) starting at `start`,
/// including its modifiers.
pub open spec fn spec_elixir_sigil_end(s: Seq<u8>, start: int) -> Option<int> {
    if at(s, start) != Some(TILDE) {
        None
    } else if !(at(s, start + 1) matches Some(f) && (spec_is_lower(f) || spec_is_upper(f))) {
        None
    } else {
        let d = if spec_is_lower(s[start + 1]) { start + 2 } else { spec_sigil_name_end(s, start + 2) };
        if (at(s, d) == Some(QUOTE) || at(s, d) == Some(DQUOTE)) && has_at(s, d, seq![s[d], s[d], s[d]]) {
            Some(spec_alnum_run(s, spec_quoted_string_end(s, d, s[d], true, true)))
        } else if !(at(s, d) matches Some(open) && spec_is_sigil_open(open)) {
            None
        } else {
            let pair = spec_delimiter_pair(s[d]);
            Some(spec_alnum_run(s, spec_escaped_delimited_end(s, d, pair.0, pair.1)))
        }
    }
}

pub fn elixir_sigil_end(s: &[u8], start: usize) -> (r: Option<usize>)
    requires
        start <= s.len(),
    ensures
        r is Some <==> spec_elixir_sigil_end(s@, start as int) is Some,
        r matches Some(e) ==> spec_elixir_sigil_end(s@, start as int) == Some(e as int)
            && start < e <= s.len(),
{
    if !is_at(s, start, TILDE) {
        return None;
    }
    let first = match get(s, start + 1) {
        Some(f) => f,
        None => {
            return None;
        },
    };
    let mut d = start + 2;
    if is_lower(first) {
    } else if is_upper(first) {
        while d < s.len() && (is_upper(s[d]) || is_digit(s[d]))
            invariant
                start + 2 <= d <= s.len(),
                spec_sigil_name_end(s@, start as int + 2) == spec_sigil_name_end(s@, d as int),
            decreases s.len() - d,
        {
            d = d + 1;
        }
    } else {
        return None;
    }
    if d < s.len() && (s[d] == QUOTE || s[d] == DQUOTE) {
        let q = s[d];
        let triple: [u8; 3] = [q, q, q];
        assert(triple@ =~= seq![q, q, q]);
        if starts_at(s, d, triple.as_slice()) {
            let end = quoted_string_end(s, d, q, true, true);
            return Some(alnum_run(s, end));
        }
    }
    let open = match get(s, d) {
        Some(o) => o,
        None => {
            return None;
        },
    };
    if !(open == SLASH || open == PIPE || open == DQUOTE || open == QUOTE || open == LPAREN
        || open == LBRACKET || open == LBRACE || open == LT) {
        return None;
    }
    let (close, nested) = delimiter_pair(open);
    let end = escaped_delimited_literal_end(s, d, close, nested);
    Some(alnum_run(s, end))
}

/// End of the spaces and tabs starting at `i`, never past `limit`.
pub open spec fn spec_blank_end(s: Seq<u8>, i: int, limit: int) -> int
    decreases limit - i,
{
    if 0 <= i < limit && i < s.len() && (s[i] == SPACE || s[i] == TAB) {
        spec_blank_end(s, i + 1, limit)
    } else {
        i
    }
}

/// Line-by-line search for a PHP heredoc terminator: the label after optional
/// indentation at the start of a line.
pub open spec fn spec_php_from(s: Seq<u8>, cursor: int, label: Seq<u8>) -> int
    decreases s.len() + 1 - cursor,
{
    if cursor < 0 || cursor > s.len() {
        s.len() as int
    } else {
        let line_end = crate::bytes::find_byte(s, cursor, NL);
        proof {
            crate::bytes::lemma_find_byte(s, cursor, NL);
        }
        let marker = spec_blank_end(s, cursor, line_end);
        if has_at(s, marker, label) {
            marker + label.len()
        } else if line_end >= s.len() {
            s.len() as int
        } else {
            spec_php_from(s, line_end + 1, label)
        }
    }
}

/// End of a PHP heredoc or nowdoc (`<<<LABEL`, `<<<'LABEL'`) starting at `start`.
pub open spec fn spec_php_heredoc_end(s: Seq<u8>, start: int) -> Option<int> {
    if !has_at(s, start, seq![LT, LT, LT]) {
        None
    } else {
        let quoted = at(s, start + 3) == Some(QUOTE) || at(s, start + 3) == Some(DQUOTE);
        let label_start = if quoted { start + 4 } else { start + 3 };
        if !(at(s, label_start) matches Some(b) && spec_is_word_start(b)) {
            None
        } else {
            let label_end = spec_word_end(s, label_start + 1);
            if quoted && at(s, label_end) != Some(s[start + 3]) {
                None
            } else {
                let after = if quoted { label_end + 1 } else { label_end };
                if !(has_at(s, after, seq![CR, NL]) || at(s, after) == Some(NL)) {
                    None
                } else {
                    let body = if has_at(s, after, seq![CR, NL]) { after + 2 } else { after + 1 };
                    Some(spec_php_from(s, body, s.subrange(label_start, label_end)))
                }
            }
        }
    }
}

pub fn php_heredoc_end(s: &[u8], start: usize) -> (r: Option<usize>)
    requires
        start <= s.len(),
    ensures
        r is Some <==> spec_php_heredoc_end(s@, start as int) is Some,
        r matches Some(e) ==> spec_php_heredoc_end(s@, start as int) == Some(e as int)
            && start < e <= s.len(),
{
    let opener: [u8; 3] = [LT, LT, LT];
    assert(opener@ =~= seq![LT, LT, LT]);
    if !starts_at(s, start, opener.as_slice()) {
        return None;
    }
    let mut cursor = start + 3;
    let quote: Option<u8> = if is_at(s, cursor, QUOTE) || is_at(s, cursor, DQUOTE) {
        let q = s[cursor];
        cursor = cursor + 1;
        Some(q)
    } else {
        None
    };
    let label_start = cursor;
    match get(s, cursor) {
        Some(b) => {
            if !(is_alpha(b) || b == UNDERSCORE) {
                return None;
            }
        },
        None => {
            return None;
        },
    }
    let label_end = word_end(s, cursor + 1);
    cursor = label_end;
    if let Some(q) = quote {
        if !is_at(s, cursor, q) {
            return None;
        }
        cursor = cursor + 1;
    }
    let crlf: [u8; 2] = [CR, NL];
    assert(crlf@ =~= seq![CR, NL]);
    if starts_at(s, cursor, crlf.as_slice()) {
        cursor = cursor + 2;
    } else if is_at(s, cursor, NL) {
        cursor = cursor + 1;
    } else {
        return None;
    }
    let label = slice_range(s, label_start, label_end);
    assert(label@.len() > 0);
    while cursor <= s.len()
        invariant
            start + 3 < cursor <= s.len(),
            label_start < label_end <= s.len(),
            label@ == s@.subrange(label_start as int, label_end as int),
            spec_php_heredoc_end(s@, start as int) == Some(spec_php_from(s@, cursor as int, label@)),
        decreases s.len() + 1 - cursor,
    {
        let line_end = crate::bytes::find_byte_from(s, cursor, NL);
        proof {
            crate::bytes::lemma_find_byte(s@, cursor as int, NL);
        }
        let mut marker = cursor;
        while marker < line_end && (s[marker] == SPACE || s[marker] == TAB)
            invariant
                cursor <= marker <= line_end <= s.len(),
                spec_blank_end(s@, cursor as int, line_end as int) == spec_blank_end(s@, marker as int, line_end as int),
            decreases line_end - marker,
        {
            marker = marker + 1;
        }
        if starts_at(s, marker, label) {
            return Some(marker + label.len());
        }
        if line_end == s.len() {
            return Some(s.len());
        }
        cursor = line_end + 1;
    }
    Some(s.len())
}

/// Scanning state of an R raw string closed by `close`, `dashes` dashes and `"`.
pub open spec fn spec_r_raw_from(s: Seq<u8>, i: int, close: u8, dashes: int) -> int
    decreases s.len() - i,
{
    if i < 0 || i >= s.len() {
        s.len() as int
    } else if s[i] == close && i + 1 + dashes <= s.len() && all_eq(s, i + 1, i + 1 + dashes, MINUS)
        && at(s, i + 1 + dashes) == Some(DQUOTE) {
        i + 2 + dashes
    } else {
        spec_r_raw_from(s, i + char_step(s, i), close, dashes)
    }
}

/// The closing bracket of an R raw string's opening bracket.
pub open spec fn spec_r_close(open: u8) -> Option<u8> {
    if open == LPAREN {
        Some(RPAREN)
    } else if open == LBRACKET {
        Some(RBRACKET)
    } else if open == LBRACE {
        Some(RBRACE)
    } else {
        None
    }
}

/// End of an R raw string (`r"(...)"`, `R"--[...]--"`) starting at `start`.
pub open spec fn spec_r_raw_string_end(s: Seq<u8>, start: int) -> Option<int> {
    if !((at(s, start) == Some(0x72u8) || at(s, start) == Some(0x52u8)) && at(s, start + 1) == Some(DQUOTE)) {
        None
    } else {
        let open_at = spec_run_end(s, start + 2, MINUS);
        match at(s, open_at) {
            Some(open) => match spec_r_close(open) {
                Some(close) => Some(spec_r_raw_from(s, open_at + 1, close, open_at - (start + 2))),
                None => None,
            },
            None => None,
        }
    }
}

pub fn r_raw_string_end(s: &[u8], start: usize) -> (r: Option<usize>)
    requires
        start <= s.len(),
    ensures
        r is Some <==> spec_r_raw_string_end(s@, start as int) is Some,
        r matches Some(e) ==> spec_r_raw_string_end(s@, start as int) == Some(e as int)
            && start < e <= s.len(),
{
    if !((is_at(s, start, 0x72u8) || is_at(s, start, 0x52u8)) && is_at(s, start + 1, DQUOTE)) {
        return None;
    }
    let open_at = run_end(s, start + 2, MINUS);
    let dashes = open_at - (start + 2);
    let open = match get(s, open_at) {
        Some(o) => o,
        None => {
            return None;
        },
    };
    let close = if open == LPAREN {
        RPAREN
    } else if open == LBRACKET {
        RBRACKET
    } else if open == LBRACE {
        RBRACE
    } else {
        return None;
    };
    let mut cursor = open_at + 1;
    while cursor < s.len()
        invariant
            start + 2 <= open_at < cursor <= s.len(),
            dashes == open_at - (start + 2),
            spec_r_raw_string_end(s@, start as int) == Some(spec_r_raw_from(s@, cursor as int, close, dashes as int)),
        decreases s.len() - cursor,
    {
        if s[cursor] == close && dashes < s.len() - cursor && all_bytes_eq(s, cursor + 1, cursor + 1 + dashes, MINUS)
            && is_at(s, cursor + 1 + dashes, DQUOTE) {
            return Some(cursor + 2 + dashes);
        }
        cursor = step(s, cursor);
    }
    Some(s.len())
}

/// A sequence equals a one-element sequence exactly when it has that element alone.
proof fn lemma_single_eq(q: Seq<u8>, b: u8)
    ensures
        (q == seq![b]) == (q.len() == 1 && q[0] == b),
{
    if q.len() == 1 && q[0] == b {
        assert(q =~= seq![b]);
    }
    if q == seq![b] {
        assert(seq![b][0] == b);
    }
}

/// `b` may continue a Haskell quasiquoter name.
pub open spec fn spec_is_quoter_byte(b: u8) -> bool {
    spec_is_alnum(b) || b == UNDERSCORE || b == QUOTE || b == DOT
}

/// End of the run of quoter bytes starting at `i`.
pub open spec fn spec_quoter_end(s: Seq<u8>, i: int) -> int
    decreases s.len() - i,
{
    if 0 <= i < s.len() && spec_is_quoter_byte(s[i]) {
        spec_quoter_end(s, i + 1)
    } else {
        i
    }
}

/// The single-letter Template Haskell quoters `e t d p`.
pub open spec fn spec_is_th_quoter(q: Seq<u8>) -> bool {
    q == seq![0x65u8] || q == seq![0x74u8] || q == seq![0x64u8] || q == seq![0x70u8]
}

/// End of a Haskell quasiquote `[quoter|...|]` starting at `start`; Template
/// Haskell quotes are left to the ordinary scanner.
pub open spec fn spec_haskell_quasiquote_end(s: Seq<u8>, start: int) -> Option<int> {
    if at(s, start) != Some(LBRACKET) {
        None
    } else if !(at(s, start + 1) matches Some(b) && spec_is_word_start(b)) {
        None
    } else {
        let cursor = spec_quoter_end(s, start + 2);
        if at(s, cursor) != Some(PIPE) {
            None
        } else if spec_is_th_quoter(s.subrange(start + 1, cursor)) {
            None
        } else {
            match find_pat(s, cursor + 1, seq![PIPE, RBRACKET]) {
                Some(k) => Some(k + 2),
                None => Some(s.len() as int),
            }
        }
    }
}

pub fn haskell_quasiquote_end(s: &[u8], start: usize) -> (r: Option<usize>)
    requires
        start <= s.len(),
    ensures
        r is Some <==> spec_haskell_quasiquote_end(s@, start as int) is Some,
        r matches Some(e) ==> spec_haskell_quasiquote_end(s@, start as int) == Some(e as int)
            && start < e <= s.len(),
{
    if !is_at(s, start, LBRACKET) {
        return None;
    }
    match get(s, start + 1) {
        Some(b) => {
            if !(is_alpha(b) || b == UNDERSCORE) {
                return None;
            }
        },
        None => {
            return None;
        },
    }
    let mut cursor = start + 2;
    while cursor < s.len() && (is_alnum(s[cursor]) || s[cursor] == UNDERSCORE || s[cursor] == QUOTE || s[cursor] == DOT)
        invariant
            start + 2 <= cursor <= s.len(),
            spec_quoter_end(s@, start as int + 2) == spec_quoter_end(s@, cursor as int),
        decreases s.len() - cursor,
    {
        cursor = cursor + 1;
    }
    if !is_at(s, cursor, PIPE) {
        return None;
    }
    let th = cursor == start + 2 && (s[start + 1] == 0x65u8 || s[start + 1] == 0x74u8 || s[start + 1] == 0x64u8
        || s[start + 1] == 0x70u8);
    assert(th == spec_is_th_quoter(s@.subrange(start as int + 1, cursor as int))) by {
        let q = s@.subrange(start as int + 1, cursor as int);
        lemma_single_eq(q, 0x65u8);
        lemma_single_eq(q, 0x74u8);
        lemma_single_eq(q, 0x64u8);
        lemma_single_eq(q, 0x70u8);
    }
    if th {
        return None;
    }
    let closer: [u8; 2] = [PIPE, RBRACKET];
    assert(closer@ =~= seq![PIPE, RBRACKET]);
    match find_pat_from(s, cursor + 1, closer.as_slice()) {
        Some(k) => {
            proof {
                lemma_find_pat(s@, cursor as int + 1, closer@);
            }
            Some(k + 2)
        },
        None => Some(s.len()),
    }
}

/// Scanning state of a Groovy dollar-slashy string; `$$` and `$/` are escapes.
pub open spec fn spec_groovy_from(s: Seq<u8>, i: int) -> int
    decreases s.len() - i,
{
    if i < 0 || i >= s.len() {
        s.len() as int
    } else if s[i] == DOLLAR && (at(s, i + 1) == Some(DOLLAR) || at(s, i + 1) == Some(SLASH)) {
        spec_groovy_from(s, i + 2)
    } else if has_at(s, i, seq![SLASH, DOLLAR]) {
        i + 2
    } else {
        spec_groovy_from(s, i + char_step(s, i))
    }
}

/// End of a Groovy dollar-slashy string `$/.../$` starting at `start`.
pub open spec fn spec_groovy_dollar_slashy_end(s: Seq<u8>, start: int) -> Option<int> {
    if has_at(s, start, seq![DOLLAR, SLASH]) {
        Some(spec_groovy_from(s, start + 2))
    } else {
        None
    }
}

pub fn groovy_dollar_slashy_end(s: &[u8], start: usize) -> (r: Option<usize>)
    requires
        start <= s.len(),
    ensures
        r is Some <==> spec_groovy_dollar_slashy_end(s@, start as int) is Some,
        r matches Some(e) ==> spec_groovy_dollar_slashy_end(s@, start as int) == Some(e as int)
            && start < e <= s.len(),
{
    let opener: [u8; 2] = [DOLLAR, SLASH];
    let closer: [u8; 2] = [SLASH, DOLLAR];
    assert(opener@ =~= seq![DOLLAR, SLASH]);
    assert(closer@ =~= seq![SLASH, DOLLAR]);
    if !starts_at(s, start, opener.as_slice()) {
        return None;
    }
    let mut cursor = start + 2;
    while cursor < s.len()
        invariant
            start + 2 <= cursor,
            closer@ == seq![SLASH, DOLLAR],
            spec_groovy_dollar_slashy_end(s@, start as int) == Some(spec_groovy_from(s@, cursor as int)),
        decreases s.len() - cursor,
    {
        if s[cursor] == DOLLAR && (is_at(s, cursor + 1, DOLLAR) || is_at(s, cursor + 1, SLASH)) {
            cursor = cursor + 2;
        } else if starts_at(s, cursor, closer.as_slice()) {
            return Some(cursor + 2);
        } else {
            cursor = step(s, cursor);
        }
    }
    Some(s.len())
}

/// End of a C# prefixed string (`$"..."`, `@"..."`, `$@"..."`, `@$"..."`, or an
/// interpolated raw string) starting at `start`.
pub open spec fn spec_csharp_prefixed_string_end(s: Seq<u8>, start: int) -> Option<int> {
    if start > s.len() {
        None
    } else if spec_csharp_interpolated_raw_string_end(s, start) is Some {
        spec_csharp_interpolated_raw_string_end(s, start)
    } else if has_at(s, start, seq![DOLLAR, AT, DQUOTE]) || has_at(s, start, seq![AT, DOLLAR, DQUOTE]) {
        Some(spec_verbatim_end(s, start + 2, DQUOTE))
    } else if has_at(s, start, seq![AT, DQUOTE]) {
        Some(spec_verbatim_end(s, start + 1, DQUOTE))
    } else if has_at(s, start, seq![DOLLAR, DQUOTE]) {
        Some(spec_quoted_string_end(s, start + 1, DQUOTE, false, false))
    } else {
        None
    }
}

pub fn csharp_prefixed_string_end(s: &[u8], start: usize) -> (r: Option<usize>)
    requires
        start <= s.len(),
    ensures
        r is Some <==> spec_csharp_prefixed_string_end(s@, start as int) is Some,
        r matches Some(e) ==> spec_csharp_prefixed_string_end(s@, start as int) == Some(e as int)
            && start < e <= s.len(),
{
    if let Some(end) = csharp_interpolated_raw_string_end(s, start) {
        return Some(end);
    }
    let dad: [u8; 3] = [DOLLAR, AT, DQUOTE];
    let ada: [u8; 3] = [AT, DOLLAR, DQUOTE];
    let ad: [u8; 2] = [AT, DQUOTE];
    let dd: [u8; 2] = [DOLLAR, DQUOTE];
    assert(dad@ =~= seq![DOLLAR, AT, DQUOTE]);
    assert(ada@ =~= seq![AT, DOLLAR, DQUOTE]);
    assert(ad@ =~= seq![AT, DQUOTE]);
    assert(dd@ =~= seq![DOLLAR, DQUOTE]);
    if starts_at(s, start, dad.as_slice()) || starts_at(s, start, ada.as_slice()) {
        return Some(verbatim_quoted_string_end(s, start + 2, DQUOTE));
    }
    if starts_at(s, start, ad.as_slice()) {
        return Some(verbatim_quoted_string_end(s, start + 1, DQUOTE));
    }
    if starts_at(s, start, dd.as_slice()) {
        return Some(quoted_string_end(s, start + 1, DQUOTE, false, false));
    }
    None
}

/// End of an F# interpolated string (`$"..."`, `$"""..."""`, `$@"..."`) starting at `start`.
pub open spec fn spec_fsharp_interpolated_string_end(s: Seq<u8>, start: int) -> Option<int> {
    if start > s.len() {
        None
    } else if has_at(s, start, seq![DOLLAR, AT, DQUOTE]) {
        Some(spec_verbatim_end(s, start + 2, DQUOTE))
    } else if !has_at(s, start, seq![DOLLAR, DQUOTE]) {
        None
    } else {
        let triple = has_at(s, start + 1, seq![DQUOTE, DQUOTE, DQUOTE]);
        Some(spec_quoted_string_end(s, start + 1, DQUOTE, triple, triple))
    }
}

pub fn fsharp_interpolated_string_end(s: &[u8], start: usize) -> (r: Option<usize>)
    requires
        start <= s.len(),
    ensures
        r is Some <==> spec_fsharp_interpolated_string_end(s@, start as int) is Some,
        r matches Some(e) ==> spec_fsharp_interpolated_string_end(s@, start as int) == Some(e as int)
            && start < e <= s.len(),
{
    let dad: [u8; 3] = [DOLLAR, AT, DQUOTE];
    let dd: [u8; 2] = [DOLLAR, DQUOTE];
    let ddd: [u8; 3] = [DQUOTE, DQUOTE, DQUOTE];
    assert(dad@ =~= seq![DOLLAR, AT, DQUOTE]);
    assert(dd@ =~= seq![DOLLAR, DQUOTE]);
    assert(ddd@ =~= seq![DQUOTE, DQUOTE, DQUOTE]);
    if starts_at(s, start, dad.as_slice()) {
        return Some(verbatim_quoted_string_end(s, start + 2, DQUOTE));
    }
    if !starts_at(s, start, dd.as_slice()) {
        return None;
    }
    let triple = starts_at(s, start + 1, ddd.as_slice());
    Some(quoted_string_end(s, start + 1, DQUOTE, triple, triple))
}


/// Where the quote of a C++ raw string prefix (`R"`, `u8R"`, `uR"`, `UR"`, `LR"`)
/// starting at `start` is.
pub open spec fn spec_cpp_raw_quote_at(s: Seq<u8>, start: int) -> Option<int> {
    if has_at(s, start, seq![0x52u8, DQUOTE]) {
        Some(start + 1)
    } else if has_at(s, start, seq![0x75u8, 0x38u8, 0x52u8, DQUOTE]) {
        Some(start + 3)
    } else if (at(s, start) == Some(0x75u8) || at(s, start) == Some(0x55u8) || at(s, start) == Some(0x4cu8))
        && has_at(s, start + 1, seq![0x52u8, DQUOTE]) {
        Some(start + 2)
    } else {
        None
    }
}

/// Search for the `(` that ends a raw-string delimiter of at most 16 bytes.
pub open spec fn spec_cpp_paren_from(s: Seq<u8>, i: int, delimiter_start: int) -> Option<int>
    decreases s.len() - i,
{
    if i < 0 || i >= s.len() || i - delimiter_start > 16 {
        None
    } else if s[i] == LPAREN {
        Some(i)
    } else if s[i] == SPACE || s[i] == BSLASH || s[i] == RPAREN || s[i] == TAB || s[i] == CR || s[i] == NL
        || spec_is_control(s[i]) {
        None
    } else {
        spec_cpp_paren_from(s, i + 1, delimiter_start)
    }
}

/// The quote and opening parenthesis of a C++ raw string starting at `start`.
pub open spec fn spec_cpp_raw_string_start(s: Seq<u8>, start: int) -> Option<(int, int)> {
    match spec_cpp_raw_quote_at(s, start) {
        Some(q) => match spec_cpp_paren_from(s, q + 1, q + 1) {
            Some(p) => Some((q, p)),
            None => None,
        },
        None => None,
    }
}

pub fn cpp_raw_string_start(s: &[u8], start: usize) -> (r: Option<(usize, usize)>)
    requires
        start <= s.len(),
    ensures
        r is Some <==> spec_cpp_raw_string_start(s@, start as int) is Some,
        r matches Some((q, p)) ==> spec_cpp_raw_string_start(s@, start as int) == Some((q as int, p as int))
            && start < q < p < s.len() && s@[p as int] == LPAREN,
{
    let r1: [u8; 2] = [0x52u8, DQUOTE];
    let r2: [u8; 4] = [0x75u8, 0x38u8, 0x52u8, DQUOTE];
    assert(r1@ =~= seq![0x52u8, DQUOTE]);
    assert(r2@ =~= seq![0x75u8, 0x38u8, 0x52u8, DQUOTE]);
    let quote_at = if starts_at(s, start, r1.as_slice()) {
        start + 1
    } else if starts_at(s, start, r2.as_slice()) {
        start + 3
    } else if (is_at(s, start, 0x75u8) || is_at(s, start, 0x55u8) || is_at(s, start, 0x4cu8))
        && starts_at(s, start + 1, r1.as_slice()) {
        start + 2
    } else {
        return None;
    };
    let delimiter_start = quote_at + 1;
    let mut cursor = delimiter_start;
    assert(spec_cpp_raw_quote_at(s@, start as int) == Some(quote_at as int));
    while cursor < s.len() && cursor - delimiter_start <= 16
        invariant
            delimiter_start <= cursor <= s.len(),
            delimiter_start == quote_at + 1,
            start < quote_at,
            spec_cpp_raw_quote_at(s@, start as int) == Some(quote_at as int),
            spec_cpp_paren_from(s@, delimiter_start as int, delimiter_start as int)
                == spec_cpp_paren_from(s@, cursor as int, delimiter_start as int),
        decreases s.len() - cursor,
    {
        let b = s[cursor];
        if b == LPAREN {
            return Some((quote_at, cursor));
        }
        if b == SPACE || b == BSLASH || b == RPAREN || b == TAB || b == CR || b == NL || is_control(b) {
            return None;
        }
        cursor = cursor + 1;
    }
    None
}

/// Scanning state of a C++ raw string closed by `)delimiter"`.
pub open spec fn spec_cpp_raw_from(s: Seq<u8>, i: int, delimiter: Seq<u8>) -> int
    decreases s.len() - i,
{
    if i < 0 || i >= s.len() {
        s.len() as int
    } else if s[i] == RPAREN && has_at(s, i + 1, delimiter) && at(s, i + 1 + delimiter.len()) == Some(DQUOTE) {
        i + 2 + delimiter.len()
    } else {
        spec_cpp_raw_from(s, i + char_step(s, i), delimiter)
    }
}

/// End of a C++ raw string `R"delim(...)delim"` starting at `start`.
pub open spec fn spec_cpp_raw_string_end(s: Seq<u8>, start: int) -> Option<int> {
    match spec_cpp_raw_string_start(s, start) {
        Some((q, p)) => Some(spec_cpp_raw_from(s, p + 1, s.subrange(q + 1, p))),
        None => None,
    }
}

pub fn cpp_raw_string_end(s: &[u8], start: usize) -> (r: Option<usize>)
    requires
        start <= s.len(),
    ensures
        r is Some <==> spec_cpp_raw_string_end(s@, start as int) is Some,
        r matches Some(e) ==> spec_cpp_raw_string_end(s@, start as int) == Some(e as int)
            && start < e <= s.len(),
{
    let (quote_at, open_paren) = match cpp_raw_string_start(s, start) {
        Some(r) => r,
        None => {
            return None;
        },
    };
    let delimiter = slice_range(s, quote_at + 1, open_paren);
    let mut cursor = open_paren + 1;
    while cursor < s.len()
        invariant
            start < open_paren < cursor <= s.len(),
            spec_cpp_raw_string_end(s@, start as int) == Some(spec_cpp_raw_from(s@, cursor as int, delimiter@)),
        decreases s.len() - cursor,
    {
        if s[cursor] == RPAREN && starts_at(s, cursor + 1, delimiter) && is_at(s, cursor + 1 + delimiter.len(), DQUOTE) {
            return Some(cursor + 2 + delimiter.len());
        }
        cursor = step(s, cursor);
    }
    Some(s.len())
}

/// The hash count, quote position and quote length (1 or 3) of a hash-delimited
/// raw string (`#"..."#`, `##"""..."""##`) starting at `start`.
pub open spec fn spec_hash_raw_string_start(s: Seq<u8>, start: int) -> Option<(int, int, int)> {
    if at(s, start) != Some(HASH) {
        None
    } else {
        let quote_at = spec_run_end(s, start, HASH);
        if at(s, quote_at) != Some(DQUOTE) {
            None
        } else {
            let quote_len = if has_at(s, quote_at, seq![DQUOTE, DQUOTE, DQUOTE]) { 3int } else { 1int };
            Some((quote_at - start, quote_at, quote_len))
        }
    }
}

pub fn hash_raw_string_start(s: &[u8], start: usize) -> (r: Option<(usize, usize, usize)>)
    requires
        start <= s.len(),
    ensures
        r is Some <==> spec_hash_raw_string_start(s@, start as int) is Some,
        r matches Some((h, q, l)) ==> spec_hash_raw_string_start(s@, start as int) == Some((h as int, q as int, l as int))
            && start < q && q + l <= s.len() && h == q - start,
{
    if !is_at(s, start, HASH) {
        return None;
    }
    let quote_at = run_end(s, start, HASH);
    if !is_at(s, quote_at, DQUOTE) {
        return None;
    }
    let ddd: [u8; 3] = [DQUOTE, DQUOTE, DQUOTE];
    assert(ddd@ =~= seq![DQUOTE, DQUOTE, DQUOTE]);
    let quote_len: usize = if starts_at(s, quote_at, ddd.as_slice()) { 3 } else { 1 };
    Some((quote_at - start, quote_at, quote_len))
}

/// Scanning state of a hash-delimited raw string.
pub open spec fn spec_hash_raw_from(s: Seq<u8>, i: int, hashes: int, quote_len: int) -> int
    decreases s.len() - i,
{
    if i < 0 || i >= s.len() {
        s.len() as int
    } else if i + quote_len + hashes <= s.len() && all_eq(s, i, i + quote_len, DQUOTE)
        && all_eq(s, i + quote_len, i + quote_len + hashes, HASH) {
        i + quote_len + hashes
    } else {
        spec_hash_raw_from(s, i + char_step(s, i), hashes, quote_len)
    }
}

/// End of a hash-delimited raw string starting at `start`.
pub open spec fn spec_hash_raw_string_end(s: Seq<u8>, start: int) -> Option<int> {
    match spec_hash_raw_string_start(s, start) {
        Some((h, q, l)) => Some(spec_hash_raw_from(s, q + l, h, l)),
        None => None,
    }
}

pub fn hash_raw_string_end(s: &[u8], start: usize) -> (r: Option<usize>)
    requires
        start <= s.len(),
    ensures
        r is Some <==> spec_hash_raw_string_end(s@, start as int) is Some,
        r matches Some(e) ==> spec_hash_raw_string_end(s@, start as int) == Some(e as int)
            && start < e <= s.len(),
{
    let (hashes, quote_at, quote_len) = match hash_raw_string_start(s, start) {
        Some(r) => r,
        None => {
            return None;
        },
    };
    let mut cursor = quote_at + quote_len;
    while cursor < s.len()
        invariant
            start < quote_at < cursor <= s.len(),
            hashes == quote_at - start,
            spec_hash_raw_string_end(s@, start as int) == Some(spec_hash_raw_from(s@, cursor as int, hashes as int, quote_len as int)),
        decreases s.len() - cursor,
    {
        if quote_len <= s.len() - cursor && hashes <= s.len() - cursor - quote_len
            && all_bytes_eq(s, cursor, cursor + quote_len, DQUOTE)
            && all_bytes_eq(s, cursor + quote_len, cursor + quote_len + hashes, HASH) {
            return Some(cursor + quote_len + hashes);
        }
        cursor = step(s, cursor);
    }
    Some(s.len())
}

/// The `=` count and content start of a long bracket `[==[` starting at `start`.
pub open spec fn spec_equals_bracket_open(s: Seq<u8>, start: int) -> Option<(int, int)> {
    if at(s, start) != Some(LBRACKET) {
        None
    } else {
        let c = spec_run_end(s, start + 1, EQ);
        if at(s, c) != Some(LBRACKET) {
            None
        } else {
            Some((c - start - 1, c + 1))
        }
    }
}

pub fn equals_bracket_open(s: &[u8], start: usize) -> (r: Option<(usize, usize)>)
    requires
        start <= s.len(),
    ensures
        r is Some <==> spec_equals_bracket_open(s@, start as int) is Some,
        r matches Some((e, c)) ==> spec_equals_bracket_open(s@, start as int) == Some((e as int, c as int))
            && start + 2 <= c <= s.len() && e == c - start - 2,
{
    if !is_at(s, start, LBRACKET) {
        return None;
    }
    let c = run_end(s, start + 1, EQ);
    if !is_at(s, c, LBRACKET) {
        return None;
    }
    Some((c - start - 1, c + 1))
}

/// Scanning state of a long bracket closed by `]`, `equals` `=` and `]`.
pub open spec fn spec_equals_bracket_from(s: Seq<u8>, i: int, equals: int) -> int
    decreases s.len() - i,
{
    if i < 0 || i >= s.len() {
        s.len() as int
    } else if s[i] == RBRACKET && i + 1 + equals <= s.len() && all_eq(s, i + 1, i + 1 + equals, EQ)
        && at(s, i + 1 + equals) == Some(RBRACKET) {
        i + 2 + equals
    } else {
        spec_equals_bracket_from(s, i + char_step(s, i), equals)
    }
}

/// End of a long bracket (Lua long strings, CMake bracket arguments) starting at `start`.
pub open spec fn spec_equals_bracket_end(s: Seq<u8>, start: int) -> Option<int> {
    match spec_equals_bracket_open(s, start) {
        Some((e, c)) => Some(spec_equals_bracket_from(s, c, e)),
        None => None,
    }
}

pub fn equals_bracket_end(s: &[u8], start: usize) -> (r: Option<usize>)
    requires
        start <= s.len(),
    ensures
        r is Some <==> spec_equals_bracket_end(s@, start as int) is Some,
        r matches Some(e) ==> spec_equals_bracket_end(s@, start as int) == Some(e as int)
            && start < e <= s.len(),
{
    let (equals, mut cursor) = match equals_bracket_open(s, start) {
        Some(r) => r,
        None => {
            return None;
        },
    };
    while cursor < s.len()
        invariant
            start < cursor <= s.len(),
            spec_equals_bracket_end(s@, start as int) == Some(spec_equals_bracket_from(s@, cursor as int, equals as int)),
        decreases s.len() - cursor,
    {
        if s[cursor] == RBRACKET && equals < s.len() - cursor - 1 + 1 && all_bytes_eq(s, cursor + 1, cursor + 1 + equals, EQ)
            && is_at(s, cursor + 1 + equals, RBRACKET) {
            return Some(cursor + 2 + equals);
        }
        cursor = step(s, cursor);
    }
    Some(s.len())
}

/// `b` is a digit of the given base; base `0` stands for decimal.
pub open spec fn spec_valid_digit(base: u8, b: u8) -> bool {
    if base == 0x78u8 {
        spec_is_hex(b)
    } else if base == 0x6fu8 {
        0x30u8 <= b <= 0x37u8
    } else if base == 0x62u8 {
        b == 0x30u8 || b == 0x31u8
    } else if base == 0 {
        spec_is_digit(b)
    } else {
        false
    }
}

fn valid_digit(base: u8, b: u8) -> (r: bool)
    ensures
        r == spec_valid_digit(base, b),
{
    if base == 0x78u8 {
        is_hex(b)
    } else if base == 0x6fu8 {
        0x30u8 <= b && b <= 0x37u8
    } else if base == 0x62u8 {
        b == 0x30u8 || b == 0x31u8
    } else if base == 0 {
        is_digit(b)
    } else {
        false
    }
}

/// An apostrophe digit separator at `i`: digits of the base on both sides.
pub open spec fn spec_separated_digit(s: Seq<u8>, i: int, enabled: bool, base: u8) -> bool {
    enabled && at(s, i) == Some(QUOTE) && i > 0 && spec_valid_digit(base, s[i - 1])
        && (at(s, i + 1) matches Some(n) && spec_valid_digit(base, n))
}

/// End of a run of digits of `base`, `_` and (when enabled) `'` separators.
pub open spec fn spec_digits_from(s: Seq<u8>, i: int, base: u8, separators: bool) -> int
    decreases s.len() - i,
{
    if 0 <= i < s.len() && (spec_valid_digit(base, s[i]) || s[i] == UNDERSCORE
        || spec_separated_digit(s, i, separators, base)) {
        spec_digits_from(s, i + 1, base, separators)
    } else {
        i
    }
}

proof fn lemma_digits_from_ge(s: Seq<u8>, i: int, base: u8, separators: bool)
    ensures
        spec_digits_from(s, i, base, separators) >= i,
    decreases s.len() - i,
{
    if 0 <= i < s.len() && (spec_valid_digit(base, s[i]) || s[i] == UNDERSCORE
        || spec_separated_digit(s, i, separators, base)) {
        lemma_digits_from_ge(s, i + 1, base, separators);
    }
}

fn digits_from(s: &[u8], i: usize, base: u8, separators: bool) -> (r: usize)
    requires
        i <= s.len(),
    ensures
        r == spec_digits_from(s@, i as int, base, separators),
        i <= r <= s.len(),
{
    let mut k = i;
    while k < s.len()
        invariant
            i <= k <= s.len(),
            spec_digits_from(s@, i as int, base, separators) == spec_digits_from(s@, k as int, base, separators),
        decreases s.len() - k,
    {
        let b = s[k];
        let separated = separators && b == QUOTE && k > 0 && valid_digit(base, s[k - 1]) && match get(s, k + 1) {
            Some(n) => valid_digit(base, n),
            None => false,
        };
        if !(valid_digit(base, b) || b == UNDERSCORE || separated) {
            return k;
        }
        k = k + 1;
    }
    k
}

/// End of the decimal part of a number: digits, an optional fraction and an
/// optional exponent (dropped again when it has no digits).
pub open spec fn spec_decimal_end(s: Seq<u8>, start: int, sep: bool) -> int {
    let a = spec_digits_from(s, start, 0, sep);
    let b = if at(s, a) == Some(DOT) && (at(s, a + 1) matches Some(d) && spec_is_digit(d)) {
        spec_digits_from(s, a + 1, 0, sep)
    } else {
        a
    };
    if at(s, b) == Some(0x65u8) || at(s, b) == Some(0x45u8) {
        let signed = if at(s, b + 1) == Some(PLUS) || at(s, b + 1) == Some(MINUS) { b + 2 } else { b + 1 };
        let c = spec_digits_from(s, signed, 0, sep);
        if c == signed {
            b
        } else {
            c
        }
    } else {
        b
    }
}

/// End of a numeric literal starting at the digit at `start`: a prefixed
/// (`0x`, `0o`, `0b`) or decimal number followed by any letters or digits of
/// a suffix.
pub open spec fn spec_number_end(s: Seq<u8>, start: int, sep: bool) -> int {
    let body = if at(s, start) == Some(0x30u8) && (at(s, start + 1) matches Some(p) && (p == 0x78u8
        || p == 0x58u8 || p == 0x6fu8 || p == 0x4fu8 || p == 0x62u8 || p == 0x42u8)) {
        spec_digits_from(s, start + 2, spec_lower(s[start + 1]), sep)
    } else {
        spec_decimal_end(s, start, sep)
    };
    spec_word_end(s, body)
}

/// A word run stops at the end of the text or before a byte that is not a
/// word byte.
proof fn lemma_word_end_stops(s: Seq<u8>, i: int)
    ensures
        0 <= spec_word_end(s, i) < s.len() ==> !spec_is_word(s[spec_word_end(s, i)]),
    decreases s.len() - i,
{
    if 0 <= i < s.len() && spec_is_word(s[i]) {
        lemma_word_end_stops(s, i + 1);
    }
}

/// A numeric literal is never cut inside a word: it runs to the end of the
/// text or stops before a byte that is not a letter, digit or `_`.
proof fn lemma_number_end_stops(s: Seq<u8>, start: int, sep: bool)
    ensures
        0 <= spec_number_end(s, start, sep) < s.len() ==> !spec_is_word(s[spec_number_end(s, start, sep)]),
{
    let body = if at(s, start) == Some(0x30u8) && (at(s, start + 1) matches Some(p) && (p == 0x78u8
        || p == 0x58u8 || p == 0x6fu8 || p == 0x4fu8 || p == 0x62u8 || p == 0x42u8)) {
        spec_digits_from(s, start + 2, spec_lower(s[start + 1]), sep)
    } else {
        spec_decimal_end(s, start, sep)
    };
    lemma_word_end_stops(s, body);
}

pub fn number_end(s: &[u8], start: usize, apostrophe_separators: bool) -> (r: usize)
    requires
        start < s.len(),
        spec_is_digit(s@[start as int]),
    ensures
        r == spec_number_end(s@, start as int, apostrophe_separators),
        start < r <= s.len(),
        r < s.len() ==> !spec_is_word(s@[r as int]),
{
    proof {
        lemma_number_end_stops(s@, start as int, apostrophe_separators);
    }
    let sep = apostrophe_separators;
    let mut i = start;
    let prefixed = s[start] == 0x30u8 && match get(s, start + 1) {
        Some(p) => p == 0x78u8 || p == 0x58u8 || p == 0x6fu8 || p == 0x4fu8 || p == 0x62u8 || p == 0x42u8,
        None => false,
    };
    if prefixed {
        let base = lower(s[start + 1]);
        i = digits_from(s, start + 2, base, sep);
    } else {
        i = digits_from(s, start, 0, sep);
        if is_at(s, i, DOT) && match get(s, i + 1) {
            Some(d) => is_digit(d),
            None => false,
        } {
            i = digits_from(s, i + 1, 0, sep);
        }
        if is_at(s, i, 0x65u8) || is_at(s, i, 0x45u8) {
            let exponent = i;
            i = i + 1;
            if is_at(s, i, PLUS) || is_at(s, i, MINUS) {
                i = i + 1;
            }
            let digits = i;
            i = digits_from(s, i, 0, sep);
            if i == digits {
                i = exponent;
            }
        }
        assert(i == spec_decimal_end(s@, start as int, sep));
    }
    assert(i > start) by {
        if !prefixed {
            lemma_digits_from_ge(s@, start as int + 1, 0, sep);
            assert(spec_digits_from(s@, start as int, 0, sep) > start);
        }
    }
    word_end(s, i)
}

/// A word of ASCII upper-case letters, digits and `_` with at least one letter,
/// such as `MAX_RETRIES`.
pub open spec fn spec_looks_like_macro_constant(w: Seq<u8>) -> bool {
    (forall|i: int| 0 <= i < w.len() ==> (if spec_is_alpha(#[trigger] w[i]) { spec_is_upper(w[i]) } else {
        spec_is_digit(w[i]) || w[i] == UNDERSCORE
    })) && (exists|i: int| 0 <= i < w.len() && spec_is_alpha(#[trigger] w[i]))
}

pub fn looks_like_macro_constant(w: &[u8]) -> (r: bool)
    ensures
        r == spec_looks_like_macro_constant(w@),
{
    let mut has_letter = false;
    let mut i: usize = 0;
    while i < w.len()
        invariant
            i <= w.len(),
            forall|k: int| 0 <= k < i ==> (if spec_is_alpha(#[trigger] w@[k]) { spec_is_upper(w@[k]) } else {
                spec_is_digit(w@[k]) || w@[k] == UNDERSCORE
            }),
            has_letter == exists|k: int| 0 <= k < i && spec_is_alpha(#[trigger] w@[k]),
        decreases w.len() - i,
    {
        let b = w[i];
        if is_alpha(b) {
            has_letter = true;
            if !is_upper(b) {
                return false;
            }
        } else if !(is_digit(b) || b == UNDERSCORE) {
            return false;
        }
        i = i + 1;
    }
    has_letter
}

/// A word that starts with an upper-case letter and has a lower-case one
/// later (`Document`, not `URL`); identifiers are ASCII.
pub open spec fn spec_looks_like_type(w: Seq<u8>) -> bool {
    w.len() > 0 && spec_is_upper(w[0]) && exists|i: int| 1 <= i < w.len() && spec_is_lower(#[trigger] w[i])
}

pub fn looks_like_type(w: &[u8]) -> (r: bool)
    ensures
        r == spec_looks_like_type(w@),
{
    if w.len() == 0 || !is_upper(w[0]) {
        return false;
    }
    let mut i: usize = 1;
    while i < w.len()
        invariant
            1 <= i <= w.len(),
            spec_is_upper(w@[0]),
            forall|k: int| 1 <= k < i ==> !spec_is_lower(#[trigger] w@[k]),
        decreases w.len() - i,
    {
        if is_lower(w[i]) {
            assert(1 <= i < w@.len() && spec_is_lower(w@[i as int]));
            assert(exists|k: int| 1 <= k < w@.len() && spec_is_lower(#[trigger] w@[k]));
            assert(w@.len() > 0 && spec_is_upper(w@[0]));
            return true;
        }
        i = i + 1;
    }
    false
}

/// Operator bytes: `+ - * / % = ! < > & | ^ ~ ? :`.
pub open spec fn spec_is_operator(b: u8) -> bool {
    b == PLUS || b == MINUS || b == 0x2au8 || b == SLASH || b == PERCENT || b == EQ || b == 0x21u8
        || b == LT || b == GT || b == 0x26u8 || b == PIPE || b == 0x5eu8 || b == TILDE || b == 0x3fu8
        || b == 0x3au8
}

pub fn is_operator(b: u8) -> (r: bool)
    ensures
        r == spec_is_operator(b),
{
    b == PLUS || b == MINUS || b == 0x2au8 || b == SLASH || b == PERCENT || b == EQ || b == 0x21u8
        || b == LT || b == GT || b == 0x26u8 || b == PIPE || b == 0x5eu8 || b == TILDE || b == 0x3fu8
        || b == 0x3au8
}

/// Line-by-line search for the end of a PowerShell here-string: a line that is
/// exactly the closing quote and `@` (optionally before `\r\n`).
pub open spec fn spec_here_string_from(s: Seq<u8>, line_start: int, quote: u8) -> int
    decreases s.len() + 1 - line_start,
{
    if line_start < 0 || line_start > s.len() {
        s.len() as int
    } else if at(s, line_start) == Some(quote) && at(s, line_start + 1) == Some(AT) && (line_start + 2 == s.len()
        || at(s, line_start + 2) == Some(NL) || has_at(s, line_start + 2, seq![CR, NL])) {
        line_start + 2
    } else {
        let n = crate::bytes::find_byte(s, line_start, NL);
        if n >= s.len() {
            s.len() as int
        } else {
            proof {
                crate::bytes::lemma_find_byte(s, line_start, NL);
            }
            spec_here_string_from(s, n + 1, quote)
        }
    }
}

/// End of a PowerShell here-string (`@"` or `@'` followed by a line break)
/// starting at `start`.
pub open spec fn spec_powershell_here_string_end(s: Seq<u8>, start: int) -> Option<int> {
    let quote = if has_at(s, start, seq![AT, DQUOTE]) {
        Some(DQUOTE)
    } else if has_at(s, start, seq![AT, QUOTE]) {
        Some(QUOTE)
    } else {
        None
    };
    match quote {
        None => None,
        Some(q) => if has_at(s, start + 2, seq![CR, NL]) {
            Some(spec_here_string_from(s, start + 4, q))
        } else if has_at(s, start + 2, seq![NL]) {
            Some(spec_here_string_from(s, start + 3, q))
        } else {
            None
        },
    }
}

pub fn powershell_here_string_end(s: &[u8], start: usize) -> (r: Option<usize>)
    requires
        start <= s.len(),
    ensures
        r is Some <==> spec_powershell_here_string_end(s@, start as int) is Some,
        r matches Some(e) ==> spec_powershell_here_string_end(s@, start as int) == Some(e as int)
            && start < e <= s.len(),
{
    let adq: [u8; 2] = [AT, DQUOTE];
    let asq: [u8; 2] = [AT, QUOTE];
    let crlf: [u8; 2] = [CR, NL];
    let nl: [u8; 1] = [NL];
    assert(adq@ =~= seq![AT, DQUOTE]);
    assert(asq@ =~= seq![AT, QUOTE]);
    assert(crlf@ =~= seq![CR, NL]);
    assert(nl@ =~= seq![NL]);
    let quote = if starts_at(s, start, adq.as_slice()) {
        DQUOTE
    } else if starts_at(s, start, asq.as_slice()) {
        QUOTE
    } else {
        return None;
    };
    let mut line_start = if starts_at(s, start + 2, crlf.as_slice()) {
        start + 4
    } else if starts_at(s, start + 2, nl.as_slice()) {
        start + 3
    } else {
        return None;
    };
    while line_start <= s.len()
        invariant
            start < line_start <= s.len(),
            crlf@ == seq![CR, NL],
            spec_powershell_here_string_end(s@, start as int) == Some(spec_here_string_from(s@, line_start as int, quote)),
        decreases s.len() + 1 - line_start,
    {
        if is_at(s, line_start, quote) && is_at(s, line_start + 1, AT) && (line_start + 2 == s.len()
            || is_at(s, line_start + 2, NL) || starts_at(s, line_start + 2, crlf.as_slice())) {
            return Some(line_start + 2);
        }
        let n = crate::bytes::find_byte_from(s, line_start, NL);
        if n >= s.len() {
            return Some(s.len());
        }
        proof {
            crate::bytes::lemma_find_byte(s@, line_start as int, NL);
        }
        line_start = n + 1;
    }
    Some(s.len())
}

} // verus!
