//! Shell here-documents: the delimiter word after `<<` or `<<-`, quote removal
//! while matching a terminator line, and the end of the body.
use vstd::prelude::*;
use crate::bytes::{
    at, has_at, get, is_at, starts_at, spec_is_space, is_space, find_byte, find_byte_from,
    lemma_find_byte, QUOTE, DQUOTE, BSLASH, NL, CR, TAB, SPACE, LT, GT, MINUS, SEMI, PIPE, AMP,
    LPAREN, RPAREN, DOLLAR, BACKTICK,
};

verus! {

/// A here-document announced on the current line, waiting for its body.
#[derive(Clone, Copy, Debug, PartialEq, Eq, Structural)]
pub struct ShellHeredoc {
    pub delimiter_start: usize,
    pub delimiter_end: usize,
    pub body_start: usize,
    pub strip_tabs: bool,
    pub quote_removal: bool,
}

/// A byte that ends an unquoted shell word.
pub open spec fn spec_ends_word(b: u8) -> bool {
    spec_is_space(b) || b == SEMI || b == PIPE || b == AMP || b == LPAREN || b == RPAREN || b == LT || b == GT
}

/// Scanning state of a here-document delimiter word; `quote` is 0 outside quotes.
pub open spec fn spec_word_from(s: Seq<u8>, cursor: int, quote: u8, removal: bool) -> Option<(int, bool)>
    decreases s.len() - cursor,
{
    if cursor < 0 || cursor >= s.len() {
        if quote == 0 { Some((cursor, removal)) } else { None }
    } else {
        let b = s[cursor];
        if quote == QUOTE {
            if b == QUOTE {
                spec_word_from(s, cursor + 1, 0, removal)
            } else if b == NL {
                None
            } else {
                spec_word_from(s, cursor + 1, quote, removal)
            }
        } else if quote == DQUOTE {
            if b == DQUOTE {
                spec_word_from(s, cursor + 1, 0, removal)
            } else if b == BSLASH {
                if cursor + 1 >= s.len() {
                    None
                } else {
                    spec_word_from(s, cursor + 2, quote, removal || s[cursor + 1] == NL)
                }
            } else if b == NL {
                None
            } else {
                spec_word_from(s, cursor + 1, quote, removal)
            }
        } else if b == QUOTE || b == DQUOTE {
            spec_word_from(s, cursor + 1, b, true)
        } else if b == BSLASH {
            if cursor + 1 >= s.len() {
                None
            } else {
                spec_word_from(s, cursor + 2, 0, true)
            }
        } else if spec_ends_word(b) {
            if quote == 0 { Some((cursor, removal)) } else { None }
        } else {
            spec_word_from(s, cursor + 1, quote, removal)
        }
    }
}

/// End of the here-document delimiter word starting at `start`, and whether
/// it uses quoting (so the terminator is compared after quote removal).
pub open spec fn spec_shell_heredoc_word_end(s: Seq<u8>, start: int) -> Option<(int, bool)> {
    spec_word_from(s, start, 0, false)
}

pub fn shell_heredoc_word_end(s: &[u8], start: usize) -> (r: Option<(usize, bool)>)
    requires
        start <= s.len(),
    ensures
        r is Some <==> spec_shell_heredoc_word_end(s@, start as int) is Some,
        r matches Some((e, q)) ==> spec_shell_heredoc_word_end(s@, start as int) == Some((e as int, q))
            && start <= e <= s.len(),
{
    let mut cursor = start;
    let mut quote: u8 = 0;
    let mut removal = false;
    while cursor < s.len()
        invariant
            start <= cursor <= s.len(),
            quote == 0 || quote == QUOTE || quote == DQUOTE,
            spec_shell_heredoc_word_end(s@, start as int) == spec_word_from(s@, cursor as int, quote, removal),
        decreases s.len() - cursor,
    {
        let b = s[cursor];
        if quote == QUOTE {
            cursor = cursor + 1;
            if b == QUOTE {
                quote = 0;
            } else if b == NL {
                return None;
            }
        } else if quote == DQUOTE {
            if b == DQUOTE {
                quote = 0;
                cursor = cursor + 1;
            } else if b == BSLASH {
                if cursor + 1 >= s.len() {
                    return None;
                }
                if s[cursor + 1] == NL {
                    removal = true;
                }
                cursor = cursor + 2;
            } else if b == NL {
                return None;
            } else {
                cursor = cursor + 1;
            }
        } else if b == QUOTE || b == DQUOTE {
            quote = b;
            removal = true;
            cursor = cursor + 1;
        } else if b == BSLASH {
            if cursor + 1 >= s.len() {
                return None;
            }
            removal = true;
            cursor = cursor + 2;
        } else if is_space(b) || b == SEMI || b == PIPE || b == AMP || b == LPAREN || b == RPAREN || b == LT || b == GT {
            return Some((cursor, removal));
        } else {
            cursor = cursor + 1;
        }
    }
    if quote == 0 {
        Some((cursor, removal))
    } else {
        None
    }
}

/// Bytes a backslash keeps its escaping meaning before inside double quotes.
pub open spec fn spec_dquote_escapable(b: u8) -> bool {
    b == DOLLAR || b == BACKTICK || b == DQUOTE || b == BSLASH
}

/// `x` in front of a quote-removed text, if there is one.
pub open spec fn spec_prepend(x: u8, rest: Option<Seq<u8>>) -> Option<Seq<u8>> {
    match rest {
        Some(u) => Some(seq![x] + u),
        None => None,
    }
}

/// Shell quote removal on a delimiter word from `wc` on, inside the quote
/// `quote` (0 outside quotes): quotes are dropped; inside single quotes every
/// byte stands for itself; inside double quotes a backslash escapes `$`,
/// `` ` ``, `"` and `\` and is kept before any other byte; outside quotes a
/// backslash escapes the next byte. A backslash-newline disappears. A word
/// that ends inside a quote or with a lone backslash has no removal.
pub open spec fn spec_unquote_from(word: Seq<u8>, wc: int, quote: u8) -> Option<Seq<u8>>
    decreases word.len() - wc,
{
    if wc < 0 || wc >= word.len() {
        if quote == 0 {
            Some(Seq::empty())
        } else {
            None
        }
    } else {
        let b = word[wc];
        if quote == QUOTE {
            if b == QUOTE {
                spec_unquote_from(word, wc + 1, 0)
            } else {
                spec_prepend(b, spec_unquote_from(word, wc + 1, quote))
            }
        } else if quote == DQUOTE {
            if b == DQUOTE {
                spec_unquote_from(word, wc + 1, 0)
            } else if b == BSLASH {
                if wc + 1 >= word.len() {
                    None
                } else {
                    let e = word[wc + 1];
                    if e == NL {
                        spec_unquote_from(word, wc + 2, quote)
                    } else if spec_dquote_escapable(e) {
                        spec_prepend(e, spec_unquote_from(word, wc + 2, quote))
                    } else {
                        spec_prepend(BSLASH, spec_unquote_from(word, wc + 1, quote))
                    }
                }
            } else {
                spec_prepend(b, spec_unquote_from(word, wc + 1, quote))
            }
        } else if b == QUOTE || b == DQUOTE {
            spec_unquote_from(word, wc + 1, b)
        } else if b == BSLASH {
            if wc + 1 >= word.len() {
                None
            } else if word[wc + 1] == NL {
                spec_unquote_from(word, wc + 2, quote)
            } else {
                spec_prepend(word[wc + 1], spec_unquote_from(word, wc + 2, quote))
            }
        } else {
            spec_prepend(b, spec_unquote_from(word, wc + 1, quote))
        }
    }
}

/// Compare a candidate line with the delimiter word after quote removal;
/// `quote` is 0 outside quotes.
spec fn spec_matches_from(line: Seq<u8>, word: Seq<u8>, lc: int, wc: int, quote: u8) -> bool
    decreases word.len() - wc,
{
    if wc < 0 || wc >= word.len() {
        quote == 0 && lc == line.len()
    } else {
        let b = word[wc];
        if quote == QUOTE {
            if b == QUOTE {
                spec_matches_from(line, word, lc, wc + 1, 0)
            } else if at(line, lc) == Some(b) {
                spec_matches_from(line, word, lc + 1, wc + 1, quote)
            } else {
                false
            }
        } else if quote == DQUOTE {
            if b == DQUOTE {
                spec_matches_from(line, word, lc, wc + 1, 0)
            } else if b == BSLASH {
                if wc + 1 >= word.len() {
                    false
                } else {
                    let e = word[wc + 1];
                    if e == NL {
                        spec_matches_from(line, word, lc, wc + 2, quote)
                    } else if spec_dquote_escapable(e) {
                        if at(line, lc) != Some(e) {
                            false
                        } else {
                            spec_matches_from(line, word, lc + 1, wc + 2, quote)
                        }
                    } else if at(line, lc) != Some(BSLASH) {
                        false
                    } else {
                        spec_matches_from(line, word, lc + 1, wc + 1, quote)
                    }
                }
            } else if at(line, lc) == Some(b) {
                spec_matches_from(line, word, lc + 1, wc + 1, quote)
            } else {
                false
            }
        } else if b == QUOTE || b == DQUOTE {
            spec_matches_from(line, word, lc, wc + 1, b)
        } else if b == BSLASH {
            if wc + 1 >= word.len() {
                false
            } else if word[wc + 1] == NL {
                spec_matches_from(line, word, lc, wc + 2, quote)
            } else if at(line, lc) != Some(word[wc + 1]) {
                false
            } else {
                spec_matches_from(line, word, lc + 1, wc + 2, quote)
            }
        } else if at(line, lc) != Some(b) {
            false
        } else {
            spec_matches_from(line, word, lc + 1, wc + 1, quote)
        }
    }
}

/// The line terminates a here-document whose delimiter word is `word`: the
/// line is the word after shell quote removal.
pub open spec fn spec_delimiter_matches(line: Seq<u8>, word: Seq<u8>) -> bool {
    spec_unquote_from(word, 0, 0) == Some(line)
}

/// Comparing as the scanner does, byte by byte from `lc` of the line and
/// `wc` of the word, is comparing the rest of the line with the rest of the
/// word after quote removal.
proof fn lemma_matches_from_unquote(line: Seq<u8>, word: Seq<u8>, lc: int, wc: int, quote: u8)
    requires
        0 <= lc <= line.len(),
        0 <= wc,
    ensures
        spec_matches_from(line, word, lc, wc, quote)
            == (spec_unquote_from(word, wc, quote) == Some(line.subrange(lc, line.len() as int))),
    decreases word.len() - wc,
{
    let rest = line.subrange(lc, line.len() as int);
    if wc >= word.len() {
        if lc < line.len() {
            assert(rest.len() > 0);
            assert(rest != Seq::<u8>::empty());
        } else {
            assert(rest =~= Seq::<u8>::empty());
        }
    } else {
        let b = word[wc];
        if lc < line.len() {
            lemma_matches_from_unquote(line, word, lc + 1, wc + 1, quote);
            if wc + 2 <= word.len() {
                lemma_matches_from_unquote(line, word, lc + 1, wc + 2, quote);
            }
            assert(rest =~= seq![line[lc]] + line.subrange(lc + 1, line.len() as int));
        } else {
            assert(rest =~= Seq::<u8>::empty());
        }
        lemma_matches_from_unquote(line, word, lc, wc + 1, 0);
        lemma_matches_from_unquote(line, word, lc, wc + 1, b);
        if wc + 2 <= word.len() {
            lemma_matches_from_unquote(line, word, lc, wc + 2, quote);
        }
        lemma_prepend_eq(line, lc, b, spec_unquote_from(word, wc + 1, quote));
        lemma_prepend_eq(line, lc, BSLASH, spec_unquote_from(word, wc + 1, quote));
        if wc + 1 < word.len() {
            lemma_prepend_eq(line, lc, word[wc + 1], spec_unquote_from(word, wc + 2, quote));
        }
    }
}

/// `x` in front of a removal equals the rest of the line from `lc` exactly
/// when the line has `x` at `lc` and the removal equals the line after it.
proof fn lemma_prepend_eq(line: Seq<u8>, lc: int, x: u8, r: Option<Seq<u8>>)
    requires
        0 <= lc <= line.len(),
    ensures
        (spec_prepend(x, r) == Some(line.subrange(lc, line.len() as int)))
            == (lc < line.len() && line[lc] == x && r == Some(line.subrange(lc + 1, line.len() as int))),
{
    let rest = line.subrange(lc, line.len() as int);
    if let Some(u) = r {
        if lc < line.len() {
            assert(rest =~= seq![line[lc]] + line.subrange(lc + 1, line.len() as int));
            if seq![x] + u == rest {
                assert((seq![x] + u)[0] == x);
                assert(u =~= (seq![x] + u).subrange(1, (seq![x] + u).len() as int));
                assert(rest.subrange(1, rest.len() as int) =~= line.subrange(lc + 1, line.len() as int));
            }
        } else {
            assert((seq![x] + u).len() > 0);
            assert(rest.len() == 0);
        }
    }
}


pub fn shell_heredoc_delimiter_matches(line: &[u8], word: &[u8]) -> (r: bool)
    ensures
        r == spec_delimiter_matches(line@, word@),
{
    proof {
        lemma_matches_from_unquote(line@, word@, 0, 0, 0);
        assert(line@.subrange(0, line@.len() as int) =~= line@);
    }
    let mut lc: usize = 0;
    let mut wc: usize = 0;
    let mut quote: u8 = 0;
    while wc < word.len()
        invariant
            lc <= line.len(),
            wc <= word.len(),
            quote == 0 || quote == QUOTE || quote == DQUOTE,
            spec_matches_from(line@, word@, 0, 0, 0) == spec_matches_from(line@, word@, lc as int, wc as int, quote),
            spec_delimiter_matches(line@, word@) == spec_matches_from(line@, word@, 0, 0, 0),
        decreases word.len() - wc,
    {
        let b = word[wc];
        if quote == QUOTE {
            if b == QUOTE {
                quote = 0;
                wc = wc + 1;
            } else if is_at(line, lc, b) {
                lc = lc + 1;
                wc = wc + 1;
            } else {
                return false;
            }
        } else if quote == DQUOTE {
            if b == DQUOTE {
                quote = 0;
                wc = wc + 1;
            } else if b == BSLASH {
                if wc + 1 >= word.len() {
                    return false;
                }
                let e = word[wc + 1];
                if e == NL {
                    wc = wc + 2;
                } else if e == DOLLAR || e == BACKTICK || e == DQUOTE || e == BSLASH {
                    if !is_at(line, lc, e) {
                        return false;
                    }
                    lc = lc + 1;
                    wc = wc + 2;
                } else {
                    if !is_at(line, lc, BSLASH) {
                        return false;
                    }
                    lc = lc + 1;
                    wc = wc + 1;
                }
            } else if is_at(line, lc, b) {
                lc = lc + 1;
                wc = wc + 1;
            } else {
                return false;
            }
        } else if b == QUOTE || b == DQUOTE {
            quote = b;
            wc = wc + 1;
        } else if b == BSLASH {
            if wc + 1 >= word.len() {
                return false;
            }
            let e = word[wc + 1];
            if e == NL {
                wc = wc + 2;
            } else if !is_at(line, lc, e) {
                return false;
            } else {
                lc = lc + 1;
                wc = wc + 2;
            }
        } else if !is_at(line, lc, b) {
            return false;
        } else {
            lc = lc + 1;
            wc = wc + 1;
        }
    }
    quote == 0 && lc == line.len()
}

/// Skip leading tabs of a line, never past `limit`.
pub open spec fn spec_tabs_end(s: Seq<u8>, i: int, limit: int) -> int
    decreases limit - i,
{
    if at(s, i) == Some(TAB) && i < limit {
        spec_tabs_end(s, i + 1, limit)
    } else {
        i
    }
}

/// Line-by-line search for the terminator of a here-document body.
pub open spec fn spec_body_from(s: Seq<u8>, line_start: int, h: ShellHeredoc) -> int
    decreases s.len() + 1 - line_start,
{
    if line_start < 0 || line_start > s.len() {
        s.len() as int
    } else {
        let n = find_byte(s, line_start, NL);
        let line_end = if n > line_start && s[n - 1] == CR { n - 1 } else { n };
        let compare_start = if h.strip_tabs { spec_tabs_end(s, line_start, line_end) } else { line_start };
        let candidate = s.subrange(compare_start, line_end);
        let word = s.subrange(h.delimiter_start as int, h.delimiter_end as int);
        let matches = if h.quote_removal { spec_delimiter_matches(candidate, word) } else { candidate == word };
        if matches {
            if n < s.len() { n + 1 } else { line_end }
        } else if n >= s.len() {
            s.len() as int
        } else {
            proof {
                lemma_find_byte(s, line_start, NL);
            }
            spec_body_from(s, n + 1, h)
        }
    }
}

/// End of a here-document body that starts at `start`: through the line break
/// after the terminator line, or the end of the source.
pub open spec fn spec_shell_heredoc_body_end(s: Seq<u8>, start: int, h: ShellHeredoc) -> int {
    spec_body_from(s, start, h)
}

pub fn shell_heredoc_body_end(s: &[u8], start: usize, h: ShellHeredoc) -> (r: usize)
    requires
        start <= s.len(),
        h.delimiter_start <= h.delimiter_end <= s.len(),
    ensures
        r == spec_shell_heredoc_body_end(s@, start as int, h),
        start <= r <= s.len(),
{
    let word = crate::scan::slice_range(s, h.delimiter_start, h.delimiter_end);
    let mut line_start = start;
    while line_start <= s.len()
        invariant
            start <= line_start <= s.len(),
            h.delimiter_start <= h.delimiter_end <= s.len(),
            word@ == s@.subrange(h.delimiter_start as int, h.delimiter_end as int),
            spec_shell_heredoc_body_end(s@, start as int, h) == spec_body_from(s@, line_start as int, h),
        decreases s.len() + 1 - line_start,
    {
        let n = find_byte_from(s, line_start, NL);
        proof {
            lemma_find_byte(s@, line_start as int, NL);
        }
        let line_end = if n > line_start && s[n - 1] == CR { n - 1 } else { n };
        let mut compare_start = line_start;
        if h.strip_tabs {
            while is_at(s, compare_start, TAB) && compare_start < line_end
                invariant
                    line_start <= compare_start <= line_end <= s.len(),
                    spec_tabs_end(s@, line_start as int, line_end as int) == spec_tabs_end(s@, compare_start as int, line_end as int),
                decreases line_end - compare_start,
            {
                compare_start = compare_start + 1;
            }
        }
        let candidate = crate::scan::slice_range(s, compare_start, line_end);
        let matches = if h.quote_removal {
            shell_heredoc_delimiter_matches(candidate, word)
        } else {
            bytes_equal(candidate, word)
        };
        if matches {
            return if n < s.len() { n + 1 } else { line_end };
        }
        if n >= s.len() {
            return s.len();
        }
        line_start = n + 1;
    }
    s.len()
}

/// Byte-wise equality of two slices.
pub fn bytes_equal(a: &[u8], b: &[u8]) -> (r: bool)
    ensures
        r == (a@ == b@),
{
    if a.len() != b.len() {
        return false;
    }
    let mut i: usize = 0;
    while i < a.len()
        invariant
            a.len() == b.len(),
            i <= a.len(),
            forall|k: int| 0 <= k < i ==> a@[k] == b@[k],
        decreases a.len() - i,
    {
        if a[i] != b[i] {
            return false;
        }
        i = i + 1;
    }
    assert(a@ =~= b@);
    true
}

/// End of the spaces and tabs starting at `i`.
pub open spec fn spec_blanks_end(s: Seq<u8>, i: int) -> int
    decreases s.len() - i,
{
    if 0 <= i < s.len() && (s[i] == SPACE || s[i] == TAB) {
        spec_blanks_end(s, i + 1)
    } else {
        i
    }
}

/// The here-document announced by `<<WORD` or `<<-WORD` at `start`, when the
/// language has here-documents; `<<<` is a here-string, not a here-document.
pub open spec fn spec_shell_heredoc_start(s: Seq<u8>, start: int, enabled: bool) -> Option<ShellHeredoc> {
    if !enabled || !has_at(s, start, seq![LT, LT]) || at(s, start + 2) == Some(LT) {
        None
    } else {
        let strip = at(s, start + 2) == Some(MINUS);
        let ds = spec_blanks_end(s, if strip { start + 3 } else { start + 2 });
        match spec_shell_heredoc_word_end(s, ds) {
            None => None,
            Some((de, removal)) => if de == ds {
                None
            } else {
                let n = find_byte(s, de, NL);
                if n >= s.len() {
                    None
                } else {
                    Some(ShellHeredoc {
                        delimiter_start: ds as usize,
                        delimiter_end: de as usize,
                        body_start: (n + 1) as usize,
                        strip_tabs: strip,
                        quote_removal: removal,
                    })
                }
            },
        }
    }
}

pub fn shell_heredoc_start(s: &[u8], start: usize, enabled: bool) -> (r: Option<ShellHeredoc>)
    requires
        start <= s.len(),
    ensures
        r == spec_shell_heredoc_start(s@, start as int, enabled),
        r matches Some(h) ==> start < h.delimiter_start < h.delimiter_end < h.body_start <= s.len(),
{
    let lt2: [u8; 2] = [LT, LT];
    assert(lt2@ =~= seq![LT, LT]);
    if !enabled || !starts_at(s, start, lt2.as_slice()) || is_at(s, start + 2, LT) {
        return None;
    }
    let mut cursor = start + 2;
    let strip_tabs = is_at(s, cursor, MINUS);
    if strip_tabs {
        cursor = cursor + 1;
    }
    let first = cursor;
    while cursor < s.len() && (s[cursor] == SPACE || s[cursor] == TAB)
        invariant
            first <= cursor <= s.len(),
            spec_blanks_end(s@, first as int) == spec_blanks_end(s@, cursor as int),
        decreases s.len() - cursor,
    {
        cursor = cursor + 1;
    }
    let delimiter_start = cursor;
    let (delimiter_end, quote_removal) = match shell_heredoc_word_end(s, delimiter_start) {
        Some(w) => w,
        None => {
            return None;
        },
    };
    if delimiter_end == delimiter_start {
        return None;
    }
    let n = find_byte_from(s, delimiter_end, NL);
    proof {
        lemma_find_byte(s@, delimiter_end as int, NL);
    }
    if n >= s.len() {
        return None;
    }
    Some(ShellHeredoc {
        delimiter_start,
        delimiter_end,
        body_start: n + 1,
        strip_tabs,
        quote_removal,
    })
}

} // verus!
