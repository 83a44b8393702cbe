//! Language-dependent token boundaries: which comment, string, macro and
//! identifier forms a profile enables at a given position, and where they end.
use vstd::prelude::*;
use crate::bytes::{
    has2, has3, has4, at, has_at, all_eq, char_step, step, get, is_at, starts_at, spec_is_space, is_space,
    spec_is_alpha, is_alpha, spec_is_alnum, is_alnum, spec_is_digit, is_digit, spec_is_hex, is_hex,
    spec_lower, lower, NL, CR, HASH, SLASH, STAR, LPAREN, RPAREN, LBRACE, RBRACE, LBRACKET,
    RBRACKET, MINUS, SEMI, LT, GT, PIPE, EQ, PLUS, PERCENT, QUOTE, DQUOTE, BANG, DOLLAR, AT,
    UNDERSCORE, BACKTICK, DOT, QUESTION, TILDE, all_bytes_eq,
};
use crate::scan::{
    spec_word_end, word_end, spec_is_word, is_word, spec_is_word_start, spec_run_end, run_end,
    spec_quoted_string_end, quoted_string_end, spec_is_operator, is_operator,
    spec_csharp_interpolated_raw_quote_start, csharp_interpolated_raw_quote_start,
    spec_dollar_quote_delimiter_end, dollar_quote_delimiter_end, spec_hash_raw_string_start,
    hash_raw_string_start, spec_equals_bracket_end, equals_bracket_end,
    spec_groovy_dollar_slashy_end, groovy_dollar_slashy_end, spec_dollar_quoted_string_end,
    dollar_quoted_string_end, spec_shell_prefixed_string_end, shell_prefixed_string_end,
    spec_csharp_prefixed_string_end, csharp_prefixed_string_end, spec_fsharp_interpolated_string_end,
    fsharp_interpolated_string_end, spec_powershell_here_string_end, powershell_here_string_end,
    spec_hash_raw_string_end, hash_raw_string_end, spec_csharp_raw_string_end, csharp_raw_string_end,
    spec_ruby_percent_literal_end, ruby_percent_literal_end, spec_elixir_sigil_end, elixir_sigil_end,
    spec_php_heredoc_end, php_heredoc_end, spec_ocaml_quoted_string_end, ocaml_quoted_string_end,
    spec_haskell_quasiquote_end, haskell_quasiquote_end, spec_r_raw_string_end, r_raw_string_end,
    spec_cpp_raw_string_start, cpp_raw_string_start, spec_cpp_raw_string_end, cpp_raw_string_end,
};
use crate::language::{
    ProfileModel, Language, NESTED_BLOCK_COMMENTS, BLOCK_COMMENTS, PAREN_STAR_COMMENTS,
    BRACE_DASH_COMMENTS, PAREN_SEMICOLON_COMMENTS, STYLE_BRACE, STYLE_ANGLE_HASH, STYLE_HASH_PIPE,
    STYLE_HASH_EQUALS, STYLE_HASH_BRACKET, STYLE_SLASH_PLUS, DOUBLE_SEMICOLON_COMMENTS,
    SLASH_COMMENTS, DASH_COMMENTS, HASH_COMMENTS, SEMICOLON_COMMENTS, PERCENT_COMMENTS,
    APOSTROPHE_COMMENTS, BANG_COMMENTS, PREPROCESSOR, RUST_ATTRIBUTES, MACRO_METAVARIABLES,
    RUST_SYNTAX, LUA_LONG_BRACKETS, CMAKE_BRACKETS, CSHARP_PREFIXED_STRINGS,
    FSHARP_INTERPOLATED_STRINGS, SHELL_PREFIXED_STRINGS, DOLLAR_QUOTED_STRINGS,
    GROOVY_DOLLAR_SLASHY, OBJECTIVE_C_STRINGS, POWERSHELL_HERE_STRINGS, SWIFT_HASH_RAW_STRINGS,
    PYTHON_STRINGS, DECORATORS, DOLLAR_IDENTIFIERS, HYPHEN_IDENTIFIERS, QUESTION_IDENTIFIERS,
    BANG_IDENTIFIERS, APOSTROPHE_IDENTIFIERS, C_FAMILY_PREFIXED_STRINGS, RUBY_PERCENT_LITERALS,
    ELIXIR_SIGILS, PHP_HEREDOCS, OCAML_QUOTED_STRINGS, HASKELL_QUASIQUOTES, R_RAW_STRINGS,
    VERILOG_NUMBERS, POSTFIX_APOSTROPHE_OPERATORS, APOSTROPHE_NAMES, BACKTICK_MACROS,
};

verus! {

/// An optional position as a mathematical integer.
pub open spec fn as_int(r: Option<usize>) -> Option<int> {
    match r {
        Some(e) => Some(e as int),
        None => None,
    }
}

/// The block-comment opener at `i`, with its closer and whether it nests.
pub open spec fn spec_block_comment_delimiters(s: Seq<u8>, i: int, p: ProfileModel) -> Option<(Seq<u8>, Seq<u8>, bool)> {
    let nested = p.flag(NESTED_BLOCK_COMMENTS as int);
    if has_at(s, i, seq![SLASH, STAR]) && p.flag(BLOCK_COMMENTS as int) {
        Some((seq![SLASH, STAR], seq![STAR, SLASH], nested))
    } else if has_at(s, i, seq![LPAREN, STAR]) && p.flag(PAREN_STAR_COMMENTS as int) {
        Some((seq![LPAREN, STAR], seq![STAR, RPAREN], nested))
    } else if has_at(s, i, seq![LBRACE, MINUS]) && p.flag(BRACE_DASH_COMMENTS as int) {
        Some((seq![LBRACE, MINUS], seq![MINUS, RBRACE], nested))
    } else if has_at(s, i, seq![LPAREN, SEMI]) && p.flag(PAREN_SEMICOLON_COMMENTS as int) {
        Some((seq![LPAREN, SEMI], seq![SEMI, RPAREN], nested))
    } else if at(s, i) == Some(LBRACE) && p.flag(STYLE_BRACE as int) {
        Some((seq![LBRACE], seq![RBRACE], false))
    } else if has_at(s, i, seq![LT, HASH]) && p.flag(STYLE_ANGLE_HASH as int) {
        Some((seq![LT, HASH], seq![HASH, GT], false))
    } else if has_at(s, i, seq![HASH, PIPE]) && p.flag(STYLE_HASH_PIPE as int) {
        Some((seq![HASH, PIPE], seq![PIPE, HASH], true))
    } else if has_at(s, i, seq![HASH, EQ]) && p.flag(STYLE_HASH_EQUALS as int) {
        Some((seq![HASH, EQ], seq![EQ, HASH], true))
    } else if has_at(s, i, seq![HASH, LBRACKET]) && p.flag(STYLE_HASH_BRACKET as int) {
        Some((seq![HASH, LBRACKET], seq![RBRACKET, HASH], true))
    } else if has_at(s, i, seq![SLASH, PLUS]) && p.flag(STYLE_SLASH_PLUS as int) {
        Some((seq![SLASH, PLUS], seq![PLUS, SLASH], true))
    } else {
        None
    }
}

fn pair(a: u8, b: u8) -> (r: [u8; 2])
    ensures
        r@ == seq![a, b],
{
    let r = [a, b];
    assert(r@ =~= seq![a, b]);
    r
}

pub fn block_comment_delimiters(s: &[u8], i: usize, lang: &Language) -> (r: Option<(&'static [u8], &'static [u8], bool)>)
    requires
        lang.wf(),
    ensures
        match r {
            Some((o, c, n)) => spec_block_comment_delimiters(s@, i as int, lang@) == Some((o@, c@, n))
                && o.len() > 0 && c.len() > 0 && has_at(s@, i as int, o@),
            None => spec_block_comment_delimiters(s@, i as int, lang@) is None,
        },
{
    let nested = lang.flag(NESTED_BLOCK_COMMENTS);
    if starts_at(s, i, pair(SLASH, STAR).as_slice()) && lang.flag(BLOCK_COMMENTS) {
        let o: &'static [u8] = &[SLASH, STAR];
        let c: &'static [u8] = &[STAR, SLASH];
        assert(o@ =~= seq![SLASH, STAR] && c@ =~= seq![STAR, SLASH]);
        Some((o, c, nested))
    } else if starts_at(s, i, pair(LPAREN, STAR).as_slice()) && lang.flag(PAREN_STAR_COMMENTS) {
        let o: &'static [u8] = &[LPAREN, STAR];
        let c: &'static [u8] = &[STAR, RPAREN];
        assert(o@ =~= seq![LPAREN, STAR] && c@ =~= seq![STAR, RPAREN]);
        Some((o, c, nested))
    } else if starts_at(s, i, pair(LBRACE, MINUS).as_slice()) && lang.flag(BRACE_DASH_COMMENTS) {
        let o: &'static [u8] = &[LBRACE, MINUS];
        let c: &'static [u8] = &[MINUS, RBRACE];
        assert(o@ =~= seq![LBRACE, MINUS] && c@ =~= seq![MINUS, RBRACE]);
        Some((o, c, nested))
    } else if starts_at(s, i, pair(LPAREN, SEMI).as_slice()) && lang.flag(PAREN_SEMICOLON_COMMENTS) {
        let o: &'static [u8] = &[LPAREN, SEMI];
        let c: &'static [u8] = &[SEMI, RPAREN];
        assert(o@ =~= seq![LPAREN, SEMI] && c@ =~= seq![SEMI, RPAREN]);
        Some((o, c, nested))
    } else if is_at(s, i, LBRACE) && lang.flag(STYLE_BRACE) {
        let o: &'static [u8] = &[LBRACE];
        let c: &'static [u8] = &[RBRACE];
        assert(o@ =~= seq![LBRACE] && c@ =~= seq![RBRACE]);
        assert(s@.subrange(i as int, i + 1) =~= seq![LBRACE]);
        Some((o, c, false))
    } else if starts_at(s, i, pair(LT, HASH).as_slice()) && lang.flag(STYLE_ANGLE_HASH) {
        let o: &'static [u8] = &[LT, HASH];
        let c: &'static [u8] = &[HASH, GT];
        assert(o@ =~= seq![LT, HASH] && c@ =~= seq![HASH, GT]);
        Some((o, c, false))
    } else if starts_at(s, i, pair(HASH, PIPE).as_slice()) && lang.flag(STYLE_HASH_PIPE) {
        let o: &'static [u8] = &[HASH, PIPE];
        let c: &'static [u8] = &[PIPE, HASH];
        assert(o@ =~= seq![HASH, PIPE] && c@ =~= seq![PIPE, HASH]);
        Some((o, c, true))
    } else if starts_at(s, i, pair(HASH, EQ).as_slice()) && lang.flag(STYLE_HASH_EQUALS) {
        let o: &'static [u8] = &[HASH, EQ];
        let c: &'static [u8] = &[EQ, HASH];
        assert(o@ =~= seq![HASH, EQ] && c@ =~= seq![EQ, HASH]);
        Some((o, c, true))
    } else if starts_at(s, i, pair(HASH, LBRACKET).as_slice()) && lang.flag(STYLE_HASH_BRACKET) {
        let o: &'static [u8] = &[HASH, LBRACKET];
        let c: &'static [u8] = &[RBRACKET, HASH];
        assert(o@ =~= seq![HASH, LBRACKET] && c@ =~= seq![RBRACKET, HASH]);
        Some((o, c, true))
    } else if starts_at(s, i, pair(SLASH, PLUS).as_slice()) && lang.flag(STYLE_SLASH_PLUS) {
        let o: &'static [u8] = &[SLASH, PLUS];
        let c: &'static [u8] = &[PLUS, SLASH];
        assert(o@ =~= seq![SLASH, PLUS] && c@ =~= seq![PLUS, SLASH]);
        Some((o, c, true))
    } else {
        None
    }
}

/// A line comment starts at `i`.
pub open spec fn spec_is_line_comment(s: Seq<u8>, i: int, p: ProfileModel) -> bool {
    (has_at(s, i, seq![SEMI, SEMI]) && p.flag(DOUBLE_SEMICOLON_COMMENTS as int))
        || (has_at(s, i, seq![SLASH, SLASH]) && p.flag(SLASH_COMMENTS as int))
        || (has_at(s, i, seq![MINUS, MINUS]) && p.flag(DASH_COMMENTS as int))
        || (at(s, i) == Some(HASH) && p.flag(HASH_COMMENTS as int))
        || (at(s, i) == Some(SEMI) && p.flag(SEMICOLON_COMMENTS as int))
        || (at(s, i) == Some(PERCENT) && p.flag(PERCENT_COMMENTS as int))
        || (at(s, i) == Some(QUOTE) && p.flag(APOSTROPHE_COMMENTS as int))
        || (at(s, i) == Some(BANG) && p.flag(BANG_COMMENTS as int))
}

pub fn is_line_comment(s: &[u8], i: usize, lang: &Language) -> (r: bool)
    requires
        lang.wf(),
    ensures
        r == spec_is_line_comment(s@, i as int, lang@),
{
    (starts_at(s, i, pair(SEMI, SEMI).as_slice()) && lang.flag(DOUBLE_SEMICOLON_COMMENTS))
        || (starts_at(s, i, pair(SLASH, SLASH).as_slice()) && lang.flag(SLASH_COMMENTS))
        || (starts_at(s, i, pair(MINUS, MINUS).as_slice()) && lang.flag(DASH_COMMENTS))
        || (is_at(s, i, HASH) && lang.flag(HASH_COMMENTS))
        || (is_at(s, i, SEMI) && lang.flag(SEMICOLON_COMMENTS))
        || (is_at(s, i, PERCENT) && lang.flag(PERCENT_COMMENTS))
        || (is_at(s, i, QUOTE) && lang.flag(APOSTROPHE_COMMENTS))
        || (is_at(s, i, BANG) && lang.flag(BANG_COMMENTS))
}

/// Only whitespace precedes `i` on its line.
pub open spec fn spec_line_blank_before(s: Seq<u8>, i: int) -> bool
    decreases i,
{
    if i <= 0 || i > s.len() {
        i <= s.len()
    } else if s[i - 1] == NL {
        true
    } else if spec_is_space(s[i - 1]) {
        spec_line_blank_before(s, i - 1)
    } else {
        false
    }
}

pub fn line_blank_before(s: &[u8], i: usize) -> (r: bool)
    requires
        i <= s.len(),
    ensures
        r == spec_line_blank_before(s@, i as int),
{
    let mut k = i;
    while k > 0
        invariant
            k <= i <= s.len(),
            spec_line_blank_before(s@, i as int) == spec_line_blank_before(s@, k as int),
        decreases k,
    {
        if s[k - 1] == NL {
            return true;
        }
        if !is_space(s[k - 1]) {
            return false;
        }
        k = k - 1;
    }
    true
}

/// End of the spaces other than line breaks starting at `i`.
pub open spec fn spec_hspace_end(s: Seq<u8>, i: int) -> int
    decreases s.len() - i,
{
    if 0 <= i < s.len() && spec_is_space(s[i]) && s[i] != NL {
        spec_hspace_end(s, i + 1)
    } else {
        i
    }
}

/// A preprocessor directive token (`#` first on its line, then the directive
/// word) starting at `i`.
pub open spec fn spec_preprocessor_end(s: Seq<u8>, i: int, p: ProfileModel) -> Option<int> {
    if !p.flag(PREPROCESSOR as int) || at(s, i) != Some(HASH) || !spec_line_blank_before(s, i) {
        None
    } else {
        Some(spec_word_end(s, spec_hspace_end(s, i + 1)))
    }
}

pub fn preprocessor_end(s: &[u8], i: usize, lang: &Language) -> (r: Option<usize>)
    requires
        lang.wf(),
        i <= s.len(),
    ensures
        as_int(r) == spec_preprocessor_end(s@, i as int, lang@),
        r matches Some(e) ==> i < e <= s.len(),
{
    if !lang.flag(PREPROCESSOR) || !is_at(s, i, HASH) || !line_blank_before(s, i) {
        return None;
    }
    let mut c = i + 1;
    while c < s.len() && is_space(s[c]) && s[c] != NL
        invariant
            i < c <= s.len(),
            spec_hspace_end(s@, i + 1) == spec_hspace_end(s@, c as int),
        decreases s.len() - c,
    {
        c = c + 1;
    }
    Some(word_end(s, c))
}

/// A Rust attribute opener `#[` or `#![` at `i`, giving the end of the opener.
pub open spec fn spec_rust_attribute_start(s: Seq<u8>, i: int, p: ProfileModel) -> Option<int> {
    if !p.flag(RUST_ATTRIBUTES as int) || at(s, i) != Some(HASH) {
        None
    } else if has_at(s, i, seq![HASH, LBRACKET]) {
        Some(i + 2)
    } else if has_at(s, i, seq![HASH, BANG, LBRACKET]) {
        Some(i + 3)
    } else {
        None
    }
}

pub fn rust_attribute_start(s: &[u8], i: usize, lang: &Language) -> (r: Option<usize>)
    requires
        lang.wf(),
    ensures
        as_int(r) == spec_rust_attribute_start(s@, i as int, lang@),
        r matches Some(e) ==> i < e <= s.len(),
{
    if !lang.flag(RUST_ATTRIBUTES) || !is_at(s, i, HASH) {
        return None;
    }
    let hbb: [u8; 3] = [HASH, BANG, LBRACKET];
    assert(hbb@ =~= seq![HASH, BANG, LBRACKET]);
    let hb = pair(HASH, LBRACKET);
    if starts_at(s, i, hb.as_slice()) {
        assert(has_at(s@, i as int, hb@));
        assert(hb@.len() == 2);
        assert(i + 2 <= s@.len());
        assert(s@.len() == s.len());
        Some(i + 2)
    } else if starts_at(s, i, hbb.as_slice()) {
        assert(has_at(s@, i as int, hbb@));
        assert(hbb@.len() == 3);
        assert(i + 3 <= s@.len());
        assert(s@.len() == s.len());
        Some(i + 3)
    } else {
        None
    }
}

/// A macro metavariable `$name` (or a bare `$`) at `i`.
pub open spec fn spec_macro_metavariable_end(s: Seq<u8>, i: int, p: ProfileModel) -> Option<int> {
    if !p.flag(MACRO_METAVARIABLES as int) || at(s, i) != Some(DOLLAR) {
        None
    } else if i + 1 < s.len() && spec_is_word_start(s[i + 1]) {
        Some(spec_word_end(s, i + 2))
    } else {
        Some(i + 1)
    }
}

pub fn macro_metavariable_end(s: &[u8], i: usize, lang: &Language) -> (r: Option<usize>)
    requires
        lang.wf(),
    ensures
        as_int(r) == spec_macro_metavariable_end(s@, i as int, lang@),
        r matches Some(e) ==> i < e <= s.len(),
{
    if !lang.flag(MACRO_METAVARIABLES) || !is_at(s, i, DOLLAR) {
        return None;
    }
    assert(i < s.len());
    if i + 1 < s.len() && (is_alpha(s[i + 1]) || s[i + 1] == UNDERSCORE) {
        Some(word_end(s, i + 2))
    } else {
        Some(i + 1)
    }
}

/// A Rust lifetime or label (`'a` not closed as a character literal) at `i`.
pub open spec fn spec_is_rust_lifetime(s: Seq<u8>, i: int, p: ProfileModel) -> bool {
    p.flag(RUST_SYNTAX as int) && at(s, i) == Some(QUOTE) && i + 1 < s.len()
        && spec_is_word_start(s[i + 1]) && at(s, spec_word_end(s, i + 2)) != Some(QUOTE)
}

pub fn is_rust_lifetime(s: &[u8], i: usize, lang: &Language) -> (r: bool)
    requires
        lang.wf(),
    ensures
        r == spec_is_rust_lifetime(s@, i as int, lang@),
{
    if !lang.flag(RUST_SYNTAX) || !is_at(s, i, QUOTE) {
        return false;
    }
    assert(i < s.len());
    if i + 1 >= s.len() {
        return false;
    }
    if !(is_alpha(s[i + 1]) || s[i + 1] == UNDERSCORE) {
        return false;
    }
    let e = word_end(s, i + 2);
    !is_at(s, e, QUOTE)
}

/// A Lua long comment `--[[ ... ]]` at `start`.
pub open spec fn spec_lua_long_comment_end(s: Seq<u8>, start: int, p: ProfileModel) -> Option<int> {
    if !has_at(s, start, seq![MINUS, MINUS, LBRACKET]) || !p.flag(LUA_LONG_BRACKETS as int) {
        None
    } else {
        spec_equals_bracket_end(s, start + 2)
    }
}

pub fn lua_long_comment_end(s: &[u8], start: usize, lang: &Language) -> (r: Option<usize>)
    requires
        lang.wf(),
        start <= s.len(),
    ensures
        as_int(r) == spec_lua_long_comment_end(s@, start as int, lang@),
        r matches Some(e) ==> start < e <= s.len(),
{
    let open: [u8; 3] = [MINUS, MINUS, LBRACKET];
    assert(open@ =~= seq![MINUS, MINUS, LBRACKET]);
    if !starts_at(s, start, open.as_slice()) || !lang.flag(LUA_LONG_BRACKETS) {
        return None;
    }
    let r = equals_bracket_end(s, start + 2);
    r
}

/// A Lua long string `[[ ... ]]` at `start`.
pub open spec fn spec_lua_long_string_end(s: Seq<u8>, start: int, p: ProfileModel) -> Option<int> {
    if at(s, start) != Some(LBRACKET) || !p.flag(LUA_LONG_BRACKETS as int) {
        None
    } else {
        spec_equals_bracket_end(s, start)
    }
}

pub fn lua_long_string_end(s: &[u8], start: usize, lang: &Language) -> (r: Option<usize>)
    requires
        lang.wf(),
        start <= s.len(),
    ensures
        as_int(r) == spec_lua_long_string_end(s@, start as int, lang@),
        r matches Some(e) ==> start < e <= s.len(),
{
    if !is_at(s, start, LBRACKET) || !lang.flag(LUA_LONG_BRACKETS) {
        return None;
    }
    equals_bracket_end(s, start)
}

/// A CMake bracket comment `#[[ ... ]]` at `start`.
pub open spec fn spec_cmake_bracket_comment_end(s: Seq<u8>, start: int, p: ProfileModel) -> Option<int> {
    if at(s, start) != Some(HASH) || !p.flag(CMAKE_BRACKETS as int) {
        None
    } else {
        spec_equals_bracket_end(s, start + 1)
    }
}

pub fn cmake_bracket_comment_end(s: &[u8], start: usize, lang: &Language) -> (r: Option<usize>)
    requires
        lang.wf(),
        start <= s.len(),
    ensures
        as_int(r) == spec_cmake_bracket_comment_end(s@, start as int, lang@),
        r matches Some(e) ==> start < e <= s.len(),
{
    if !is_at(s, start, HASH) || !lang.flag(CMAKE_BRACKETS) {
        return None;
    }
    equals_bracket_end(s, start + 1)
}

/// A CMake bracket argument `[[ ... ]]` at `start`.
pub open spec fn spec_cmake_bracket_string_end(s: Seq<u8>, start: int, p: ProfileModel) -> Option<int> {
    if at(s, start) != Some(LBRACKET) || !p.flag(CMAKE_BRACKETS as int) {
        None
    } else {
        spec_equals_bracket_end(s, start)
    }
}

pub fn cmake_bracket_string_end(s: &[u8], start: usize, lang: &Language) -> (r: Option<usize>)
    requires
        lang.wf(),
        start <= s.len(),
    ensures
        as_int(r) == spec_cmake_bracket_string_end(s@, start as int, lang@),
        r matches Some(e) ==> start < e <= s.len(),
{
    if !is_at(s, start, LBRACKET) || !lang.flag(CMAKE_BRACKETS) {
        return None;
    }
    equals_bracket_end(s, start)
}

/// `b` (an ASCII letter `b`) and friends used by prefixed literals.
pub const LOWER_B: u8 = 0x62u8;

/// The byte `c`.
pub const LOWER_C: u8 = 0x63u8;

/// The byte `f`.
pub const LOWER_F: u8 = 0x66u8;

/// The byte `r`.
pub const LOWER_R: u8 = 0x72u8;

/// The byte `u`.
pub const LOWER_U: u8 = 0x75u8;

/// The byte `U`.
pub const UPPER_U: u8 = 0x55u8;

/// The byte `L`.
pub const UPPER_L: u8 = 0x4cu8;

/// The byte `R`.
pub const UPPER_R: u8 = 0x52u8;

/// The byte `8`.
pub const DIGIT_8: u8 = 0x38u8;

/// A raw, interpolated or otherwise prefixed string form may start at `start`,
/// so a run of plain text must stop there.
pub open spec fn spec_extended_string_can_start(s: Seq<u8>, start: int, p: ProfileModel) -> bool {
    if at(s, start) == Some(DOLLAR) {
        (p.flag(CSHARP_PREFIXED_STRINGS as int) && (has_at(s, start, seq![DOLLAR, DQUOTE])
            || has_at(s, start, seq![DOLLAR, AT, DQUOTE])
            || spec_csharp_interpolated_raw_quote_start(s, start) is Some))
        || (p.flag(FSHARP_INTERPOLATED_STRINGS as int) && (has_at(s, start, seq![DOLLAR, DQUOTE])
            || has_at(s, start, seq![DOLLAR, AT, DQUOTE])))
        || (p.flag(SHELL_PREFIXED_STRINGS as int) && (has_at(s, start, seq![DOLLAR, QUOTE])
            || has_at(s, start, seq![DOLLAR, DQUOTE])))
        || (p.flag(DOLLAR_QUOTED_STRINGS as int) && spec_dollar_quote_delimiter_end(s, start) is Some)
        || (p.flag(GROOVY_DOLLAR_SLASHY as int) && has_at(s, start, seq![DOLLAR, SLASH]))
    } else if at(s, start) == Some(AT) {
        (p.flag(CSHARP_PREFIXED_STRINGS as int) && (has_at(s, start, seq![AT, DQUOTE])
            || has_at(s, start, seq![AT, DOLLAR, DQUOTE])))
        || (p.flag(OBJECTIVE_C_STRINGS as int) && has_at(s, start, seq![AT, DQUOTE]))
        || (p.flag(POWERSHELL_HERE_STRINGS as int) && (has_at(s, start, seq![AT, DQUOTE, NL])
            || has_at(s, start, seq![AT, DQUOTE, CR, NL]) || has_at(s, start, seq![AT, QUOTE, NL])
            || has_at(s, start, seq![AT, QUOTE, CR, NL])))
    } else if at(s, start) == Some(HASH) {
        p.flag(SWIFT_HASH_RAW_STRINGS as int) && spec_hash_raw_string_start(s, start) is Some
    } else {
        false
    }
}

pub fn extended_string_can_start(s: &[u8], start: usize, lang: &Language) -> (r: bool)
    requires
        lang.wf(),
        start <= s.len(),
    ensures
        r == spec_extended_string_can_start(s@, start as int, lang@),
{
    if is_at(s, start, DOLLAR) {
        (lang.flag(CSHARP_PREFIXED_STRINGS) && (has2(s, start, DOLLAR, DQUOTE)
            || has3(s, start, DOLLAR, AT, DQUOTE)
            || csharp_interpolated_raw_quote_start(s, start).is_some()))
        || (lang.flag(FSHARP_INTERPOLATED_STRINGS) && (has2(s, start, DOLLAR, DQUOTE)
            || has3(s, start, DOLLAR, AT, DQUOTE)))
        || (lang.flag(SHELL_PREFIXED_STRINGS) && (has2(s, start, DOLLAR, QUOTE)
            || has2(s, start, DOLLAR, DQUOTE)))
        || (lang.flag(DOLLAR_QUOTED_STRINGS) && dollar_quote_delimiter_end(s, start).is_some())
        || (lang.flag(GROOVY_DOLLAR_SLASHY) && has2(s, start, DOLLAR, SLASH))
    } else if is_at(s, start, AT) {
        (lang.flag(CSHARP_PREFIXED_STRINGS) && (has2(s, start, AT, DQUOTE)
            || has3(s, start, AT, DOLLAR, DQUOTE)))
        || (lang.flag(OBJECTIVE_C_STRINGS) && has2(s, start, AT, DQUOTE))
        || (lang.flag(POWERSHELL_HERE_STRINGS) && (has3(s, start, AT, DQUOTE, NL)
            || has4(s, start, AT, DQUOTE, CR, NL) || has3(s, start, AT, QUOTE, NL)
            || has4(s, start, AT, QUOTE, CR, NL)))
    } else if is_at(s, start, HASH) {
        lang.flag(SWIFT_HASH_RAW_STRINGS) && hash_raw_string_start(s, start).is_some()
    } else {
        false
    }
}

/// The number of `#` of a Rust raw string opener (`r"`, `r#"`, `br"`, `cr#"`) at `i`.
pub open spec fn spec_rust_raw_hashes(s: Seq<u8>, i: int, p: ProfileModel) -> Option<int> {
    if !p.flag(RUST_SYNTAX as int) {
        None
    } else {
        let c = if at(s, i) == Some(LOWER_B) || at(s, i) == Some(LOWER_C) { i + 1 } else { i };
        if at(s, c) != Some(LOWER_R) {
            None
        } else {
            let e = spec_run_end(s, c + 1, HASH);
            if at(s, e) == Some(DQUOTE) {
                Some(e - (c + 1))
            } else {
                None
            }
        }
    }
}

pub fn rust_raw_hashes(s: &[u8], i: usize, lang: &Language) -> (r: Option<usize>)
    requires
        lang.wf(),
        i <= s.len(),
    ensures
        as_int(r) == spec_rust_raw_hashes(s@, i as int, lang@),
        r matches Some(h) ==> i + h + 1 < s.len(),
{
    if !lang.flag(RUST_SYNTAX) {
        return None;
    }
    let c = if is_at(s, i, LOWER_B) || is_at(s, i, LOWER_C) { i + 1 } else { i };
    if !is_at(s, c, LOWER_R) {
        return None;
    }
    let e = run_end(s, c + 1, HASH);
    if is_at(s, e, DQUOTE) {
        Some(e - (c + 1))
    } else {
        None
    }
}

/// A Python string prefix letter (`r`, `u`, `b`, `f`, either case).
pub open spec fn spec_is_prefix_letter(b: u8) -> bool {
    let l = spec_lower(b);
    l == LOWER_R || l == LOWER_U || l == LOWER_B || l == LOWER_F
}

/// End of the (at most two letter) Python string prefix at `i`.
pub open spec fn spec_string_prefix_end(s: Seq<u8>, i: int) -> int {
    if 0 <= i < s.len() && spec_is_prefix_letter(s[i]) {
        if i + 1 < s.len() && spec_is_prefix_letter(s[i + 1]) {
            i + 2
        } else {
            i + 1
        }
    } else {
        i
    }
}

/// A Python string at `i`: a triple-quoted string, or a prefixed one (`r"`,
/// `f'''`, `rb"`). Gives the quote position, the quote and whether it is triple.
pub open spec fn spec_python_string_start(s: Seq<u8>, i: int, p: ProfileModel) -> Option<(int, u8, bool)> {
    if !p.flag(PYTHON_STRINGS as int) {
        None
    } else if at(s, i) == Some(QUOTE) || at(s, i) == Some(DQUOTE) {
        let q = s[i];
        if has_at(s, i, seq![q, q, q]) {
            Some((i, q, true))
        } else {
            None
        }
    } else {
        let qa = spec_string_prefix_end(s, i);
        if qa == i || !(at(s, qa) == Some(QUOTE) || at(s, qa) == Some(DQUOTE)) {
            None
        } else {
            let q = s[qa];
            Some((qa, q, has_at(s, qa, seq![q, q, q])))
        }
    }
}

pub fn python_string_start(s: &[u8], i: usize, lang: &Language) -> (r: Option<(usize, u8, bool)>)
    requires
        lang.wf(),
        i <= s.len(),
    ensures
        match r {
            Some((qa, q, t)) => spec_python_string_start(s@, i as int, lang@) == Some((qa as int, q, t))
                && i <= qa < s.len() && s@[qa as int] == q && (t ==> qa + 3 <= s.len()),
            None => spec_python_string_start(s@, i as int, lang@) is None,
        },
{
    if !lang.flag(PYTHON_STRINGS) {
        return None;
    }
    if is_at(s, i, QUOTE) || is_at(s, i, DQUOTE) {
        let q = s[i];
        if has3(s, i, q, q, q) {
            return Some((i, q, true));
        }
        return None;
    }
    let mut qa = i;
    if i < s.len() && is_prefix_letter(s[i]) {
        qa = i + 1;
        if i + 1 < s.len() && is_prefix_letter(s[i + 1]) {
            qa = i + 2;
        }
    }
    assert(qa == spec_string_prefix_end(s@, i as int));
    if qa == i || !(is_at(s, qa, QUOTE) || is_at(s, qa, DQUOTE)) {
        return None;
    }
    let q = s[qa];
    Some((qa, q, has3(s, qa, q, q, q)))
}

fn is_prefix_letter(b: u8) -> (r: bool)
    ensures
        r == spec_is_prefix_letter(b),
{
    let l = lower(b);
    l == LOWER_R || l == LOWER_U || l == LOWER_B || l == LOWER_F
}

/// A byte that starts a comment, string, directive, attribute or operator
/// under the profile: plain text stops before it.
pub open spec fn spec_is_special_start(s: Seq<u8>, i: int, p: ProfileModel) -> bool {
    spec_is_line_comment(s, i, p)
        || spec_block_comment_delimiters(s, i, p) is Some
        || spec_extended_string_can_start(s, i, p)
        || spec_preprocessor_end(s, i, p) is Some
        || (p.flag(DECORATORS as int) && at(s, i) == Some(AT))
        || spec_rust_attribute_start(s, i, p) is Some
        || spec_macro_metavariable_end(s, i, p) is Some
        || spec_rust_raw_hashes(s, i, p) is Some
        || spec_python_string_start(s, i, p) is Some
        || s[i] == QUOTE || s[i] == DQUOTE || s[i] == BACKTICK
        || spec_is_operator(s[i])
}

pub fn is_special_start(s: &[u8], i: usize, lang: &Language) -> (r: bool)
    requires
        lang.wf(),
        i < s.len(),
    ensures
        r == spec_is_special_start(s@, i as int, lang@),
{
    is_line_comment(s, i, lang)
        || block_comment_delimiters(s, i, lang).is_some()
        || extended_string_can_start(s, i, lang)
        || preprocessor_end(s, i, lang).is_some()
        || (lang.flag(DECORATORS) && is_at(s, i, AT))
        || rust_attribute_start(s, i, lang).is_some()
        || macro_metavariable_end(s, i, lang).is_some()
        || rust_raw_hashes(s, i, lang).is_some()
        || python_string_start(s, i, lang).is_some()
        || s[i] == QUOTE || s[i] == DQUOTE || s[i] == BACKTICK
        || is_operator(s[i])
}

/// `b` can start an identifier.
pub open spec fn spec_is_ident_start(b: u8, p: ProfileModel) -> bool {
    spec_is_alpha(b) || b == UNDERSCORE || (b == DOLLAR && p.flag(DOLLAR_IDENTIFIERS as int))
}

pub fn is_ident_start(b: u8, lang: &Language) -> (r: bool)
    requires
        lang.wf(),
    ensures
        r == spec_is_ident_start(b, lang@),
{
    is_alpha(b) || b == UNDERSCORE || (b == DOLLAR && lang.flag(DOLLAR_IDENTIFIERS))
}

/// `b` can continue an identifier.
pub open spec fn spec_is_ident_continue(b: u8, p: ProfileModel) -> bool {
    spec_is_alnum(b) || b == UNDERSCORE
        || (b == DOLLAR && p.flag(DOLLAR_IDENTIFIERS as int))
        || (b == MINUS && p.flag(HYPHEN_IDENTIFIERS as int))
        || (b == QUESTION && p.flag(QUESTION_IDENTIFIERS as int))
        || (b == BANG && p.flag(BANG_IDENTIFIERS as int))
        || (b == QUOTE && p.flag(APOSTROPHE_IDENTIFIERS as int))
}

pub fn is_ident_continue(b: u8, lang: &Language) -> (r: bool)
    requires
        lang.wf(),
    ensures
        r == spec_is_ident_continue(b, lang@),
{
    is_alnum(b) || b == UNDERSCORE
        || (b == DOLLAR && lang.flag(DOLLAR_IDENTIFIERS))
        || (b == MINUS && lang.flag(HYPHEN_IDENTIFIERS))
        || (b == QUESTION && lang.flag(QUESTION_IDENTIFIERS))
        || (b == BANG && lang.flag(BANG_IDENTIFIERS))
        || (b == QUOTE && lang.flag(APOSTROPHE_IDENTIFIERS))
}

/// End of the identifier characters starting at `i`.
pub open spec fn spec_ident_end(s: Seq<u8>, i: int, p: ProfileModel) -> int
    decreases s.len() - i,
{
    if 0 <= i < s.len() && spec_is_ident_continue(s[i], p) {
        spec_ident_end(s, i + 1, p)
    } else {
        i
    }
}

pub fn ident_end(s: &[u8], i: usize, lang: &Language) -> (r: usize)
    requires
        lang.wf(),
        i <= s.len(),
    ensures
        r == spec_ident_end(s@, i as int, lang@),
        i <= r <= s.len(),
{
    let mut k = i;
    while k < s.len() && is_ident_continue(s[k], lang)
        invariant
            lang.wf(),
            i <= k <= s.len(),
            spec_ident_end(s@, i as int, lang@) == spec_ident_end(s@, k as int, lang@),
        decreases s.len() - k,
    {
        k = k + 1;
    }
    k
}

/// A grouping or separating punctuation byte: `( [ { ) ] } , ;`.
pub open spec fn spec_is_punctuation(b: u8) -> bool {
    b == LPAREN || b == LBRACKET || b == LBRACE || b == RPAREN || b == RBRACKET || b == RBRACE
        || b == 0x2cu8 || b == SEMI
}

/// A real token (not plain text) can begin at `i`.
pub open spec fn spec_starts_token(s: Seq<u8>, i: int, p: ProfileModel) -> bool {
    spec_is_special_start(s, i, p) || spec_is_digit(s[i]) || spec_is_ident_start(s[i], p)
        || spec_is_operator(s[i]) || spec_is_punctuation(s[i])
}

pub fn starts_token(s: &[u8], i: usize, lang: &Language) -> (r: bool)
    requires
        lang.wf(),
        i < s.len(),
    ensures
        r == spec_starts_token(s@, i as int, lang@),
{
    let b = s[i];
    is_special_start(s, i, lang) || is_digit(b) || is_ident_start(b, lang) || is_operator(b)
        || b == LPAREN || b == LBRACKET || b == LBRACE || b == RPAREN || b == RBRACKET
        || b == RBRACE || b == 0x2cu8 || b == SEMI
}

/// Strings with a one-letter prefix: Rust `b"` `b'` `c"`, C-family `u8"`
/// `u"` `U'` `L"`.
pub open spec fn spec_simple_prefixed_string_end(s: Seq<u8>, start: int, p: ProfileModel) -> Option<int> {
    if p.flag(RUST_SYNTAX as int) && (has_at(s, start, seq![LOWER_B, DQUOTE])
        || has_at(s, start, seq![LOWER_B, QUOTE]) || has_at(s, start, seq![LOWER_C, DQUOTE])) {
        Some(spec_quoted_string_end(s, start + 1, s[start + 1], false, false))
    } else if p.flag(C_FAMILY_PREFIXED_STRINGS as int) {
        if has_at(s, start, seq![LOWER_U, DIGIT_8, DQUOTE]) || has_at(s, start, seq![LOWER_U, DIGIT_8, QUOTE]) {
            Some(spec_quoted_string_end(s, start + 2, s[start + 2], false, false))
        } else if (at(s, start) == Some(LOWER_U) || at(s, start) == Some(UPPER_U) || at(s, start) == Some(UPPER_L))
            && (at(s, start + 1) == Some(QUOTE) || at(s, start + 1) == Some(DQUOTE)) {
            Some(spec_quoted_string_end(s, start + 1, s[start + 1], false, false))
        } else {
            None
        }
    } else {
        None
    }
}

pub fn simple_prefixed_string_end(s: &[u8], start: usize, lang: &Language) -> (r: Option<usize>)
    requires
        lang.wf(),
        start <= s.len(),
    ensures
        as_int(r) == spec_simple_prefixed_string_end(s@, start as int, lang@),
        r matches Some(e) ==> start < e <= s.len(),
{
    if lang.flag(RUST_SYNTAX) && (has2(s, start, LOWER_B, DQUOTE) || has2(s, start, LOWER_B, QUOTE)
        || has2(s, start, LOWER_C, DQUOTE)) {
        return Some(quoted_string_end(s, start + 1, s[start + 1], false, false));
    }
    if lang.flag(C_FAMILY_PREFIXED_STRINGS) {
        if has3(s, start, LOWER_U, DIGIT_8, DQUOTE) || has3(s, start, LOWER_U, DIGIT_8, QUOTE) {
            return Some(quoted_string_end(s, start + 2, s[start + 2], false, false));
        }
        if (is_at(s, start, LOWER_U) || is_at(s, start, UPPER_U) || is_at(s, start, UPPER_L))
            && (is_at(s, start + 1, QUOTE) || is_at(s, start + 1, DQUOTE)) {
            return Some(quoted_string_end(s, start + 1, s[start + 1], false, false));
        }
    }
    None
}

/// Scanning state of a Rust raw string body closed by `"` and `hashes` `#`.
pub open spec fn spec_rust_raw_from(s: Seq<u8>, c: int, hashes: int) -> int
    decreases s.len() - c,
{
    if c < 0 || c >= s.len() {
        s.len() as int
    } else if s[c] == DQUOTE && all_eq(s, c + 1, c + 1 + hashes, HASH) {
        c + 1 + hashes
    } else {
        spec_rust_raw_from(s, c + char_step(s, c), hashes)
    }
}

/// End of a Rust raw string (`r#"..."#`, `br"..."`) starting at `i`.
pub open spec fn spec_rust_raw_string_end(s: Seq<u8>, i: int, p: ProfileModel) -> Option<int> {
    match spec_rust_raw_hashes(s, i, p) {
        None => None,
        Some(h) => {
            let q = i + (if at(s, i) == Some(LOWER_B) || at(s, i) == Some(LOWER_C) { 1int } else { 0int }) + 1 + h;
            Some(spec_rust_raw_from(s, q + 1, h))
        },
    }
}

pub fn rust_raw_string_end(s: &[u8], i: usize, lang: &Language) -> (r: Option<usize>)
    requires
        lang.wf(),
        i <= s.len(),
    ensures
        as_int(r) == spec_rust_raw_string_end(s@, i as int, lang@),
        r matches Some(e) ==> i < e <= s.len(),
{
    let h = match rust_raw_hashes(s, i, lang) {
        Some(h) => h,
        None => {
            return None;
        },
    };
    let pre: usize = if is_at(s, i, LOWER_B) || is_at(s, i, LOWER_C) { 1 } else { 0 };
    let ghost e = spec_run_end(s@, i + pre + 1, HASH);
    assert(i + pre + 1 + h < s.len()) by {
        assert(e - (i + pre + 1) == h);
        assert(at(s@, e) == Some(DQUOTE));
    }
    let mut c = i + pre + 1 + h + 1;
    while c < s.len()
        invariant
            i < c <= s.len(),
            spec_rust_raw_string_end(s@, i as int, lang@) == Some(spec_rust_raw_from(s@, c as int, h as int)),
        decreases s.len() - c,
    {
        if s[c] == DQUOTE && h <= s.len() - c - 1 && all_bytes_eq(s, c + 1, c + 1 + h, HASH) {
            return Some(c + 1 + h);
        }
        c = step(s, c);
    }
    Some(s.len())
}

/// The string-like literal that the profile's extended syntaxes start at `start`.
pub open spec fn spec_language_string_end(s: Seq<u8>, start: int, p: ProfileModel, cpp: bool) -> Option<int> {
    if start < 0 || start >= s.len() {
        None
    } else {
        let b = s[start];
        if b == DOLLAR {
            if p.flag(GROOVY_DOLLAR_SLASHY as int) && has_at(s, start, seq![DOLLAR, SLASH]) {
                spec_groovy_dollar_slashy_end(s, start)
            } else if p.flag(DOLLAR_QUOTED_STRINGS as int) && spec_dollar_quoted_string_end(s, start) is Some {
                spec_dollar_quoted_string_end(s, start)
            } else if p.flag(SHELL_PREFIXED_STRINGS as int) && spec_shell_prefixed_string_end(s, start) is Some {
                spec_shell_prefixed_string_end(s, start)
            } else if p.flag(CSHARP_PREFIXED_STRINGS as int) && spec_csharp_prefixed_string_end(s, start) is Some {
                spec_csharp_prefixed_string_end(s, start)
            } else if p.flag(FSHARP_INTERPOLATED_STRINGS as int) && spec_fsharp_interpolated_string_end(s, start) is Some {
                spec_fsharp_interpolated_string_end(s, start)
            } else {
                None
            }
        } else if b == AT {
            if p.flag(POWERSHELL_HERE_STRINGS as int) && spec_powershell_here_string_end(s, start) is Some {
                spec_powershell_here_string_end(s, start)
            } else if p.flag(CSHARP_PREFIXED_STRINGS as int) && spec_csharp_prefixed_string_end(s, start) is Some {
                spec_csharp_prefixed_string_end(s, start)
            } else if p.flag(OBJECTIVE_C_STRINGS as int) && has_at(s, start, seq![AT, DQUOTE]) {
                Some(spec_quoted_string_end(s, start + 1, DQUOTE, false, false))
            } else {
                None
            }
        } else if b == HASH && p.flag(SWIFT_HASH_RAW_STRINGS as int) {
            spec_hash_raw_string_end(s, start)
        } else if b == DQUOTE && p.flag(CSHARP_PREFIXED_STRINGS as int) {
            spec_csharp_raw_string_end(s, start)
        } else if b == PERCENT && p.flag(RUBY_PERCENT_LITERALS as int) {
            spec_ruby_percent_literal_end(s, start)
        } else if b == TILDE && p.flag(ELIXIR_SIGILS as int) {
            spec_elixir_sigil_end(s, start)
        } else if b == LT && p.flag(PHP_HEREDOCS as int) {
            spec_php_heredoc_end(s, start)
        } else if b == LBRACE && p.flag(OCAML_QUOTED_STRINGS as int) {
            spec_ocaml_quoted_string_end(s, start)
        } else if b == LBRACKET && p.flag(HASKELL_QUASIQUOTES as int) {
            spec_haskell_quasiquote_end(s, start)
        } else if b == LOWER_R || b == UPPER_R {
            if p.flag(R_RAW_STRINGS as int) && spec_r_raw_string_end(s, start) is Some {
                spec_r_raw_string_end(s, start)
            } else if spec_rust_raw_string_end(s, start, p) is Some {
                spec_rust_raw_string_end(s, start, p)
            } else if cpp && spec_cpp_raw_string_start(s, start) is Some {
                spec_cpp_raw_string_end(s, start)
            } else {
                None
            }
        } else if b == LOWER_B || b == LOWER_C {
            if spec_rust_raw_string_end(s, start, p) is Some {
                spec_rust_raw_string_end(s, start, p)
            } else {
                spec_simple_prefixed_string_end(s, start, p)
            }
        } else if b == LOWER_U || b == UPPER_U || b == UPPER_L {
            if cpp && spec_cpp_raw_string_start(s, start) is Some {
                spec_cpp_raw_string_end(s, start)
            } else {
                spec_simple_prefixed_string_end(s, start, p)
            }
        } else {
            None
        }
    }
}

fn lift(r: Option<usize>) -> (o: Option<usize>)
    ensures
        o == r,
{
    r
}

fn dollar_string_end(s: &[u8], start: usize, lang: &Language) -> (r: Option<usize>)
    requires
        lang.wf(),
        start < s.len(),
        s[start as int] == DOLLAR,
    ensures
        as_int(r) == spec_language_string_end(s@, start as int, lang@, false),
        r matches Some(e) ==> start < e <= s.len(),
{
    if lang.flag(GROOVY_DOLLAR_SLASHY) && has2(s, start, DOLLAR, SLASH) {
        return groovy_dollar_slashy_end(s, start);
    }
    if lang.flag(DOLLAR_QUOTED_STRINGS) {
        if let Some(e) = dollar_quoted_string_end(s, start) {
            return Some(e);
        }
    }
    if lang.flag(SHELL_PREFIXED_STRINGS) {
        if let Some(e) = shell_prefixed_string_end(s, start) {
            return Some(e);
        }
    }
    if lang.flag(CSHARP_PREFIXED_STRINGS) {
        if let Some(e) = csharp_prefixed_string_end(s, start) {
            return Some(e);
        }
    }
    if lang.flag(FSHARP_INTERPOLATED_STRINGS) {
        if let Some(e) = fsharp_interpolated_string_end(s, start) {
            return Some(e);
        }
    }
    None
}

fn at_string_end(s: &[u8], start: usize, lang: &Language) -> (r: Option<usize>)
    requires
        lang.wf(),
        start < s.len(),
        s[start as int] == AT,
    ensures
        as_int(r) == spec_language_string_end(s@, start as int, lang@, false),
        r matches Some(e) ==> start < e <= s.len(),
{
    if lang.flag(POWERSHELL_HERE_STRINGS) {
        if let Some(e) = powershell_here_string_end(s, start) {
            return Some(e);
        }
    }
    if lang.flag(CSHARP_PREFIXED_STRINGS) {
        if let Some(e) = csharp_prefixed_string_end(s, start) {
            return Some(e);
        }
    }
    if lang.flag(OBJECTIVE_C_STRINGS) && has2(s, start, AT, DQUOTE) {
        return Some(quoted_string_end(s, start + 1, DQUOTE, false, false));
    }
    None
}

fn letter_string_end(s: &[u8], start: usize, lang: &Language, cpp: bool) -> (r: Option<usize>)
    requires
        lang.wf(),
        start < s.len(),
        s[start as int] == LOWER_R || s[start as int] == UPPER_R || s[start as int] == LOWER_B
            || s[start as int] == LOWER_C || s[start as int] == LOWER_U || s[start as int] == UPPER_U
            || s[start as int] == UPPER_L,
    ensures
        as_int(r) == spec_language_string_end(s@, start as int, lang@, cpp),
        r matches Some(e) ==> start < e <= s.len(),
{
    let b = s[start];
    if b == LOWER_R || b == UPPER_R {
        if lang.flag(R_RAW_STRINGS) {
            if let Some(e) = r_raw_string_end(s, start) {
                return Some(e);
            }
        }
        if let Some(e) = rust_raw_string_end(s, start, lang) {
            return Some(e);
        }
        if cpp && cpp_raw_string_start(s, start).is_some() {
            return cpp_raw_string_end(s, start);
        }
        None
    } else if b == LOWER_B || b == LOWER_C {
        if let Some(e) = rust_raw_string_end(s, start, lang) {
            return Some(e);
        }
        simple_prefixed_string_end(s, start, lang)
    } else {
        if cpp && cpp_raw_string_start(s, start).is_some() {
            return cpp_raw_string_end(s, start);
        }
        simple_prefixed_string_end(s, start, lang)
    }
}

pub fn language_string_end(s: &[u8], start: usize, lang: &Language, cpp: bool) -> (r: Option<usize>)
    requires
        lang.wf(),
        start <= s.len(),
    ensures
        as_int(r) == spec_language_string_end(s@, start as int, lang@, cpp),
        r matches Some(e) ==> start < e <= s.len(),
{
    if start >= s.len() {
        return None;
    }
    let b = s[start];
    if b == DOLLAR {
        dollar_string_end(s, start, lang)
    } else if b == AT {
        at_string_end(s, start, lang)
    } else if b == HASH && lang.flag(SWIFT_HASH_RAW_STRINGS) {
        lift(hash_raw_string_end(s, start))
    } else if b == DQUOTE && lang.flag(CSHARP_PREFIXED_STRINGS) {
        lift(csharp_raw_string_end(s, start))
    } else if b == PERCENT && lang.flag(RUBY_PERCENT_LITERALS) {
        lift(ruby_percent_literal_end(s, start))
    } else if b == TILDE && lang.flag(ELIXIR_SIGILS) {
        lift(elixir_sigil_end(s, start))
    } else if b == LT && lang.flag(PHP_HEREDOCS) {
        lift(php_heredoc_end(s, start))
    } else if b == LBRACE && lang.flag(OCAML_QUOTED_STRINGS) {
        lift(ocaml_quoted_string_end(s, start))
    } else if b == LBRACKET && lang.flag(HASKELL_QUASIQUOTES) {
        lift(haskell_quasiquote_end(s, start))
    } else if b == LOWER_R || b == UPPER_R || b == LOWER_B || b == LOWER_C || b == LOWER_U
        || b == UPPER_U || b == UPPER_L {
        letter_string_end(s, start, lang, cpp)
    } else {
        None
    }
}

/// The last non-whitespace byte before `i`.
pub open spec fn spec_prev_significant(s: Seq<u8>, i: int) -> Option<u8>
    decreases i,
{
    if i <= 0 || i > s.len() {
        None
    } else if !spec_is_space(s[i - 1]) {
        Some(s[i - 1])
    } else {
        spec_prev_significant(s, i - 1)
    }
}

pub fn prev_significant(s: &[u8], i: usize) -> (r: Option<u8>)
    requires
        i <= s.len(),
    ensures
        r == spec_prev_significant(s@, i as int),
{
    let mut k = i;
    while k > 0
        invariant
            k <= i <= s.len(),
            spec_prev_significant(s@, i as int) == spec_prev_significant(s@, k as int),
        decreases k,
    {
        if !is_space(s[k - 1]) {
            return Some(s[k - 1]);
        }
        k = k - 1;
    }
    None
}

/// A byte after which an apostrophe is a postfix operator (transpose, derivative).
pub open spec fn spec_ends_operand(b: u8) -> bool {
    spec_is_alnum(b) || b == UNDERSCORE || b == RPAREN || b == RBRACKET || b == RBRACE || b == DOT
}

/// An apostrophe that is an operator rather than a quote: a Rust lifetime
/// tick, a SystemVerilog cast, a postfix operator, or an ML type-variable
/// name (`'a`, `''a`). Gives the end of the operator.
pub open spec fn spec_apostrophe_operator_end(s: Seq<u8>, start: int, p: ProfileModel) -> Option<int> {
    if at(s, start) != Some(QUOTE) {
        None
    } else if p.flag(RUST_SYNTAX as int) && spec_is_rust_lifetime(s, start, p) {
        Some(start + 1)
    } else if p.flag(VERILOG_NUMBERS as int) && (at(s, start + 1) == Some(LPAREN) || at(s, start + 1) == Some(LBRACE)) {
        Some(start + 1)
    } else if p.flag(POSTFIX_APOSTROPHE_OPERATORS as int) && (match spec_prev_significant(s, start) {
        Some(b) => spec_ends_operand(b),
        None => false,
    }) {
        Some(start + 1)
    } else if !p.flag(APOSTROPHE_NAMES as int) {
        None
    } else {
        let doubled = at(s, start + 1) == Some(QUOTE);
        let c = if doubled { start + 2 } else { start + 1 };
        if !(0 <= c < s.len() && spec_is_word_start(s[c])) {
            None
        } else if at(s, spec_word_end(s, c + 1)) != Some(QUOTE) {
            Some(if doubled { start + 2 } else { start + 1 })
        } else {
            None
        }
    }
}

pub fn apostrophe_operator_end(s: &[u8], start: usize, lang: &Language) -> (r: Option<usize>)
    requires
        lang.wf(),
        start <= s.len(),
    ensures
        as_int(r) == spec_apostrophe_operator_end(s@, start as int, lang@),
        r matches Some(e) ==> start < e <= s.len(),
{
    if !is_at(s, start, QUOTE) {
        return None;
    }
    assert(start < s.len());
    if lang.flag(RUST_SYNTAX) && is_rust_lifetime(s, start, lang) {
        return Some(start + 1);
    }
    if lang.flag(VERILOG_NUMBERS) && (is_at(s, start + 1, LPAREN) || is_at(s, start + 1, LBRACE)) {
        return Some(start + 1);
    }
    if lang.flag(POSTFIX_APOSTROPHE_OPERATORS) {
        if let Some(b) = prev_significant(s, start) {
            if is_alnum(b) || b == UNDERSCORE || b == RPAREN || b == RBRACKET || b == RBRACE || b == DOT {
                return Some(start + 1);
            }
        }
    }
    if !lang.flag(APOSTROPHE_NAMES) {
        return None;
    }
    let doubled = is_at(s, start + 1, QUOTE);
    let c = if doubled { start + 2 } else { start + 1 };
    if !(c < s.len() && (is_alpha(s[c]) || s[c] == UNDERSCORE)) {
        return None;
    }
    let e = word_end(s, c + 1);
    if !is_at(s, e, QUOTE) {
        Some(c)
    } else {
        None
    }
}

/// A SystemVerilog compiler directive or macro use (`` `define ``, `` `WIDTH ``,
/// `` `` `` and `` `" ``) at `start`.
pub open spec fn spec_backtick_macro_end(s: Seq<u8>, start: int, p: ProfileModel) -> Option<int> {
    if !p.flag(BACKTICK_MACROS as int) || at(s, start) != Some(BACKTICK) {
        None
    } else if at(s, start + 1) == Some(BACKTICK) || at(s, start + 1) == Some(DQUOTE) {
        Some(start + 2)
    } else if !(start + 1 < s.len() && spec_is_word_start(s[start + 1])) {
        None
    } else {
        Some(spec_macro_name_end(s, start + 2))
    }
}

/// End of the letters, digits, `_` and `$` starting at `i`.
pub open spec fn spec_macro_name_end(s: Seq<u8>, i: int) -> int
    decreases s.len() - i,
{
    if 0 <= i < s.len() && (spec_is_word(s[i]) || s[i] == DOLLAR) {
        spec_macro_name_end(s, i + 1)
    } else {
        i
    }
}

pub fn backtick_macro_end(s: &[u8], start: usize, lang: &Language) -> (r: Option<usize>)
    requires
        lang.wf(),
        start <= s.len(),
    ensures
        as_int(r) == spec_backtick_macro_end(s@, start as int, lang@),
        r matches Some(e) ==> start < e <= s.len(),
{
    if !lang.flag(BACKTICK_MACROS) || !is_at(s, start, BACKTICK) {
        return None;
    }
    assert(start < s.len());
    if is_at(s, start + 1, BACKTICK) || is_at(s, start + 1, DQUOTE) {
        return Some(start + 2);
    }
    if !(start + 1 < s.len() && (is_alpha(s[start + 1]) || s[start + 1] == UNDERSCORE)) {
        return None;
    }
    let mut k = start + 2;
    while k < s.len() && (is_word(s[k]) || s[k] == DOLLAR)
        invariant
            start + 2 <= k <= s.len(),
            spec_macro_name_end(s@, start + 2) == spec_macro_name_end(s@, k as int),
        decreases s.len() - k,
    {
        k = k + 1;
    }
    Some(k)
}

/// A byte in a based SystemVerilog literal's digits: hex digits, `x z ? _`.
pub open spec fn spec_is_verilog_digit(b: u8) -> bool {
    spec_is_hex(b) || spec_lower(b) == 0x78u8 || spec_lower(b) == 0x7au8 || b == QUESTION || b == UNDERSCORE
}

/// End of the run of `spec_is_verilog_digit` bytes starting at `i`.
pub open spec fn spec_verilog_digits_end(s: Seq<u8>, i: int) -> int
    decreases s.len() - i,
{
    if 0 <= i < s.len() && spec_is_verilog_digit(s[i]) {
        spec_verilog_digits_end(s, i + 1)
    } else {
        i
    }
}

/// End of the run of decimal digits and `_` starting at `i`.
pub open spec fn spec_size_digits_end(s: Seq<u8>, i: int) -> int
    decreases s.len() - i,
{
    if 0 <= i < s.len() && (spec_is_digit(s[i]) || s[i] == UNDERSCORE) {
        spec_size_digits_end(s, i + 1)
    } else {
        i
    }
}

/// Position of the tick of a SystemVerilog based literal at `start`: after an
/// optional size (`8'hff`), or at `start` for an unsized one (`'1`).
pub open spec fn spec_verilog_tick(s: Seq<u8>, start: int) -> Option<int> {
    if 0 <= start < s.len() && spec_is_digit(s[start]) {
        let e = spec_size_digits_end(s, start);
        if at(s, e) == Some(QUOTE) {
            Some(e)
        } else {
            None
        }
    } else if at(s, start) == Some(QUOTE) {
        Some(start)
    } else {
        None
    }
}

/// A SystemVerilog based or unbased literal (`8'hFF`, `'sd3`, `'1`) at `start`.
pub open spec fn spec_verilog_number_end(s: Seq<u8>, start: int, p: ProfileModel) -> Option<int> {
    if !p.flag(VERILOG_NUMBERS as int) {
        None
    } else {
        match spec_verilog_tick(s, start) {
            None => None,
            Some(t) => {
                let c = if at(s, t + 1) == Some(0x73u8) || at(s, t + 1) == Some(0x53u8) { t + 2 } else { t + 1 };
                if at(s, c) == Some(0x30u8) || at(s, c) == Some(0x31u8) || at(s, c) == Some(0x78u8)
                    || at(s, c) == Some(0x58u8) || at(s, c) == Some(0x7au8) || at(s, c) == Some(0x5au8) {
                    Some(c + 1)
                } else if !(0 <= c < s.len() && (spec_lower(s[c]) == LOWER_B || spec_lower(s[c]) == 0x6fu8
                    || spec_lower(s[c]) == 0x64u8 || spec_lower(s[c]) == 0x68u8)) {
                    None
                } else {
                    let e = spec_verilog_digits_end(s, c + 1);
                    if e > c + 1 {
                        Some(e)
                    } else {
                        None
                    }
                }
            },
        }
    }
}

pub fn verilog_number_end(s: &[u8], start: usize, lang: &Language) -> (r: Option<usize>)
    requires
        lang.wf(),
        start <= s.len(),
    ensures
        as_int(r) == spec_verilog_number_end(s@, start as int, lang@),
        r matches Some(e) ==> start < e <= s.len(),
{
    if !lang.flag(VERILOG_NUMBERS) {
        return None;
    }
    let t = if start < s.len() && is_digit(s[start]) {
        let mut e = start;
        while e < s.len() && (is_digit(s[e]) || s[e] == UNDERSCORE)
            invariant
                start <= e <= s.len(),
                spec_size_digits_end(s@, start as int) == spec_size_digits_end(s@, e as int),
            decreases s.len() - e,
        {
            e = e + 1;
        }
        if !is_at(s, e, QUOTE) {
            return None;
        }
        e
    } else if is_at(s, start, QUOTE) {
        start
    } else {
        return None;
    };
    assert(spec_verilog_tick(s@, start as int) == Some(t as int));
    assert(t < s.len());
    let c = if is_at(s, t + 1, 0x73u8) || is_at(s, t + 1, 0x53u8) { t + 2 } else { t + 1 };
    if is_at(s, c, 0x30u8) || is_at(s, c, 0x31u8) || is_at(s, c, 0x78u8) || is_at(s, c, 0x58u8)
        || is_at(s, c, 0x7au8) || is_at(s, c, 0x5au8) {
        assert(c < s.len());
        return Some(c + 1);
    }
    if !(c < s.len() && (lower(s[c]) == LOWER_B || lower(s[c]) == 0x6fu8 || lower(s[c]) == 0x64u8
        || lower(s[c]) == 0x68u8)) {
        return None;
    }
    let mut e = c + 1;
    while e < s.len() && (is_hex(s[e]) || lower(s[e]) == 0x78u8 || lower(s[e]) == 0x7au8 || s[e] == QUESTION
        || s[e] == UNDERSCORE)
        invariant
            c < e <= s.len(),
            spec_verilog_digits_end(s@, c + 1) == spec_verilog_digits_end(s@, e as int),
        decreases s.len() - e,
    {
        e = e + 1;
    }
    if e > c + 1 {
        Some(e)
    } else {
        None
    }
}

} // verus!
