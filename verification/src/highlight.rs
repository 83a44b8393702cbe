//! The code-block highlighter: a scanner that tiles the source with tokens,
//! tracking the lexical context (whether an expression or a header name is
//! expected, pending shell here-documents), and a small parse stack that
//! classifies identifiers by what precedes and follows them.
use vstd::prelude::*;
use vstd::string::StringSliceAdditionalSpecFns;
use vstd::utf8::{is_char_boundary, valid_utf8};
use crate::bytes::{
    at, has_at, char_step, step, is_at, has2, has3, find_byte, find_byte_from, lemma_find_byte,
    spec_is_digit, is_digit, spec_is_alnum, is_alnum, NL, LT, AT, SLASH, STAR, QUOTE, DQUOTE,
    BACKTICK, UNDERSCORE, DOT, LPAREN, RPAREN, LBRACKET, RBRACKET, LBRACE, RBRACE, SEMI, BANG,
};
use crate::scan::{
    spec_header_string_end, header_string_end, spec_block_comment_end, block_comment_end,
    spec_quoted_string_end, quoted_string_end, spec_js_regex_end, js_regex_end,
    spec_quoted_identifier_end, quoted_identifier_end, spec_number_end, number_end,
    spec_is_operator, is_operator, spec_next_significant_index, next_significant_index,
    spec_next_significant_byte, next_significant_byte, spec_looks_like_macro_constant,
    looks_like_macro_constant, spec_looks_like_type, looks_like_type, slice_range,
};
use crate::shell::{
    ShellHeredoc, spec_shell_heredoc_body_end, shell_heredoc_body_end, spec_shell_heredoc_start,
    shell_heredoc_start,
};
use crate::language::{
    ProfileModel, Language, DeclarationKind, spec_contains, spec_directive_in, spec_is_keyword,
    spec_declaration_after, SECTION_BUILTIN_TYPES, SECTION_PREPROCESSOR_MACRO_OPERANDS,
    SECTION_PREPROCESSOR_HEADERS, SECTION_BANG_MACRO_DECLARATIONS, SECTION_MACRO_IDENTIFIERS,
    SECTION_MACRO_OPERAND_IDENTIFIERS, SECTION_HEADER_MACRO_IDENTIFIERS,
    SECTION_EXPRESSION_PREFIXES, DECORATORS, TRIPLE_DOUBLE_STRINGS, TRIPLE_SINGLE_STRINGS,
    JAVASCRIPT_LEXING, MULTILINE_STRINGS, BACKTICK_STRINGS, BACKTICK_IDENTIFIERS,
    BACKTICK_OPERATORS, APOSTROPHE_DIGIT_SEPARATORS, SHELL_HEREDOCS, BANG_MACROS,
    UPPERCASE_MACROS,
};
use crate::lexer::{
    as_int, spec_lua_long_comment_end, lua_long_comment_end, spec_cmake_bracket_comment_end,
    cmake_bracket_comment_end, spec_block_comment_delimiters, block_comment_delimiters,
    spec_is_line_comment, is_line_comment, spec_preprocessor_end, preprocessor_end,
    spec_language_string_end, language_string_end, spec_rust_attribute_start, rust_attribute_start,
    spec_macro_metavariable_end, macro_metavariable_end, spec_lua_long_string_end,
    lua_long_string_end, spec_cmake_bracket_string_end, cmake_bracket_string_end,
    spec_python_string_start, python_string_start, spec_verilog_number_end, verilog_number_end,
    spec_backtick_macro_end, backtick_macro_end, spec_apostrophe_operator_end,
    apostrophe_operator_end, spec_is_ident_start, is_ident_start, spec_ident_end, ident_end,
    spec_starts_token, starts_token,
};

verus! {

/// The class a highlighted token is drawn with.
#[derive(Clone, Copy, Debug, PartialEq, Eq, Structural)]
pub enum TokenKind {
    Plain,
    Keyword,
    Type,
    Function,
    String,
    Number,
    Comment,
    Macro,
    Operator,
}

/// The lexical class of a scanned token, before the parse stack refines it.
#[derive(Clone, Copy, Debug, PartialEq, Eq, Structural)]
pub enum SyntaxKind {
    Identifier,
    String,
    Number,
    Comment,
    Macro,
    AttributeStart,
    Operator,
    Open(u8),
    Close(u8),
    Punctuation,
    Trivia,
}

/// At most this many here-documents wait for their bodies at once; later
/// ones on the same line are read as plain operators.
pub const MAX_PENDING_HEREDOCS: usize = 8;

/// At most this many open delimiters are tracked by the parse stack.
pub const MAX_DELIMITER_DEPTH: usize = 64;

/// Scanner state: the position, the lexical context and the queue of
/// here-documents whose bodies start on a later line.
pub struct ScanModel {
    pub cursor: int,
    pub expression_expected: bool,
    pub header_expected: bool,
    pub heredocs: Seq<ShellHeredoc>,
}

/// Parse-stack state: open delimiters, the declaration name the previous
/// keyword announced, and the open Rust attribute (if any).
pub struct StackModel {
    pub delimiters: Seq<u8>,
    pub expected: Option<DeclarationKind>,
    pub attribute_delimiter: Option<int>,
    pub attribute_path: bool,
}

/// The whole highlighter state.
pub struct HighlightModel {
    pub scan: ScanModel,
    pub stack: StackModel,
}

/// The state before the first token.
pub open spec fn initial_model() -> HighlightModel {
    HighlightModel {
        scan: ScanModel { cursor: 0, expression_expected: true, header_expected: false, heredocs: Seq::empty() },
        stack: StackModel { delimiters: Seq::empty(), expected: None, attribute_delimiter: None, attribute_path: false },
    }
}

/// Step from `e` over UTF-8 continuation bytes, to the next character boundary.
pub open spec fn spec_snap(s: Seq<u8>, e: int) -> int
    decreases s.len() - e,
{
    if 0 <= e < s.len() && 0x80 <= s[e] <= 0xbf {
        spec_snap(s, e + 1)
    } else {
        e
    }
}

/// Comments, preprocessor directives and `#include <header>` names.
pub open spec fn spec_comment_token(s: Seq<u8>, start: int, p: ProfileModel, header_expected: bool) -> Option<(int, SyntaxKind)> {
    if header_expected && s[start] == LT {
        Some((spec_header_string_end(s, start), SyntaxKind::String))
    } else if spec_lua_long_comment_end(s, start, p) is Some {
        Some((spec_lua_long_comment_end(s, start, p)->0, SyntaxKind::Comment))
    } else if spec_cmake_bracket_comment_end(s, start, p) is Some {
        Some((spec_cmake_bracket_comment_end(s, start, p)->0, SyntaxKind::Comment))
    } else if spec_block_comment_delimiters(s, start, p) is Some {
        let (o, c, n) = spec_block_comment_delimiters(s, start, p)->0;
        Some((spec_block_comment_end(s, start, o, c, n), SyntaxKind::Comment))
    } else if spec_is_line_comment(s, start, p) {
        Some((find_byte(s, start, NL), SyntaxKind::Comment))
    } else if spec_preprocessor_end(s, start, p) is Some {
        Some((spec_preprocessor_end(s, start, p)->0, SyntaxKind::Macro))
    } else {
        None
    }
}

/// End of the run of letters, digits, `_` and `.` starting at `i` (decorators).
pub open spec fn spec_dotted_name_end(s: Seq<u8>, i: int) -> int
    decreases s.len() - i,
{
    if 0 <= i < s.len() && (spec_is_alnum(s[i]) || s[i] == UNDERSCORE || s[i] == DOT) {
        spec_dotted_name_end(s, i + 1)
    } else {
        i
    }
}

/// Strings, decorators, attributes and macro metavariables.
pub open spec fn spec_literal_token(s: Seq<u8>, start: int, p: ProfileModel, cpp: bool) -> Option<(int, SyntaxKind)> {
    let b = s[start];
    if spec_language_string_end(s, start, p, cpp) is Some {
        Some((spec_language_string_end(s, start, p, cpp)->0, SyntaxKind::String))
    } else if p.flag(DECORATORS as int) && b == AT {
        Some((spec_dotted_name_end(s, start + 1), SyntaxKind::Macro))
    } else if spec_rust_attribute_start(s, start, p) is Some {
        Some((spec_rust_attribute_start(s, start, p)->0, SyntaxKind::AttributeStart))
    } else if spec_macro_metavariable_end(s, start, p) is Some {
        Some((spec_macro_metavariable_end(s, start, p)->0, SyntaxKind::Macro))
    } else if spec_lua_long_string_end(s, start, p) is Some {
        Some((spec_lua_long_string_end(s, start, p)->0, SyntaxKind::String))
    } else if spec_cmake_bracket_string_end(s, start, p) is Some {
        Some((spec_cmake_bracket_string_end(s, start, p)->0, SyntaxKind::String))
    } else if spec_python_string_start(s, start, p) is Some {
        let (qa, q, triple) = spec_python_string_start(s, start, p)->0;
        Some((spec_quoted_string_end(s, qa, q, triple, true), SyntaxKind::String))
    } else if ((b == DQUOTE && p.flag(TRIPLE_DOUBLE_STRINGS as int)) || (b == QUOTE && p.flag(TRIPLE_SINGLE_STRINGS as int)))
        && has_at(s, start, seq![b, b, b]) {
        Some((spec_quoted_string_end(s, start, b, true, true), SyntaxKind::String))
    } else {
        None
    }
}

/// Regular expressions, SystemVerilog literals and directives, apostrophe
/// operators, quoted strings and backtick forms.
pub open spec fn spec_quote_token(s: Seq<u8>, start: int, p: ProfileModel, expression_expected: bool) -> Option<(int, SyntaxKind)> {
    let b = s[start];
    if p.flag(JAVASCRIPT_LEXING as int) && expression_expected && b == SLASH
        && at(s, start + 1) != Some(SLASH) && at(s, start + 1) != Some(STAR) {
        Some((spec_js_regex_end(s, start), SyntaxKind::String))
    } else if spec_verilog_number_end(s, start, p) is Some {
        Some((spec_verilog_number_end(s, start, p)->0, SyntaxKind::Number))
    } else if spec_backtick_macro_end(s, start, p) is Some {
        Some((spec_backtick_macro_end(s, start, p)->0, SyntaxKind::Macro))
    } else if b == QUOTE && spec_apostrophe_operator_end(s, start, p) is Some {
        Some((spec_apostrophe_operator_end(s, start, p)->0, SyntaxKind::Operator))
    } else if b == QUOTE || b == DQUOTE {
        Some((spec_quoted_string_end(s, start, b, false, p.flag(MULTILINE_STRINGS as int)), SyntaxKind::String))
    } else if b == BACKTICK {
        if p.flag(BACKTICK_STRINGS as int) {
            Some((spec_quoted_string_end(s, start, BACKTICK, false, true), SyntaxKind::String))
        } else if p.flag(BACKTICK_IDENTIFIERS as int) {
            Some((spec_quoted_identifier_end(s, start), SyntaxKind::Identifier))
        } else if p.flag(BACKTICK_OPERATORS as int) {
            Some((start + 1, SyntaxKind::Operator))
        } else {
            Some((start + 1, SyntaxKind::Trivia))
        }
    } else {
        None
    }
}

/// End of the run of operator bytes starting at `i`.
pub open spec fn spec_operator_end(s: Seq<u8>, i: int) -> int
    decreases s.len() - i,
{
    if 0 <= i < s.len() && spec_is_operator(s[i]) {
        spec_operator_end(s, i + 1)
    } else {
        i
    }
}

/// Plain text from `e` on: whole characters until something can start a token
/// or `limit` is reached.
pub open spec fn spec_trivia_from(s: Seq<u8>, e: int, p: ProfileModel, limit: int) -> int
    decreases s.len() - e,
{
    if 0 <= e < s.len() && e < limit && !spec_starts_token(s, e, p) {
        spec_trivia_from(s, e + char_step(s, e), p, limit)
    } else {
        e
    }
}

/// Numbers, identifiers, operators (which may announce a here-document),
/// delimiters and plain text. `limit` is where a pending here-document body
/// starts (or the end of the source).
pub open spec fn spec_word_token(s: Seq<u8>, start: int, p: ProfileModel, limit: int) -> (int, SyntaxKind, Option<ShellHeredoc>) {
    let b = s[start];
    if spec_is_digit(b) {
        (spec_number_end(s, start, p.flag(APOSTROPHE_DIGIT_SEPARATORS as int)), SyntaxKind::Number, None)
    } else if spec_is_ident_start(b, p) {
        (spec_ident_end(s, start + 1, p), SyntaxKind::Identifier, None)
    } else if spec_is_operator(b) {
        (spec_operator_end(s, start + 1), SyntaxKind::Operator, spec_shell_heredoc_start(s, start, p.flag(SHELL_HEREDOCS as int)))
    } else if b == LPAREN || b == LBRACKET || b == LBRACE {
        (start + 1, SyntaxKind::Open(b), None)
    } else if b == RPAREN || b == RBRACKET || b == RBRACE {
        (start + 1, SyntaxKind::Close(b), None)
    } else if b == 0x2cu8 || b == SEMI {
        (start + 1, SyntaxKind::Punctuation, None)
    } else {
        let e = spec_trivia_from(s, start + char_step(s, start), p, limit);
        (if e < limit { e } else { limit }, SyntaxKind::Trivia, None)
    }
}

/// Where plain text must stop for the first pending here-document body.
pub open spec fn spec_body_limit(s: Seq<u8>, st: ScanModel) -> int {
    if st.heredocs.len() > 0 && st.heredocs[0].body_start > st.cursor {
        st.heredocs[0].body_start as int
    } else {
        s.len() as int
    }
}

/// The token at `start`, ignoring here-document bodies: its end, its class
/// and a here-document it announces.
pub open spec fn spec_raw_token_at(s: Seq<u8>, p: ProfileModel, cpp: bool, start: int, header_expected: bool, expression_expected: bool, limit: int) -> (int, SyntaxKind, Option<ShellHeredoc>) {
    match spec_comment_token(s, start, p, header_expected) {
        Some((e, k)) => (e, k, None),
        None => match spec_literal_token(s, start, p, cpp) {
            Some((e, k)) => (e, k, None),
            None => match spec_quote_token(s, start, p, expression_expected) {
                Some((e, k)) => (e, k, None),
                None => spec_word_token(s, start, p, limit),
            },
        },
    }
}

/// The token at the cursor of `st`, ignoring here-document bodies.
pub open spec fn spec_raw_token(s: Seq<u8>, p: ProfileModel, cpp: bool, st: ScanModel) -> (int, SyntaxKind, Option<ShellHeredoc>) {
    spec_raw_token_at(s, p, cpp, st.cursor, st.header_expected, st.expression_expected, spec_body_limit(s, st))
}

/// The lexical context after a token `[start, end)` of class `kind`.
pub open spec fn spec_update_context(s: Seq<u8>, p: ProfileModel, start: int, end: int, kind: SyntaxKind, st: ScanModel) -> ScanModel {
    let text = s.subrange(start, end);
    let header = if kind == SyntaxKind::Macro {
        spec_directive_in(p, text, SECTION_PREPROCESSOR_HEADERS as int)
    } else if kind == SyntaxKind::Identifier && spec_contains(p.section(SECTION_HEADER_MACRO_IDENTIFIERS as int), text) {
        true
    } else if st.header_expected && kind == SyntaxKind::Open(LPAREN) {
        true
    } else if kind != SyntaxKind::Comment && kind != SyntaxKind::Trivia {
        false
    } else {
        st.header_expected
    };
    let expression = match kind {
        SyntaxKind::Identifier => spec_contains(p.section(SECTION_EXPRESSION_PREFIXES as int), text),
        SyntaxKind::Number | SyntaxKind::String | SyntaxKind::Close(_) => false,
        SyntaxKind::Operator | SyntaxKind::Open(_) | SyntaxKind::AttributeStart | SyntaxKind::Punctuation => true,
        SyntaxKind::Comment | SyntaxKind::Macro | SyntaxKind::Trivia => st.expression_expected,
    };
    ScanModel { expression_expected: expression, header_expected: header, ..st }
}

/// One scanner step from a state whose cursor is inside the source: the
/// token's end and class, and the next scanner state.
#[verifier::opaque]
pub open spec fn spec_scan_step(s: Seq<u8>, p: ProfileModel, cpp: bool, st: ScanModel) -> (int, SyntaxKind, ScanModel) {
    let start = st.cursor;
    let (end, kind, heredocs) = if st.heredocs.len() > 0 && start >= st.heredocs[0].body_start {
        (spec_shell_heredoc_body_end(s, start, st.heredocs[0]), SyntaxKind::String, st.heredocs.drop_first())
    } else {
        let (e, k, h) = spec_raw_token(s, p, cpp, st);
        (e, k, match h {
            Some(d) => if st.heredocs.len() < MAX_PENDING_HEREDOCS { st.heredocs.push(d) } else { st.heredocs },
            None => st.heredocs,
        })
    };
    let end = spec_snap(s, end);
    (end, kind, spec_update_context(s, p, start, end, kind, ScanModel { cursor: end, heredocs: heredocs, ..st }))
}

/// A scanned token class paired with its end, as the groups below return it.
pub open spec fn as_token(r: Option<(usize, SyntaxKind)>) -> Option<(int, SyntaxKind)> {
    match r {
        Some((e, k)) => Some((e as int, k)),
        None => None,
    }
}

fn comment_token(s: &[u8], start: usize, lang: &Language, header_expected: bool) -> (r: Option<(usize, SyntaxKind)>)
    requires
        lang.wf(),
        start < s.len(),
    ensures
        as_token(r) == spec_comment_token(s@, start as int, lang@, header_expected),
        r matches Some((e, _)) ==> start < e <= s.len(),
{
    if header_expected && s[start] == LT {
        return Some((header_string_end(s, start), SyntaxKind::String));
    }
    if let Some(e) = lua_long_comment_end(s, start, lang) {
        return Some((e, SyntaxKind::Comment));
    }
    if let Some(e) = cmake_bracket_comment_end(s, start, lang) {
        return Some((e, SyntaxKind::Comment));
    }
    if let Some((o, c, n)) = block_comment_delimiters(s, start, lang) {
        return Some((block_comment_end(s, start, o, c, n), SyntaxKind::Comment));
    }
    if is_line_comment(s, start, lang) {
        proof {
            lemma_find_byte(s@, start as int, NL);
            if has_at(s@, start as int, seq![SEMI, SEMI]) || has_at(s@, start as int, seq![SLASH, SLASH])
                || has_at(s@, start as int, seq![crate::bytes::MINUS, crate::bytes::MINUS]) {
                assert(s@[start as int] == s@.subrange(start as int, start + 2)[0]);
            }
        }
        let e = find_byte_from(s, start, NL);
        return Some((e, SyntaxKind::Comment));
    }
    if let Some(e) = preprocessor_end(s, start, lang) {
        return Some((e, SyntaxKind::Macro));
    }
    None
}

fn dotted_name_end(s: &[u8], i: usize) -> (r: usize)
    requires
        i <= s.len(),
    ensures
        r == spec_dotted_name_end(s@, i as int),
        i <= r <= s.len(),
{
    let mut k = i;
    while k < s.len() && (is_alnum(s[k]) || s[k] == UNDERSCORE || s[k] == DOT)
        invariant
            i <= k <= s.len(),
            spec_dotted_name_end(s@, i as int) == spec_dotted_name_end(s@, k as int),
        decreases s.len() - k,
    {
        k = k + 1;
    }
    k
}

fn literal_token(s: &[u8], start: usize, lang: &Language, cpp: bool) -> (r: Option<(usize, SyntaxKind)>)
    requires
        lang.wf(),
        start < s.len(),
    ensures
        as_token(r) == spec_literal_token(s@, start as int, lang@, cpp),
        r matches Some((e, _)) ==> start < e <= s.len(),
{
    let b = s[start];
    if let Some(e) = language_string_end(s, start, lang, cpp) {
        return Some((e, SyntaxKind::String));
    }
    if lang.flag(DECORATORS) && b == AT {
        return Some((dotted_name_end(s, start + 1), SyntaxKind::Macro));
    }
    if let Some(e) = rust_attribute_start(s, start, lang) {
        return Some((e, SyntaxKind::AttributeStart));
    }
    if let Some(e) = macro_metavariable_end(s, start, lang) {
        return Some((e, SyntaxKind::Macro));
    }
    if let Some(e) = lua_long_string_end(s, start, lang) {
        return Some((e, SyntaxKind::String));
    }
    if let Some(e) = cmake_bracket_string_end(s, start, lang) {
        return Some((e, SyntaxKind::String));
    }
    if let Some((qa, q, triple)) = python_string_start(s, start, lang) {
        return Some((quoted_string_end(s, qa, q, triple, true), SyntaxKind::String));
    }
    if ((b == DQUOTE && lang.flag(TRIPLE_DOUBLE_STRINGS)) || (b == QUOTE && lang.flag(TRIPLE_SINGLE_STRINGS)))
        && has3(s, start, b, b, b) {
        return Some((quoted_string_end(s, start, b, true, true), SyntaxKind::String));
    }
    None
}

fn quote_token(s: &[u8], start: usize, lang: &Language, expression_expected: bool) -> (r: Option<(usize, SyntaxKind)>)
    requires
        lang.wf(),
        start < s.len(),
    ensures
        as_token(r) == spec_quote_token(s@, start as int, lang@, expression_expected),
        r matches Some((e, _)) ==> start < e <= s.len(),
{
    let b = s[start];
    if lang.flag(JAVASCRIPT_LEXING) && expression_expected && b == SLASH && !is_at(s, start + 1, SLASH)
        && !is_at(s, start + 1, STAR) {
        return Some((js_regex_end(s, start), SyntaxKind::String));
    }
    if let Some(e) = verilog_number_end(s, start, lang) {
        return Some((e, SyntaxKind::Number));
    }
    if let Some(e) = backtick_macro_end(s, start, lang) {
        return Some((e, SyntaxKind::Macro));
    }
    if b == QUOTE {
        if let Some(e) = apostrophe_operator_end(s, start, lang) {
            return Some((e, SyntaxKind::Operator));
        }
    }
    if b == QUOTE || b == DQUOTE {
        let multiline = lang.flag(MULTILINE_STRINGS);
        return Some((quoted_string_end(s, start, b, false, multiline), SyntaxKind::String));
    }
    if b == BACKTICK {
        if lang.flag(BACKTICK_STRINGS) {
            return Some((quoted_string_end(s, start, BACKTICK, false, true), SyntaxKind::String));
        } else if lang.flag(BACKTICK_IDENTIFIERS) {
            return Some((quoted_identifier_end(s, start), SyntaxKind::Identifier));
        } else if lang.flag(BACKTICK_OPERATORS) {
            return Some((start + 1, SyntaxKind::Operator));
        } else {
            return Some((start + 1, SyntaxKind::Trivia));
        }
    }
    None
}

fn operator_end(s: &[u8], i: usize) -> (r: usize)
    requires
        i <= s.len(),
    ensures
        r == spec_operator_end(s@, i as int),
        i <= r <= s.len(),
{
    let mut k = i;
    while k < s.len() && is_operator(s[k])
        invariant
            i <= k <= s.len(),
            spec_operator_end(s@, i as int) == spec_operator_end(s@, k as int),
        decreases s.len() - k,
    {
        k = k + 1;
    }
    k
}

fn word_token(s: &[u8], start: usize, lang: &Language, limit: usize) -> (r: (usize, SyntaxKind, Option<ShellHeredoc>))
    requires
        lang.wf(),
        start < limit <= s.len(),
    ensures
        (r.0 as int, r.1, r.2) == spec_word_token(s@, start as int, lang@, limit as int),
        start < r.0 <= s.len(),
        r.2 matches Some(h) ==> h.delimiter_start <= h.delimiter_end <= s.len() && h.body_start <= s.len(),
{
    let b = s[start];
    if is_digit(b) {
        let sep = lang.flag(APOSTROPHE_DIGIT_SEPARATORS);
        (number_end(s, start, sep), SyntaxKind::Number, None)
    } else if is_ident_start(b, lang) {
        (ident_end(s, start + 1, lang), SyntaxKind::Identifier, None)
    } else if is_operator(b) {
        let enabled = lang.flag(SHELL_HEREDOCS);
        let h = shell_heredoc_start(s, start, enabled);
        (operator_end(s, start + 1), SyntaxKind::Operator, h)
    } else if b == LPAREN || b == LBRACKET || b == LBRACE {
        (start + 1, SyntaxKind::Open(b), None)
    } else if b == RPAREN || b == RBRACKET || b == RBRACE {
        (start + 1, SyntaxKind::Close(b), None)
    } else if b == 0x2cu8 || b == SEMI {
        (start + 1, SyntaxKind::Punctuation, None)
    } else {
        let mut e = step(s, start);
        while e < s.len() && e < limit && !starts_token(s, e, lang)
            invariant
                lang.wf(),
                start < e <= s.len(),
                limit <= s.len(),
                spec_trivia_from(s@, start + char_step(s@, start as int), lang@, limit as int)
                    == spec_trivia_from(s@, e as int, lang@, limit as int),
            decreases s.len() - e,
        {
            e = step(s, e);
        }
        (if e < limit { e } else { limit }, SyntaxKind::Trivia, None)
    }
}

fn raw_token(s: &[u8], lang: &Language, cpp: bool, start: usize, header_expected: bool, expression_expected: bool, limit: usize) -> (r: (usize, SyntaxKind, Option<ShellHeredoc>))
    requires
        lang.wf(),
        start < limit <= s.len(),
    ensures
        (r.0 as int, r.1, r.2) == spec_raw_token_at(s@, lang@, cpp, start as int, header_expected, expression_expected, limit as int),
        start < r.0 <= s.len(),
        r.2 matches Some(h) ==> h.delimiter_start <= h.delimiter_end <= s.len() && h.body_start <= s.len(),
{
    if let Some((e, k)) = comment_token(s, start, lang, header_expected) {
        return (e, k, None);
    }
    if let Some((e, k)) = literal_token(s, start, lang, cpp) {
        return (e, k, None);
    }
    if let Some((e, k)) = quote_token(s, start, lang, expression_expected) {
        return (e, k, None);
    }
    word_token(s, start, lang, limit)
}

/// The last position of `b` among the open delimiters.
pub open spec fn spec_last_index(ds: Seq<u8>, b: u8) -> Option<int>
    decreases ds.len(),
{
    if ds.len() == 0 {
        None
    } else if ds.last() == b {
        Some(ds.len() - 1)
    } else {
        spec_last_index(ds.drop_last(), b)
    }
}

/// The opening delimiter a closing one matches.
pub open spec fn spec_opener_of(d: u8) -> Option<u8> {
    if d == RPAREN {
        Some(LPAREN)
    } else if d == RBRACKET {
        Some(LBRACKET)
    } else if d == RBRACE {
        Some(LBRACE)
    } else {
        None
    }
}

/// The parse stack after shifting a token: openers are pushed (up to the
/// depth limit); a closer pops back to its nearest matching opener, and a
/// closer with no matching opener is ignored.
pub open spec fn spec_shift(st: StackModel, kind: SyntaxKind) -> StackModel {
    match kind {
        SyntaxKind::AttributeStart => if st.delimiters.len() < MAX_DELIMITER_DEPTH {
            StackModel {
                delimiters: st.delimiters.push(LBRACKET),
                attribute_delimiter: Some(st.delimiters.len() as int),
                attribute_path: true,
                ..st
            }
        } else {
            st
        },
        SyntaxKind::Open(d) => if st.delimiters.len() < MAX_DELIMITER_DEPTH {
            StackModel {
                delimiters: st.delimiters.push(d),
                attribute_path: if d == LPAREN && st.attribute_delimiter is Some { false } else { st.attribute_path },
                ..st
            }
        } else {
            st
        },
        SyntaxKind::Close(d) => match spec_opener_of(d) {
            None => st,
            Some(w) => match spec_last_index(st.delimiters, w) {
                None => st,
                Some(f) => if st.attribute_delimiter == Some(f) {
                    StackModel { delimiters: st.delimiters.take(f), attribute_delimiter: None, attribute_path: false, ..st }
                } else {
                    StackModel { delimiters: st.delimiters.take(f), ..st }
                },
            },
        },
        _ => st,
    }
}

/// A Rust-style macro invocation `name!(`, `name![`, `name!{` (or a declared
/// bang macro such as `macro_rules!`) whose name is `[start, end)`.
pub open spec fn spec_is_bang_macro(s: Seq<u8>, p: ProfileModel, start: int, end: int) -> bool {
    if !p.flag(BANG_MACROS as int) {
        false
    } else {
        match spec_next_significant_index(s, end) {
            None => false,
            Some(bang) => if s[bang] != BANG {
                false
            } else if spec_contains(p.section(SECTION_BANG_MACRO_DECLARATIONS as int), s.subrange(start, end)) {
                true
            } else {
                match spec_next_significant_index(s, bang + 1) {
                    None => true,
                    Some(n) => s[n] == LPAREN || s[n] == LBRACKET || s[n] == LBRACE,
                }
            },
        }
    }
}

/// Inside an attribute, the path (`derive`, `serde::rename`) and any name
/// followed by `(` are macros.
pub open spec fn spec_captures_attribute_macro(s: Seq<u8>, st: StackModel, end: int) -> bool {
    st.attribute_delimiter is Some && (st.attribute_path || spec_next_significant_byte(s, end) == Some(LPAREN))
}

/// The class of an identifier `[start, end)`, and the declaration expected next.
pub open spec fn spec_capture_identifier(s: Seq<u8>, p: ProfileModel, start: int, end: int, st: StackModel) -> (TokenKind, StackModel) {
    let text = s.subrange(start, end);
    let expected = st.expected;
    let st0 = StackModel { expected: None, ..st };
    if spec_contains(p.section(SECTION_MACRO_IDENTIFIERS as int), text) {
        (TokenKind::Macro, if spec_contains(p.section(SECTION_MACRO_OPERAND_IDENTIFIERS as int), text) {
            StackModel { expected: Some(DeclarationKind::Macro), ..st }
        } else {
            st0
        })
    } else if spec_is_bang_macro(s, p, start, end) {
        (TokenKind::Macro, if spec_contains(p.section(SECTION_BANG_MACRO_DECLARATIONS as int), text) {
            StackModel { expected: Some(DeclarationKind::Macro), ..st }
        } else {
            st0
        })
    } else if expected == Some(DeclarationKind::Macro) || spec_captures_attribute_macro(s, st0, end)
        || (p.flag(UPPERCASE_MACROS as int) && spec_looks_like_macro_constant(text)) {
        (TokenKind::Macro, st0)
    } else if spec_contains(p.section(SECTION_BUILTIN_TYPES as int), text) {
        (TokenKind::Type, st0)
    } else if spec_is_keyword(p, text) {
        (TokenKind::Keyword, StackModel { expected: spec_declaration_after(p, text), ..st })
    } else if expected == Some(DeclarationKind::Function) || spec_next_significant_byte(s, end) == Some(LPAREN) {
        (TokenKind::Function, st0)
    } else if expected == Some(DeclarationKind::Type) || spec_looks_like_type(text) {
        (TokenKind::Type, st0)
    } else {
        (TokenKind::Plain, st0)
    }
}

/// The highlight class of a token `[start, end)` of lexical class `kind`.
pub open spec fn spec_capture(s: Seq<u8>, p: ProfileModel, start: int, end: int, kind: SyntaxKind, st: StackModel) -> (TokenKind, StackModel) {
    match kind {
        SyntaxKind::String => (TokenKind::String, st),
        SyntaxKind::Number => (TokenKind::Number, st),
        SyntaxKind::Comment => (TokenKind::Comment, st),
        SyntaxKind::Macro => (TokenKind::Macro, if spec_directive_in(p, s.subrange(start, end), SECTION_PREPROCESSOR_MACRO_OPERANDS as int) {
            StackModel { expected: Some(DeclarationKind::Macro), ..st }
        } else {
            st
        }),
        SyntaxKind::AttributeStart => (TokenKind::Macro, st),
        SyntaxKind::Operator => (TokenKind::Operator, st),
        SyntaxKind::Identifier => spec_capture_identifier(s, p, start, end, st),
        SyntaxKind::Trivia => (TokenKind::Plain, if find_byte(s, start, NL) < end && st.expected == Some(DeclarationKind::Macro) {
            StackModel { expected: None, ..st }
        } else {
            st
        }),
        _ => (TokenKind::Plain, st),
    }
}

/// One highlighter step: the token's range and class, and the next state.
#[verifier::opaque]
pub open spec fn spec_highlight_step(s: Seq<u8>, p: ProfileModel, cpp: bool, m: HighlightModel) -> (int, int, TokenKind, HighlightModel) {
    let (end, kind, scan) = spec_scan_step(s, p, cpp, m.scan);
    let (tk, stack) = spec_capture(s, p, m.scan.cursor, end, kind, m.stack);
    (m.scan.cursor, end, tk, HighlightModel { scan: scan, stack: spec_shift(stack, kind) })
}

/// A step makes progress: the cursor moves forward, or it stays and a
/// pending here-document is consumed.
pub open spec fn spec_progress(s: Seq<u8>, m: HighlightModel, next: HighlightModel) -> bool {
    next.scan.cursor <= s.len() && (next.scan.cursor > m.scan.cursor || (next.scan.cursor == m.scan.cursor
        && next.scan.heredocs.len() < m.scan.heredocs.len()))
}

/// The tokens the highlighter produces from state `m` to the end of the source.
pub open spec fn spec_tokens_from(s: Seq<u8>, p: ProfileModel, cpp: bool, m: HighlightModel) -> Seq<(int, int, TokenKind)>
    decreases s.len() - m.scan.cursor, m.scan.heredocs.len(),
{
    if m.scan.cursor < 0 || m.scan.cursor >= s.len() {
        Seq::empty()
    } else {
        let (a, b, k, next) = spec_highlight_step(s, p, cpp, m);
        if spec_progress(s, m, next) {
            seq![(a, b, k)] + spec_tokens_from(s, p, cpp, next)
        } else {
            seq![(a, b, k)]
        }
    }
}

/// All tokens of a source under a profile.
pub open spec fn spec_tokens(s: Seq<u8>, p: ProfileModel, cpp: bool) -> Seq<(int, int, TokenKind)> {
    spec_tokens_from(s, p, cpp, initial_model())
}

/// The parse stack: open delimiters and the identifier-classification context.
pub struct ParseStack {
    delimiters: Vec<u8>,
    expected: Option<DeclarationKind>,
    attribute_delimiter: Option<usize>,
    attribute_path: bool,
}

impl View for ParseStack {
    type V = StackModel;

    closed spec fn view(&self) -> StackModel {
        StackModel {
            delimiters: self.delimiters@,
            expected: self.expected,
            attribute_delimiter: match self.attribute_delimiter {
                Some(d) => Some(d as int),
                None => None,
            },
            attribute_path: self.attribute_path,
        }
    }
}

/// The stack keeps at most `MAX_DELIMITER_DEPTH` delimiters.
pub open spec fn stack_wf(st: StackModel) -> bool {
    st.delimiters.len() <= MAX_DELIMITER_DEPTH
}

fn last_index(ds: &Vec<u8>, b: u8) -> (r: Option<usize>)
    ensures
        as_int(r) == spec_last_index(ds@, b),
        r matches Some(f) ==> f < ds.len(),
{
    let mut k = ds.len();
    assert(ds@.take(k as int) =~= ds@);
    while k > 0
        invariant
            k <= ds.len(),
            spec_last_index(ds@, b) == spec_last_index(ds@.take(k as int), b),
        decreases k,
    {
        let ghost t = ds@.take(k as int);
        assert(t.drop_last() =~= ds@.take(k - 1));
        if ds[k - 1] == b {
            return Some(k - 1);
        }
        k = k - 1;
    }
    assert(ds@.take(0) =~= Seq::<u8>::empty());
    None
}

/// `text` holds a line break.
fn has_newline(s: &[u8], start: usize, end: usize) -> (r: bool)
    requires
        start <= end <= s.len(),
    ensures
        r == (find_byte(s@, start as int, NL) < end),
{
    let n = find_byte_from(s, start, NL);
    n < end
}

/// A Rust-style bang macro whose name is `[start, end)`.
pub fn is_bang_macro(s: &[u8], lang: &Language, start: usize, end: usize) -> (r: bool)
    requires
        lang.wf(),
        start <= end <= s.len(),
    ensures
        r == spec_is_bang_macro(s@, lang@, start as int, end as int),
{
    if !lang.flag(BANG_MACROS) {
        return false;
    }
    let bang = match next_significant_index(s, end) {
        Some(b) => b,
        None => {
            return false;
        },
    };
    if s[bang] != BANG {
        return false;
    }
    if lang.has_word(SECTION_BANG_MACRO_DECLARATIONS, slice_range(s, start, end)) {
        return true;
    }
    match next_significant_index(s, bang + 1) {
        None => true,
        Some(n) => s[n] == LPAREN || s[n] == LBRACKET || s[n] == LBRACE,
    }
}

impl ParseStack {
    /// An empty stack.
    pub fn new() -> (r: Self)
        ensures
            r@ == initial_model().stack,
    {
        ParseStack { delimiters: Vec::new(), expected: None, attribute_delimiter: None, attribute_path: false }
    }

    /// Shift a token onto the stack.
    pub fn shift(&mut self, kind: SyntaxKind)
        requires
            stack_wf(old(self)@),
        ensures
            final(self)@ == spec_shift(old(self)@, kind),
            stack_wf(final(self)@),
    {
        match kind {
            SyntaxKind::AttributeStart => {
                if self.delimiters.len() < MAX_DELIMITER_DEPTH {
                    self.attribute_delimiter = Some(self.delimiters.len());
                    self.attribute_path = true;
                    self.delimiters.push(LBRACKET);
                }
            },
            SyntaxKind::Open(d) => {
                if self.delimiters.len() < MAX_DELIMITER_DEPTH {
                    if d == LPAREN && self.attribute_delimiter.is_some() {
                        self.attribute_path = false;
                    }
                    self.delimiters.push(d);
                }
            },
            SyntaxKind::Close(d) => {
                let wanted = if d == RPAREN {
                    LPAREN
                } else if d == RBRACKET {
                    LBRACKET
                } else if d == RBRACE {
                    LBRACE
                } else {
                    return;
                };
                if let Some(f) = last_index(&self.delimiters, wanted) {
                    self.delimiters.truncate(f);
                    if self.attribute_delimiter == Some(f) {
                        self.attribute_delimiter = None;
                        self.attribute_path = false;
                    }
                }
            },
            _ => {},
        }
    }

    fn captures_attribute_macro(&self, s: &[u8], end: usize) -> (r: bool)
        requires
            end <= s.len(),
        ensures
            r == spec_captures_attribute_macro(s@, self@, end as int),
    {
        self.attribute_delimiter.is_some() && (self.attribute_path || next_significant_byte(s, end) == Some(LPAREN))
    }

    fn capture_identifier(&mut self, s: &[u8], lang: &Language, start: usize, end: usize) -> (r: TokenKind)
        requires
            lang.wf(),
            start <= end <= s.len(),
        ensures
            (r, final(self)@) == spec_capture_identifier(s@, lang@, start as int, end as int, old(self)@),
    {
        let text = slice_range(s, start, end);
        let expected = self.expected;
        self.expected = None;
        if lang.has_word(SECTION_MACRO_IDENTIFIERS, text) {
            if lang.has_word(SECTION_MACRO_OPERAND_IDENTIFIERS, text) {
                self.expected = Some(DeclarationKind::Macro);
            }
            return TokenKind::Macro;
        }
        if is_bang_macro(s, lang, start, end) {
            if lang.has_word(SECTION_BANG_MACRO_DECLARATIONS, text) {
                self.expected = Some(DeclarationKind::Macro);
            }
            return TokenKind::Macro;
        }
        if expected == Some(DeclarationKind::Macro) || self.captures_attribute_macro(s, end)
            || (lang.flag(UPPERCASE_MACROS) && looks_like_macro_constant(text)) {
            return TokenKind::Macro;
        }
        if lang.has_word(SECTION_BUILTIN_TYPES, text) {
            return TokenKind::Type;
        }
        if lang.is_keyword(text) {
            self.expected = lang.declaration_after(text);
            return TokenKind::Keyword;
        }
        if expected == Some(DeclarationKind::Function) || next_significant_byte(s, end) == Some(LPAREN) {
            TokenKind::Function
        } else if expected == Some(DeclarationKind::Type) || looks_like_type(text) {
            TokenKind::Type
        } else {
            TokenKind::Plain
        }
    }

    /// Classify a token and update the identifier context.
    pub fn capture(&mut self, s: &[u8], lang: &Language, start: usize, end: usize, kind: SyntaxKind) -> (r: TokenKind)
        requires
            lang.wf(),
            start <= end <= s.len(),
        ensures
            (r, final(self)@) == spec_capture(s@, lang@, start as int, end as int, kind, old(self)@),
    {
        match kind {
            SyntaxKind::String => TokenKind::String,
            SyntaxKind::Number => TokenKind::Number,
            SyntaxKind::Comment => TokenKind::Comment,
            SyntaxKind::Macro => {
                if lang.directive_in(slice_range(s, start, end), SECTION_PREPROCESSOR_MACRO_OPERANDS) {
                    self.expected = Some(DeclarationKind::Macro);
                }
                TokenKind::Macro
            },
            SyntaxKind::AttributeStart => TokenKind::Macro,
            SyntaxKind::Operator => TokenKind::Operator,
            SyntaxKind::Identifier => self.capture_identifier(s, lang, start, end),
            SyntaxKind::Trivia => {
                if has_newline(s, start, end) && self.expected == Some(DeclarationKind::Macro) {
                    self.expected = None;
                }
                TokenKind::Plain
            },
            _ => TokenKind::Plain,
        }
    }
}

/// A highlighted token: the byte range `[start, end)` of the source and its class.
#[derive(Clone, Copy, Debug, PartialEq, Eq, Structural)]
pub struct Span {
    pub start: usize,
    pub end: usize,
    pub kind: TokenKind,
}

/// A streaming highlighter over one source: each call of `next` yields the
/// next token, so a caller can stop as soon as the visible range is done.
pub struct Highlighter<'a> {
    source: &'a str,
    language: Language,
    cpp_raw_strings: bool,
    cursor: usize,
    expression_expected: bool,
    header_expected: bool,
    heredocs: Vec<ShellHeredoc>,
    stack: ParseStack,
}

/// Every pending here-document lies inside the source.
pub open spec fn heredocs_wf(hs: Seq<ShellHeredoc>, len: int) -> bool {
    hs.len() <= MAX_PENDING_HEREDOCS && forall|i: int| 0 <= i < hs.len() ==> {
        &&& (#[trigger] hs[i]).delimiter_start <= hs[i].delimiter_end <= len
        &&& hs[i].body_start <= len
    }
}

fn snap(s: &[u8], e: usize) -> (r: usize)
    requires
        e <= s.len(),
    ensures
        r == spec_snap(s@, e as int),
        e <= r <= s.len(),
        r == s.len() || !(0x80 <= s@[r as int] <= 0xbf),
{
    let mut k = e;
    while k < s.len() && 0x80 <= s[k] && s[k] <= 0xbf
        invariant
            e <= k <= s.len(),
            spec_snap(s@, e as int) == spec_snap(s@, k as int),
        decreases s.len() - k,
    {
        k = k + 1;
    }
    k
}

impl<'a> Highlighter<'a> {
    /// The source bytes.
    pub closed spec fn bytes(&self) -> Seq<u8> {
        self.source.spec_bytes()
    }

    /// The language profile.
    pub closed spec fn profile(&self) -> ProfileModel {
        self.language@
    }

    /// Whether C++ raw strings (`R"x(...)x"`) are recognized.
    pub closed spec fn cpp(&self) -> bool {
        self.cpp_raw_strings
    }

    /// The highlighter state.
    pub closed spec fn model(&self) -> HighlightModel {
        HighlightModel {
            scan: ScanModel {
                cursor: self.cursor as int,
                expression_expected: self.expression_expected,
                header_expected: self.header_expected,
                heredocs: self.heredocs@,
            },
            stack: self.stack@,
        }
    }

    /// The internal invariant: the cursor is on a character boundary and the
    /// pending here-documents and delimiters are within bounds.
    pub closed spec fn wf(&self) -> bool {
        &&& self.language.wf()
        &&& self.cursor <= self.bytes().len()
        &&& is_char_boundary(self.bytes(), self.cursor as int)
        &&& heredocs_wf(self.heredocs@, self.bytes().len() as int)
        &&& stack_wf(self.stack@)
    }

    /// A highlighter at the start of `source`.
    pub fn with_language(source: &'a str, language: Language, cpp_raw_strings: bool) -> (r: Self)
        requires
            language.wf(),
        ensures
            r.wf(),
            r.bytes() == source.spec_bytes(),
            r.profile() == language@,
            r.cpp() == cpp_raw_strings,
            r.model() == initial_model(),
    {
        proof {
            vstd::utf8::encode_utf8_valid_utf8(source@);
            vstd::utf8::is_char_boundary_start_end_of_seq(source.spec_bytes());
        }
        let r = Highlighter {
            source,
            language,
            cpp_raw_strings,
            cursor: 0,
            expression_expected: true,
            header_expected: false,
            heredocs: Vec::new(),
            stack: ParseStack::new(),
        };
        assert(r.model().scan == initial_model().scan);
        r
    }

    fn update_context(&mut self, s: &[u8], start: usize, end: usize, kind: SyntaxKind)
        requires
            old(self).language.wf(),
            start <= end <= s.len(),
        ensures
            final(self).model().scan == spec_update_context(s@, old(self).language@, start as int, end as int, kind, old(self).model().scan),
            final(self).model().stack == old(self).model().stack,
            final(self).source == old(self).source,
            final(self).language == old(self).language,
            final(self).cpp_raw_strings == old(self).cpp_raw_strings,
    {
        let text = slice_range(s, start, end);
        let header = match kind {
            SyntaxKind::Macro => self.language.directive_in(text, SECTION_PREPROCESSOR_HEADERS),
            SyntaxKind::Identifier => {
                if self.language.has_word(SECTION_HEADER_MACRO_IDENTIFIERS, text) {
                    true
                } else {
                    false
                }
            },
            SyntaxKind::Open(d) => self.header_expected && d == LPAREN,
            SyntaxKind::Comment | SyntaxKind::Trivia => self.header_expected,
            _ => false,
        };
        let expression = match kind {
            SyntaxKind::Identifier => self.language.has_word(SECTION_EXPRESSION_PREFIXES, text),
            SyntaxKind::Number | SyntaxKind::String | SyntaxKind::Close(_) => false,
            SyntaxKind::Operator | SyntaxKind::Open(_) | SyntaxKind::AttributeStart | SyntaxKind::Punctuation => true,
            SyntaxKind::Comment | SyntaxKind::Macro | SyntaxKind::Trivia => self.expression_expected,
        };
        self.header_expected = header;
        self.expression_expected = expression;
    }

    /// The next token, or `None` at the end of the source.
    pub fn next(&mut self) -> (r: Option<Span>)
        requires
            old(self).wf(),
        ensures
            final(self).wf(),
            final(self).bytes() == old(self).bytes(),
            final(self).profile() == old(self).profile(),
            final(self).cpp() == old(self).cpp(),
            old(self).model().scan.cursor == old(self).bytes().len() ==> r is None && final(self).model() == old(self).model(),
            old(self).model().scan.cursor < old(self).bytes().len() ==> (r matches Some(t) && {
                let (a, b, k, m) = spec_highlight_step(old(self).bytes(), old(self).profile(), old(self).cpp(), old(self).model());
                &&& t.start == a && t.end == b && t.kind == k
                &&& final(self).model() == m
                &&& spec_progress(old(self).bytes(), old(self).model(), m)
            }),
            r matches Some(t) ==> t.start <= t.end <= old(self).bytes().len()
                && is_char_boundary(old(self).bytes(), t.start as int)
                && is_char_boundary(old(self).bytes(), t.end as int)
                && t.start == old(self).model().scan.cursor
                && t.end == final(self).model().scan.cursor,
    {
        let s = self.source.as_bytes();
        let start = self.cursor;
        if start >= s.len() {
            return None;
        }
        proof {
            reveal(spec_scan_step);
            reveal(spec_highlight_step);
        }
        let ghost old_scan = self.model().scan;
        let (raw_end, kind) = if self.heredocs.len() > 0 && start >= self.heredocs[0].body_start {
            let h = self.heredocs[0];
            assert(self.heredocs@[0] == h);
            let e = shell_heredoc_body_end(s, start, h);
            self.heredocs.remove(0);
            assert(self.heredocs@ =~= old_scan.heredocs.drop_first());
            (e, SyntaxKind::String)
        } else {
            let limit = if self.heredocs.len() > 0 && self.heredocs[0].body_start > start {
                self.heredocs[0].body_start
            } else {
                s.len()
            };
            assert(limit == spec_body_limit(s@, old_scan));
            let (e, k, h) = raw_token(s, &self.language, self.cpp_raw_strings, start, self.header_expected,
                self.expression_expected, limit);
            if let Some(d) = h {
                if self.heredocs.len() < MAX_PENDING_HEREDOCS {
                    self.heredocs.push(d);
                }
            }
            (e, k)
        };
        let end = snap(s, raw_end);
        proof {
            vstd::utf8::encode_utf8_valid_utf8(self.source@);
            vstd::utf8::is_char_boundary_start_end_of_seq(s@);
            if end < s.len() {
                vstd::utf8::is_char_boundary_iff_not_is_continuation_byte(s@, end as int);
            }
        }
        self.cursor = end;
        self.update_context(s, start, end, kind);
        let tk = self.stack.capture(s, &self.language, start, end, kind);
        self.stack.shift(kind);
        Some(Span { start, end, kind: tk })
    }
}

} // verus!
