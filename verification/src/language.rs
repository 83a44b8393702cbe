//! Language profiles for the code highlighter: word lists (keywords,
//! declaration keywords, macro vocabularies, ...) and lexical feature flags.
//! The scanner itself is language agnostic; everything language specific is
//! read from a profile.
use vstd::prelude::*;
use crate::bytes::{spec_lower_seq, lower, spec_is_space, is_space, HASH};

verus! {

/// Word-list section `aliases`.
pub const SECTION_ALIASES: usize = 0;

/// Word-list section `keywords`.
pub const SECTION_KEYWORDS: usize = 1;

/// Word-list section `builtin_types`.
pub const SECTION_BUILTIN_TYPES: usize = 2;

/// Word-list section `function_declarations`.
pub const SECTION_FUNCTION_DECLARATIONS: usize = 3;

/// Word-list section `type_declarations`.
pub const SECTION_TYPE_DECLARATIONS: usize = 4;

/// Word-list section `macro_declarations`.
pub const SECTION_MACRO_DECLARATIONS: usize = 5;

/// Word-list section `preprocessor_macro_operands`.
pub const SECTION_PREPROCESSOR_MACRO_OPERANDS: usize = 6;

/// Word-list section `preprocessor_headers`.
pub const SECTION_PREPROCESSOR_HEADERS: usize = 7;

/// Word-list section `bang_macro_declarations`.
pub const SECTION_BANG_MACRO_DECLARATIONS: usize = 8;

/// Word-list section `macro_identifiers`.
pub const SECTION_MACRO_IDENTIFIERS: usize = 9;

/// Word-list section `macro_operand_identifiers`.
pub const SECTION_MACRO_OPERAND_IDENTIFIERS: usize = 10;

/// Word-list section `header_macro_identifiers`.
pub const SECTION_HEADER_MACRO_IDENTIFIERS: usize = 11;

/// Word-list section `expression_prefixes`.
pub const SECTION_EXPRESSION_PREFIXES: usize = 12;

/// Number of word-list sections in a profile.
pub const NUM_SECTIONS: usize = 13;

/// Feature flag `case_insensitive_keywords`.
pub const CASE_INSENSITIVE_KEYWORDS: usize = 0;

/// Feature flag `slash_comments`.
pub const SLASH_COMMENTS: usize = 1;

/// Feature flag `dash_comments`.
pub const DASH_COMMENTS: usize = 2;

/// Feature flag `hash_comments`.
pub const HASH_COMMENTS: usize = 3;

/// Feature flag `block_comments`.
pub const BLOCK_COMMENTS: usize = 4;

/// Feature flag `nested_block_comments`.
pub const NESTED_BLOCK_COMMENTS: usize = 5;

/// Feature flag `preprocessor`.
pub const PREPROCESSOR: usize = 6;

/// Feature flag `decorators`.
pub const DECORATORS: usize = 7;

/// Feature flag `dollar_identifiers`.
pub const DOLLAR_IDENTIFIERS: usize = 8;

/// Feature flag `javascript_lexing`.
pub const JAVASCRIPT_LEXING: usize = 9;

/// Feature flag `python_strings`.
pub const PYTHON_STRINGS: usize = 10;

/// Feature flag `rust_syntax`.
pub const RUST_SYNTAX: usize = 11;

/// Feature flag `multiline_strings`.
pub const MULTILINE_STRINGS: usize = 12;

/// Feature flag `rust_attributes`.
pub const RUST_ATTRIBUTES: usize = 13;

/// Feature flag `bang_macros`.
pub const BANG_MACROS: usize = 14;

/// Feature flag `uppercase_macros`.
pub const UPPERCASE_MACROS: usize = 15;

/// Feature flag `macro_metavariables`.
pub const MACRO_METAVARIABLES: usize = 16;

/// Feature flag `semicolon_comments`.
pub const SEMICOLON_COMMENTS: usize = 17;

/// Feature flag `percent_comments`.
pub const PERCENT_COMMENTS: usize = 18;

/// Feature flag `apostrophe_comments`.
pub const APOSTROPHE_COMMENTS: usize = 19;

/// Feature flag `bang_comments`.
pub const BANG_COMMENTS: usize = 20;

/// Feature flag `hyphen_identifiers`.
pub const HYPHEN_IDENTIFIERS: usize = 21;

/// Feature flag `question_identifiers`.
pub const QUESTION_IDENTIFIERS: usize = 22;

/// Feature flag `bang_identifiers`.
pub const BANG_IDENTIFIERS: usize = 23;

/// Feature flag `paren_star_comments`.
pub const PAREN_STAR_COMMENTS: usize = 24;

/// Feature flag `brace_dash_comments`.
pub const BRACE_DASH_COMMENTS: usize = 25;

/// Feature flag `triple_double_strings`.
pub const TRIPLE_DOUBLE_STRINGS: usize = 26;

/// Feature flag `triple_single_strings`.
pub const TRIPLE_SINGLE_STRINGS: usize = 27;

/// Feature flag `double_semicolon_comments`.
pub const DOUBLE_SEMICOLON_COMMENTS: usize = 28;

/// Feature flag `paren_semicolon_comments`.
pub const PAREN_SEMICOLON_COMMENTS: usize = 29;

/// Feature flag `lua_long_brackets`.
pub const LUA_LONG_BRACKETS: usize = 30;

/// Feature flag `backtick_strings`.
pub const BACKTICK_STRINGS: usize = 31;

/// Feature flag `backtick_identifiers`.
pub const BACKTICK_IDENTIFIERS: usize = 32;

/// Feature flag `backtick_operators`.
pub const BACKTICK_OPERATORS: usize = 33;

/// Feature flag `apostrophe_digit_separators`.
pub const APOSTROPHE_DIGIT_SEPARATORS: usize = 34;

/// Feature flag `shell_heredocs`.
pub const SHELL_HEREDOCS: usize = 35;

/// Feature flag `c_family_prefixed_strings`.
pub const C_FAMILY_PREFIXED_STRINGS: usize = 36;

/// Feature flag `csharp_prefixed_strings`.
pub const CSHARP_PREFIXED_STRINGS: usize = 37;

/// Feature flag `fsharp_interpolated_strings`.
pub const FSHARP_INTERPOLATED_STRINGS: usize = 38;

/// Feature flag `shell_prefixed_strings`.
pub const SHELL_PREFIXED_STRINGS: usize = 39;

/// Feature flag `dollar_quoted_strings`.
pub const DOLLAR_QUOTED_STRINGS: usize = 40;

/// Feature flag `groovy_dollar_slashy`.
pub const GROOVY_DOLLAR_SLASHY: usize = 41;

/// Feature flag `objective_c_strings`.
pub const OBJECTIVE_C_STRINGS: usize = 42;

/// Feature flag `powershell_here_strings`.
pub const POWERSHELL_HERE_STRINGS: usize = 43;

/// Feature flag `swift_hash_raw_strings`.
pub const SWIFT_HASH_RAW_STRINGS: usize = 44;

/// Feature flag `ruby_percent_literals`.
pub const RUBY_PERCENT_LITERALS: usize = 45;

/// Feature flag `elixir_sigils`.
pub const ELIXIR_SIGILS: usize = 46;

/// Feature flag `php_heredocs`.
pub const PHP_HEREDOCS: usize = 47;

/// Feature flag `ocaml_quoted_strings`.
pub const OCAML_QUOTED_STRINGS: usize = 48;

/// Feature flag `haskell_quasiquotes`.
pub const HASKELL_QUASIQUOTES: usize = 49;

/// Feature flag `r_raw_strings`.
pub const R_RAW_STRINGS: usize = 50;

/// Feature flag `postfix_apostrophe_operators`.
pub const POSTFIX_APOSTROPHE_OPERATORS: usize = 51;

/// Feature flag `apostrophe_names`.
pub const APOSTROPHE_NAMES: usize = 52;

/// Feature flag `apostrophe_identifiers`.
pub const APOSTROPHE_IDENTIFIERS: usize = 53;

/// Feature flag `verilog_numbers`.
pub const VERILOG_NUMBERS: usize = 54;

/// Feature flag `backtick_macros`.
pub const BACKTICK_MACROS: usize = 55;

/// Feature flag `cmake_brackets`.
pub const CMAKE_BRACKETS: usize = 56;

/// Comment style `brace`.
pub const STYLE_BRACE: usize = 57;

/// Comment style `angle_hash`.
pub const STYLE_ANGLE_HASH: usize = 58;

/// Comment style `hash_pipe`.
pub const STYLE_HASH_PIPE: usize = 59;

/// Comment style `hash_equals`.
pub const STYLE_HASH_EQUALS: usize = 60;

/// Comment style `hash_bracket`.
pub const STYLE_HASH_BRACKET: usize = 61;

/// Comment style `slash_plus`.
pub const STYLE_SLASH_PLUS: usize = 62;

/// Number of feature flags named in a `flags` line.
pub const NUM_NAMED_FLAGS: usize = 57;

/// Number of feature flags, comment styles included.
pub const NUM_FLAGS: usize = 63;

/// The name of a feature flag in a language pack.
pub open spec fn spec_flag_name(i: int) -> Seq<char> {
    if i == 0 {
        "case_insensitive_keywords"@
    } else if i == 1 {
        "slash_comments"@
    } else if i == 2 {
        "dash_comments"@
    } else if i == 3 {
        "hash_comments"@
    } else if i == 4 {
        "block_comments"@
    } else if i == 5 {
        "nested_block_comments"@
    } else if i == 6 {
        "preprocessor"@
    } else if i == 7 {
        "decorators"@
    } else if i == 8 {
        "dollar_identifiers"@
    } else if i == 9 {
        "javascript_lexing"@
    } else if i == 10 {
        "python_strings"@
    } else if i == 11 {
        "rust_syntax"@
    } else if i == 12 {
        "multiline_strings"@
    } else if i == 13 {
        "rust_attributes"@
    } else if i == 14 {
        "bang_macros"@
    } else if i == 15 {
        "uppercase_macros"@
    } else if i == 16 {
        "macro_metavariables"@
    } else if i == 17 {
        "semicolon_comments"@
    } else if i == 18 {
        "percent_comments"@
    } else if i == 19 {
        "apostrophe_comments"@
    } else if i == 20 {
        "bang_comments"@
    } else if i == 21 {
        "hyphen_identifiers"@
    } else if i == 22 {
        "question_identifiers"@
    } else if i == 23 {
        "bang_identifiers"@
    } else if i == 24 {
        "paren_star_comments"@
    } else if i == 25 {
        "brace_dash_comments"@
    } else if i == 26 {
        "triple_double_strings"@
    } else if i == 27 {
        "triple_single_strings"@
    } else if i == 28 {
        "double_semicolon_comments"@
    } else if i == 29 {
        "paren_semicolon_comments"@
    } else if i == 30 {
        "lua_long_brackets"@
    } else if i == 31 {
        "backtick_strings"@
    } else if i == 32 {
        "backtick_identifiers"@
    } else if i == 33 {
        "backtick_operators"@
    } else if i == 34 {
        "apostrophe_digit_separators"@
    } else if i == 35 {
        "shell_heredocs"@
    } else if i == 36 {
        "c_family_prefixed_strings"@
    } else if i == 37 {
        "csharp_prefixed_strings"@
    } else if i == 38 {
        "fsharp_interpolated_strings"@
    } else if i == 39 {
        "shell_prefixed_strings"@
    } else if i == 40 {
        "dollar_quoted_strings"@
    } else if i == 41 {
        "groovy_dollar_slashy"@
    } else if i == 42 {
        "objective_c_strings"@
    } else if i == 43 {
        "powershell_here_strings"@
    } else if i == 44 {
        "swift_hash_raw_strings"@
    } else if i == 45 {
        "ruby_percent_literals"@
    } else if i == 46 {
        "elixir_sigils"@
    } else if i == 47 {
        "php_heredocs"@
    } else if i == 48 {
        "ocaml_quoted_strings"@
    } else if i == 49 {
        "haskell_quasiquotes"@
    } else if i == 50 {
        "r_raw_strings"@
    } else if i == 51 {
        "postfix_apostrophe_operators"@
    } else if i == 52 {
        "apostrophe_names"@
    } else if i == 53 {
        "apostrophe_identifiers"@
    } else if i == 54 {
        "verilog_numbers"@
    } else if i == 55 {
        "backtick_macros"@
    } else if i == 56 {
        "cmake_brackets"@
    } else {
        Seq::empty()
    }
}

/// The name of a comment style in a language pack.
pub open spec fn spec_style_name(i: int) -> Seq<char> {
    if i == 0 {
        "brace"@
    } else if i == 1 {
        "angle_hash"@
    } else if i == 2 {
        "hash_pipe"@
    } else if i == 3 {
        "hash_equals"@
    } else if i == 4 {
        "hash_bracket"@
    } else if i == 5 {
        "slash_plus"@
    } else {
        Seq::empty()
    }
}

/// The name of a word-list section in a language pack.
pub open spec fn spec_section_name(i: int) -> Seq<char> {
    if i == 0 {
        "aliases"@
    } else if i == 1 {
        "keywords"@
    } else if i == 2 {
        "builtin_types"@
    } else if i == 3 {
        "function_declarations"@
    } else if i == 4 {
        "type_declarations"@
    } else if i == 5 {
        "macro_declarations"@
    } else if i == 6 {
        "preprocessor_macro_operands"@
    } else if i == 7 {
        "preprocessor_headers"@
    } else if i == 8 {
        "bang_macro_declarations"@
    } else if i == 9 {
        "macro_identifiers"@
    } else if i == 10 {
        "macro_operand_identifiers"@
    } else if i == 11 {
        "header_macro_identifiers"@
    } else if i == 12 {
        "expression_prefixes"@
    } else {
        Seq::empty()
    }
}

/// The name of feature flag `i`.
pub fn flag_name(i: usize) -> (r: &'static str)
    requires
        i < NUM_NAMED_FLAGS,
    ensures
        r@ == spec_flag_name(i as int),
{
    if i == 0 {
        "case_insensitive_keywords"
    } else if i == 1 {
        "slash_comments"
    } else if i == 2 {
        "dash_comments"
    } else if i == 3 {
        "hash_comments"
    } else if i == 4 {
        "block_comments"
    } else if i == 5 {
        "nested_block_comments"
    } else if i == 6 {
        "preprocessor"
    } else if i == 7 {
        "decorators"
    } else if i == 8 {
        "dollar_identifiers"
    } else if i == 9 {
        "javascript_lexing"
    } else if i == 10 {
        "python_strings"
    } else if i == 11 {
        "rust_syntax"
    } else if i == 12 {
        "multiline_strings"
    } else if i == 13 {
        "rust_attributes"
    } else if i == 14 {
        "bang_macros"
    } else if i == 15 {
        "uppercase_macros"
    } else if i == 16 {
        "macro_metavariables"
    } else if i == 17 {
        "semicolon_comments"
    } else if i == 18 {
        "percent_comments"
    } else if i == 19 {
        "apostrophe_comments"
    } else if i == 20 {
        "bang_comments"
    } else if i == 21 {
        "hyphen_identifiers"
    } else if i == 22 {
        "question_identifiers"
    } else if i == 23 {
        "bang_identifiers"
    } else if i == 24 {
        "paren_star_comments"
    } else if i == 25 {
        "brace_dash_comments"
    } else if i == 26 {
        "triple_double_strings"
    } else if i == 27 {
        "triple_single_strings"
    } else if i == 28 {
        "double_semicolon_comments"
    } else if i == 29 {
        "paren_semicolon_comments"
    } else if i == 30 {
        "lua_long_brackets"
    } else if i == 31 {
        "backtick_strings"
    } else if i == 32 {
        "backtick_identifiers"
    } else if i == 33 {
        "backtick_operators"
    } else if i == 34 {
        "apostrophe_digit_separators"
    } else if i == 35 {
        "shell_heredocs"
    } else if i == 36 {
        "c_family_prefixed_strings"
    } else if i == 37 {
        "csharp_prefixed_strings"
    } else if i == 38 {
        "fsharp_interpolated_strings"
    } else if i == 39 {
        "shell_prefixed_strings"
    } else if i == 40 {
        "dollar_quoted_strings"
    } else if i == 41 {
        "groovy_dollar_slashy"
    } else if i == 42 {
        "objective_c_strings"
    } else if i == 43 {
        "powershell_here_strings"
    } else if i == 44 {
        "swift_hash_raw_strings"
    } else if i == 45 {
        "ruby_percent_literals"
    } else if i == 46 {
        "elixir_sigils"
    } else if i == 47 {
        "php_heredocs"
    } else if i == 48 {
        "ocaml_quoted_strings"
    } else if i == 49 {
        "haskell_quasiquotes"
    } else if i == 50 {
        "r_raw_strings"
    } else if i == 51 {
        "postfix_apostrophe_operators"
    } else if i == 52 {
        "apostrophe_names"
    } else if i == 53 {
        "apostrophe_identifiers"
    } else if i == 54 {
        "verilog_numbers"
    } else if i == 55 {
        "backtick_macros"
    } else if i == 56 {
        "cmake_brackets"
    } else {
        ""
    }
}

/// The name of comment style `i`.
pub fn style_name(i: usize) -> (r: &'static str)
    requires
        i < 6,
    ensures
        r@ == spec_style_name(i as int),
{
    if i == 0 {
        "brace"
    } else if i == 1 {
        "angle_hash"
    } else if i == 2 {
        "hash_pipe"
    } else if i == 3 {
        "hash_equals"
    } else if i == 4 {
        "hash_bracket"
    } else if i == 5 {
        "slash_plus"
    } else {
        ""
    }
}

/// The name of word-list section `i`.
pub fn section_name(i: usize) -> (r: &'static str)
    requires
        i < NUM_SECTIONS,
    ensures
        r@ == spec_section_name(i as int),
{
    if i == 0 {
        "aliases"
    } else if i == 1 {
        "keywords"
    } else if i == 2 {
        "builtin_types"
    } else if i == 3 {
        "function_declarations"
    } else if i == 4 {
        "type_declarations"
    } else if i == 5 {
        "macro_declarations"
    } else if i == 6 {
        "preprocessor_macro_operands"
    } else if i == 7 {
        "preprocessor_headers"
    } else if i == 8 {
        "bang_macro_declarations"
    } else if i == 9 {
        "macro_identifiers"
    } else if i == 10 {
        "macro_operand_identifiers"
    } else if i == 11 {
        "header_macro_identifiers"
    } else if i == 12 {
        "expression_prefixes"
    } else {
        ""
    }
}


/// What follows a declaration keyword: a function, type or macro name.
#[derive(Clone, Copy, Debug, PartialEq, Eq, Structural)]
pub enum DeclarationKind {
    Function,
    Type,
    Macro,
}

/// The mathematical content of a language profile.
pub struct ProfileModel {
    pub words: Seq<Seq<Seq<u8>>>,
    pub flags: Seq<bool>,
}

impl ProfileModel {
    /// A well-formed profile has every section and every flag.
    pub open spec fn wf(self) -> bool {
        self.words.len() == NUM_SECTIONS && self.flags.len() == NUM_FLAGS
    }

    /// Feature flag `f` is set.
    pub open spec fn flag(self, f: int) -> bool {
        0 <= f < self.flags.len() && self.flags[f]
    }

    /// The words of section `k`.
    pub open spec fn section(self, k: int) -> Seq<Seq<u8>> {
        if 0 <= k < self.words.len() {
            self.words[k]
        } else {
            Seq::empty()
        }
    }
}

/// `w` is one of `ws`.
pub open spec fn spec_contains(ws: Seq<Seq<u8>>, w: Seq<u8>) -> bool {
    exists|i: int| 0 <= i < ws.len() && #[trigger] ws[i] == w
}

/// `w` is one of `ws`, ignoring ASCII case.
pub open spec fn spec_contains_ignore_case(ws: Seq<Seq<u8>>, w: Seq<u8>) -> bool {
    exists|i: int| 0 <= i < ws.len() && spec_lower_seq(#[trigger] ws[i]) == spec_lower_seq(w)
}

/// Word lookup, ignoring ASCII case when `case_insensitive`.
pub open spec fn spec_contains_word(ws: Seq<Seq<u8>>, w: Seq<u8>, case_insensitive: bool) -> bool {
    if case_insensitive {
        spec_contains_ignore_case(ws, w)
    } else {
        spec_contains(ws, w)
    }
}

/// The name of a preprocessor directive token: the first whitespace-separated
/// word after the leading `#`.
pub open spec fn spec_directive_name(d: Seq<u8>) -> Option<Seq<u8>> {
    if d.len() == 0 || d[0] != HASH {
        None
    } else {
        let a = spec_space_end(d, 1);
        if a >= d.len() {
            None
        } else {
            Some(d.subrange(a, spec_word_stop(d, a)))
        }
    }
}

/// End of the ASCII whitespace starting at `i`.
pub open spec fn spec_space_end(d: Seq<u8>, i: int) -> int
    decreases d.len() - i,
{
    if 0 <= i < d.len() && spec_is_space(d[i]) {
        spec_space_end(d, i + 1)
    } else {
        i
    }
}

/// End of the non-whitespace run starting at `i`.
pub open spec fn spec_word_stop(d: Seq<u8>, i: int) -> int
    decreases d.len() - i,
{
    if 0 <= i < d.len() && !spec_is_space(d[i]) {
        spec_word_stop(d, i + 1)
    } else {
        i
    }
}

/// The declaration a keyword announces.
pub open spec fn spec_declaration_after(p: ProfileModel, w: Seq<u8>) -> Option<DeclarationKind> {
    if spec_contains(p.section(SECTION_FUNCTION_DECLARATIONS as int), w) {
        Some(DeclarationKind::Function)
    } else if spec_contains(p.section(SECTION_TYPE_DECLARATIONS as int), w) {
        Some(DeclarationKind::Type)
    } else if spec_contains(p.section(SECTION_MACRO_DECLARATIONS as int), w) {
        Some(DeclarationKind::Macro)
    } else {
        None
    }
}

/// `w` is a keyword of the profile.
pub open spec fn spec_is_keyword(p: ProfileModel, w: Seq<u8>) -> bool {
    spec_contains_word(p.section(SECTION_KEYWORDS as int), w, p.flag(CASE_INSENSITIVE_KEYWORDS as int))
}

/// A preprocessor directive whose name is in section `k`.
pub open spec fn spec_directive_in(p: ProfileModel, d: Seq<u8>, k: int) -> bool {
    match spec_directive_name(d) {
        Some(n) => spec_contains(p.section(k), n),
        None => false,
    }
}

/// A language profile: word lists by section and feature flags.
pub struct Language {
    pub words: Vec<Vec<Vec<u8>>>,
    pub flags: Vec<bool>,
}

impl View for Language {
    type V = ProfileModel;

    open spec fn view(&self) -> ProfileModel {
        ProfileModel { words: self.words.deep_view(), flags: self.flags@ }
    }
}

/// Lower-case ASCII equality of two byte strings.
pub fn eq_ignore_case(a: &[u8], b: &[u8]) -> (r: bool)
    ensures
        r == (spec_lower_seq(a@) == spec_lower_seq(b@)),
{
    if a.len() != b.len() {
        assert(spec_lower_seq(a@).len() != spec_lower_seq(b@).len());
        return false;
    }
    let mut i: usize = 0;
    while i < a.len()
        invariant
            a.len() == b.len(),
            i <= a.len(),
            forall|k: int| 0 <= k < i ==> crate::bytes::spec_lower(a@[k]) == crate::bytes::spec_lower(b@[k]),
        decreases a.len() - i,
    {
        if lower(a[i]) != lower(b[i]) {
            assert(spec_lower_seq(a@)[i as int] != spec_lower_seq(b@)[i as int]);
            return false;
        }
        i = i + 1;
    }
    assert(spec_lower_seq(a@) =~= spec_lower_seq(b@));
    true
}

/// Look `w` up among `ws`.
pub fn contains_word(ws: &Vec<Vec<u8>>, w: &[u8], case_insensitive: bool) -> (r: bool)
    ensures
        r == spec_contains_word(ws.deep_view(), w@, case_insensitive),
{
    let ghost dv = ws.deep_view();
    let mut i: usize = 0;
    while i < ws.len()
        invariant
            i <= ws.len(),
            dv == ws.deep_view(),
            dv.len() == ws.len(),
            forall|k: int| 0 <= k < i ==> if case_insensitive {
                spec_lower_seq(#[trigger] dv[k]) != spec_lower_seq(w@)
            } else {
                #[trigger] dv[k] != w@
            },
        decreases ws.len() - i,
    {
        assert(dv[i as int] == ws@[i as int]@);
        let same = if case_insensitive {
            eq_ignore_case(ws[i].as_slice(), w)
        } else {
            crate::shell::bytes_equal(ws[i].as_slice(), w)
        };
        if same {
            return true;
        }
        i = i + 1;
    }
    false
}

/// The name of a preprocessor directive token.
pub fn directive_name(d: &[u8]) -> (r: Option<(usize, usize)>)
    ensures
        r is Some <==> spec_directive_name(d@) is Some,
        r matches Some((a, b)) ==> a <= b <= d.len() && spec_directive_name(d@) == Some(d@.subrange(a as int, b as int)),
{
    if d.len() == 0 || d[0] != HASH {
        return None;
    }
    let mut a: usize = 1;
    while a < d.len() && is_space(d[a])
        invariant
            1 <= a <= d.len(),
            spec_space_end(d@, 1) == spec_space_end(d@, a as int),
        decreases d.len() - a,
    {
        a = a + 1;
    }
    if a >= d.len() {
        return None;
    }
    let mut b = a;
    while b < d.len() && !is_space(d[b])
        invariant
            a <= b <= d.len(),
            spec_word_stop(d@, a as int) == spec_word_stop(d@, b as int),
        decreases d.len() - b,
    {
        b = b + 1;
    }
    Some((a, b))
}

impl Language {
    /// Every section and flag is present.
    pub open spec fn wf(&self) -> bool {
        self@.wf()
    }

    /// Feature flag `f`.
    pub fn flag(&self, f: usize) -> (r: bool)
        requires
            self.wf(),
            f < NUM_FLAGS,
        ensures
            r == self@.flag(f as int),
    {
        self.flags[f]
    }

    /// `w` is in word-list section `k` (exact comparison).
    pub fn has_word(&self, k: usize, w: &[u8]) -> (r: bool)
        requires
            self.wf(),
            k < NUM_SECTIONS,
        ensures
            r == spec_contains(self@.section(k as int), w@),
    {
        assert(self@.section(k as int) == self.words@[k as int].deep_view());
        contains_word(&self.words[k], w, false)
    }

    /// `w` is a keyword (ignoring ASCII case when the profile says so).
    pub fn is_keyword(&self, w: &[u8]) -> (r: bool)
        requires
            self.wf(),
        ensures
            r == spec_is_keyword(self@, w@),
    {
        let ci = self.flag(CASE_INSENSITIVE_KEYWORDS);
        assert(self@.section(SECTION_KEYWORDS as int) == self.words@[SECTION_KEYWORDS as int].deep_view());
        contains_word(&self.words[SECTION_KEYWORDS], w, ci)
    }

    /// The kind of name that a declaration keyword introduces.
    pub fn declaration_after(&self, w: &[u8]) -> (r: Option<DeclarationKind>)
        requires
            self.wf(),
        ensures
            r == spec_declaration_after(self@, w@),
    {
        if self.has_word(SECTION_FUNCTION_DECLARATIONS, w) {
            Some(DeclarationKind::Function)
        } else if self.has_word(SECTION_TYPE_DECLARATIONS, w) {
            Some(DeclarationKind::Type)
        } else if self.has_word(SECTION_MACRO_DECLARATIONS, w) {
            Some(DeclarationKind::Macro)
        } else {
            None
        }
    }

    /// The directive token names a directive listed in section `k`.
    pub fn directive_in(&self, d: &[u8], k: usize) -> (r: bool)
        requires
            self.wf(),
            k < NUM_SECTIONS,
        ensures
            r == spec_directive_in(self@, d@, k as int),
    {
        match directive_name(d) {
            Some((a, b)) => self.has_word(k, crate::scan::slice_range(d, a, b)),
            None => false,
        }
    }
}

/// A copy of one word list.
fn copy_words(ws: &Vec<Vec<u8>>) -> (r: Vec<Vec<u8>>)
    ensures
        r.deep_view() == ws.deep_view(),
{
    let mut out: Vec<Vec<u8>> = Vec::new();
    let mut i: usize = 0;
    while i < ws.len()
        invariant
            i <= ws.len(),
            out.deep_view() =~= ws.deep_view().take(i as int),
        decreases ws.len() - i,
    {
        let w = vstd::slice::slice_to_vec(ws[i].as_slice());
        assert(w.deep_view() =~= ws@[i as int].deep_view());
        let ghost before = out.deep_view();
        out.push(w);
        assert(out.deep_view() =~= before.push(ws@[i as int].deep_view()));
        assert(ws.deep_view().take(i + 1) =~= ws.deep_view().take(i as int).push(ws.deep_view()[i as int]));
        i = i + 1;
    }
    assert(ws.deep_view().take(ws.len() as int) =~= ws.deep_view());
    out
}

impl Language {
    /// A copy of this profile.
    pub fn copy(&self) -> (r: Language)
        ensures
            r@ == self@,
    {
        let mut words: Vec<Vec<Vec<u8>>> = Vec::new();
        let mut k: usize = 0;
        while k < self.words.len()
            invariant
                k <= self.words.len(),
                words.deep_view() =~= self.words.deep_view().take(k as int),
            decreases self.words.len() - k,
        {
            let ws = copy_words(&self.words[k]);
            let ghost before = words.deep_view();
            words.push(ws);
            assert(words.deep_view() =~= before.push(self.words@[k as int].deep_view()));
            assert(self.words.deep_view().take(k + 1) =~= self.words.deep_view().take(k as int).push(self.words.deep_view()[k as int]));
            k = k + 1;
        }
        assert(self.words.deep_view().take(self.words.len() as int) =~= self.words.deep_view());
        let flags = vstd::slice::slice_to_vec(self.flags.as_slice());
        Language { words, flags }
    }
}

} // verus!
