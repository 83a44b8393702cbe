//! Resolving a code fence's info string to a language profile: fence names
//! are normalized (display names such as `LLVM IR` become `llvm-ir`), then
//! looked up among the aliases of the registered profiles, loading a pack
//! whose aliases name the fence when none is registered yet.
use vstd::prelude::*;
use vstd::string::StringSliceAdditionalSpecFns;
use crate::bytes::{
    spec_is_alnum, is_alnum, spec_lower, lower, spec_lower_seq, UNDERSCORE, PLUS, HASH, MINUS,
};
use crate::language::{
    Language, ProfileModel, spec_contains_ignore_case, eq_ignore_case, SECTION_ALIASES,
};
use crate::pack::{parse_pack, spec_parse_pack, PackError, PackBuilder, empty_pack};
use crate::search::trimmed;
use crate::shell::bytes_equal;
use crate::packs::{embedded_packs, spec_embedded_packs};

verus! {

/// Wraps `str::trim`: the string without leading and trailing white space
/// (Unicode `White_Space`, as `char::is_whitespace` reports it).
#[verifier::external_body]
pub(crate) fn trim_str(s: &str) -> (r: &str)
    ensures
        r@ == trimmed(s@),
{
    s.trim()
}

/// A byte that may appear in a pack name: ASCII letter or digit, `_ + # -`.
pub open spec fn spec_is_name_byte(b: u8) -> bool {
    spec_is_alnum(b) || b == UNDERSCORE || b == PLUS || b == HASH || b == MINUS
}

pub fn is_name_byte(b: u8) -> (r: bool)
    ensures
        r == spec_is_name_byte(b),
{
    is_alnum(b) || b == UNDERSCORE || b == PLUS || b == HASH || b == MINUS
}

/// Fence names with a canonical pack name that the generic rule would not
/// give: `(display name, pack name, compared exactly)`; other entries are
/// compared ignoring ASCII case. The first match wins.
pub open spec fn spec_special_names() -> Seq<(&'static str, &'static str, bool)> {
    seq![
        ("V", "vlang", true),
        ("V language", "vlang", false),
        ("><>", "fish-esolang", true),
        ("///", "slashes-esolang", true),
        ("P\u{2032}\u{2032}", "p-prime-prime", true),
        ("P''", "p-prime-prime", true),
        ("p\u{2032}\u{2032}", "p-prime-prime", true),
        ("p''", "p-prime-prime", true),
        ("Ook!", "ook", false),
        ("Ink!", "ink", false),
        ("GAS", "gas-syntax", true),
        ("Delphi / Object Pascal", "objectpascal", false),
        ("Object Pascal", "objectpascal", false),
        ("Visual Basic", "vbnet", false),
        ("LabVIEW G", "labview", false),
        ("PL/SQL", "plsql", false),
        ("PL/I", "pli", false),
        ("PL/M", "plm", false),
        ("Common Lisp", "lisp", false),
        ("Coq / Gallina", "coq", false),
        ("Standard ML", "sml", false),
        ("CUDA C++", "cuda", false),
        ("OpenCL C", "opencl", false),
        ("WebAssembly Text Format", "wat", false),
        ("BBC BASIC", "bbcbasic", false),
        ("Component Pascal", "componentpascal", false),
        ("ALGOL 60", "algol60", false),
        ("ALGOL 68", "algol68", false),
        ("Monkey X", "monkeyx", false),
        ("Chef DSL", "chef-dsl", false),
        ("Emacs Lisp", "elisp", false),
        ("Guile Scheme", "guile", false),
        ("Chez Scheme", "chez", false),
        ("Chicken Scheme", "chicken", false),
        ("Wolfram Language", "wolfram", false),
        ("Max/MSP", "maxmsp", false),
        ("Shakespeare Programming Language", "shakespeare", false),
        ("Lazy K", "lazyk", false),
        ("SKI combinator calculus", "ski", false),
        ("Binary Lambda Calculus", "blc", false),
        (".NET CIL", "dotnet-cil", false),
        ("F# IL", "fsharp-il", false),
        ("AT&T assembly syntax", "att-assembly-syntax", false),
        ("CIR", "cir-ir", false),
        ("MLIR", "mlir-ir", false),
        ("ANF", "anf-ir", false),
        ("SPIR", "spir-ir", false),
        ("DXIL", "dxil-ir", false),
        ("DXBC", "dxbc-bytecode", false),
        ("MSIL", "msil-bytecode", false)
    ]
}

fn special_names() -> (r: &'static [(&'static str, &'static str, bool)])
    ensures
        r@ == spec_special_names(),
{
    let r: &'static [(&'static str, &'static str, bool)] = &[
        ("V", "vlang", true),
        ("V language", "vlang", false),
        ("><>", "fish-esolang", true),
        ("///", "slashes-esolang", true),
        ("P\u{2032}\u{2032}", "p-prime-prime", true),
        ("P''", "p-prime-prime", true),
        ("p\u{2032}\u{2032}", "p-prime-prime", true),
        ("p''", "p-prime-prime", true),
        ("Ook!", "ook", false),
        ("Ink!", "ink", false),
        ("GAS", "gas-syntax", true),
        ("Delphi / Object Pascal", "objectpascal", false),
        ("Object Pascal", "objectpascal", false),
        ("Visual Basic", "vbnet", false),
        ("LabVIEW G", "labview", false),
        ("PL/SQL", "plsql", false),
        ("PL/I", "pli", false),
        ("PL/M", "plm", false),
        ("Common Lisp", "lisp", false),
        ("Coq / Gallina", "coq", false),
        ("Standard ML", "sml", false),
        ("CUDA C++", "cuda", false),
        ("OpenCL C", "opencl", false),
        ("WebAssembly Text Format", "wat", false),
        ("BBC BASIC", "bbcbasic", false),
        ("Component Pascal", "componentpascal", false),
        ("ALGOL 60", "algol60", false),
        ("ALGOL 68", "algol68", false),
        ("Monkey X", "monkeyx", false),
        ("Chef DSL", "chef-dsl", false),
        ("Emacs Lisp", "elisp", false),
        ("Guile Scheme", "guile", false),
        ("Chez Scheme", "chez", false),
        ("Chicken Scheme", "chicken", false),
        ("Wolfram Language", "wolfram", false),
        ("Max/MSP", "maxmsp", false),
        ("Shakespeare Programming Language", "shakespeare", false),
        ("Lazy K", "lazyk", false),
        ("SKI combinator calculus", "ski", false),
        ("Binary Lambda Calculus", "blc", false),
        (".NET CIL", "dotnet-cil", false),
        ("F# IL", "fsharp-il", false),
        ("AT&T assembly syntax", "att-assembly-syntax", false),
        ("CIR", "cir-ir", false),
        ("MLIR", "mlir-ir", false),
        ("ANF", "anf-ir", false),
        ("SPIR", "spir-ir", false),
        ("DXIL", "dxil-ir", false),
        ("DXBC", "dxbc-bytecode", false),
        ("MSIL", "msil-bytecode", false),
    ];
    assert(r@ =~= spec_special_names());
    r
}

/// The canonical pack name of a special fence name, from entry `i` on.
pub open spec fn spec_special_from(n: Seq<u8>, i: int) -> Option<Seq<u8>>
    decreases spec_special_names().len() - i,
{
    if i < 0 || i >= spec_special_names().len() {
        None
    } else {
        let (display, canonical, exact) = spec_special_names()[i];
        if (exact && n == display.spec_bytes()) || (!exact && spec_lower_seq(n) == spec_lower_seq(display.spec_bytes())) {
            Some(canonical.spec_bytes())
        } else {
            spec_special_from(n, i + 1)
        }
    }
}

fn special_fence_name(n: &[u8]) -> (r: Option<&'static str>)
    ensures
        match r {
            Some(c) => spec_special_from(n@, 0) == Some(c.spec_bytes()),
            None => spec_special_from(n@, 0) is None,
        },
{
    let names = special_names();
    let mut i: usize = 0;
    while i < names.len()
        invariant
            names@ == spec_special_names(),
            i <= names.len(),
            spec_special_from(n@, 0) == spec_special_from(n@, i as int),
        decreases names.len() - i,
    {
        let (display, canonical, exact) = names[i];
        let hit = if exact {
            bytes_equal(n, display.as_bytes())
        } else {
            eq_ignore_case(n, display.as_bytes())
        };
        if hit {
            return Some(canonical);
        }
        i = i + 1;
    }
    None
}

/// The name of a pack a host may load on request: the requested name in
/// ASCII lower case, when that is 1 to 48 bytes, all of them pack-name
/// bytes; otherwise no name.
pub open spec fn spec_dynamic_pack_name(name: Seq<u8>) -> Option<Seq<u8>> {
    let lowered = spec_lower_seq(name);
    if 0 < lowered.len() <= 48 && spec_all_name_bytes(lowered) {
        Some(lowered)
    } else {
        None
    }
}

/// The name of a pack a host may load on request, or `None` when the
/// requested name is empty, too long or holds other bytes.
pub fn normalize_dynamic_pack_name(name: &str) -> (r: Option<Vec<u8>>)
    ensures
        match r {
            Some(v) => spec_dynamic_pack_name(name.spec_bytes()) == Some(v@),
            None => spec_dynamic_pack_name(name.spec_bytes()) is None,
        },
{
    let n = name.as_bytes();
    let ghost lowered = spec_lower_seq(n@);
    if n.len() == 0 || n.len() > 48 {
        return None;
    }
    let mut out: Vec<u8> = Vec::new();
    let mut i: usize = 0;
    while i < n.len()
        invariant
            i <= n.len() <= 48,
            lowered == spec_lower_seq(n@),
            n@ == name.spec_bytes(),
            out@ == lowered.take(i as int),
            forall|k: int| 0 <= k < i ==> spec_is_name_byte(#[trigger] lowered[k]),
        decreases n.len() - i,
    {
        let b = lower(n[i]);
        assert(lowered[i as int] == b);
        if !is_name_byte(b) {
            assert(!spec_is_name_byte(lowered[i as int]));
            assert(!spec_all_name_bytes(lowered));
            assert(spec_dynamic_pack_name(n@) is None);
            return None;
        }
        out.push(b);
        assert(out@ =~= lowered.take(i + 1));
        i = i + 1;
    }
    assert(out@ =~= lowered);
    Some(out)
}

/// Every byte may appear in a pack name.
pub open spec fn spec_all_name_bytes(n: Seq<u8>) -> bool {
    forall|i: int| 0 <= i < n.len() ==> spec_is_name_byte(#[trigger] n[i])
}

/// The slug of a display name from byte `i` on: name bytes lower-cased, each
/// run of other bytes between them becoming one `-`, stopping once 48 bytes
/// have been written before a name byte.
pub open spec fn spec_slug_from(n: Seq<u8>, i: int, slug: Seq<u8>, separator: bool) -> Seq<u8>
    decreases n.len() - i,
{
    if i < 0 || i >= n.len() {
        slug
    } else if spec_is_name_byte(n[i]) {
        let slug1 = if separator && slug.len() > 0 && slug.last() != MINUS { slug.push(MINUS) } else { slug };
        if slug1.len() == 48 {
            slug1
        } else {
            spec_slug_from(n, i + 1, slug1.push(spec_lower(n[i])), false)
        }
    } else {
        spec_slug_from(n, i + 1, slug, true)
    }
}

/// `slug` without its trailing `-`.
pub open spec fn spec_strip_dashes(slug: Seq<u8>) -> Seq<u8>
    decreases slug.len(),
{
    if slug.len() > 0 && slug.last() == MINUS {
        spec_strip_dashes(slug.drop_last())
    } else {
        slug
    }
}

/// The pack-name form of a trimmed fence name: a special canonical name;
/// the name itself when it is already a short pack name; otherwise its slug
/// (or the name itself when the slug is empty).
pub open spec fn spec_normalize_fence(n: Seq<u8>) -> Seq<u8> {
    match spec_special_from(n, 0) {
        Some(c) => c,
        None => if n.len() <= 48 && spec_all_name_bytes(n) {
            n
        } else {
            let slug = spec_strip_dashes(spec_slug_from(n, 0, Seq::empty(), false));
            if slug.len() == 0 {
                n
            } else {
                slug
            }
        },
    }
}

fn all_name_bytes(n: &[u8]) -> (r: bool)
    ensures
        r == spec_all_name_bytes(n@),
{
    let mut i: usize = 0;
    while i < n.len()
        invariant
            i <= n.len(),
            forall|k: int| 0 <= k < i ==> spec_is_name_byte(#[trigger] n@[k]),
        decreases n.len() - i,
    {
        if !is_name_byte(n[i]) {
            return false;
        }
        i = i + 1;
    }
    true
}

fn slug(n: &[u8]) -> (r: Vec<u8>)
    ensures
        r@ == spec_strip_dashes(spec_slug_from(n@, 0, Seq::empty(), false)),
{
    let mut out: Vec<u8> = Vec::new();
    let mut separator = false;
    let mut i: usize = 0;
    while i < n.len()
        invariant
            i <= n.len(),
            spec_slug_from(n@, 0, Seq::empty(), false) == spec_slug_from(n@, i as int, out@, separator),
        ensures
            spec_slug_from(n@, 0, Seq::empty(), false) == out@,
        decreases n.len() - i,
    {
        let b = n[i];
        if is_name_byte(b) {
            if separator && out.len() > 0 && out[out.len() - 1] != MINUS {
                out.push(MINUS);
            }
            separator = false;
            if out.len() == 48 {
                break;
            }
            out.push(lower(b));
        } else {
            separator = true;
        }
        i = i + 1;
    }
    let ghost full = out@;
    while out.len() > 0 && out[out.len() - 1] == MINUS
        invariant
            spec_strip_dashes(full) == spec_strip_dashes(out@),
        decreases out.len(),
    {
        let ghost before = out@;
        out.pop();
        assert(out@ =~= before.drop_last());
    }
    out
}

/// The pack-name form of an already trimmed fence name.
pub fn normalize_fence_bytes(t: &[u8]) -> (r: Vec<u8>)
    ensures
        r@ == spec_normalize_fence(t@),
{
    if let Some(c) = special_fence_name(t) {
        return vstd::slice::slice_to_vec(c.as_bytes());
    }
    if t.len() <= 48 && all_name_bytes(t) {
        return vstd::slice::slice_to_vec(t);
    }
    let s = slug(t);
    if s.len() == 0 {
        vstd::slice::slice_to_vec(t)
    } else {
        s
    }
}

/// The pack-name form of a fence name: trimmed, then normalized.
pub fn normalize_fence_name(name: &str) -> (r: Vec<u8>)
    ensures
        r@ == spec_normalize_fence(vstd::utf8::encode_utf8(trimmed(name@))),
{
    let t = trim_str(name);
    normalize_fence_bytes(t.as_bytes())
}

/// The profile with no words and no features: plain text.
pub open spec fn plain_profile() -> ProfileModel {
    ProfileModel { words: empty_pack().words, flags: empty_pack().flags }
}

/// The plain-text profile.
pub fn plain_language() -> (r: Language)
    ensures
        r.wf(),
        r@ == plain_profile(),
{
    PackBuilder::new().finish()
}

/// `p` has an alias equal to `name`, ignoring ASCII case.
pub open spec fn spec_has_alias(p: ProfileModel, name: Seq<u8>) -> bool {
    spec_contains_ignore_case(p.section(SECTION_ALIASES as int), name)
}

/// The first registered profile, from index `i` on, with an alias `name`.
pub open spec fn spec_find_loaded(loaded: Seq<ProfileModel>, name: Seq<u8>, i: int) -> Option<int>
    decreases loaded.len() - i,
{
    if i < 0 || i >= loaded.len() {
        None
    } else if spec_has_alias(loaded[i], name) {
        Some(i)
    } else {
        spec_find_loaded(loaded, name, i + 1)
    }
}

/// Some alias of `p` is registered already.
pub open spec fn spec_any_alias_taken(loaded: Seq<ProfileModel>, p: ProfileModel) -> bool {
    exists|j: int| 0 <= j < p.section(SECTION_ALIASES as int).len()
        && spec_find_loaded(loaded, #[trigger] p.section(SECTION_ALIASES as int)[j], 0) is Some
}

/// Every alias of `p` is registered already.
pub open spec fn spec_all_aliases_taken(loaded: Seq<ProfileModel>, p: ProfileModel) -> bool {
    forall|j: int| 0 <= j < p.section(SECTION_ALIASES as int).len()
        ==> spec_find_loaded(loaded, #[trigger] p.section(SECTION_ALIASES as int)[j], 0) is Some
}

/// A profile is accepted when it has aliases and none of them is taken.
pub open spec fn spec_accepts(loaded: Seq<ProfileModel>, p: ProfileModel) -> bool {
    p.section(SECTION_ALIASES as int).len() > 0 && !spec_any_alias_taken(loaded, p)
}

/// The outcome of registering a pack: whether a profile was added, or why the
/// pack was refused; and the registered profiles afterwards.
pub open spec fn spec_register_pack(loaded: Seq<ProfileModel>, source: Seq<u8>) -> (Result<bool, PackError>, Seq<ProfileModel>) {
    match spec_parse_pack(source) {
        Err(e) => (Err(e), loaded),
        Ok(p) => if spec_all_aliases_taken(loaded, p) {
            (Ok(false), loaded)
        } else if spec_any_alias_taken(loaded, p) {
            (Err(PackError::AliasTaken), loaded)
        } else if spec_accepts(loaded, p) {
            (Ok(true), loaded.push(p))
        } else {
            (Ok(false), loaded)
        },
    }
}

/// The first pack, from index `j` on, that parses and has an alias `name`.
pub open spec fn spec_pack_for(packs: Seq<&str>, name: Seq<u8>, j: int) -> Option<int>
    decreases packs.len() - j,
{
    if j < 0 || j >= packs.len() {
        None
    } else if spec_parse_pack(packs[j].spec_bytes()) matches Ok(p) && spec_has_alias(p, name) {
        Some(j)
    } else {
        spec_pack_for(packs, name, j + 1)
    }
}

/// The registered profiles after looking up `name`: when no registered
/// profile has the alias, the first pack that has it is registered.
pub open spec fn spec_loaded_after(loaded: Seq<ProfileModel>, name: Seq<u8>, packs: Seq<&str>) -> Seq<ProfileModel> {
    if spec_find_loaded(loaded, name, 0) is Some {
        loaded
    } else {
        match spec_pack_for(packs, name, 0) {
            None => loaded,
            Some(j) => spec_register_pack(loaded, packs[j].spec_bytes()).1,
        }
    }
}

/// The profile a normalized fence name resolves to.
pub open spec fn spec_resolve(loaded: Seq<ProfileModel>, fence: Seq<u8>, packs: Seq<&str>) -> ProfileModel {
    if fence.len() == 0 {
        plain_profile()
    } else {
        let name = spec_normalize_fence(fence);
        let after = spec_loaded_after(loaded, name, packs);
        match spec_find_loaded(after, name, 0) {
            Some(i) => after[i],
            None => plain_profile(),
        }
    }
}

/// The profiles a highlighter can use, by alias.
pub struct LanguageRegistry {
    loaded: Vec<Language>,
}

impl View for LanguageRegistry {
    type V = Seq<ProfileModel>;

    closed spec fn view(&self) -> Seq<ProfileModel> {
        self.loaded@.map_values(|l: Language| l@)
    }
}

fn has_alias(lang: &Language, name: &[u8]) -> (r: bool)
    requires
        lang.wf(),
    ensures
        r == spec_has_alias(lang@, name@),
{
    assert(lang@.section(SECTION_ALIASES as int) == lang.words@[SECTION_ALIASES as int].deep_view());
    crate::language::contains_word(&lang.words[SECTION_ALIASES], name, true)
}

/// No alias of a registered profile is an alias of an earlier one.
pub open spec fn spec_aliases_disjoint(loaded: Seq<ProfileModel>) -> bool {
    forall|i: int, j: int, k: int|
        0 <= i < j < loaded.len() && 0 <= k < loaded[j].section(SECTION_ALIASES as int).len()
            ==> !#[trigger] spec_has_alias(loaded[i], loaded[j].section(SECTION_ALIASES as int)[k])
}

/// A name that no registered profile has as an alias.
proof fn lemma_find_loaded_none(loaded: Seq<ProfileModel>, name: Seq<u8>, start: int, i: int)
    requires
        0 <= start <= i < loaded.len(),
        spec_find_loaded(loaded, name, start) is None,
    ensures
        !spec_has_alias(loaded[i], name),
    decreases i - start,
{
    if start < i {
        lemma_find_loaded_none(loaded, name, start + 1, i);
    }
}

/// Registered profiles never share an alias (ignoring ASCII case): a profile
/// is only registered when none of its aliases is taken.
pub proof fn lemma_registry_aliases_disjoint(r: &LanguageRegistry)
    requires
        r.wf(),
    ensures
        spec_aliases_disjoint(r@),
{
}

/// The first profile from `i` on with alias `name`, when no profile before
/// the last has it, is the last one.
proof fn lemma_find_loaded_last(loaded: Seq<ProfileModel>, p: ProfileModel, name: Seq<u8>, i: int)
    requires
        0 <= i <= loaded.len(),
        spec_has_alias(p, name),
        forall|k: int| i <= k < loaded.len() ==> !spec_has_alias(#[trigger] loaded[k], name),
    ensures
        spec_find_loaded(loaded.push(p), name, i) == Some(loaded.len() as int),
    decreases loaded.len() - i,
{
    if i < loaded.len() {
        assert(loaded.push(p)[i] == loaded[i]);
        lemma_find_loaded_last(loaded, p, name, i + 1);
    } else {
        assert(loaded.push(p)[i] == p);
    }
}

/// What a registration makes available: once a profile is accepted, every
/// fence whose normalized name is one of its aliases (ignoring ASCII case)
/// resolves to exactly that profile, whatever packs are at hand.
pub proof fn lemma_registered_profile_resolves(loaded: Seq<ProfileModel>, p: ProfileModel, fence: Seq<u8>, packs: Seq<&str>)
    requires
        spec_accepts(loaded, p),
        fence.len() > 0,
        spec_has_alias(p, spec_normalize_fence(fence)),
    ensures
        spec_resolve(loaded.push(p), fence, packs) == p,
{
    let name = spec_normalize_fence(fence);
    let aliases = p.section(SECTION_ALIASES as int);
    let j = choose|j: int| 0 <= j < aliases.len() && spec_lower_seq(#[trigger] aliases[j]) == spec_lower_seq(name);
    let a = aliases[j];
    assert(spec_find_loaded(loaded, a, 0) is None);
    assert forall|k: int| 0 <= k < loaded.len() implies !spec_has_alias(#[trigger] loaded[k], name) by {
        lemma_find_loaded_none(loaded, a, 0, k);
        if spec_has_alias(loaded[k], name) {
            let ws = loaded[k].section(SECTION_ALIASES as int);
            let m = choose|m: int| 0 <= m < ws.len() && spec_lower_seq(#[trigger] ws[m]) == spec_lower_seq(name);
            assert(spec_lower_seq(ws[m]) == spec_lower_seq(a));
            assert(spec_has_alias(loaded[k], a));
        }
    }
    lemma_find_loaded_last(loaded, p, name, 0);
}

impl LanguageRegistry {
    /// Every registered profile is well formed, and no two share an alias.
    pub closed spec fn wf(&self) -> bool {
        &&& forall|i: int| 0 <= i < self.loaded@.len() ==> (#[trigger] self.loaded@[i]).wf()
        &&& spec_aliases_disjoint(self@)
    }

    /// A registry with no profiles.
    pub fn new() -> (r: Self)
        ensures
            r.wf(),
            r@ == Seq::<ProfileModel>::empty(),
    {
        let r = LanguageRegistry { loaded: Vec::new() };
        assert(r@ =~= Seq::<ProfileModel>::empty());
        r
    }

    /// The first registered profile with an alias `name` (ignoring ASCII case).
    pub fn find_loaded(&self, name: &[u8]) -> (r: Option<usize>)
        requires
            self.wf(),
        ensures
            as_index(r) == spec_find_loaded(self@, name@, 0),
            r matches Some(i) ==> i < self@.len(),
    {
        let mut i: usize = 0;
        while i < self.loaded.len()
            invariant
                self.wf(),
                i <= self.loaded.len(),
                spec_find_loaded(self@, name@, 0) == spec_find_loaded(self@, name@, i as int),
            decreases self.loaded.len() - i,
        {
            assert(self@[i as int] == self.loaded@[i as int]@);
            if has_alias(&self.loaded[i], name) {
                return Some(i);
            }
            i = i + 1;
        }
        None
    }

    fn any_alias_taken(&self, p: &Language) -> (r: bool)
        requires
            self.wf(),
            p.wf(),
        ensures
            r == spec_any_alias_taken(self@, p@),
    {
        let aliases = &p.words[SECTION_ALIASES];
        assert(p@.section(SECTION_ALIASES as int) == aliases.deep_view());
        let mut j: usize = 0;
        while j < aliases.len()
            invariant
                self.wf(),
                j <= aliases.len(),
                aliases.deep_view() == p@.section(SECTION_ALIASES as int),
                forall|k: int| 0 <= k < j ==> spec_find_loaded(self@, #[trigger] aliases.deep_view()[k], 0) is None,
            decreases aliases.len() - j,
        {
            assert(aliases.deep_view()[j as int] == aliases@[j as int]@);
            if self.find_loaded(aliases[j].as_slice()).is_some() {
                return true;
            }
            j = j + 1;
        }
        false
    }

    fn all_aliases_taken(&self, p: &Language) -> (r: bool)
        requires
            self.wf(),
            p.wf(),
        ensures
            r == spec_all_aliases_taken(self@, p@),
    {
        let aliases = &p.words[SECTION_ALIASES];
        assert(p@.section(SECTION_ALIASES as int) == aliases.deep_view());
        let mut j: usize = 0;
        while j < aliases.len()
            invariant
                self.wf(),
                j <= aliases.len(),
                aliases.deep_view() == p@.section(SECTION_ALIASES as int),
                forall|k: int| 0 <= k < j ==> spec_find_loaded(self@, #[trigger] aliases.deep_view()[k], 0) is Some,
            decreases aliases.len() - j,
        {
            assert(aliases.deep_view()[j as int] == aliases@[j as int]@);
            if self.find_loaded(aliases[j].as_slice()).is_none() {
                return false;
            }
            j = j + 1;
        }
        true
    }

    /// Add a profile unless it has no alias or one of its aliases is taken.
    pub fn register_profile(&mut self, p: Language) -> (r: bool)
        requires
            old(self).wf(),
            p.wf(),
        ensures
            final(self).wf(),
            r == spec_accepts(old(self)@, p@),
            final(self)@ == if r { old(self)@.push(p@) } else { old(self)@ },
    {
        if p.words[SECTION_ALIASES].len() == 0 {
            assert(p@.section(SECTION_ALIASES as int).len() == 0);
            return false;
        }
        assert(p@.section(SECTION_ALIASES as int).len() > 0);
        if self.all_aliases_taken(&p) {
            assert(spec_any_alias_taken(self@, p@)) by {
                assert(spec_find_loaded(self@, p@.section(SECTION_ALIASES as int)[0], 0) is Some);
            }
            return false;
        }
        if self.any_alias_taken(&p) {
            return false;
        }
        let ghost before = self@;
        let ghost pv = p@;
        self.loaded.push(p);
        assert(self@ =~= before.push(pv));
        assert forall|i: int, j: int, k: int|
            0 <= i < j < self@.len() && 0 <= k < self@[j].section(SECTION_ALIASES as int).len()
                implies !#[trigger] spec_has_alias(self@[i], self@[j].section(SECTION_ALIASES as int)[k]) by {
            if j == before.len() {
                let a = pv.section(SECTION_ALIASES as int)[k];
                assert(spec_find_loaded(before, a, 0) is None);
                lemma_find_loaded_none(before, a, 0, i);
            } else {
                assert(self@[j] == before[j] && self@[i] == before[i]);
            }
        }
        true
    }

    /// Read a pack and register its profile: `Ok(false)` when all its aliases
    /// are registered already, `Err(AliasTaken)` when only some are.
    pub fn register_pack_source(&mut self, source: &str) -> (r: Result<bool, PackError>)
        requires
            old(self).wf(),
        ensures
            final(self).wf(),
            (r, final(self)@) == spec_register_pack(old(self)@, source.spec_bytes()),
    {
        let p = match parse_pack(source) {
            Err(e) => {
                return Err(e);
            },
            Ok(p) => p,
        };
        if self.all_aliases_taken(&p) {
            return Ok(false);
        }
        if self.any_alias_taken(&p) {
            return Err(PackError::AliasTaken);
        }
        Ok(self.register_profile(p))
    }

    fn load_pack_for(&mut self, name: &[u8], packs: &[&str])
        requires
            old(self).wf(),
        ensures
            final(self).wf(),
            final(self)@ == match spec_pack_for(packs@, name@, 0) {
                None => old(self)@,
                Some(j) => spec_register_pack(old(self)@, packs@[j].spec_bytes()).1,
            },
    {
        let mut j: usize = 0;
        while j < packs.len()
            invariant
                self.wf(),
                self@ == old(self)@,
                j <= packs.len(),
                spec_pack_for(packs@, name@, 0) == spec_pack_for(packs@, name@, j as int),
            decreases packs.len() - j,
        {
            match parse_pack(packs[j]) {
                Ok(p) => {
                    if has_alias(&p, name) {
                        let _ = self.register_pack_source(packs[j]);
                        return;
                    }
                },
                Err(_) => {},
            }
            j = j + 1;
        }
    }

    /// The profile for a normalized fence name (see `normalize_fence_name`),
    /// registering the first of `packs` with that alias when no registered
    /// profile has it; plain text when none does.
    pub fn resolve(&mut self, fence: &[u8], packs: &[&str]) -> (r: Language)
        requires
            old(self).wf(),
        ensures
            final(self).wf(),
            r.wf(),
            r@ == spec_resolve(old(self)@, fence@, packs@),
            final(self)@ == if fence@.len() == 0 {
                old(self)@
            } else {
                spec_loaded_after(old(self)@, spec_normalize_fence(fence@), packs@)
            },
    {
        if fence.len() == 0 {
            return plain_language();
        }
        let name = normalize_fence_bytes(fence);
        if self.find_loaded(name.as_slice()).is_none() {
            self.load_pack_for(name.as_slice(), packs);
        }
        match self.find_loaded(name.as_slice()) {
            Some(i) => {
                assert(self@[i as int] == self.loaded@[i as int]@);
                self.loaded[i].copy()
            },
            None => plain_language(),
        }
    }

    /// The profile for a fence info string as written (trimmed and
    /// normalized first), loading it from the built-in packs when needed.
    pub fn from_fence(&mut self, name: &str) -> (r: Language)
        requires
            old(self).wf(),
        ensures
            final(self).wf(),
            r.wf(),
            r@ == spec_resolve(
                old(self)@,
                spec_normalize_fence(vstd::utf8::encode_utf8(trimmed(name@))),
                spec_embedded_packs(),
            ),
    {
        let fence = normalize_fence_name(name);
        self.resolve(fence.as_slice(), embedded_packs())
    }
}

/// An optional index as a mathematical integer.
pub open spec fn as_index(r: Option<usize>) -> Option<int> {
    match r {
        Some(i) => Some(i as int),
        None => None,
    }
}

/// Fences whose code may use C++ raw strings (`R"tag(...)tag"`).
pub open spec fn spec_cpp_fences() -> Seq<&'static str> {
    seq!["cpp", "c++", "cc", "cxx", "hpp", "cuda", "cu", "cuh", "mm"]
}

/// The normalized fence is one of `spec_cpp_fences`, ignoring ASCII case.
pub open spec fn spec_is_cpp_fence(fence: Seq<u8>) -> bool {
    exists|i: int| 0 <= i < spec_cpp_fences().len()
        && spec_lower_seq(fence) == spec_lower_seq(#[trigger] spec_cpp_fences()[i].spec_bytes())
}

pub fn is_cpp_fence(fence: &[u8]) -> (r: bool)
    ensures
        r == spec_is_cpp_fence(fence@),
{
    let names: [&'static str; 9] = ["cpp", "c++", "cc", "cxx", "hpp", "cuda", "cu", "cuh", "mm"];
    assert(names@ =~= spec_cpp_fences());
    let mut i: usize = 0;
    while i < 9
        invariant
            i <= 9,
            names@ == spec_cpp_fences(),
            forall|k: int| 0 <= k < i ==> spec_lower_seq(fence@) != spec_lower_seq(#[trigger] spec_cpp_fences()[k].spec_bytes()),
        decreases 9 - i,
    {
        if eq_ignore_case(fence, names[i].as_bytes()) {
            return true;
        }
        i = i + 1;
    }
    false
}

} // verus!
