use webapp::binary::register_language_pack_binary;
use webapp::language::{
    Language, BLOCK_COMMENTS, CASE_INSENSITIVE_KEYWORDS, JAVASCRIPT_LEXING, PREPROCESSOR, PYTHON_STRINGS,
    SECTION_ALIASES, SECTION_FUNCTION_DECLARATIONS, SECTION_MACRO_DECLARATIONS, SECTION_TYPE_DECLARATIONS,
    SLASH_COMMENTS, HASH_COMMENTS, STYLE_HASH_PIPE,
};
use webapp::pack::{parse_pack, PackError};
use webapp::packs::embedded_packs;
use webapp::registry::{normalize_dynamic_pack_name, normalize_fence_name, LanguageRegistry};

fn from_fence(name: &str) -> Language {
    LanguageRegistry::new().from_fence(name)
}

fn is_plain(language: &Language) -> bool {
    language.words.iter().all(|words| words.is_empty()) && language.flags.iter().all(|flag| !flag)
}

#[test]
fn aliases_resolve_case_insensitively() {
    let typescript = from_fence(" TypeScript ");
    assert!(typescript.flag(JAVASCRIPT_LEXING));
    assert!(typescript.is_keyword(b"interface"));
    assert!(from_fence("python3").flag(PYTHON_STRINGS));
    assert!(from_fence("CXX").flag(PREPROCESSOR));
}

#[test]
fn unknown_languages_keep_the_generic_profile() {
    let unknown = from_fence("brainfuck");
    assert!(!unknown.is_keyword(b"while"));
    assert!(!unknown.flag(BLOCK_COMMENTS));
}

#[test]
fn external_pack_can_add_a_language_without_code_changes() {
    let mut registry = LanguageRegistry::new();
    let added = registry.register_pack_source(
        "STREAMDOWN_LANGPACK\t1\naliases\tkotlin\tkt\nkeywords\tfun\tclass\nflags\tslash_comments\tblock_comments\n",
    );
    assert_eq!(added, Ok(true));
    let kotlin = registry.from_fence("kt");
    assert!(kotlin.is_keyword(b"fun"));
    assert!(kotlin.flag(SLASH_COMMENTS));
    assert!(kotlin.flag(BLOCK_COMMENTS));
}

#[test]
fn registry_aliases_are_unique_and_declarations_are_keywords() {
    let mut registry = LanguageRegistry::new();
    let mut profiles = Vec::new();
    for pack in embedded_packs() {
        let profile = parse_pack(pack).unwrap();
        assert_eq!(registry.register_pack_source(pack), Ok(true));
        profiles.push(profile);
    }
    for (index, profile) in profiles.iter().enumerate() {
        assert!(!profile.words[SECTION_ALIASES].is_empty());
        for alias in &profile.words[SECTION_ALIASES] {
            let duplicates = profiles
                .iter()
                .flat_map(|candidate| candidate.words[SECTION_ALIASES].iter())
                .filter(|candidate| candidate.eq_ignore_ascii_case(alias))
                .count();
            assert_eq!(duplicates, 1, "duplicate language alias: {:?}", String::from_utf8_lossy(alias));
        }
        for section in [SECTION_FUNCTION_DECLARATIONS, SECTION_TYPE_DECLARATIONS, SECTION_MACRO_DECLARATIONS] {
            for declaration in &profile.words[section] {
                assert!(
                    profile.is_keyword(declaration),
                    "profile {index} declaration is not a keyword: {:?}",
                    String::from_utf8_lossy(declaration)
                );
            }
        }
    }
}

#[test]
fn malformed_pack_is_rejected() {
    assert!(parse_pack("bad\n").is_err());
    assert!(parse_pack("STREAMDOWN_LANGPACK\t1\naliases\tx\nflags\tmagic\n").is_err());
}

#[test]
fn each_pack_error_names_its_cause() {
    assert_eq!(parse_pack("bad\n").err(), Some(PackError::InvalidHeader));
    assert_eq!(parse_pack("STREAMDOWN_LANGPACK\t1\naliases\n").err(), Some(PackError::NoAliases));
    assert_eq!(
        parse_pack("STREAMDOWN_LANGPACK\t1\naliases\tx\nkeywordz\ty\n").err(),
        Some(PackError::UnknownField(3))
    );
    assert_eq!(
        parse_pack("STREAMDOWN_LANGPACK\t1\naliases\tx\ncomment_styles\tcurly\n").err(),
        Some(PackError::UnknownCommentStyle)
    );
    assert_eq!(
        parse_pack("STREAMDOWN_LANGPACK\t1\naliases\tx\nflags\tmagic\n").err(),
        Some(PackError::UnknownFlag)
    );
    assert_eq!(
        parse_pack("STREAMDOWN_LANGPACK\t1\nkeywords\tx\n").err(),
        Some(PackError::MissingAliases)
    );
    let mut registry = LanguageRegistry::new();
    assert_eq!(registry.register_pack_source("STREAMDOWN_LANGPACK\t1\naliases\ta\tb\n"), Ok(true));
    assert_eq!(registry.register_pack_source("STREAMDOWN_LANGPACK\t1\naliases\tA\tB\n"), Ok(false));
    assert_eq!(
        registry.register_pack_source("STREAMDOWN_LANGPACK\t1\naliases\tb\tc\n"),
        Err(PackError::AliasTaken)
    );
}

#[test]
fn pack_lines_comments_and_styles_are_read() {
    let profile = parse_pack(
        "STREAMDOWN_LANGPACK\t1\r\n# a comment line\n\naliases\tdemo\r\nkeywords\tIf\t\tthen\ncomment_styles\thash_pipe\nflags\tcase_insensitive_keywords\thash_comments",
    )
    .unwrap();
    assert_eq!(profile.words[SECTION_ALIASES], vec![b"demo".to_vec()]);
    assert!(profile.is_keyword(b"if"));
    assert!(profile.is_keyword(b"THEN"));
    assert!(profile.flag(CASE_INSENSITIVE_KEYWORDS));
    assert!(profile.flag(HASH_COMMENTS));
    assert!(profile.flag(STYLE_HASH_PIPE));
}

#[test]
fn registered_aliases_resolve_to_the_registered_profile() {
    let mut registry = LanguageRegistry::new();
    assert_eq!(
        registry.register_pack_source("STREAMDOWN_LANGPACK\t1\naliases\tdemo-lang\tDL\nkeywords\tzork\n"),
        Ok(true)
    );
    for fence in ["demo-lang", "dl", " DL ", "Demo Lang"] {
        assert!(registry.from_fence(fence).is_keyword(b"zork"), "{fence}");
    }
    assert!(is_plain(&registry.from_fence("")));
    assert!(is_plain(&registry.from_fence("no-such-language")));
}

#[test]
fn fence_names_are_normalized_to_pack_names() {
    assert_eq!(normalize_fence_name("  LLVM IR "), b"llvm-ir".to_vec());
    assert_eq!(normalize_fence_name("rust"), b"rust".to_vec());
    assert_eq!(normalize_fence_name("WebAssembly Text Format"), b"wat".to_vec());
    assert_eq!(normalize_fence_name("V"), b"vlang".to_vec());
    assert_eq!(normalize_fence_name("IBM z/Architecture assembly"), b"ibm-z-architecture-assembly".to_vec());
    assert_eq!(normalize_fence_name("C#"), b"C#".to_vec());
    assert_eq!(normalize_fence_name("..."), b"...".to_vec());
}

fn binary_profile(aliases: &[&str], keywords: &[&str], flags: u32, styles: Option<&[&str]>) -> Vec<u8> {
    let mut out = b"SLP1".to_vec();
    out.extend_from_slice(&flags.to_le_bytes());
    let mut list = |out: &mut Vec<u8>, words: &[&str]| {
        out.extend_from_slice(&(words.len() as u16).to_le_bytes());
        for word in words {
            out.extend_from_slice(&(word.len() as u16).to_le_bytes());
            out.extend_from_slice(word.as_bytes());
        }
    };
    list(&mut out, aliases);
    list(&mut out, keywords);
    for _ in 2..13 {
        list(&mut out, &[]);
    }
    if let Some(styles) = styles {
        list(&mut out, styles);
    }
    out
}

#[test]
fn binary_profiles_register_when_well_formed() {
    let mut registry = LanguageRegistry::new();
    let bytes = binary_profile(&["bin-lang", "bl"], &["frob"], (1 << 1) | (1 << 3) | (1 << 31), Some(&["hash_pipe"]));
    assert!(register_language_pack_binary(&mut registry, &bytes));
    let profile = registry.from_fence("BL");
    assert!(profile.is_keyword(b"frob"));
    assert!(profile.flag(SLASH_COMMENTS));
    assert!(profile.flag(HASH_COMMENTS));
    assert!(!profile.flag(BLOCK_COMMENTS));
    assert!(profile.flag(STYLE_HASH_PIPE));
    // The same aliases are not registered twice.
    assert!(!register_language_pack_binary(&mut registry, &bytes));
}

#[test]
fn malformed_binary_profiles_are_refused() {
    let mut registry = LanguageRegistry::new();
    let good = binary_profile(&["ok"], &[], 0, None);
    let mut bad_magic = good.clone();
    bad_magic[0] = b'X';
    assert!(!register_language_pack_binary(&mut registry, &bad_magic));
    let mut trailing = good.clone();
    trailing.push(0);
    assert!(!register_language_pack_binary(&mut registry, &trailing));
    assert!(!register_language_pack_binary(&mut registry, &good[..good.len() - 1]));
    assert!(!register_language_pack_binary(&mut registry, &binary_profile(&[], &["x"], 0, None)));
    assert!(!register_language_pack_binary(&mut registry, &binary_profile(&["x"], &[], 1 << 31, Some(&["curly"]))));
    let mut not_utf8 = binary_profile(&["zz"], &[], 0, None);
    let at = not_utf8.len() - 2 * 12 - 1;
    not_utf8[at] = 0xff;
    assert!(!register_language_pack_binary(&mut registry, &not_utf8));
    let too_long = binary_profile(&["long"], &[&"k".repeat(20000)], 0, None);
    assert!(!register_language_pack_binary(&mut registry, &too_long));
    assert!(is_plain(&registry.from_fence("ok")));
    assert!(register_language_pack_binary(&mut registry, &good));
}

#[test]
fn requested_pack_names_are_lowered_and_checked() {
    assert_eq!(normalize_dynamic_pack_name("Objective-C++"), Some(b"objective-c++".to_vec()));
    assert_eq!(normalize_dynamic_pack_name("F#"), Some(b"f#".to_vec()));
    assert_eq!(normalize_dynamic_pack_name("my_lang"), Some(b"my_lang".to_vec()));
    assert_eq!(normalize_dynamic_pack_name(""), None);
    assert_eq!(normalize_dynamic_pack_name("../etc/passwd"), None);
    assert_eq!(normalize_dynamic_pack_name("with space"), None);
    assert_eq!(normalize_dynamic_pack_name(&"a".repeat(48)), Some(vec![b'a'; 48]));
    assert_eq!(normalize_dynamic_pack_name(&"a".repeat(49)), None);
}
