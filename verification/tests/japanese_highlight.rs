use webapp::code;
use webapp::highlight::{Span, TokenKind};
use webapp::japanese::{
    is_fence, line_hash, line_ranges, merge_spans, sampled_word, token_kind, LineCache, MorphTag, MorphToken,
    MAX_CACHED_LINE_BYTES,
};

/// A stand-in analyzer: every line is one noun, except its line break.
fn whole_line_nouns(line: &str) -> Vec<MorphToken> {
    let end = line.strip_suffix('\n').map_or(line.len(), str::len);
    let mut tokens = vec![MorphToken { start: 0, end, tag: MorphTag::Noun }];
    if end < line.len() {
        tokens.push(MorphToken { start: end, end: line.len(), tag: MorphTag::UnknownSpace });
    }
    tokens
}

#[test]
fn japanese_highlighting_preserves_early_stop() {
    let mut calls = 0usize;
    let mut analyzed = 0usize;
    let mut cache = LineCache::new();
    code::highlight(
        "日本語を解析する。\n次の行です。",
        Some("ja"),
        &mut cache,
        |line: &str| {
            analyzed += 1;
            whole_line_nouns(line)
        },
        |_, _| {
            calls += 1;
            false
        },
    );
    assert_eq!(calls, 1);
    assert_eq!(analyzed, 1);
}

#[test]
fn japanese_fences_are_recognized() {
    for fence in ["日本語", " japanese ", "NIHONGO", "ja", "Jp"] {
        assert!(is_fence(Some(fence)), "{fence}");
    }
    for fence in ["javascript", "japan", "", "日本"] {
        assert!(!is_fence(Some(fence)), "{fence}");
    }
    assert!(!is_fence(None));
}

#[test]
fn morpheme_classes_map_to_token_kinds() {
    assert_eq!(token_kind(MorphTag::Noun), TokenKind::Type);
    assert_eq!(token_kind(MorphTag::UnknownKatakana), TokenKind::Type);
    assert_eq!(token_kind(MorphTag::Particle), TokenKind::Keyword);
    assert_eq!(token_kind(MorphTag::Auxiliary), TokenKind::Macro);
    assert_eq!(token_kind(MorphTag::Verb), TokenKind::Function);
    assert_eq!(token_kind(MorphTag::Adjective), TokenKind::String);
    assert_eq!(token_kind(MorphTag::UnknownNumber), TokenKind::Number);
    assert_eq!(token_kind(MorphTag::UnknownPunct), TokenKind::Operator);
    assert_eq!(token_kind(MorphTag::UnknownLatin), TokenKind::Plain);
}

#[test]
fn adjacent_morphemes_of_one_class_merge() {
    let tokens = [
        MorphToken { start: 0, end: 3, tag: MorphTag::Noun },
        MorphToken { start: 3, end: 6, tag: MorphTag::UnknownHan },
        MorphToken { start: 6, end: 9, tag: MorphTag::Particle },
        MorphToken { start: 9, end: 10, tag: MorphTag::UnknownLatin },
        MorphToken { start: 10, end: 11, tag: MorphTag::UnknownLatin },
        MorphToken { start: 12, end: 15, tag: MorphTag::Particle },
    ];
    assert_eq!(
        merge_spans(&tokens),
        vec![
            Span { start: 0, end: 6, kind: TokenKind::Type },
            Span { start: 6, end: 9, kind: TokenKind::Keyword },
            Span { start: 9, end: 10, kind: TokenKind::Plain },
            Span { start: 10, end: 11, kind: TokenKind::Plain },
            Span { start: 12, end: 15, kind: TokenKind::Keyword },
        ]
    );
}

#[test]
fn line_hash_samples_words() {
    assert_eq!(sampled_word(b"abcdefghij", 0), u64::from_le_bytes(*b"abcdefgh"));
    assert_eq!(sampled_word(b"abc", 1), u64::from_le_bytes([b'b', b'c', 0, 0, 0, 0, 0, 0]));
    assert_eq!(sampled_word(b"abc", 3), 0);
    assert_eq!(line_hash(b"same line"), line_hash(b"same line"));
    assert_ne!(line_hash(b"one line"), line_hash(b"another line"));
}

#[test]
fn line_cache_gives_back_what_was_kept() {
    let mut cache = LineCache::new();
    assert_eq!(cache.lookup("行です。"), None);
    let spans = vec![Span { start: 0, end: 3, kind: TokenKind::Type }];
    cache.store("行です。", spans.clone());
    assert_eq!(cache.lookup("行です。"), Some(spans));
    let long = "あ".repeat(MAX_CACHED_LINE_BYTES);
    cache.store(&long, vec![]);
    assert_eq!(cache.lookup(&long), None);
}

#[test]
fn lines_keep_their_breaks() {
    assert_eq!(line_ranges("ab\ncd"), vec![(0, 3), (3, 5)]);
    assert_eq!(line_ranges("ab\n"), vec![(0, 3)]);
    assert!(line_ranges("").is_empty());
}

#[test]
fn japanese_line_cache_is_output_stable() {
    let input = "シンタックスハイライトを高速化する。\n同じ行を表示する。\n";
    let mut cache = LineCache::new();
    let mut analyzed = 0usize;
    let mut run = |cache: &mut LineCache, analyzed: &mut usize| {
        let mut out = Vec::new();
        code::highlight(
            input,
            Some("japanese"),
            cache,
            |line: &str| {
                *analyzed += 1;
                whole_line_nouns(line)
            },
            |text, kind| {
                out.push((text.to_owned(), kind));
                true
            },
        );
        out
    };
    let first = run(&mut cache, &mut analyzed);
    let second = run(&mut cache, &mut analyzed);
    assert_eq!(first, second);
    assert_eq!(first.iter().map(|(text, _)| text.as_str()).collect::<String>(), input);
    // The second pass came from the cache.
    assert_eq!(analyzed, 2);
}

#[test]
fn ordinary_languages_do_not_enter_japanese_mode() {
    let source = "function 日本語() { return 1; }";
    let mut analyzed = 0usize;
    let mut highlighted: Vec<(String, TokenKind)> = Vec::new();
    let mut cache = LineCache::new();
    code::highlight(
        source,
        Some("javascript"),
        &mut cache,
        |line: &str| {
            analyzed += 1;
            whole_line_nouns(line)
        },
        |text, kind| {
            highlighted.push((text.to_owned(), kind));
            true
        },
    );
    assert!(highlighted.contains(&("function".to_owned(), TokenKind::Keyword)), "{highlighted:?}");
    assert!(!highlighted.contains(&("日本語".to_owned(), TokenKind::Type)), "{highlighted:?}");
    assert_eq!(analyzed, 0);
}

/// A stand-in analyzer that knows one sentence: 日本語 / を / 解析 / する / 。
fn one_sentence(line: &str) -> Vec<MorphToken> {
    let mut tokens = Vec::new();
    let mut start = 0;
    for (word, tag) in [
        ("日本語", MorphTag::Noun),
        ("を", MorphTag::Particle),
        ("解析", MorphTag::Noun),
        ("する", MorphTag::Verb),
        ("。", MorphTag::UnknownPunct),
    ] {
        if line[start..].starts_with(word) {
            tokens.push(MorphToken { start, end: start + word.len(), tag });
            start += word.len();
        }
    }
    tokens
}

#[test]
fn japanese_fence_aliases_use_morphological_highlighting() {
    let input = "日本語を解析する。";
    for language in ["日本語", "japanese", "nihongo", "ja", "jp"] {
        let mut highlighted: Vec<(String, TokenKind)> = Vec::new();
        code::highlight(input, Some(language), &mut LineCache::new(), one_sentence, |text, kind| {
            highlighted.push((text.to_owned(), kind));
            true
        });
        let joined: String = highlighted.iter().map(|(text, _)| text.as_str()).collect();
        assert_eq!(joined, input, "{language}: {highlighted:?}");
        for expected in [
            ("日本語", TokenKind::Type),
            ("を", TokenKind::Keyword),
            ("解析", TokenKind::Type),
            ("する", TokenKind::Function),
        ] {
            assert!(
                highlighted.contains(&(expected.0.to_owned(), expected.1)),
                "{language}: {highlighted:?}"
            );
        }
    }
}
