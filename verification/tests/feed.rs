use webapp::feed::{emit_tokens, next_slice, SourceCursor, TokenCursor};

fn tokens(words: &[&str]) -> Vec<String> {
    words.iter().map(|w| w.to_string()).collect()
}

#[test]
fn tokens_are_emitted_in_order_with_a_blank_line_between_passes() {
    let t = tokens(&["# Hi", " there"]);
    let start = TokenCursor { next_token: 0, current_repeat: 0 };
    let (text, emitted, cursor) = emit_tokens(&t, start, 2, 10);
    assert_eq!(text, "# Hi there\n\n# Hi there");
    assert_eq!(emitted, 4);
    assert_eq!(cursor, TokenCursor { next_token: 0, current_repeat: 2 });
    let (text, emitted, _) = emit_tokens(&t, cursor, 2, 10);
    assert_eq!((text.as_str(), emitted), ("", 0));
}

#[test]
fn token_streams_do_not_depend_on_frame_sizes() {
    let t = tokens(&["a", "b", "c"]);
    let start = TokenCursor { next_token: 0, current_repeat: 0 };
    let (whole, n, end) = emit_tokens(&t, start, 2, 5);
    let (first, n1, mid) = emit_tokens(&t, start, 2, 2);
    let (second, n2, end2) = emit_tokens(&t, mid, 2, 3);
    assert_eq!(whole, "abc\n\nab");
    assert_eq!(format!("{first}{second}"), whole);
    assert_eq!((n1 + n2, end2), (n, end));
    assert_eq!(mid, TokenCursor { next_token: 2, current_repeat: 0 });
}

#[test]
fn source_slices_stop_at_character_boundaries_and_wrap() {
    // "é" is two bytes: a budget that would split it is cut back.
    let source = "aé!";
    let start = SourceCursor { offset: 0, current_repeat: 0 };
    assert_eq!(next_slice(source, start, 1, 2), Some((1, SourceCursor { offset: 1, current_repeat: 0 })));
    let at_e = SourceCursor { offset: 1, current_repeat: 0 };
    assert_eq!(next_slice(source, at_e, 1, 1), None);
    assert_eq!(next_slice(source, at_e, 1, 2), Some((3, SourceCursor { offset: 3, current_repeat: 0 })));
    assert_eq!(next_slice(source, at_e, 1, 100), Some((4, SourceCursor { offset: 0, current_repeat: 1 })));
    assert_eq!(next_slice(source, SourceCursor { offset: 0, current_repeat: 1 }, 1, 100), None);
    assert_eq!(next_slice(source, start, 1, 0), None);
    assert_eq!(next_slice("", start, 1, 5), None);
}

#[test]
fn feeding_a_pass_hands_over_the_whole_source() {
    let source = "ab\u{3042}c\u{1f600}d";
    let mut cursor = SourceCursor { offset: 0, current_repeat: 0 };
    let mut handed = String::new();
    while let Some((end, next)) = next_slice(source, cursor, 1, 4) {
        handed.push_str(&source[cursor.offset..end]);
        cursor = next;
    }
    assert_eq!(handed, source);
    assert_eq!(cursor.current_repeat, 1);
}
