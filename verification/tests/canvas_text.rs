use webapp::canvas::{append_line, byte_match_ranges, byte_selection_range, rebuild_text_index, selected_text};
use webapp::search::SearchTrie;

#[test]
fn text_index_uses_byte_offsets() {
    let mut trie = SearchTrie::default();
    let text = "héllo wörld\nstreamdown";
    rebuild_text_index(&mut trie, text);
    assert_eq!(trie.search("héllo"), &[0]);
    assert_eq!(trie.search("wör"), &[7]);
    assert_eq!(trie.search("llo"), &[3]);
    assert_eq!(trie.search("down"), &[20]);
    assert_eq!(&text[20..], "down");
    // Rebuilding forgets the old text.
    rebuild_text_index(&mut trie, "other");
    assert!(trie.search("down").is_empty());
}

#[test]
fn byte_selections_and_matches() {
    assert_eq!(byte_selection_range(Some(9), Some(3)), Some((3, 9)));
    assert_eq!(byte_selection_range(Some(3), Some(3)), None);
    assert_eq!(byte_selection_range(None, Some(3)), None);
    assert_eq!(byte_match_ranges(&[2, usize::MAX - 1], "  wö "), vec![(2, 5), (usize::MAX - 1, usize::MAX)]);
}

#[test]
fn selected_text_needs_character_boundaries() {
    let text = "aé b";
    assert_eq!(selected_text(text, 0, 3), Some("aé"));
    assert_eq!(selected_text(text, 0, 2), None);
    assert_eq!(selected_text(text, 3, 1), None);
    assert_eq!(selected_text(text, 0, 9), None);
    assert_eq!(selected_text(text, 4, 5), Some("b"));
}

#[test]
fn drawn_lines_join_with_breaks_and_keep_their_ranges() {
    let mut text = String::new();
    let first = append_line(&mut text, "h\u{e9}llo");
    let second = append_line(&mut text, "w\u{f6}rld");
    assert_eq!(text, "h\u{e9}llo\nw\u{f6}rld");
    assert_eq!(first, (0, 6));
    assert_eq!(second, (7, 13));
    assert_eq!(&text[first.0..first.1], "h\u{e9}llo");
    assert_eq!(&text[second.0..second.1], "w\u{f6}rld");
    let empty = append_line(&mut text, "");
    assert_eq!(empty, (14, 14));
    assert!(text.ends_with('\n'));
}
