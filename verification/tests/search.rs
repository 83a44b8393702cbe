use webapp::search::SearchTrie;

#[test]
fn finds_case_insensitive_prefixes() {
    let mut trie = SearchTrie::default();
    trie.insert("Streaming", 2);
    trie.insert("Streamdown", 7);
    trie.insert("other", 9);
    assert_eq!(trie.search("STREAM"), &[2, 7]);
    assert!(trie.search("missing").is_empty());
}

#[test]
fn trie_returns_all_case_insensitive_prefix_positions() {
    let mut trie = SearchTrie::default();
    trie.insert("Stream", 3);
    trie.insert("Streaming", 8);
    trie.insert("other", 13);
    assert_eq!(trie.search("STREAM"), &[3, 8]);
    assert!(trie.search("missing").is_empty());
    trie.clear();
    assert!(trie.search("stream").is_empty());
}

#[test]
fn suffix_entries_enable_partial_word_search() {
    let mut trie = SearchTrie::default();
    let word = "streamdown";
    for (offset, _) in word.char_indices() {
        trie.insert(&word[offset..], 20 + offset);
    }
    assert_eq!(trie.search("down"), &[26]);
}

#[test]
fn search_over_a_history_of_inserts_keeps_order_and_repeats() {
    let mut trie = SearchTrie::default();
    for (word, position) in [("Alpha", 1), ("beta", 2), ("ALPHABET", 3), ("alpha", 1), ("gamma", 4)] {
        trie.insert(word, position);
    }
    assert_eq!(trie.search("alp"), &[1, 3, 1]);
    assert_eq!(trie.search("  ALPHA\t"), &[1, 3, 1]);
    assert_eq!(trie.search("alphabets"), &[] as &[i32]);
    assert_eq!(trie.search("   "), &[] as &[i32]);
    trie.clear();
    assert_eq!(trie.search("alp"), &[] as &[i32]);
}
