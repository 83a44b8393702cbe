use webapp::document::{
    active_label, clamp_active, code_line_of, explicit_line_count, extend_selection, index_block, match_ranges,
    next_active, plain, plain_for_canvas, rebuild_search_index, selection_range, selection_unit_at, stream_tokens,
    trimmed_len, Block, CellText, Inline, SelectionGranularity, TextCell, TextPos,
};
use webapp::search::SearchTrie;

fn pos(block: u32, offset: u32) -> TextPos {
    TextPos { block, offset }
}

fn text(s: &str) -> Inline {
    Inline::Text(s.to_owned())
}

#[test]
fn text_positions_step_and_saturate() {
    assert_eq!(pos(2, 5).after(), pos(2, 6));
    assert_eq!(pos(2, u32::MAX).after(), pos(2, u32::MAX));
}

#[test]
fn selection_range_orders_its_ends() {
    assert_eq!(selection_range(Some(pos(1, 4)), Some(pos(0, 9))), Some((pos(0, 9), pos(1, 4))));
    assert_eq!(selection_range(Some(pos(1, 2)), Some(pos(1, 5))), Some((pos(1, 2), pos(1, 5))));
    assert_eq!(selection_range(Some(pos(1, 2)), Some(pos(1, 2))), None);
    assert_eq!(selection_range(None, Some(pos(1, 2))), None);
    assert_eq!(selection_range(Some(pos(1, 2)), None), None);
}

#[test]
fn dragging_extends_a_selection_by_whole_units() {
    let initial = (pos(0, 10), pos(0, 15));
    assert_eq!(extend_selection(initial, (pos(0, 2), pos(0, 6))), (pos(0, 15), pos(0, 2)));
    assert_eq!(extend_selection(initial, (pos(0, 20), pos(0, 24))), (pos(0, 10), pos(0, 24)));
    assert_eq!(extend_selection(initial, (pos(0, 12), pos(0, 13))), initial);
}

#[test]
fn search_navigation_wraps_and_round_trips() {
    assert_eq!(next_active(2, 3, false), 0);
    assert_eq!(next_active(0, 3, true), 2);
    assert_eq!(next_active(1, 3, false), 2);
    assert_eq!(next_active(0, 0, false), 0);
    for count in 1..6 {
        for active in 0..count {
            assert_eq!(next_active(next_active(active, count, false), count, true), active);
            assert_eq!(next_active(next_active(active, count, true), count, false), active);
        }
    }
    assert_eq!(clamp_active(4, 3), 0);
    assert_eq!(clamp_active(2, 3), 2);
    assert_eq!(active_label(0, 0), 0);
    assert_eq!(active_label(1, 3), 2);
}

#[test]
fn match_ranges_span_the_trimmed_query() {
    assert_eq!(trimmed_len("  héllo \t"), 5);
    assert_eq!(
        match_ranges(&[pos(0, 3), pos(2, u32::MAX - 1)], " abc "),
        vec![(pos(0, 3), pos(0, 6)), (pos(2, u32::MAX - 1), pos(2, u32::MAX))]
    );
}

#[test]
fn code_lines_and_explicit_lines_are_counted() {
    assert_eq!(code_line_of("ab\ncd\nef", 0), 0);
    assert_eq!(code_line_of("ab\ncd\nef", 2), 1);
    assert_eq!(code_line_of("ab\ncd\nef", 5), 2);
    assert_eq!(code_line_of("ab\n\n", 9), 2);
    assert_eq!(explicit_line_count("one"), 1);
    assert_eq!(explicit_line_count("one\ntwo\n"), 3);
}

#[test]
fn words_and_their_suffixes_are_indexed_with_positions() {
    let mut trie = SearchTrie::default();
    let block = Block::Paragraph(vec![
        text("Hello "),
        Inline::Strong(vec![text("streamed")]),
        Inline::Math { source: "x^2".to_owned(), display: false },
        text("word"),
    ]);
    index_block(&mut trie, 3, &block);
    assert_eq!(trie.search("hello"), &[pos(3, 0)]);
    assert_eq!(trie.search("streamed"), &[pos(3, 6)]);
    // A suffix of a word is found at its own position.
    assert_eq!(trie.search("med"), &[pos(3, 11)]);
    // The formula takes one position and separates the words around it.
    assert_eq!(trie.search("word"), &[pos(3, 15)]);
    assert!(trie.search("x").is_empty());
}

#[test]
fn lists_tables_and_breaks_are_indexed_in_reading_order() {
    let mut trie = SearchTrie::default();
    let blocks = vec![
        Block::OrderedList { start: 9, items: vec![vec![text("alpha")], vec![text("beta")]] },
        Block::CodeBlock { language: Some("rust".to_owned()), text: "fn a\nb".to_owned() },
        Block::Table {
            headers: vec![vec![text("head")]],
            rows: vec![vec![vec![text("cell")], vec![text("more")]]],
        },
        Block::Heading { level: 1, content: vec![text("one"), Inline::SoftBreak, text("two"), Inline::HardBreak, text("three")] },
        Block::ThematicBreak,
        Block::UnorderedList(vec![vec![text("item")]]),
    ];
    rebuild_search_index(&mut trie, &blocks);
    // "9. alpha" then "10. beta": the numbers are words too.
    assert_eq!(trie.search("alpha"), &[pos(0, 3)]);
    assert_eq!(trie.search("10"), &[pos(0, 8)]);
    assert_eq!(trie.search("beta"), &[pos(0, 12)]);
    // A line break in code takes no position; "beta" starts with "b" too.
    assert_eq!(trie.search("b"), &[pos(0, 12), pos(1, 4)]);
    assert_eq!(trie.search("cell"), &[pos(2, 4)]);
    assert_eq!(trie.search("more"), &[pos(2, 8)]);
    assert_eq!(trie.search("two"), &[pos(3, 4)]);
    assert_eq!(trie.search("three"), &[pos(3, 7)]);
    assert_eq!(trie.search("item"), &[pos(5, 2)]);
}

#[test]
fn stream_tokens_rejoin_to_the_source() {
    let source = "Hello streaming world, abcdefghijk ünïcode!";
    let tokens = stream_tokens(source);
    assert_eq!(tokens.concat(), source);
    assert!(tokens.iter().all(|token| !token.is_empty()));
    assert_eq!(tokens[0], "Hello ");
    assert_eq!(tokens[1], "streamin");
    assert_eq!(tokens[2], "g ");
    assert!(stream_tokens("").is_empty());
}

#[test]
fn plain_text_of_inline_content() {
    let nodes = vec![
        text("see  "),
        Inline::SoftBreak,
        Inline::Emphasis(vec![text("this")]),
        Inline::HardBreak,
        Inline::Code("x".to_owned()),
        Inline::Math { source: "y".to_owned(), display: true },
        Inline::Link { label: vec![text("link")], url: "https://example.com".to_owned() },
    ];
    assert_eq!(plain(&nodes), "see this\nx$$y$$link");
    assert_eq!(plain_for_canvas(&nodes), "see   this\nx$$y$$link");
}

#[test]
fn clicks_select_characters_words_and_blocks() {
    let cells: Vec<TextCell> = "ab cd"
        .chars()
        .enumerate()
        .map(|(i, c)| TextCell { pos: pos(0, i as u32), text: CellText::Char(c) })
        .chain(std::iter::once(TextCell { pos: pos(1, 0), text: CellText::Span("ef".to_owned()) }))
        .collect();
    assert_eq!(selection_unit_at(&cells, 1, SelectionGranularity::Character), (pos(0, 1), pos(0, 2)));
    assert_eq!(selection_unit_at(&cells, 1, SelectionGranularity::Word), (pos(0, 0), pos(0, 2)));
    assert_eq!(selection_unit_at(&cells, 4, SelectionGranularity::Word), (pos(0, 3), pos(0, 5)));
    assert_eq!(selection_unit_at(&cells, 2, SelectionGranularity::Word), (pos(0, 2), pos(0, 3)));
    assert_eq!(selection_unit_at(&cells, 2, SelectionGranularity::Block), (pos(0, 0), pos(0, 5)));
    assert_eq!(selection_unit_at(&cells, 5, SelectionGranularity::Block), (pos(1, 0), pos(1, 1)));
    assert_eq!(CellText::Span(String::new()).first_char(), None);
}

#[test]
fn selections_do_not_depend_on_drag_direction() {
    let ends = [Some(pos(0, 3)), Some(pos(0, 7)), Some(pos(2, 0)), None];
    for a in ends {
        for b in ends {
            let forward = selection_range(a, b);
            assert_eq!(forward, selection_range(b, a));
            if let Some((start, end)) = forward {
                assert!((start.block, start.offset) < (end.block, end.offset));
            }
        }
    }
}
