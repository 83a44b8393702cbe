use webapp::controls::{
    drag_selection, key_command, press_selection, scroll_move, search_sync, KeyCommand, ScrollMove, SearchSync,
    SelectionState,
};
use webapp::document::{CellText, SelectionGranularity, TextCell, TextPos};

fn pos(block: u32, offset: u32) -> TextPos {
    TextPos { block, offset }
}

#[test]
fn copy_and_escape_work_wherever_the_focus_is() {
    assert_eq!(key_command("c", true, false, false), KeyCommand::Copy);
    assert_eq!(key_command("C", true, true, true), KeyCommand::Copy);
    assert_eq!(key_command("Escape", false, false, false), KeyCommand::ClearSelection);
    assert_eq!(key_command("c", false, false, true), KeyCommand::Ignore);
    assert_eq!(key_command("p", false, false, false), KeyCommand::Ignore);
    assert_eq!(key_command("cc", true, false, true), KeyCommand::Ignore);
}

#[test]
fn canvas_keys_map_to_viewer_commands() {
    assert_eq!(key_command("F3", false, false, true), KeyCommand::SearchStep { backwards: false });
    assert_eq!(key_command("F3", false, true, true), KeyCommand::SearchStep { backwards: true });
    assert_eq!(key_command("F3Previous", false, false, true), KeyCommand::SearchStep { backwards: true });
    assert_eq!(key_command("P", false, false, true), KeyCommand::TogglePause);
    assert_eq!(key_command("a", false, false, true), KeyCommand::ToggleAutoScroll);
    assert_eq!(key_command("+", false, false, true), KeyCommand::ZoomIn);
    assert_eq!(key_command("=", false, false, true), KeyCommand::ZoomIn);
    assert_eq!(key_command("-", false, false, true), KeyCommand::ZoomOut);
    assert_eq!(key_command("_", false, false, true), KeyCommand::ZoomOut);
    // Ctrl with another letter still reaches the canvas commands.
    assert_eq!(key_command("p", true, false, true), KeyCommand::TogglePause);
    assert_eq!(key_command("x", false, false, true), KeyCommand::Ignore);
}

#[test]
fn scrolling_keys_pick_a_move() {
    assert_eq!(key_command("ArrowUp", false, false, true), KeyCommand::Scroll(ScrollMove::LineUp));
    assert_eq!(key_command("ArrowDown", false, false, true), KeyCommand::Scroll(ScrollMove::LineDown));
    assert_eq!(key_command("PageUp", false, false, true), KeyCommand::Scroll(ScrollMove::PageUp));
    assert_eq!(key_command("PageDown", false, false, true), KeyCommand::Scroll(ScrollMove::PageDown));
    assert_eq!(key_command(" ", false, false, true), KeyCommand::Scroll(ScrollMove::PageDown));
    assert_eq!(key_command(" ", false, true, true), KeyCommand::Scroll(ScrollMove::PageUp));
    assert_eq!(key_command("Home", false, false, true), KeyCommand::Scroll(ScrollMove::Top));
    assert_eq!(key_command("End", false, false, true), KeyCommand::Scroll(ScrollMove::Bottom));
    assert_eq!(scroll_move("end", false), None);
    assert!(ScrollMove::Bottom.follows_output());
    assert!(!ScrollMove::PageDown.follows_output());
}

fn cells() -> Vec<TextCell> {
    "ab cd"
        .chars()
        .enumerate()
        .map(|(i, c)| TextCell { pos: pos(0, i as u32), text: CellText::Char(c) })
        .chain(std::iter::once(TextCell { pos: pos(1, 0), text: CellText::Char('e') }))
        .collect()
}

fn empty() -> SelectionState {
    SelectionState { granularity: SelectionGranularity::Character, initial_unit: None, anchor: None, focus: None }
}

#[test]
fn presses_select_by_click_count() {
    let cells = cells();
    let single = press_selection(empty(), &cells, 1, pos(0, 1), 1, false);
    assert_eq!(single, SelectionState { anchor: Some(pos(0, 1)), focus: Some(pos(0, 1)), ..empty() });
    let double = press_selection(empty(), &cells, 1, pos(0, 1), 2, false);
    assert_eq!(double.granularity, SelectionGranularity::Word);
    assert_eq!(double.initial_unit, Some((pos(0, 0), pos(0, 2))));
    assert_eq!((double.anchor, double.focus), (Some(pos(0, 0)), Some(pos(0, 2))));
    let triple = press_selection(empty(), &cells, 4, pos(0, 4), 3, false);
    assert_eq!(triple.granularity, SelectionGranularity::Block);
    assert_eq!((triple.anchor, triple.focus), (Some(pos(0, 0)), Some(pos(0, 5))));
    // Shift extends an existing selection, and starts one when there is none.
    let extended = press_selection(double, &cells, 4, pos(0, 4), 1, true);
    assert_eq!(extended, SelectionState { anchor: Some(pos(0, 0)), focus: Some(pos(0, 4)), ..empty() });
    assert_eq!(press_selection(empty(), &cells, 4, pos(0, 4), 1, true).anchor, Some(pos(0, 4)));
}

#[test]
fn drags_extend_by_characters_or_whole_units() {
    let cells = cells();
    let single = press_selection(empty(), &cells, 1, pos(0, 1), 1, false);
    let dragged = drag_selection(single, &cells, 4, pos(0, 4));
    assert_eq!((dragged.anchor, dragged.focus), (Some(pos(0, 1)), Some(pos(0, 4))));
    let word = press_selection(empty(), &cells, 4, pos(0, 4), 2, false);
    assert_eq!(word.initial_unit, Some((pos(0, 3), pos(0, 5))));
    let back = drag_selection(word, &cells, 0, pos(0, 0));
    assert_eq!((back.anchor, back.focus), (Some(pos(0, 5)), Some(pos(0, 0))));
    let on_unit = drag_selection(word, &cells, 3, pos(0, 3));
    assert_eq!((on_unit.anchor, on_unit.focus), (Some(pos(0, 3)), Some(pos(0, 5))));
    let forward = drag_selection(word, &cells, 5, pos(1, 0));
    assert_eq!((forward.anchor, forward.focus), (Some(pos(0, 3)), Some(pos(1, 1))));
    let fresh = drag_selection(empty(), &cells, 2, pos(0, 2));
    assert_eq!((fresh.anchor, fresh.focus), (Some(pos(0, 2)), Some(pos(0, 2))));
}

#[test]
fn search_box_changes_pick_the_search_step() {
    // A blank query clears matches once, then leaves things be.
    assert_eq!(search_sync("ab", "  ", false, false, false), (true, SearchSync::ClearMatches));
    assert_eq!(search_sync("  ", "  ", true, false, false), (false, SearchSync::ClearMatches));
    assert_eq!(search_sync("  ", "  ", false, true, true), (false, SearchSync::Keep));
    // A stale index is rebuilt when the query changes or the rebuild is due.
    assert_eq!(search_sync("ab", "abc", true, true, false), (true, SearchSync::RebuildIndex));
    assert_eq!(search_sync("abc", "abc", true, true, true), (false, SearchSync::RebuildIndex));
    assert_eq!(search_sync("abc", "abc", true, true, false), (false, SearchSync::Keep));
    // A fresh index is searched again only when the query changed.
    assert_eq!(search_sync("ab", "abc", false, false, true), (true, SearchSync::RefreshMatches));
    assert_eq!(search_sync("abc", "abc", true, false, true), (false, SearchSync::Keep));
}
