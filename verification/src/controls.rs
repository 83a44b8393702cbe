//! What the viewer does with a key press, a click or a drag: the decisions
//! both renderers share. The renderers read the event, ask here, and carry
//! out the answer (scroll arithmetic, clipboard, redraw).
use vstd::prelude::*;
use vstd::string::StringSliceAdditionalSpecFns;
use crate::bytes::spec_lower_seq;
use crate::language::eq_ignore_case;
use crate::shell::bytes_equal;
use crate::search::trimmed;
use crate::document::{
    trimmed_len,
    TextPos, TextCell, SelectionGranularity, spec_selection_unit, spec_extend_selection, selection_unit_at,
    extend_selection,
};

verus! {

/// Where a scrolling key moves the view.
#[derive(Clone, Copy, Debug, PartialEq, Eq, Structural)]
pub enum ScrollMove {
    LineUp,
    LineDown,
    PageUp,
    PageDown,
    Top,
    Bottom,
}

/// The action a key press asks for.
#[derive(Clone, Copy, Debug, PartialEq, Eq, Structural)]
pub enum KeyCommand {
    /// Copy the selected text.
    Copy,
    /// Drop the selection.
    ClearSelection,
    /// Move to the next (or, backwards, the previous) search match.
    SearchStep { backwards: bool },
    TogglePause,
    ToggleAutoScroll,
    ZoomIn,
    ZoomOut,
    Scroll(ScrollMove),
    /// Nothing to do; the browser keeps the key.
    Ignore,
}

/// `key` names the one-character key `c` (ignoring ASCII case).
pub open spec fn is_letter_key(key: Seq<u8>, c: Seq<u8>) -> bool {
    spec_lower_seq(key) == spec_lower_seq(c)
}

/// The scroll a key asks for, if it is a scrolling key: the arrows move by a
/// line, Page Up/Down and space (backwards with Shift) by a page, Home and
/// End to either end.
pub open spec fn spec_scroll_move(key: Seq<u8>, shift: bool) -> Option<ScrollMove> {
    if key == "ArrowUp".spec_bytes() {
        Some(ScrollMove::LineUp)
    } else if key == "ArrowDown".spec_bytes() {
        Some(ScrollMove::LineDown)
    } else if key == "PageUp".spec_bytes() {
        Some(ScrollMove::PageUp)
    } else if key == "PageDown".spec_bytes() {
        Some(ScrollMove::PageDown)
    } else if key == " ".spec_bytes() {
        if shift {
            Some(ScrollMove::PageUp)
        } else {
            Some(ScrollMove::PageDown)
        }
    } else if key == "Home".spec_bytes() {
        Some(ScrollMove::Top)
    } else if key == "End".spec_bytes() {
        Some(ScrollMove::Bottom)
    } else {
        None
    }
}

/// The command of a key press. Ctrl/Cmd+C copies and Escape clears the
/// selection wherever the focus is; the other keys act only when the canvas
/// has the focus: F3 (F3Previous or Shift for backwards) steps through search
/// matches, P pauses, A toggles following the output, `+`/`=` and `-`/`_`
/// zoom, and the scrolling keys scroll.
pub open spec fn spec_key_command(key: Seq<u8>, ctrl_or_meta: bool, shift: bool, on_canvas: bool) -> KeyCommand {
    if ctrl_or_meta && is_letter_key(key, "c".spec_bytes()) {
        KeyCommand::Copy
    } else if key == "Escape".spec_bytes() {
        KeyCommand::ClearSelection
    } else if !on_canvas {
        KeyCommand::Ignore
    } else if key == "F3".spec_bytes() || key == "F3Previous".spec_bytes() {
        KeyCommand::SearchStep { backwards: key == "F3Previous".spec_bytes() || shift }
    } else if is_letter_key(key, "p".spec_bytes()) {
        KeyCommand::TogglePause
    } else if is_letter_key(key, "a".spec_bytes()) {
        KeyCommand::ToggleAutoScroll
    } else if key == "+".spec_bytes() || key == "=".spec_bytes() {
        KeyCommand::ZoomIn
    } else if key == "-".spec_bytes() || key == "_".spec_bytes() {
        KeyCommand::ZoomOut
    } else {
        match spec_scroll_move(key, shift) {
            Some(m) => KeyCommand::Scroll(m),
            None => KeyCommand::Ignore,
        }
    }
}

/// The move in the other direction.
pub open spec fn opposite(m: ScrollMove) -> ScrollMove {
    match m {
        ScrollMove::LineUp => ScrollMove::LineDown,
        ScrollMove::LineDown => ScrollMove::LineUp,
        ScrollMove::PageUp => ScrollMove::PageDown,
        ScrollMove::PageDown => ScrollMove::PageUp,
        ScrollMove::Top => ScrollMove::Bottom,
        ScrollMove::Bottom => ScrollMove::Top,
    }
}

/// The scrolling keys come in opposite pairs: up and down arrows, Page Up
/// and Page Down, Home and End move the opposite ways, and space moves as
/// Page Down does, or as Page Up with Shift; Shift changes no other
/// scrolling key.
pub proof fn lemma_scroll_keys_pair_up(shift: bool)
    ensures
        spec_scroll_move("ArrowUp".spec_bytes(), shift) matches Some(m)
            && spec_scroll_move("ArrowDown".spec_bytes(), shift) == Some(opposite(m)),
        spec_scroll_move("PageUp".spec_bytes(), shift) matches Some(m)
            && spec_scroll_move("PageDown".spec_bytes(), shift) == Some(opposite(m)),
        spec_scroll_move("Home".spec_bytes(), shift) matches Some(m)
            && spec_scroll_move("End".spec_bytes(), shift) == Some(opposite(m)),
        spec_scroll_move(" ".spec_bytes(), false) == spec_scroll_move("PageDown".spec_bytes(), shift),
        spec_scroll_move(" ".spec_bytes(), true) == spec_scroll_move("PageUp".spec_bytes(), shift),
        spec_scroll_move("ArrowUp".spec_bytes(), shift) == spec_scroll_move("ArrowUp".spec_bytes(), !shift),
        spec_scroll_move("End".spec_bytes(), shift) == Some(ScrollMove::Bottom),
{
    reveal_strlit("ArrowUp");
    reveal_strlit("ArrowDown");
    reveal_strlit("PageUp");
    reveal_strlit("PageDown");
    reveal_strlit("Home");
    reveal_strlit("End");
    reveal_strlit(" ");
    lemma_literal_bytes("ArrowUp");
    lemma_literal_bytes("ArrowDown");
    lemma_literal_bytes("PageUp");
    lemma_literal_bytes("PageDown");
    lemma_literal_bytes("Home");
    lemma_literal_bytes("End");
    lemma_literal_bytes(" ");
    let up = "ArrowUp".spec_bytes();
    let down = "ArrowDown".spec_bytes();
    let pu = "PageUp".spec_bytes();
    let pd = "PageDown".spec_bytes();
    let home = "Home".spec_bytes();
    let end = "End".spec_bytes();
    let sp = " ".spec_bytes();
    assert(down != up) by { assert(down.len() != up.len()); }
    assert(pu != up && pu != down) by { assert(pu[0] != up[0] && pu.len() != down.len()); }
    assert(pd != up && pd != down && pd != pu) by { assert(pd[0] != up[0] && pd.len() != pu.len()); }
    assert(sp != up && sp != down && sp != pu && sp != pd) by { assert(sp.len() == 1); }
    assert(home != up && home != down && home != pu && home != pd && home != sp) by { assert(home.len() == 4); }
    assert(end != up && end != down && end != pu && end != pd && end != sp && end != home) by {
        assert(end.len() == 3);
    }
}

/// Off the canvas only copying and dropping the selection act: every other
/// key press is left to the browser, whatever modifiers it carries.
pub proof fn lemma_keys_off_canvas(key: Seq<u8>, ctrl_or_meta: bool, shift: bool)
    ensures
        !(ctrl_or_meta && is_letter_key(key, "c".spec_bytes())) && key != "Escape".spec_bytes()
            ==> spec_key_command(key, ctrl_or_meta, shift, false) == KeyCommand::Ignore,
        ctrl_or_meta && is_letter_key(key, "c".spec_bytes()) ==> spec_key_command(key, ctrl_or_meta, shift, false)
            == KeyCommand::Copy && spec_key_command(key, ctrl_or_meta, shift, true) == KeyCommand::Copy,
        key == "Escape".spec_bytes() ==> spec_key_command(key, ctrl_or_meta, shift, false)
            == spec_key_command(key, ctrl_or_meta, shift, true),
{
}

/// The bytes of an ASCII literal are its characters' codes.
proof fn lemma_literal_bytes(s: &str)
    requires
        vstd::utf8::is_ascii_chars(s@),
    ensures
        s.spec_bytes() == Seq::new(s@.len(), |i: int| s@[i] as u8),
{
    vstd::string::is_ascii_spec_bytes(s);
}

/// The scroll a key asks for, if it is a scrolling key.
pub fn scroll_move(key: &str, shift: bool) -> (r: Option<ScrollMove>)
    ensures
        r == spec_scroll_move(key.spec_bytes(), shift),
{
    let k = key.as_bytes();
    if bytes_equal(k, "ArrowUp".as_bytes()) {
        Some(ScrollMove::LineUp)
    } else if bytes_equal(k, "ArrowDown".as_bytes()) {
        Some(ScrollMove::LineDown)
    } else if bytes_equal(k, "PageUp".as_bytes()) {
        Some(ScrollMove::PageUp)
    } else if bytes_equal(k, "PageDown".as_bytes()) {
        Some(ScrollMove::PageDown)
    } else if bytes_equal(k, " ".as_bytes()) {
        if shift {
            Some(ScrollMove::PageUp)
        } else {
            Some(ScrollMove::PageDown)
        }
    } else if bytes_equal(k, "Home".as_bytes()) {
        Some(ScrollMove::Top)
    } else if bytes_equal(k, "End".as_bytes()) {
        Some(ScrollMove::Bottom)
    } else {
        None
    }
}

/// The command of a key press; `on_canvas` tells whether the canvas has the
/// focus.
pub fn key_command(key: &str, ctrl_or_meta: bool, shift: bool, on_canvas: bool) -> (r: KeyCommand)
    ensures
        r == spec_key_command(key.spec_bytes(), ctrl_or_meta, shift, on_canvas),
{
    let k = key.as_bytes();
    if ctrl_or_meta && eq_ignore_case(k, "c".as_bytes()) {
        KeyCommand::Copy
    } else if bytes_equal(k, "Escape".as_bytes()) {
        KeyCommand::ClearSelection
    } else if !on_canvas {
        KeyCommand::Ignore
    } else if bytes_equal(k, "F3".as_bytes()) || bytes_equal(k, "F3Previous".as_bytes()) {
        KeyCommand::SearchStep { backwards: bytes_equal(k, "F3Previous".as_bytes()) || shift }
    } else if eq_ignore_case(k, "p".as_bytes()) {
        KeyCommand::TogglePause
    } else if eq_ignore_case(k, "a".as_bytes()) {
        KeyCommand::ToggleAutoScroll
    } else if bytes_equal(k, "+".as_bytes()) || bytes_equal(k, "=".as_bytes()) {
        KeyCommand::ZoomIn
    } else if bytes_equal(k, "-".as_bytes()) || bytes_equal(k, "_".as_bytes()) {
        KeyCommand::ZoomOut
    } else {
        match scroll_move(key, shift) {
            Some(m) => KeyCommand::Scroll(m),
            None => KeyCommand::Ignore,
        }
    }
}


/// What a selection gesture has made so far.
#[derive(Clone, Copy, Debug, PartialEq, Eq)]
pub struct SelectionState {
    pub granularity: SelectionGranularity,
    /// The word or block a double or triple click selected; a drag that
    /// started there extends by whole units.
    pub initial_unit: Option<(TextPos, TextPos)>,
    pub anchor: Option<TextPos>,
    pub focus: Option<TextPos>,
}

/// The selection after pressing on `hit` (cell `index`) with `clicks`
/// clicks in a row: Shift extends an existing selection to the hit
/// character; a triple click selects the block, a double click the word,
/// and a single click starts an empty selection at the hit.
pub open spec fn spec_press_selection(
    state: SelectionState,
    cells: Seq<TextCell>,
    index: int,
    hit: TextPos,
    clicks: i32,
    shift: bool,
) -> SelectionState {
    if shift && state.anchor is Some {
        SelectionState {
            granularity: SelectionGranularity::Character,
            initial_unit: None,
            anchor: state.anchor,
            focus: Some(hit),
        }
    } else if clicks >= 3 {
        let u = spec_selection_unit(cells, index, SelectionGranularity::Block);
        SelectionState { granularity: SelectionGranularity::Block, initial_unit: Some(u), anchor: Some(u.0), focus: Some(u.1) }
    } else if clicks == 2 {
        let u = spec_selection_unit(cells, index, SelectionGranularity::Word);
        SelectionState { granularity: SelectionGranularity::Word, initial_unit: Some(u), anchor: Some(u.0), focus: Some(u.1) }
    } else {
        SelectionState { granularity: SelectionGranularity::Character, initial_unit: None, anchor: Some(hit), focus: Some(hit) }
    }
}

/// The selection after a press on `hit`, the character of cell `index`.
pub fn press_selection(
    state: SelectionState,
    cells: &[TextCell],
    index: usize,
    hit: TextPos,
    clicks: i32,
    shift: bool,
) -> (r: SelectionState)
    requires
        index < cells.len(),
    ensures
        r == spec_press_selection(state, cells@, index as int, hit, clicks, shift),
{
    if shift && state.anchor.is_some() {
        SelectionState {
            granularity: SelectionGranularity::Character,
            initial_unit: None,
            anchor: state.anchor,
            focus: Some(hit),
        }
    } else if clicks >= 3 {
        let u = selection_unit_at(cells, index, SelectionGranularity::Block);
        SelectionState { granularity: SelectionGranularity::Block, initial_unit: Some(u), anchor: Some(u.0), focus: Some(u.1) }
    } else if clicks == 2 {
        let u = selection_unit_at(cells, index, SelectionGranularity::Word);
        SelectionState { granularity: SelectionGranularity::Word, initial_unit: Some(u), anchor: Some(u.0), focus: Some(u.1) }
    } else {
        SelectionState { granularity: SelectionGranularity::Character, initial_unit: None, anchor: Some(hit), focus: Some(hit) }
    }
}

/// The selection while dragging over `hit` (cell `index`): a selection of
/// whole units grows by the units dragged over; otherwise the focus follows
/// the pointer, from the anchor (or from the hit when there is none).
pub open spec fn spec_drag_selection(state: SelectionState, cells: Seq<TextCell>, index: int, hit: TextPos) -> SelectionState {
    match state.initial_unit {
        Some(initial) => {
            let ends = spec_extend_selection(initial, spec_selection_unit(cells, index, state.granularity));
            SelectionState { anchor: Some(ends.0), focus: Some(ends.1), ..state }
        },
        None => SelectionState {
            anchor: Some(
                match state.anchor {
                    Some(a) => a,
                    None => hit,
                },
            ),
            focus: Some(hit),
            ..state
        },
    }
}

/// The selection while the pointer drags over `hit`, the character of cell
/// `index`.
pub fn drag_selection(state: SelectionState, cells: &[TextCell], index: usize, hit: TextPos) -> (r: SelectionState)
    requires
        index < cells.len(),
    ensures
        r == spec_drag_selection(state, cells@, index as int, hit),
{
    match state.initial_unit {
        Some(initial) => {
            let ends = extend_selection(initial, selection_unit_at(cells, index, state.granularity));
            SelectionState { anchor: Some(ends.0), focus: Some(ends.1), ..state }
        },
        None => SelectionState {
            anchor: Some(
                match state.anchor {
                    Some(a) => a,
                    None => hit,
                },
            ),
            focus: Some(hit),
            ..state
        },
    }
}

/// What keeping the matches in step with the search box asks for.
#[derive(Clone, Copy, Debug, PartialEq, Eq, Structural)]
pub enum SearchSync {
    /// Nothing changed that matters.
    Keep,
    /// The query is blank: drop the matches.
    ClearMatches,
    /// Rebuild the index from the document, then search again.
    RebuildIndex,
    /// Search the current index again.
    RefreshMatches,
}

/// The search step of a frame. A blank query clears the matches (when
/// there are any or it just changed). Otherwise a stale index is rebuilt
/// when the query changed or the rebuild is due (`index_due`: enough time
/// since the last one), and a changed query is searched again.
pub open spec fn spec_search_sync(changed: bool, blank: bool, has_matches: bool, index_stale: bool, index_due: bool) -> SearchSync {
    if blank {
        if has_matches || changed {
            SearchSync::ClearMatches
        } else {
            SearchSync::Keep
        }
    } else if index_stale && (changed || index_due) {
        SearchSync::RebuildIndex
    } else if changed {
        SearchSync::RefreshMatches
    } else {
        SearchSync::Keep
    }
}

/// The search step of a frame for the query in the search box, given the
/// query searched so far; also whether the query changed (which restarts
/// match navigation at the first match).
pub fn search_sync(previous: &str, query: &str, has_matches: bool, index_stale: bool, index_due: bool) -> (r: (bool, SearchSync))
    ensures
        r.0 == (previous.spec_bytes() != query.spec_bytes()),
        r.1 == spec_search_sync(r.0, trimmed(query@).len() == 0, has_matches, index_stale, index_due),
{
    let changed = !bytes_equal(previous.as_bytes(), query.as_bytes());
    let blank = trimmed_len(query) == 0;
    let action = if blank {
        if has_matches || changed {
            SearchSync::ClearMatches
        } else {
            SearchSync::Keep
        }
    } else if index_stale && (changed || index_due) {
        SearchSync::RebuildIndex
    } else if changed {
        SearchSync::RefreshMatches
    } else {
        SearchSync::Keep
    };
    (changed, action)
}

impl ScrollMove {
    /// Following the output resumes after a jump to the end and stops after
    /// any other scrolling key.
    pub open spec fn spec_follows_output(self) -> bool {
        self == ScrollMove::Bottom
    }

    /// Whether following the output is on after this scroll.
    pub fn follows_output(self) -> (r: bool)
        ensures
            r == self.spec_follows_output(),
    {
        matches!(self, ScrollMove::Bottom)
    }
}

} // verus!
