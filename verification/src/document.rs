//! Positions in the rendered document and what the reader does with them:
//! moving between search matches and selecting text. Positions count
//! characters inside a block, blocks count from the top of the document.
use vstd::prelude::*;
use vstd::string::StringSliceAdditionalSpecFns;
use crate::search::{trimmed, trim_start_index, trim_end_index, is_whitespace, unicode_white_space, SearchTrie, word_key};
use vstd::utf8::encode_utf8;
use crate::bytes::NL;

verus! {

/// The largest `u32`.
pub open spec fn u32_max() -> int {
    0xffff_ffff
}

/// `a + b` for `b >= 0`, stopping at the largest `u32`.
pub open spec fn sat_add_u32(a: u32, b: int) -> u32 {
    if a + b >= u32_max() {
        0xffff_ffffu32
    } else {
        (a + b) as u32
    }
}

fn saturating_add_u32(a: u32, b: u32) -> (r: u32)
    ensures
        r == sat_add_u32(a, b as int),
{
    if b >= 0xffff_ffffu32 - a {
        0xffff_ffffu32
    } else {
        a + b
    }
}

/// A position in the document: a block and a character offset inside it.
#[derive(Clone, Copy, Debug, PartialEq, Eq, PartialOrd, Ord, Hash, Structural)]
pub struct TextPos {
    pub block: u32,
    pub offset: u32,
}

/// Document order: by block, then by offset.
pub open spec fn pos_lt(a: TextPos, b: TextPos) -> bool {
    a.block < b.block || (a.block == b.block && a.offset < b.offset)
}

/// `a` comes before `b` in document order.
pub fn pos_before(a: TextPos, b: TextPos) -> (r: bool)
    ensures
        r == pos_lt(a, b),
{
    a.block < b.block || (a.block == b.block && a.offset < b.offset)
}

impl TextPos {
    /// The position one character further on in the same block.
    pub open spec fn spec_after(self) -> TextPos {
        TextPos { block: self.block, offset: sat_add_u32(self.offset, 1) }
    }

    /// The position one character further on in the same block (the last
    /// representable offset stays where it is).
    pub fn after(self) -> (r: Self)
        ensures
            r == self.spec_after(),
    {
        TextPos { block: self.block, offset: saturating_add_u32(self.offset, 1) }
    }
}

/// The selection between an anchor and a focus, in document order; none while
/// either end is missing or both ends coincide.
pub open spec fn spec_selection_range(anchor: Option<TextPos>, focus: Option<TextPos>) -> Option<(TextPos, TextPos)> {
    match (anchor, focus) {
        (Some(a), Some(b)) => if a == b {
            None
        } else if pos_lt(a, b) {
            Some((a, b))
        } else {
            Some((b, a))
        },
        _ => None,
    }
}

/// The selection between an anchor and a focus, in document order.
pub fn selection_range(anchor: Option<TextPos>, focus: Option<TextPos>) -> (r: Option<(TextPos, TextPos)>)
    ensures
        r == spec_selection_range(anchor, focus),
{
    match (anchor, focus) {
        (Some(a), Some(b)) => if a.block == b.block && a.offset == b.offset {
            None
        } else if pos_before(a, b) {
            Some((a, b))
        } else {
            Some((b, a))
        },
        _ => None,
    }
}

/// A selection does not depend on the direction it was made in: swapping
/// anchor and focus gives the same range, and a range always starts strictly
/// before it ends.
pub proof fn lemma_selection_range_direction(anchor: Option<TextPos>, focus: Option<TextPos>)
    ensures
        spec_selection_range(anchor, focus) == spec_selection_range(focus, anchor),
        spec_selection_range(anchor, focus) matches Some(r) ==> pos_lt(r.0, r.1),
{
}

/// The anchor and focus while a drag extends a selection made of whole units
/// (words or blocks): a unit before the initial one selects back to it, a
/// unit after it selects forward, and one overlapping it keeps it.
pub open spec fn spec_extend_selection(initial: (TextPos, TextPos), unit: (TextPos, TextPos)) -> (TextPos, TextPos) {
    if !pos_lt(initial.0, unit.1) {
        (initial.1, unit.0)
    } else if !pos_lt(unit.0, initial.1) {
        (initial.0, unit.1)
    } else {
        initial
    }
}

/// The anchor and focus of a selection of whole units extended to `unit`.
pub fn extend_selection(initial: (TextPos, TextPos), unit: (TextPos, TextPos)) -> (r: (TextPos, TextPos))
    ensures
        r == spec_extend_selection(initial, unit),
{
    if !pos_before(initial.0, unit.1) {
        (initial.1, unit.0)
    } else if !pos_before(unit.0, initial.1) {
        (initial.0, unit.1)
    } else {
        initial
    }
}

/// A drag that started on a word or block keeps that whole unit selected,
/// whichever unit it reaches: the selection it makes starts no later than
/// the initial unit and ends no earlier.
pub proof fn lemma_extend_selection_keeps_initial(initial: (TextPos, TextPos), unit: (TextPos, TextPos))
    requires
        pos_lt(initial.0, initial.1),
        pos_lt(unit.0, unit.1),
    ensures
        ({
            let ends = spec_extend_selection(initial, unit);
            spec_selection_range(Some(ends.0), Some(ends.1)) matches Some(range)
                && !pos_lt(initial.0, range.0) && !pos_lt(range.1, initial.1)
        }),
{
}

/// The match that becomes active after stepping forward or backward through
/// `count` matches from match `active`, wrapping around at both ends.
pub open spec fn spec_next_active(active: int, count: int, backwards: bool) -> int {
    if count == 0 {
        active
    } else if backwards {
        if active == 0 {
            count - 1
        } else {
            active - 1
        }
    } else {
        (active + 1) % count
    }
}

/// Step the active search match forward or backward (unchanged when there is
/// no match).
pub fn next_active(active: usize, count: usize, backwards: bool) -> (r: usize)
    requires
        count == 0 || backwards || active < usize::MAX,
    ensures
        r == spec_next_active(active as int, count as int, backwards),
        count > 0 && (!backwards || active <= count) ==> r < count,
{
    if count == 0 {
        active
    } else if backwards {
        if active == 0 {
            count - 1
        } else {
            active - 1
        }
    } else {
        (active + 1) % count
    }
}

/// Stepping forward and then backward through the matches, or backward and
/// then forward, comes back to the match one started from.
pub proof fn lemma_next_active_round_trip(active: int, count: int)
    requires
        0 <= active < count,
    ensures
        spec_next_active(spec_next_active(active, count, false), count, true) == active,
        spec_next_active(spec_next_active(active, count, true), count, false) == active,
        0 <= spec_next_active(active, count, false) < count,
        0 <= spec_next_active(active, count, true) < count,
{
    if active + 1 < count {
        assert((active + 1) % count == active + 1) by (nonlinear_arith)
            requires
                0 <= active + 1 < count,
        ;
    } else {
        assert((active + 1) % count == 0) by (nonlinear_arith)
            requires
                active + 1 == count,
                count > 0,
        ;
    }
    if active == 0 {
        assert((count - 1 + 1) % count == 0) by (nonlinear_arith)
            requires
                count > 0,
        ;
    } else {
        assert((active - 1 + 1) % count == active) by (nonlinear_arith)
            requires
                0 < active < count,
        ;
    }
}

/// The active match after the matches changed to `count` of them: kept when
/// still in range, else the first.
pub open spec fn spec_clamp_active(active: int, count: int) -> int {
    if active >= count {
        0
    } else {
        active
    }
}

/// Keep the active match in range after the matches changed.
pub fn clamp_active(active: usize, count: usize) -> (r: usize)
    ensures
        r == spec_clamp_active(active as int, count as int),
{
    if active >= count {
        0
    } else {
        active
    }
}

/// The number shown for the active match: from 1, or 0 when there is none.
pub fn active_label(active: usize, count: usize) -> (r: usize)
    requires
        count == 0 || active < usize::MAX,
    ensures
        r == if count == 0 { 0 } else { active + 1 },
{
    if count == 0 {
        0
    } else {
        active + 1
    }
}

/// The characters of the trimmed query.
pub fn trimmed_len(query: &str) -> (r: usize)
    ensures
        r == trimmed(query@).len(),
{
    let chars = crate::text::str_chars(query);
    let mut a: usize = 0;
    while a < chars.len() && is_whitespace(chars[a])
        invariant
            a <= chars.len(),
            trim_start_index(chars@, 0) == trim_start_index(chars@, a as int),
        decreases chars.len() - a,
    {
        a = a + 1;
    }
    let mut b: usize = chars.len();
    while b > a && is_whitespace(chars[b - 1])
        invariant
            a <= b <= chars.len(),
            trim_end_index(chars@, a as int, chars.len() as int) == trim_end_index(chars@, a as int, b as int),
        decreases b,
    {
        b = b - 1;
    }
    assert(chars@ == query@);
    b - a
}

/// The ranges a search highlights: from each match start, as many characters
/// as the trimmed query has (`length`), within the same block.
pub open spec fn spec_match_ranges(starts: Seq<TextPos>, length: u32) -> Seq<(TextPos, TextPos)> {
    Seq::new(starts.len(), |i: int| (starts[i], TextPos { block: starts[i].block, offset: sat_add_u32(starts[i].offset, length as int) }))
}

/// The highlighted range of each match start of `query`.
pub fn match_ranges(starts: &[TextPos], query: &str) -> (r: Vec<(TextPos, TextPos)>)
    ensures
        r@ == spec_match_ranges(starts@, trimmed(query@).len() as u32),
{
    let length = trimmed_len(query) as u32;
    let mut out: Vec<(TextPos, TextPos)> = Vec::new();
    let mut i: usize = 0;
    while i < starts.len()
        invariant
            i <= starts.len(),
            length == trimmed(query@).len() as u32,
            out@ =~= spec_match_ranges(starts@, length).take(i as int),
        decreases starts.len() - i,
    {
        let s = starts[i];
        out.push((s, TextPos { block: s.block, offset: saturating_add_u32(s.offset, length) }));
        i = i + 1;
    }
    out
}

/// The line (from 0) of a code block on which the character at `target`
/// stands, counting characters other than line breaks; scanning from
/// character `i` having passed `offset` characters and `lines` line breaks.
pub open spec fn spec_code_line(s: Seq<char>, i: int, offset: int, lines: int, target: int) -> int
    decreases s.len() - i,
{
    if i < 0 || i >= s.len() {
        lines
    } else if s[i] == '\n' {
        spec_code_line(s, i + 1, offset, lines + 1, target)
    } else if offset >= target {
        lines
    } else {
        spec_code_line(s, i + 1, offset + 1, lines, target)
    }
}

/// How many line breaks come before character `target` of a code block's
/// text, where characters are counted without the line breaks.
pub fn code_line_of(text: &str, target: u32) -> (r: u32)
    requires
        text@.len() <= u32_max(),
    ensures
        r == spec_code_line(text@, 0, 0, 0, target as int),
{
    let chars = crate::text::str_chars(text);
    let mut offset: u32 = 0;
    let mut lines: u32 = 0;
    let mut i: usize = 0;
    while i < chars.len()
        invariant
            chars@ == text@,
            i <= chars.len(),
            chars@.len() <= u32_max(),
            offset + lines <= i,
            spec_code_line(text@, 0, 0, 0, target as int)
                == spec_code_line(text@, i as int, offset as int, lines as int, target as int),
        decreases chars.len() - i,
    {
        if chars[i] == '\n' {
            lines = lines + 1;
        } else {
            if offset >= target {
                return lines;
            }
            offset = offset + 1;
        }
        i = i + 1;
    }
    lines
}

/// How many `b` bytes `s` holds from `i` on.
pub open spec fn count_byte(s: Seq<u8>, i: int, b: u8) -> int
    decreases s.len() - i,
{
    if i < 0 || i >= s.len() {
        0
    } else {
        (if s[i] == b { 1int } else { 0int }) + count_byte(s, i + 1, b)
    }
}

/// The number of lines of a text: one more than its line breaks.
pub fn explicit_line_count(text: &str) -> (r: usize)
    requires
        text.spec_bytes().len() < usize::MAX,
    ensures
        r == count_byte(text.spec_bytes(), 0, NL) + 1,
{
    let s = text.as_bytes();
    let mut i: usize = s.len();
    let mut n: usize = 0;
    while i > 0
        invariant
            i <= s@.len(),
            s@ == text.spec_bytes(),
            s@.len() < usize::MAX,
            n == count_byte(s@, i as int, NL),
            n <= s@.len() - i,
        decreases i,
    {
        i = i - 1;
        if s[i] == NL {
            n = n + 1;
        }
    }
    n + 1
}

/// What `char::is_alphanumeric` reports (Unicode `Alphabetic` or `Numeric`).
pub uninterp spec fn unicode_alphanumeric(c: char) -> bool;

/// Wraps `char::is_alphanumeric`. Among ASCII characters exactly the letters
/// and digits are alphabetic or numeric in Unicode.
#[verifier::external_body]
pub(crate) fn is_alphanumeric(c: char) -> (r: bool)
    ensures
        r == unicode_alphanumeric(c),
        (c as u32) < 0x80 ==> (r <==> (('a' <= c && c <= 'z') || ('A' <= c && c <= 'Z') || ('0' <= c && c <= '9'))),
{
    c.is_alphanumeric()
}

/// A character that belongs to a searchable word.
pub open spec fn is_word_char(c: char) -> bool {
    unicode_alphanumeric(c) || c == '_'
}

/// Inline content of a parsed Markdown block.
pub enum Inline {
    Text(String),
    Code(String),
    Math { source: String, display: bool },
    Emphasis(Vec<Inline>),
    Strong(Vec<Inline>),
    Link { label: Vec<Inline>, url: String },
    SoftBreak,
    HardBreak,
}

/// A block of a parsed Markdown document.
pub enum Block {
    Heading { level: u8, content: Vec<Inline> },
    Paragraph(Vec<Inline>),
    BlockQuote(Vec<Inline>),
    CodeBlock { language: Option<String>, text: String },
    UnorderedList(Vec<Vec<Inline>>),
    OrderedList { start: u64, items: Vec<Vec<Inline>> },
    Table { headers: Vec<Vec<Inline>>, rows: Vec<Vec<Vec<Inline>>> },
    ThematicBreak,
}

/// Where indexing stands: the next position in the block, the start of the
/// word being read, and its characters so far.
pub struct IndexState {
    pub offset: u32,
    pub start: u32,
    pub word: Seq<char>,
}

/// The state at the start of a block.
pub open spec fn index_start() -> IndexState {
    IndexState { offset: 0, start: 0, word: Seq::empty() }
}

/// The words a finished word adds to the index: each of its first 64 suffixes
/// (so a search finds the middle of a word too), at the position it starts.
pub open spec fn word_entries(block: u32, start: u32, word: Seq<char>) -> Seq<(Seq<char>, TextPos)> {
    let n = if word.len() < 64 { word.len() as int } else { 64 };
    Seq::new(n as nat, |k: int| (word.subrange(k, word.len() as int), TextPos { block, offset: sat_add_u32(start, k) }))
}

/// End the current word, if any: the new state and the words it adds.
pub open spec fn flush_step(block: u32, st: IndexState) -> (IndexState, Seq<(Seq<char>, TextPos)>) {
    (IndexState { word: Seq::empty(), ..st }, word_entries(block, st.start, st.word))
}

/// Read character `c`, which takes up a position when `recorded`: a word
/// character extends the word, any other ends it.
pub open spec fn char_step(block: u32, st: IndexState, c: char, recorded: bool) -> (IndexState, Seq<(Seq<char>, TextPos)>) {
    let (s1, added) = if is_word_char(c) {
        (IndexState { start: if st.word.len() == 0 { st.offset } else { st.start }, word: st.word.push(c), ..st }, Seq::empty())
    } else {
        flush_step(block, st)
    };
    (IndexState { offset: if recorded { sat_add_u32(s1.offset, 1) } else { s1.offset }, ..s1 }, added)
}

/// Read a formula: it ends the word and takes up one position.
pub open spec fn formula_step(block: u32, st: IndexState) -> (IndexState, Seq<(Seq<char>, TextPos)>) {
    let (s1, added) = flush_step(block, st);
    (IndexState { offset: sat_add_u32(s1.offset, 1), ..s1 }, added)
}

/// Read the characters of a text; line breaks take up no position.
pub open spec fn text_run(block: u32, st: IndexState, t: Seq<char>) -> (IndexState, Seq<(Seq<char>, TextPos)>)
    decreases t.len(),
{
    if t.len() == 0 {
        (st, Seq::empty())
    } else {
        let (s1, e1) = text_run(block, st, t.drop_last());
        let (s2, e2) = char_step(block, s1, t.last(), t.last() != '\n');
        (s2, e1 + e2)
    }
}

/// Read inline content: text and code as their characters, a formula as one
/// position, emphasis and link labels as their content, a soft break as a
/// space and a hard break as a line break.
pub open spec fn inline_run(block: u32, st: IndexState, p: Inline) -> (IndexState, Seq<(Seq<char>, TextPos)>)
    decreases p,
{
    match p {
        Inline::Text(t) => text_run(block, st, t@),
        Inline::Code(t) => text_run(block, st, t@),
        Inline::Math { .. } => formula_step(block, st),
        Inline::Emphasis(c) => inlines_run(block, st, c@),
        Inline::Strong(c) => inlines_run(block, st, c@),
        Inline::Link { label, .. } => inlines_run(block, st, label@),
        Inline::SoftBreak => char_step(block, st, ' ', true),
        Inline::HardBreak => char_step(block, st, '\n', false),
    }
}

/// Read a sequence of inline content.
pub open spec fn inlines_run(block: u32, st: IndexState, ps: Seq<Inline>) -> (IndexState, Seq<(Seq<char>, TextPos)>)
    decreases ps,
{
    if ps.len() == 0 {
        (st, Seq::empty())
    } else {
        let (s1, e1) = inlines_run(block, st, ps.drop_last());
        let (s2, e2) = inline_run(block, s1, ps.last());
        (s2, e1 + e2)
    }
}

/// The decimal digits of `n`.
pub open spec fn decimal(n: nat) -> Seq<char>
    decreases n,
{
    if n < 10 {
        seq![digit_char(n)]
    } else {
        decimal(n / 10).push(digit_char(n % 10))
    }
}

/// The digit character for `d < 10`.
pub open spec fn digit_char(d: nat) -> char {
    if d == 0 { '0' } else if d == 1 { '1' } else if d == 2 { '2' } else if d == 3 { '3' }
    else if d == 4 { '4' } else if d == 5 { '5' } else if d == 6 { '6' } else if d == 7 { '7' }
    else if d == 8 { '8' } else { '9' }
}

/// What the index reads before each list item or table cell.
#[derive(Clone, Copy)]
pub enum Marker {
    /// `* ` before each item.
    Bullet,
    /// The item's number and `. `, counting from the given start.
    Number(usize),
    /// Nothing.
    Nothing,
}

/// The marker text before item `k`.
pub open spec fn marker_text(m: Marker, k: int) -> Seq<char> {
    match m {
        Marker::Bullet => seq!['*', ' '],
        Marker::Number(start) => decimal((start + k) as nat) + seq!['.', ' '],
        Marker::Nothing => Seq::empty(),
    }
}

/// Read list item or table cell `k`: its marker text, its content, then end
/// its last word.
pub open spec fn item_run(block: u32, st: IndexState, items: Seq<Vec<Inline>>, m: Marker, k: int) -> (IndexState, Seq<(Seq<char>, TextPos)>) {
    let (s1, e1) = text_run(block, st, marker_text(m, k));
    let (s2, e2) = inlines_run(block, s1, items[k]@);
    let (s3, e3) = flush_step(block, s2);
    (s3, e1 + e2 + e3)
}

/// Read the first `n` list items or table cells.
pub open spec fn items_run(block: u32, st: IndexState, items: Seq<Vec<Inline>>, m: Marker, n: int) -> (IndexState, Seq<(Seq<char>, TextPos)>)
    decreases n,
{
    if n <= 0 {
        (st, Seq::empty())
    } else {
        let (s1, e1) = items_run(block, st, items, m, n - 1);
        let (s2, e2) = item_run(block, s1, items, m, n - 1);
        (s2, e1 + e2)
    }
}

/// Read the cells of the first `n` table rows.
pub open spec fn rows_run(block: u32, st: IndexState, rows: Seq<Vec<Vec<Inline>>>, n: int) -> (IndexState, Seq<(Seq<char>, TextPos)>)
    decreases n,
{
    if n <= 0 {
        (st, Seq::empty())
    } else {
        let (s1, e1) = rows_run(block, st, rows, n - 1);
        let row = rows[n - 1]@;
        let (s2, e2) = items_run(block, s1, row, Marker::Nothing, row.len() as int);
        (s2, e1 + e2)
    }
}

/// The first number of an ordered list, as the index counts it.
pub open spec fn list_start(start: u64) -> usize {
    start as usize
}

/// Read the content of a block from the start of the block.
pub open spec fn body_run(block: u32, b: Block) -> (IndexState, Seq<(Seq<char>, TextPos)>) {
    match b {
        Block::Heading { content, .. } => inlines_run(block, index_start(), content@),
        Block::Paragraph(c) => inlines_run(block, index_start(), c@),
        Block::BlockQuote(c) => inlines_run(block, index_start(), c@),
        Block::CodeBlock { text, .. } => text_run(block, index_start(), text@),
        Block::UnorderedList(items) => items_run(block, index_start(), items@, Marker::Bullet, items@.len() as int),
        Block::OrderedList { start, items } => items_run(
            block,
            index_start(),
            items@,
            Marker::Number(list_start(start)),
            items@.len() as int,
        ),
        Block::Table { headers, rows } => {
            let (s1, e1) = items_run(block, index_start(), headers@, Marker::Nothing, headers@.len() as int);
            let (s2, e2) = rows_run(block, s1, rows@, rows@.len() as int);
            (s2, e1 + e2)
        },
        Block::ThematicBreak => (index_start(), Seq::empty()),
    }
}

/// The words of block number `block`, in reading order, each at the position
/// it starts: what the search finds in the block.
pub open spec fn block_words(block: u32, b: Block) -> Seq<(Seq<char>, TextPos)> {
    let (s1, e1) = body_run(block, b);
    e1 + flush_step(block, s1).1
}

/// Reading a run of word characters from the start of a block builds that
/// word, starting at position 0, and adds nothing to the index yet.
proof fn lemma_text_run_word(block: u32, w: Seq<char>)
    requires
        forall|k: int| 0 <= k < w.len() ==> is_word_char(#[trigger] w[k]) && w[k] != '\n',
        w.len() < 0xffff_ffff,
    ensures
        text_run(block, index_start(), w) == (IndexState { offset: w.len() as u32, start: 0, word: w }, Seq::<(Seq<char>, TextPos)>::empty()),
    decreases w.len(),
{
    if w.len() > 0 {
        let init = w.drop_last();
        assert forall|k: int| 0 <= k < init.len() implies is_word_char(#[trigger] init[k]) && init[k] != '\n' by {
            assert(init[k] == w[k]);
        }
        lemma_text_run_word(block, init);
        assert(is_word_char(w[w.len() - 1]) && w[w.len() - 1] != '\n');
        assert(w.last() == w[w.len() - 1]);
        assert(init.push(w.last()) =~= w);
        assert(Seq::<(Seq<char>, TextPos)>::empty() + Seq::<(Seq<char>, TextPos)>::empty() =~= Seq::<(Seq<char>, TextPos)>::empty());
    } else {
        assert(w =~= Seq::<char>::empty());
    }
}

/// A block quote holding one word is indexed with that word found where the
/// block starts, and each of its suffixes (up to 64) one position further on.
pub proof fn lemma_quoted_word_is_found(block: u32, c: Vec<Inline>, t: String)
    requires
        c@ == seq![Inline::Text(t)],
        t@.len() > 0,
        t@.len() < 0xffff_ffff,
        forall|k: int| 0 <= k < t@.len() ==> is_word_char(#[trigger] t@[k]) && t@[k] != '\n',
    ensures
        block_words(block, Block::BlockQuote(c)) == word_entries(block, 0, t@),
        block_words(block, Block::BlockQuote(c))[0] == (t@, TextPos { block, offset: 0 }),
{
    lemma_text_run_word(block, t@);
    let e: Seq<(Seq<char>, TextPos)> = Seq::empty();
    assert(c@.drop_last() =~= Seq::<Inline>::empty());
    assert(c@.last() == Inline::Text(t));
    assert(inlines_run(block, index_start(), c@.drop_last()) == (index_start(), e));
    assert(inline_run(block, index_start(), Inline::Text(t)) == text_run(block, index_start(), t@));
    let st = IndexState { offset: t@.len() as u32, start: 0, word: t@ };
    assert(inlines_run(block, index_start(), c@) == (st, e + e));
    assert(e + e =~= e);
    assert(body_run(block, Block::BlockQuote(c)) == (st, e));
    assert(flush_step(block, st).1 == word_entries(block, 0, t@));
    assert(Seq::<(Seq<char>, TextPos)>::empty() + Seq::<(Seq<char>, TextPos)>::empty() =~= Seq::<(Seq<char>, TextPos)>::empty());
    let we = word_entries(block, 0, t@);
    assert(Seq::<(Seq<char>, TextPos)>::empty() + we =~= we);
    assert(we[0].0 =~= t@);
}

/// Quoting text changes nothing about its words: a block quote, a paragraph
/// and a heading of the same inline content are indexed alike, every word
/// at the same position.
pub proof fn lemma_quotes_index_like_paragraphs(block: u32, content: Vec<Inline>, level: u8)
    ensures
        block_words(block, Block::BlockQuote(content)) == block_words(block, Block::Paragraph(content)),
        block_words(block, Block::Heading { level, content }) == block_words(block, Block::Paragraph(content)),
{
}

/// Index keys for words: each word with its key, as the trie stores it.
pub open spec fn keyed(words: Seq<(Seq<char>, TextPos)>) -> Seq<(Seq<char>, TextPos)> {
    Seq::new(words.len(), |i: int| (word_key(words[i].0), words[i].1))
}

proof fn lemma_keyed_concat(a: Seq<(Seq<char>, TextPos)>, b: Seq<(Seq<char>, TextPos)>)
    ensures
        keyed(a + b) == keyed(a) + keyed(b),
{
    assert(keyed(a + b) =~= keyed(a) + keyed(b));
}

/// The decimal digits of `n`.
fn decimal_chars(n: usize) -> (r: Vec<char>)
    ensures
        r@ == decimal(n as nat),
    decreases n,
{
    let digits: [char; 10] = ['0', '1', '2', '3', '4', '5', '6', '7', '8', '9'];
    assert(forall|d: int| 0 <= d < 10 ==> #[trigger] digits@[d] == digit_char(d as nat));
    if n < 10 {
        let mut v: Vec<char> = Vec::new();
        v.push(digits[n]);
        assert(v@ =~= seq![digit_char(n as nat)]);
        v
    } else {
        let mut v = decimal_chars(n / 10);
        v.push(digits[n % 10]);
        v
    }
}

/// Reads the words of one block into a search index.
struct WordIndexer {
    block: u32,
    offset: u32,
    start: u32,
    word: Vec<char>,
}

impl WordIndexer {
    spec fn state(&self) -> IndexState {
        IndexState { offset: self.offset, start: self.start, word: self.word@ }
    }

    /// End the current word: index its suffixes.
    fn flush(&mut self, trie: &mut SearchTrie<TextPos>)
        requires
            old(trie).wf(),
        ensures
            final(trie).wf(),
            final(self).block == old(self).block,
            final(self).state() == flush_step(old(self).block, old(self).state()).0,
            final(trie).entries() == old(trie).entries() + keyed(flush_step(old(self).block, old(self).state()).1),
    {
        let ghost e0 = trie.entries();
        let ghost all = word_entries(self.block, self.start, self.word@);
        let n: usize = if self.word.len() < 64 { self.word.len() } else { 64 };
        let mut k: usize = 0;
        assert(all.take(0) =~= Seq::<(Seq<char>, TextPos)>::empty());
        assert(e0 + keyed(Seq::<(Seq<char>, TextPos)>::empty()) =~= e0);
        while k < n
            invariant
                trie.wf(),
                k <= n,
                n == all.len(),
                n <= self.word@.len(),
                all == word_entries(self.block, self.start, self.word@),
                trie.entries() == e0 + keyed(all.take(k as int)),
            decreases n - k,
        {
            let (_, tail) = self.word.as_slice().split_at(k);
            let pos = TextPos { block: self.block, offset: saturating_add_u32(self.start, k as u32) };
            trie.insert_chars(tail, pos);
            proof {
                assert(tail@ =~= self.word@.subrange(k as int, self.word@.len() as int));
                assert(all[k as int] == (tail@, pos));
                assert(all.take(k + 1) =~= all.take(k as int).push(all[k as int]));
                assert(keyed(all.take(k + 1)) =~= keyed(all.take(k as int)).push((word_key(tail@), pos)));
            }
            k = k + 1;
        }
        assert(all.take(n as int) =~= all);
        self.word.clear();
        assert(self.word@ =~= Seq::<char>::empty());
    }

    /// Read one character; `recorded` when it takes up a position.
    fn character(&mut self, trie: &mut SearchTrie<TextPos>, c: char, recorded: bool)
        requires
            old(trie).wf(),
        ensures
            final(trie).wf(),
            final(self).block == old(self).block,
            final(self).state() == char_step(old(self).block, old(self).state(), c, recorded).0,
            final(trie).entries() == old(trie).entries() + keyed(char_step(old(self).block, old(self).state(), c, recorded).1),
    {
        if is_alphanumeric(c) || c == '_' {
            if self.word.len() == 0 {
                self.start = self.offset;
            }
            self.word.push(c);
            assert(keyed(Seq::<(Seq<char>, TextPos)>::empty()) =~= Seq::<(Seq<char>, TextPos)>::empty());
            assert(trie.entries() =~= trie.entries() + Seq::<(Seq<char>, TextPos)>::empty());
        } else {
            self.flush(trie);
        }
        if recorded {
            self.offset = saturating_add_u32(self.offset, 1);
        }
    }

    /// Read the characters `cs`, line breaks taking up no position.
    fn read_chars(&mut self, trie: &mut SearchTrie<TextPos>, cs: &[char])
        requires
            old(trie).wf(),
        ensures
            final(trie).wf(),
            final(self).block == old(self).block,
            final(self).state() == text_run(old(self).block, old(self).state(), cs@).0,
            final(trie).entries() == old(trie).entries() + keyed(text_run(old(self).block, old(self).state(), cs@).1),
    {
        let ghost st0 = self.state();
        let ghost e0 = trie.entries();
        assert(cs@.take(0) =~= Seq::<char>::empty());
        assert(e0 + keyed(Seq::<(Seq<char>, TextPos)>::empty()) =~= e0);
        let mut i: usize = 0;
        while i < cs.len()
            invariant
                trie.wf(),
                i <= cs.len(),
                self.block == old(self).block,
                st0 == old(self).state(),
                e0 == old(trie).entries(),
                self.state() == text_run(self.block, st0, cs@.take(i as int)).0,
                trie.entries() == e0 + keyed(text_run(self.block, st0, cs@.take(i as int)).1),
            decreases cs.len() - i,
        {
            let c = cs[i];
            let ghost before = text_run(self.block, st0, cs@.take(i as int));
            self.character(trie, c, c != '\n');
            proof {
                assert(cs@.take(i + 1).drop_last() =~= cs@.take(i as int));
                assert(cs@.take(i + 1).last() == c);
                let step = char_step(self.block, before.0, c, c != '\n');
                lemma_keyed_concat(before.1, step.1);
                assert(trie.entries() =~= e0 + keyed(before.1 + step.1));
            }
            i = i + 1;
        }
        assert(cs@.take(cs.len() as int) =~= cs@);
    }

    /// Read the characters of `t`.
    fn read_text(&mut self, trie: &mut SearchTrie<TextPos>, t: &String)
        requires
            old(trie).wf(),
        ensures
            final(trie).wf(),
            final(self).block == old(self).block,
            final(self).state() == text_run(old(self).block, old(self).state(), t@).0,
            final(trie).entries() == old(trie).entries() + keyed(text_run(old(self).block, old(self).state(), t@).1),
    {
        let cs = crate::text::str_chars(t.as_str());
        self.read_chars(trie, cs.as_slice());
    }

    /// Read inline content.
    fn inline(&mut self, trie: &mut SearchTrie<TextPos>, p: &Inline)
        requires
            old(trie).wf(),
        ensures
            final(trie).wf(),
            final(self).block == old(self).block,
            final(self).state() == inline_run(old(self).block, old(self).state(), *p).0,
            final(trie).entries() == old(trie).entries() + keyed(inline_run(old(self).block, old(self).state(), *p).1),
        decreases *p,
    {
        match p {
            Inline::Text(t) => self.read_text(trie, t),
            Inline::Code(t) => self.read_text(trie, t),
            Inline::Math { .. } => {
                self.flush(trie);
                self.offset = saturating_add_u32(self.offset, 1);
            },
            Inline::Emphasis(c) => self.inlines(trie, c.as_slice()),
            Inline::Strong(c) => self.inlines(trie, c.as_slice()),
            Inline::Link { label, .. } => self.inlines(trie, label.as_slice()),
            Inline::SoftBreak => self.character(trie, ' ', true),
            Inline::HardBreak => self.character(trie, '\n', false),
        }
    }

    /// Read a sequence of inline content.
    fn inlines(&mut self, trie: &mut SearchTrie<TextPos>, ps: &[Inline])
        requires
            old(trie).wf(),
        ensures
            final(trie).wf(),
            final(self).block == old(self).block,
            final(self).state() == inlines_run(old(self).block, old(self).state(), ps@).0,
            final(trie).entries() == old(trie).entries() + keyed(inlines_run(old(self).block, old(self).state(), ps@).1),
        decreases ps@,
    {
        let ghost st0 = self.state();
        let ghost e0 = trie.entries();
        let mut i: usize = 0;
        assert(ps@.take(0) =~= Seq::<Inline>::empty());
        assert(e0 + keyed(Seq::<(Seq<char>, TextPos)>::empty()) =~= e0);
        while i < ps.len()
            invariant
                trie.wf(),
                i <= ps.len(),
                self.block == old(self).block,
                st0 == old(self).state(),
                e0 == old(trie).entries(),
                self.state() == inlines_run(self.block, st0, ps@.take(i as int)).0,
                trie.entries() == e0 + keyed(inlines_run(self.block, st0, ps@.take(i as int)).1),
            decreases ps.len() - i,
        {
            let ghost before = inlines_run(self.block, st0, ps@.take(i as int));
            self.inline(trie, &ps[i]);
            proof {
                assert(ps@.take(i + 1).drop_last() =~= ps@.take(i as int));
                assert(ps@.take(i + 1).last() == ps@[i as int]);
                let step = inline_run(self.block, before.0, ps@[i as int]);
                lemma_keyed_concat(before.1, step.1);
                assert(trie.entries() =~= e0 + keyed(before.1 + step.1));
            }
            i = i + 1;
        }
        assert(ps@.take(ps.len() as int) =~= ps@);
    }

    /// Read `items` as list items or table cells with their markers.
    fn items(&mut self, trie: &mut SearchTrie<TextPos>, items: &[Vec<Inline>], m: Marker)
        requires
            old(trie).wf(),
            m matches Marker::Number(start) ==> items@.len() == 0 || start + items@.len() - 1 <= usize::MAX,
        ensures
            final(trie).wf(),
            final(self).block == old(self).block,
            final(self).state() == items_run(old(self).block, old(self).state(), items@, m, items@.len() as int).0,
            final(trie).entries() == old(trie).entries()
                + keyed(items_run(old(self).block, old(self).state(), items@, m, items@.len() as int).1),
    {
        let ghost st0 = self.state();
        let ghost e0 = trie.entries();
        assert(e0 + keyed(Seq::<(Seq<char>, TextPos)>::empty()) =~= e0);
        let mut k: usize = 0;
        while k < items.len()
            invariant
                trie.wf(),
                k <= items.len(),
                self.block == old(self).block,
                st0 == old(self).state(),
                e0 == old(trie).entries(),
                m matches Marker::Number(start) ==> items@.len() == 0 || start + items@.len() - 1 <= usize::MAX,
                self.state() == items_run(self.block, st0, items@, m, k as int).0,
                trie.entries() == e0 + keyed(items_run(self.block, st0, items@, m, k as int).1),
            decreases items.len() - k,
        {
            let ghost before = items_run(self.block, st0, items@, m, k as int);
            let marker = marker_chars(m, k);
            self.read_chars(trie, marker.as_slice());
            let ghost r1 = text_run(self.block, before.0, marker@);
            self.inlines(trie, items[k].as_slice());
            let ghost r2 = inlines_run(self.block, r1.0, items@[k as int]@);
            self.flush(trie);
            proof {
                let r3 = flush_step(self.block, r2.0);
                lemma_keyed_concat(before.1, r1.1);
                lemma_keyed_concat(before.1 + r1.1, r2.1);
                lemma_keyed_concat(before.1 + r1.1 + r2.1, r3.1);
                assert(before.1 + (r1.1 + r2.1 + r3.1) =~= before.1 + r1.1 + r2.1 + r3.1);
                assert(trie.entries() =~= e0 + keyed(before.1 + (r1.1 + r2.1 + r3.1)));
            }
            k = k + 1;
        }
    }

    /// Read the cells of table rows, row by row.
    fn rows(&mut self, trie: &mut SearchTrie<TextPos>, rows: &[Vec<Vec<Inline>>])
        requires
            old(trie).wf(),
        ensures
            final(trie).wf(),
            final(self).block == old(self).block,
            final(self).state() == rows_run(old(self).block, old(self).state(), rows@, rows@.len() as int).0,
            final(trie).entries() == old(trie).entries()
                + keyed(rows_run(old(self).block, old(self).state(), rows@, rows@.len() as int).1),
    {
        let ghost st0 = self.state();
        let ghost e0 = trie.entries();
        assert(e0 + keyed(Seq::<(Seq<char>, TextPos)>::empty()) =~= e0);
        let mut k: usize = 0;
        while k < rows.len()
            invariant
                trie.wf(),
                k <= rows.len(),
                self.block == old(self).block,
                st0 == old(self).state(),
                e0 == old(trie).entries(),
                self.state() == rows_run(self.block, st0, rows@, k as int).0,
                trie.entries() == e0 + keyed(rows_run(self.block, st0, rows@, k as int).1),
            decreases rows.len() - k,
        {
            let ghost before = rows_run(self.block, st0, rows@, k as int);
            self.items(trie, rows[k].as_slice(), Marker::Nothing);
            proof {
                let row = rows@[k as int]@;
                let step = items_run(self.block, before.0, row, Marker::Nothing, row.len() as int);
                lemma_keyed_concat(before.1, step.1);
                assert(trie.entries() =~= e0 + keyed(before.1 + step.1));
            }
            k = k + 1;
        }
    }
}

/// The marker text before item `k`.
fn marker_chars(m: Marker, k: usize) -> (r: Vec<char>)
    requires
        m matches Marker::Number(start) ==> start + k <= usize::MAX,
    ensures
        r@ == marker_text(m, k as int),
{
    match m {
        Marker::Bullet => {
            let v = vec!['*', ' '];
            assert(v@ =~= seq!['*', ' ']);
            v
        },
        Marker::Number(start) => {
            let mut v = decimal_chars(start + k);
            v.push('.');
            v.push(' ');
            assert(v@ =~= decimal((start + k) as nat) + seq!['.', ' ']);
            v
        },
        Marker::Nothing => {
            let v: Vec<char> = Vec::new();
            assert(v@ =~= Seq::<char>::empty());
            v
        },
    }
}

/// Every ordered list numbers its items within `usize`.
pub open spec fn numbers_fit(b: Block) -> bool {
    b matches Block::OrderedList { start, items } ==> items@.len() == 0 || list_start(start) + items@.len() - 1 <= usize::MAX
}

/// Index the words of block number `block`: every word, together with its
/// suffixes (up to 64), at the position where it starts. List items read
/// with their markers (`* `, or the item number and `. `), and each list item
/// and table cell ends a word.
pub fn index_block(trie: &mut SearchTrie<TextPos>, block: u32, node: &Block)
    requires
        old(trie).wf(),
        numbers_fit(*node),
    ensures
        final(trie).wf(),
        final(trie).entries() == old(trie).entries() + keyed(block_words(block, *node)),
{
    let ghost e0 = trie.entries();
    let mut w = WordIndexer { block, offset: 0, start: 0, word: Vec::new() };
    assert(w.state() =~= index_start());
    match node {
        Block::Heading { content, .. } => w.inlines(trie, content.as_slice()),
        Block::Paragraph(c) => w.inlines(trie, c.as_slice()),
        Block::BlockQuote(c) => w.inlines(trie, c.as_slice()),
        Block::CodeBlock { text, .. } => w.read_text(trie, text),
        Block::UnorderedList(items) => w.items(trie, items.as_slice(), Marker::Bullet),
        Block::OrderedList { start, items } => w.items(trie, items.as_slice(), Marker::Number(*start as usize)),
        Block::Table { headers, rows } => {
            w.items(trie, headers.as_slice(), Marker::Nothing);
            let ghost h = items_run(block, index_start(), headers@, Marker::Nothing, headers@.len() as int);
            w.rows(trie, rows.as_slice());
            proof {
                let r = rows_run(block, h.0, rows@, rows@.len() as int);
                lemma_keyed_concat(h.1, r.1);
                assert(trie.entries() =~= e0 + keyed(h.1 + r.1));
            }
        },
        Block::ThematicBreak => {
            assert(trie.entries() =~= e0 + keyed(Seq::<(Seq<char>, TextPos)>::empty()));
        },
    }
    let ghost body = body_run(block, *node);
    w.flush(trie);
    proof {
        lemma_keyed_concat(body.1, flush_step(block, body.0).1);
        assert(trie.entries() =~= e0 + keyed(body.1 + flush_step(block, body.0).1));
    }
}

/// The words of the first `n` blocks of a document, block by block; block
/// `k` is numbered `k` (as a `u32`).
pub open spec fn document_words(blocks: Seq<Block>, n: int) -> Seq<(Seq<char>, TextPos)>
    decreases n,
{
    if n <= 0 {
        Seq::empty()
    } else {
        document_words(blocks, n - 1) + block_words((n - 1) as u32, blocks[n - 1])
    }
}

/// Clear the index and index every block of the document, numbering blocks
/// from 0.
pub fn rebuild_search_index(trie: &mut SearchTrie<TextPos>, blocks: &[Block])
    requires
        old(trie).wf(),
        forall|k: int| 0 <= k < blocks@.len() ==> numbers_fit(#[trigger] blocks@[k]),
    ensures
        final(trie).wf(),
        final(trie).entries() == keyed(document_words(blocks@, blocks@.len() as int)),
{
    trie.clear();
    let mut k: usize = 0;
    assert(keyed(Seq::<(Seq<char>, TextPos)>::empty()) =~= Seq::<(Seq<char>, TextPos)>::empty());
    while k < blocks.len()
        invariant
            trie.wf(),
            k <= blocks.len(),
            forall|j: int| 0 <= j < blocks@.len() ==> numbers_fit(#[trigger] blocks@[j]),
            trie.entries() == keyed(document_words(blocks@, k as int)),
        decreases blocks.len() - k,
    {
        assert(numbers_fit(blocks@[k as int]));
        index_block(trie, k as u32, &blocks[k]);
        proof {
            lemma_keyed_concat(document_words(blocks@, k as int), block_words(k as u32, blocks@[k as int]));
        }
        k = k + 1;
    }
}

/// Wraps `String::push`: appends `c`.
#[verifier::external_body]
pub(crate) fn push_char(s: &mut String, c: char)
    ensures
        final(s)@ == old(s)@.push(c),
{
    s.push(c);
}

/// Split text into the small pieces a simulated stream delivers, from
/// character `i` on with `tok` read so far: a piece ends after white space,
/// or once it holds 8 bytes or more; the last piece ends with the text.
pub open spec fn stream_chunks(s: Seq<char>, i: int, tok: Seq<char>) -> Seq<Seq<char>>
    decreases s.len() - i,
{
    if i < 0 || i >= s.len() {
        if tok.len() > 0 {
            seq![tok]
        } else {
            Seq::empty()
        }
    } else {
        let t = tok.push(s[i]);
        if unicode_white_space(s[i]) || encode_utf8(t).len() >= 8 {
            seq![t] + stream_chunks(s, i + 1, Seq::empty())
        } else {
            stream_chunks(s, i + 1, t)
        }
    }
}

/// The pieces of a streamed text join back into the text, and none is empty.
pub proof fn lemma_stream_chunks_join(s: Seq<char>, i: int, tok: Seq<char>)
    requires
        0 <= i <= s.len(),
    ensures
        stream_chunks(s, i, tok).flatten() == tok + s.subrange(i, s.len() as int),
        forall|k: int| 0 <= k < stream_chunks(s, i, tok).len() ==> #[trigger] stream_chunks(s, i, tok)[k].len() > 0,
    decreases s.len() - i,
{
    if i >= s.len() {
        if tok.len() > 0 {
            seq![tok].lemma_flatten_one_element();
        }
        assert(tok + s.subrange(i, s.len() as int) =~= tok);
    } else {
        let t = tok.push(s[i]);
        if unicode_white_space(s[i]) || encode_utf8(t).len() >= 8 {
            lemma_stream_chunks_join(s, i + 1, Seq::empty());
            let rest = stream_chunks(s, i + 1, Seq::empty());
            let all = seq![t] + rest;
            assert(all.first() == t);
            assert(all.drop_first() =~= rest);
            assert(rest.flatten() =~= s.subrange(i + 1, s.len() as int));
            assert(tok + s.subrange(i, s.len() as int) =~= t + s.subrange(i + 1, s.len() as int));
            assert forall|k: int| 0 <= k < all.len() implies #[trigger] all[k].len() > 0 by {
                if k > 0 {
                    assert(all[k] == rest[k - 1]);
                }
            }
        } else {
            lemma_stream_chunks_join(s, i + 1, t);
            assert(tok + s.subrange(i, s.len() as int) =~= t + s.subrange(i + 1, s.len() as int));
        }
    }
}

/// The pieces in which a simulated stream delivers `source`.
pub fn stream_tokens(source: &str) -> (r: Vec<String>)
    ensures
        r@.len() == stream_chunks(source@, 0, Seq::empty()).len(),
        forall|k: int| 0 <= k < r@.len() ==> #[trigger] r@[k]@ == stream_chunks(source@, 0, Seq::empty())[k],
{
    let chars = crate::text::str_chars(source);
    let mut out: Vec<String> = Vec::new();
    let mut token = String::new();
    let mut i: usize = 0;
    while i < chars.len()
        invariant
            chars@ == source@,
            i <= chars.len(),
            ({
                let done = out@.map_values(|t: String| t@);
                stream_chunks(source@, 0, Seq::empty()) == done + stream_chunks(source@, i as int, token@)
            }),
        decreases chars.len() - i,
    {
        let c = chars[i];
        let ghost done = out@.map_values(|t: String| t@);
        let ghost old_tok = token@;
        push_char(&mut token, c);
        let ws = is_whitespace(c);
        let len = token.as_str().as_bytes().len();
        proof {
            assert(source@[i as int] == c);
            assert(token@ == old_tok.push(c));
            assert(len == encode_utf8(token@).len());
            assert(stream_chunks(source@, i as int, old_tok) == if ws || len >= 8 {
                seq![token@] + stream_chunks(source@, i + 1, Seq::empty())
            } else {
                stream_chunks(source@, i + 1, token@)
            });
        }
        if ws || len >= 8 {
            let ghost t = token@;
            out.push(token);
            token = String::new();
            proof {
                assert(out@.map_values(|t: String| t@) =~= done.push(t));
                assert(done + (seq![t] + stream_chunks(source@, i + 1, Seq::empty()))
                    =~= done.push(t) + stream_chunks(source@, i + 1, Seq::empty()));
                assert(token@ =~= Seq::<char>::empty());
            }
        }
        i = i + 1;
    }
    let ghost done = out@.map_values(|t: String| t@);
    if token.as_str().as_bytes().len() > 0 {
        let ghost t = token@;
        out.push(token);
        proof {
            assert(t.len() > 0) by {
                if t.len() == 0 {
                    assert(encode_utf8(t) =~= Seq::<u8>::empty()) by {
                        vstd::utf8::encode_utf8_valid_utf8(t);
                        assert(t =~= Seq::<char>::empty());
                    }
                }
            }
            assert(out@.map_values(|t: String| t@) =~= done.push(t));
            assert(stream_chunks(source@, chars@.len() as int, t) == seq![t]);
            assert(done + seq![t] =~= done.push(t));
        }
    } else {
        proof {
            if token@.len() > 0 {
                assert(encode_utf8(token@).len() > 0) by {
                    lemma_encode_nonempty(token@);
                }
            }
            assert(done + Seq::<Seq<char>>::empty() =~= done);
        }
    }
    let ghost fin = out@.map_values(|t: String| t@);
    assert(fin.len() == out@.len());
    assert(stream_chunks(source@, 0, Seq::empty()) == fin);
    assert forall|k: int| 0 <= k < out@.len() implies #[trigger] out@[k]@ == stream_chunks(source@, 0, Seq::empty())[k] by {
        assert(fin[k] == out@[k]@);
    }
    out
}

/// A non-empty character sequence encodes to at least one byte.
proof fn lemma_encode_nonempty(t: Seq<char>)
    requires
        t.len() > 0,
    ensures
        encode_utf8(t).len() > 0,
{
    vstd::utf8::encode_utf8_decode_utf8(t);
    vstd::utf8::encode_utf8_valid_utf8(t);
    if encode_utf8(t).len() == 0 {
        assert(vstd::utf8::decode_utf8(encode_utf8(t)) =~= Seq::<char>::empty());
    }
}

/// Spaces and tabs at the end of `out` removed.
pub open spec fn trim_blanks(out: Seq<char>) -> Seq<char>
    decreases out.len(),
{
    if out.len() > 0 && (out.last() == ' ' || out.last() == '\t') {
        trim_blanks(out.drop_last())
    } else {
        out
    }
}

/// The delimiter of a formula in plain text.
pub open spec fn math_delimiter(display: bool) -> Seq<char> {
    if display { seq!['$', '$'] } else { seq!['$'] }
}

/// `out` followed by the plain text of one inline node: text and code as
/// written, a formula between `$` (or `$$` for display math), emphasis and
/// link labels as the plain text of their content, a hard break as a line
/// break, and a soft break as a space; when `trim` is set, a soft break also
/// drops the spaces and tabs that end `out`.
pub open spec fn plain_step(out: Seq<char>, node: Inline, trim: bool) -> Seq<char>
    decreases node,
{
    match node {
        Inline::Text(t) => out + t@,
        Inline::Code(t) => out + t@,
        Inline::Math { source, display } => out + math_delimiter(display) + source@ + math_delimiter(display),
        Inline::Emphasis(c) => out + plain_of(c@, trim),
        Inline::Strong(c) => out + plain_of(c@, trim),
        Inline::Link { label, .. } => out + plain_of(label@, trim),
        Inline::SoftBreak => (if trim { trim_blanks(out) } else { out }).push(' '),
        Inline::HardBreak => out.push('\n'),
    }
}

/// The plain text of a sequence of inline nodes.
pub open spec fn plain_of(nodes: Seq<Inline>, trim: bool) -> Seq<char>
    decreases nodes,
{
    if nodes.len() == 0 {
        Seq::empty()
    } else {
        plain_step(plain_of(nodes.drop_last(), trim), nodes.last(), trim)
    }
}

/// Wraps `String::from_iter` over characters: the string of `chars`.
#[verifier::external_body]
fn string_of_chars(chars: &Vec<char>) -> (r: String)
    ensures
        r@ == chars@,
{
    chars.iter().collect()
}

/// Append `t` to `out`.
fn push_chars(out: &mut Vec<char>, t: &Vec<char>)
    ensures
        final(out)@ == old(out)@ + t@,
{
    let mut i: usize = 0;
    while i < t.len()
        invariant
            i <= t.len(),
            out@ == old(out)@ + t@.take(i as int),
        decreases t.len() - i,
    {
        out.push(t[i]);
        i = i + 1;
        assert(out@ =~= old(out)@ + t@.take(i as int));
    }
    assert(t@.take(t.len() as int) =~= t@);
}

/// Append the characters of `t` to `out`.
fn push_str_chars(out: &mut Vec<char>, t: &str)
    ensures
        final(out)@ == old(out)@ + t@,
{
    let cs = crate::text::str_chars(t);
    push_chars(out, &cs);
}

/// Append the plain text of `node` to `out`.
fn plain_node(out: &mut Vec<char>, node: &Inline, trim: bool)
    ensures
        final(out)@ == plain_step(old(out)@, *node, trim),
    decreases *node,
{
    match node {
        Inline::Text(t) => push_str_chars(out, t.as_str()),
        Inline::Code(t) => push_str_chars(out, t.as_str()),
        Inline::Math { source, display } => {
            out.push('$');
            if *display {
                out.push('$');
            }
            push_str_chars(out, source.as_str());
            out.push('$');
            if *display {
                out.push('$');
            }
            assert(out@ =~= old(out)@ + math_delimiter(*display) + source@ + math_delimiter(*display));
        },
        Inline::Emphasis(c) => {
            let inner = plain_chars(c.as_slice(), trim);
            push_chars(out, &inner);
        },
        Inline::Strong(c) => {
            let inner = plain_chars(c.as_slice(), trim);
            push_chars(out, &inner);
        },
        Inline::Link { label, .. } => {
            let inner = plain_chars(label.as_slice(), trim);
            push_chars(out, &inner);
        },
        Inline::SoftBreak => {
            if trim {
                while out.len() > 0 && (out[out.len() - 1] == ' ' || out[out.len() - 1] == '\t')
                    invariant
                        trim_blanks(old(out)@) == trim_blanks(out@),
                    decreases out.len(),
                {
                    let ghost before = out@;
                    out.pop();
                    assert(out@ =~= before.drop_last());
                }
            }
            out.push(' ');
        },
        Inline::HardBreak => out.push('\n'),
    }
}

/// The plain text of `nodes`, as characters.
fn plain_chars(nodes: &[Inline], trim: bool) -> (r: Vec<char>)
    ensures
        r@ == plain_of(nodes@, trim),
    decreases nodes@,
{
    let mut out: Vec<char> = Vec::new();
    let mut i: usize = 0;
    assert(nodes@.take(0) =~= Seq::<Inline>::empty());
    while i < nodes.len()
        invariant
            i <= nodes.len(),
            out@ == plain_of(nodes@.take(i as int), trim),
        decreases nodes.len() - i,
    {
        plain_node(&mut out, &nodes[i], trim);
        assert(nodes@.take(i + 1).drop_last() =~= nodes@.take(i as int));
        assert(nodes@.take(i + 1).last() == nodes@[i as int]);
        i = i + 1;
    }
    assert(nodes@.take(nodes.len() as int) =~= nodes@);
    out
}

/// The plain text of inline content, as the GPU renderer lays it out: a soft
/// break becomes one space in place of the spaces and tabs before it.
pub fn plain(nodes: &[Inline]) -> (r: String)
    ensures
        r@ == plain_of(nodes@, true),
{
    string_of_chars(&plain_chars(nodes, true))
}

/// The plain text of inline content, as the canvas renderer draws it: a soft
/// break becomes a space.
pub fn plain_for_canvas(nodes: &[Inline]) -> (r: String)
    ensures
        r@ == plain_of(nodes@, false),
{
    string_of_chars(&plain_chars(nodes, false))
}

/// The text a laid-out cell shows: one character, or a run of them.
pub enum CellText {
    Char(char),
    Span(String),
}

/// The first character a cell shows.
pub open spec fn spec_first_char(t: CellText) -> Option<char> {
    match t {
        CellText::Char(c) => Some(c),
        CellText::Span(s) => if s@.len() > 0 { Some(s@[0]) } else { None },
    }
}

impl CellText {
    /// The first character this cell shows.
    pub fn first_char(&self) -> (r: Option<char>)
        ensures
            r == spec_first_char(*self),
    {
        match self {
            CellText::Char(c) => Some(*c),
            CellText::Span(s) => {
                let cs = crate::text::str_chars(s.as_str());
                if cs.len() > 0 {
                    Some(cs[0])
                } else {
                    None
                }
            },
        }
    }
}

/// A laid-out cell of document text: where it stands in the document and
/// what it shows.
pub struct TextCell {
    pub pos: TextPos,
    pub text: CellText,
}

/// How much a double or triple click selects.
#[derive(Clone, Copy, Debug, PartialEq, Eq, Structural)]
pub enum SelectionGranularity {
    Character,
    Word,
    Block,
}

/// A cell that is part of a word: it starts with a letter, digit or `_`.
pub open spec fn is_word_cell(c: TextCell) -> bool {
    spec_first_char(c.text) matches Some(ch) && is_word_char(ch)
}

/// Cell `k` continues a unit in `block`: same block, and a word cell when
/// `words` is set.
pub open spec fn joins_unit(cells: Seq<TextCell>, k: int, block: u32, words: bool) -> bool {
    cells[k].pos.block == block && (!words || is_word_cell(cells[k]))
}

/// The first cell of the unit that reaches back from cell `s`.
pub open spec fn unit_start(cells: Seq<TextCell>, s: int, block: u32, words: bool) -> int
    decreases s,
{
    if s > 0 && joins_unit(cells, s - 1, block, words) {
        unit_start(cells, s - 1, block, words)
    } else {
        s
    }
}

/// The last cell of the unit that reaches forward from cell `e`.
pub open spec fn unit_end(cells: Seq<TextCell>, e: int, block: u32, words: bool) -> int
    decreases cells.len() - e,
{
    if 0 <= e && e + 1 < cells.len() && joins_unit(cells, e + 1, block, words) {
        unit_end(cells, e + 1, block, words)
    } else {
        e
    }
}

/// The first and last cell selected around cell `index`: the cell itself
/// for a character; the run of word cells of its block around it for a word
/// (just the cell when it is not part of a word); every cell of its block
/// for a block.
pub open spec fn unit_bounds(cells: Seq<TextCell>, index: int, g: SelectionGranularity) -> (int, int) {
    let block = cells[index].pos.block;
    match g {
        SelectionGranularity::Character => (index, index),
        SelectionGranularity::Word => if is_word_cell(cells[index]) {
            (unit_start(cells, index, block, true), unit_end(cells, index, block, true))
        } else {
            (index, index)
        },
        SelectionGranularity::Block => (unit_start(cells, index, block, false), unit_end(cells, index, block, false)),
    }
}

/// The selection a click of granularity `g` makes on cell `index`: from the
/// first selected cell to just after the last.
pub open spec fn spec_selection_unit(cells: Seq<TextCell>, index: int, g: SelectionGranularity) -> (TextPos, TextPos) {
    let (a, b) = unit_bounds(cells, index, g);
    (cells[a].pos, cells[b].pos.spec_after())
}

proof fn lemma_unit_bounds(cells: Seq<TextCell>, s: int, e: int, block: u32, words: bool)
    requires
        0 <= s < cells.len(),
        0 <= e < cells.len(),
    ensures
        0 <= unit_start(cells, s, block, words) <= s,
        e <= unit_end(cells, e, block, words) < cells.len(),
    decreases s + cells.len() - e,
{
    if s > 0 && joins_unit(cells, s - 1, block, words) {
        lemma_unit_bounds(cells, s - 1, e, block, words);
    } else if e + 1 < cells.len() && joins_unit(cells, e + 1, block, words) {
        lemma_unit_bounds(cells, s, e + 1, block, words);
    }
}

/// Whatever the granularity, the cells a click selects form a stretch of
/// the laid-out cells that contains the clicked cell.
pub proof fn lemma_selection_unit_contains_click(cells: Seq<TextCell>, index: int, g: SelectionGranularity)
    requires
        0 <= index < cells.len(),
    ensures
        0 <= unit_bounds(cells, index, g).0 <= index <= unit_bounds(cells, index, g).1 < cells.len(),
        spec_selection_unit(cells, index, g).0 == cells[unit_bounds(cells, index, g).0].pos,
{
    lemma_unit_bounds(cells, index, index, cells[index].pos.block, true);
    lemma_unit_bounds(cells, index, index, cells[index].pos.block, false);
}

/// Cell `k` is a word cell.
fn word_cell(cells: &[TextCell], k: usize) -> (r: bool)
    requires
        k < cells.len(),
    ensures
        r == is_word_cell(cells@[k as int]),
{
    match cells[k].text.first_char() {
        Some(c) => is_alphanumeric(c) || c == '_',
        None => false,
    }
}

/// The selection a click of granularity `g` makes on cell `index`.
pub fn selection_unit_at(cells: &[TextCell], index: usize, g: SelectionGranularity) -> (r: (TextPos, TextPos))
    requires
        index < cells.len(),
    ensures
        r == spec_selection_unit(cells@, index as int, g),
{
    let block = cells[index].pos.block;
    let words = match g {
        SelectionGranularity::Character => {
            return (cells[index].pos, cells[index].pos.after());
        },
        SelectionGranularity::Word => {
            if !word_cell(cells, index) {
                return (cells[index].pos, cells[index].pos.after());
            }
            true
        },
        SelectionGranularity::Block => false,
    };
    let mut start = index;
    while start > 0 && cells[start - 1].pos.block == block && (!words || word_cell(cells, start - 1))
        invariant
            start <= index < cells.len(),
            block == cells@[index as int].pos.block,
            unit_start(cells@, index as int, block, words) == unit_start(cells@, start as int, block, words),
        decreases start,
    {
        start = start - 1;
    }
    let mut end = index;
    while end + 1 < cells.len() && cells[end + 1].pos.block == block && (!words || word_cell(cells, end + 1))
        invariant
            index <= end < cells.len(),
            block == cells@[index as int].pos.block,
            unit_end(cells@, index as int, block, words) == unit_end(cells@, end as int, block, words),
        decreases cells.len() - end,
    {
        end = end + 1;
    }
    (cells[start].pos, cells[end].pos.after())
}

} // verus!
