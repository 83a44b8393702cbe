//! Case-insensitive prefix index over words of the rendered document. Every
//! trie node keeps the positions of the words that run through it, so a lookup
//! costs the query length plus the number of results.
use std::collections::HashMap;
use vstd::prelude::*;

verus! {

broadcast use vstd::std_specs::hash::group_hash_axioms;

/// What `char::to_lowercase` yields for one character (Unicode lower-case
/// mapping, possibly several characters).
pub uninterp spec fn lowercase_of(c: char) -> Seq<char>;

/// Unicode `White_Space`, the characters `char::is_whitespace` and
/// `str::trim` treat as white space: the controls U+0009 to U+000D, the
/// space, U+0085, the no-break space U+00A0, U+1680, U+2000 to U+200A, the
/// line and paragraph separators U+2028 and U+2029, U+202F, U+205F and
/// U+3000.
pub open spec fn unicode_white_space(c: char) -> bool {
    let v = c as u32;
    ||| 0x09 <= v <= 0x0d
    ||| v == 0x20
    ||| v == 0x85
    ||| v == 0xa0
    ||| v == 0x1680
    ||| 0x2000 <= v <= 0x200a
    ||| v == 0x2028
    ||| v == 0x2029
    ||| v == 0x202f
    ||| v == 0x205f
    ||| v == 0x3000
}

/// The ASCII lower case of `c`: `A` to `Z` become `a` to `z`, any other
/// character stays as it is.
pub open spec fn ascii_lower_char(c: char) -> char {
    if 'A' <= c && c <= 'Z' {
        ((c as u32) + 32) as char
    } else {
        c
    }
}

/// Wraps `char::to_lowercase`: the characters of the lower-case mapping of
/// `c`; an ASCII character maps to its ASCII lower case alone.
#[verifier::external_body]
fn lowercase_chars(c: char) -> (r: Vec<char>)
    ensures
        r@ == lowercase_of(c),
        (c as u32) < 0x80 ==> r@ == seq![ascii_lower_char(c)],
{
    c.to_lowercase().collect()
}

/// Whether `c` is white space (`char::is_whitespace`).
pub(crate) fn is_whitespace(c: char) -> (r: bool)
    ensures
        r == unicode_white_space(c),
{
    let v = c as u32;
    (0x09 <= v && v <= 0x0d) || v == 0x20 || v == 0x85 || v == 0xa0 || v == 0x1680 || (0x2000 <= v && v <= 0x200a)
        || v == 0x2028 || v == 0x2029 || v == 0x202f || v == 0x205f || v == 0x3000
}

/// The lower-case expansion of a character sequence, character by character.
pub open spec fn lower_chars(s: Seq<char>) -> Seq<char>
    decreases s.len(),
{
    if s.len() == 0 {
        Seq::empty()
    } else {
        lower_chars(s.drop_last()) + lowercase_of(s.last())
    }
}

/// Index of the first character that is not white space, or `s.len()`.
pub open spec fn trim_start_index(s: Seq<char>, from: int) -> int
    decreases s.len() - from,
{
    if 0 <= from < s.len() && unicode_white_space(s[from]) {
        trim_start_index(s, from + 1)
    } else {
        from
    }
}

/// One past the last character that is not white space, never below `low`.
pub open spec fn trim_end_index(s: Seq<char>, low: int, to: int) -> int
    decreases to - low,
{
    if low < to && to <= s.len() && unicode_white_space(s[to - 1]) {
        trim_end_index(s, low, to - 1)
    } else {
        to
    }
}

/// `str::trim`: leading and trailing white space removed.
pub open spec fn trimmed(s: Seq<char>) -> Seq<char> {
    let a = trim_start_index(s, 0);
    s.subrange(a, trim_end_index(s, a, s.len() as int))
}

/// The key under which a word is indexed: its first 128 characters, lower-cased.
pub open spec fn word_key(word: Seq<char>) -> Seq<char> {
    lower_chars(word.take(if word.len() < 128 { word.len() as int } else { 128 }))
}

/// The key a query looks up: the trimmed query, lower-cased.
pub open spec fn query_key(query: Seq<char>) -> Seq<char> {
    lower_chars(trimmed(query))
}

/// `q` is a non-empty prefix of `k`.
pub open spec fn is_key_prefix(q: Seq<char>, k: Seq<char>) -> bool {
    0 < q.len() <= k.len() && k.take(q.len() as int) == q
}

/// Positions of the indexed entries whose key starts with `q`, in insertion order.
pub open spec fn matches_of<P>(entries: Seq<(Seq<char>, P)>, q: Seq<char>) -> Seq<P>
    decreases entries.len(),
{
    if entries.len() == 0 {
        Seq::empty()
    } else {
        let rest = matches_of(entries.drop_last(), q);
        if is_key_prefix(q, entries.last().0) {
            rest.push(entries.last().1)
        } else {
            rest
        }
    }
}

/// Search finds what was indexed: a position is among the matches of `q`
/// exactly when some indexed entry with that position has a key starting
/// with `q`; entries indexed later come later among the matches.
pub proof fn lemma_matches_are_indexed_words<P>(entries: Seq<(Seq<char>, P)>, q: Seq<char>, pos: P)
    ensures
        matches_of(entries, q).contains(pos) <==> exists|i: int|
            0 <= i < entries.len() && #[trigger] entries[i].1 == pos && is_key_prefix(q, entries[i].0),
        matches_of(entries, q).len() <= entries.len(),
    decreases entries.len(),
{
    if entries.len() > 0 {
        let init = entries.drop_last();
        lemma_matches_are_indexed_words(init, q, pos);
        let rest = matches_of(init, q);
        if exists|i: int| 0 <= i < init.len() && #[trigger] init[i].1 == pos && is_key_prefix(q, init[i].0) {
            let i = choose|i: int| 0 <= i < init.len() && #[trigger] init[i].1 == pos && is_key_prefix(q, init[i].0);
            assert(entries[i] == init[i]);
            let k = choose|k: int| 0 <= k < rest.len() && rest[k] == pos;
            if is_key_prefix(q, entries.last().0) {
                assert(rest.push(entries.last().1)[k] == pos);
            }
        }
        if matches_of(entries, q).contains(pos) {
            if is_key_prefix(q, entries.last().0) {
                let k = choose|k: int| 0 <= k < rest.push(entries.last().1).len() && rest.push(entries.last().1)[k] == pos;
                if k == rest.len() {
                    assert(entries[entries.len() - 1].1 == pos);
                } else {
                    assert(rest[k] == pos);
                    assert(rest.contains(pos));
                    let i = choose|i: int| 0 <= i < init.len() && #[trigger] init[i].1 == pos && is_key_prefix(q, init[i].0);
                    assert(entries[i] == init[i]);
                }
            } else {
                let i = choose|i: int| 0 <= i < init.len() && #[trigger] init[i].1 == pos && is_key_prefix(q, init[i].0);
                assert(entries[i] == init[i]);
            }
        }
        if exists|i: int| 0 <= i < entries.len() && #[trigger] entries[i].1 == pos && is_key_prefix(q, entries[i].0) {
            let i = choose|i: int| 0 <= i < entries.len() && #[trigger] entries[i].1 == pos && is_key_prefix(q, entries[i].0);
            if i == entries.len() - 1 {
                let m = rest.push(entries.last().1);
                assert(m[rest.len() as int] == pos);
            } else {
                assert(init[i] == entries[i]);
                let k = choose|k: int| 0 <= k < rest.len() && rest[k] == pos;
                if is_key_prefix(q, entries.last().0) {
                    assert(rest.push(entries.last().1)[k] == pos);
                }
            }
        }
    }
}

/// The entries a trie holds after indexing `words` in order, each a word
/// and its position, starting from an empty trie.
pub open spec fn indexed<P>(words: Seq<(Seq<char>, P)>) -> Seq<(Seq<char>, P)> {
    words.map_values(|wp: (Seq<char>, P)| (word_key(wp.0), wp.1))
}

/// Indexing one more word extends the indexed entries by its entry.
pub proof fn lemma_indexed_push<P>(words: Seq<(Seq<char>, P)>, word: Seq<char>, position: P)
    ensures
        indexed(words.push((word, position))) == indexed(words).push((word_key(word), position)),
{
    assert(indexed(words.push((word, position))) =~= indexed(words).push((word_key(word), position)));
}

/// Search over a whole history of inserts: after indexing `words` in order
/// into an empty trie, searching `query` gives the positions of exactly the
/// words whose key starts with the query's key, in insertion order, repeats
/// kept; a blank query gives nothing.
pub proof fn lemma_search_history<P>(words: Seq<(Seq<char>, P)>, query: Seq<char>)
    ensures
        matches_of(indexed(words), query_key(query))
            == words.filter(|wp: (Seq<char>, P)| is_key_prefix(query_key(query), word_key(wp.0)))
                .map_values(|wp: (Seq<char>, P)| wp.1),
        query_key(query).len() == 0 ==> matches_of(indexed(words), query_key(query)) == Seq::<P>::empty(),
    decreases words.len(),
{
    let q = query_key(query);
    let pred = |wp: (Seq<char>, P)| is_key_prefix(q, word_key(wp.0));
    reveal(Seq::filter);
    if words.len() > 0 {
        let init = words.drop_last();
        lemma_search_history(init, query);
        assert(indexed(words).drop_last() =~= indexed(init));
        assert(indexed(words).last() == (word_key(words.last().0), words.last().1));
        let f = init.filter(pred);
        if pred(words.last()) {
            assert(words.filter(pred) == f.push(words.last()));
            assert(f.push(words.last()).map_values(|wp: (Seq<char>, P)| wp.1)
                =~= f.map_values(|wp: (Seq<char>, P)| wp.1).push(words.last().1));
        } else {
            assert(words.filter(pred) == f);
        }
    } else {
        assert(indexed(words) =~= Seq::<(Seq<char>, P)>::empty());
        assert(words.filter(pred) =~= Seq::<(Seq<char>, P)>::empty());
    }
    if q.len() == 0 {
        lemma_matches_none(indexed(words), q);
    }
}

/// The hash-map key of a trie edge labelled `c`.
pub open spec fn char_key(c: char) -> u32 {
    c as u32
}

struct TrieNode<P> {
    children: HashMap<u32, usize>,
    matches: Vec<P>,
}

/// Case-insensitive prefix index from words to positions.
pub struct SearchTrie<P> {
    nodes: Vec<TrieNode<P>>,
    /// The key path that leads to each node.
    paths: Ghost<Seq<Seq<char>>>,
    /// The node reached by each key path.
    index: Ghost<Map<Seq<char>, int>>,
    /// Every `(key, position)` inserted since the trie was created or cleared.
    entries: Ghost<Seq<(Seq<char>, P)>>,
}

impl<P: Copy> SearchTrie<P> {
    /// The indexed entries: the key and position of each insertion, in order.
    pub closed spec fn entries(&self) -> Seq<(Seq<char>, P)> {
        self.entries@
    }

    /// The trie's structure agrees with its entries.
    pub closed spec fn wf(&self) -> bool {
        let n = self.nodes@.len();
        let paths = self.paths@;
        let index = self.index@;
        &&& n == paths.len()
        &&& n >= 1
        &&& paths[0] == Seq::<char>::empty()
        &&& forall|i: int| 0 <= i < n ==> #[trigger] index.contains_key(paths[i]) && index[paths[i]] == i
        &&& forall|p: Seq<char>| #[trigger] index.contains_key(p) ==> 0 <= index[p] < n && paths[index[p]] == p
        &&& forall|i: int, c: char| 0 <= i < n && #[trigger] self.nodes@[i].children@.contains_key(char_key(c))
            ==> index.contains_key(paths[i].push(c)) && self.nodes@[i].children@[char_key(c)] == index[paths[i].push(c)]
        &&& forall|i: int, c: char| 0 <= i < n && #[trigger] index.contains_key(paths[i].push(c))
            ==> self.nodes@[i].children@.contains_key(char_key(c))
        &&& forall|p: Seq<char>, j: int| #[trigger] index.contains_key(p) && 0 <= j <= p.len()
            ==> #[trigger] index.contains_key(p.take(j))
        &&& forall|e: int, j: int| 0 <= e < self.entries@.len() && 0 <= j <= self.entries@[e].0.len()
            ==> #[trigger] index.contains_key(#[trigger] self.entries@[e].0.take(j))
        &&& forall|i: int| 0 <= i < n ==> #[trigger] self.nodes@[i].matches@ == matches_of(self.entries@, paths[i])
    }
}


/// Appending an entry adds its position to exactly the prefixes of its key.
proof fn lemma_matches_push<P>(entries: Seq<(Seq<char>, P)>, k: Seq<char>, pos: P, q: Seq<char>)
    ensures
        matches_of(entries.push((k, pos)), q) == if is_key_prefix(q, k) {
            matches_of(entries, q).push(pos)
        } else {
            matches_of(entries, q)
        },
{
    assert(entries.push((k, pos)).drop_last() =~= entries);
}

/// No entry has prefix `q`, so nothing matches it.
proof fn lemma_matches_none<P>(entries: Seq<(Seq<char>, P)>, q: Seq<char>)
    requires
        forall|e: int| 0 <= e < entries.len() ==> !is_key_prefix(q, #[trigger] entries[e].0),
    ensures
        matches_of(entries, q) == Seq::<P>::empty(),
    decreases entries.len(),
{
    if entries.len() > 0 {
        let d = entries.drop_last();
        assert forall|e: int| 0 <= e < d.len() implies !is_key_prefix(q, #[trigger] d[e].0) by {
            assert(d[e] == entries[e]);
        }
        lemma_matches_none(d, q);
        assert(entries.last() == entries[entries.len() - 1]);
    }
}

/// Lower-casing a sequence one character further.
proof fn lemma_lower_step(s: Seq<char>, a: int, i: int)
    requires
        0 <= a <= i < s.len(),
    ensures
        lower_chars(s.subrange(a, i + 1)) == lower_chars(s.subrange(a, i)) + lowercase_of(s[i]),
{
    assert(s.subrange(a, i + 1).drop_last() =~= s.subrange(a, i));
}

/// Every ASCII character of `s` lower-cases to its ASCII lower case alone.
pub open spec fn ascii_lowered(s: Seq<char>) -> bool {
    forall|i: int| 0 <= i < s.len() && (#[trigger] s[i] as u32) < 0x80 ==> lowercase_of(s[i]) == seq![ascii_lower_char(s[i])]
}

/// Lower-casing text made of ASCII characters only is ASCII lower-casing,
/// character by character.
pub proof fn lemma_ascii_lower_chars(s: Seq<char>)
    requires
        ascii_lowered(s),
        forall|i: int| 0 <= i < s.len() ==> (#[trigger] s[i] as u32) < 0x80,
    ensures
        lower_chars(s) == s.map_values(|c: char| ascii_lower_char(c)),
    decreases s.len(),
{
    if s.len() > 0 {
        let init = s.drop_last();
        assert forall|i: int| 0 <= i < init.len() && (#[trigger] init[i] as u32) < 0x80 implies
            lowercase_of(init[i]) == seq![ascii_lower_char(init[i])] by {
            assert(init[i] == s[i]);
        }
        assert forall|i: int| 0 <= i < init.len() implies (#[trigger] init[i] as u32) < 0x80 by {
            assert(init[i] == s[i]);
        }
        lemma_ascii_lower_chars(init);
        assert((s[s.len() - 1] as u32) < 0x80);
        assert(s.map_values(|c: char| ascii_lower_char(c))
            =~= init.map_values(|c: char| ascii_lower_char(c)) + seq![ascii_lower_char(s.last())]);
    }
}

/// The lower-case expansion of `chars[from..to]`.
fn lower_run(chars: &[char], from: usize, to: usize) -> (r: Vec<char>)
    requires
        from <= to <= chars.len(),
    ensures
        r@ == lower_chars(chars@.subrange(from as int, to as int)),
        ascii_lowered(chars@.subrange(from as int, to as int)),
{
    let mut key: Vec<char> = Vec::new();
    let mut i: usize = from;
    assert(chars@.subrange(from as int, from as int) =~= Seq::<char>::empty());
    while i < to
        invariant
            from <= i <= to <= chars.len(),
            key@ == lower_chars(chars@.subrange(from as int, i as int)),
            ascii_lowered(chars@.subrange(from as int, i as int)),
        decreases to - i,
    {
        let lc = lowercase_chars(chars[i]);
        proof {
            lemma_lower_step(chars@, from as int, i as int);
            let prev = chars@.subrange(from as int, i as int);
            let next = chars@.subrange(from as int, i + 1);
            assert forall|k: int| 0 <= k < next.len() && (#[trigger] next[k] as u32) < 0x80 implies
                lowercase_of(next[k]) == seq![ascii_lower_char(next[k])] by {
                if k < prev.len() {
                    assert(next[k] == prev[k]);
                } else {
                    assert(next[k] == chars@[i as int]);
                }
            }
        }
        let mut j: usize = 0;
        let ghost before = key@;
        while j < lc.len()
            invariant
                j <= lc.len(),
                key@ == before + lc@.take(j as int),
            decreases lc.len() - j,
        {
            key.push(lc[j]);
            j = j + 1;
            assert(key@ =~= before + lc@.take(j as int));
        }
        assert(lc@.take(lc@.len() as int) =~= lc@);
        i = i + 1;
    }
    key
}

/// Lower-casing a shorter range gives a prefix of lower-casing a longer one.
proof fn lemma_lower_prefix(s: Seq<char>, a: int, i: int, b: int)
    requires
        0 <= a <= i <= b <= s.len(),
    ensures
        lower_chars(s.subrange(a, i)).len() <= lower_chars(s.subrange(a, b)).len(),
        lower_chars(s.subrange(a, b)).take(lower_chars(s.subrange(a, i)).len() as int)
            == lower_chars(s.subrange(a, i)),
    decreases b - i,
{
    if i < b {
        lemma_lower_prefix(s, a, i, b - 1);
        lemma_lower_step(s, a, b - 1);
        let x = lower_chars(s.subrange(a, i));
        let y = lower_chars(s.subrange(a, b - 1));
        assert((y + lowercase_of(s[b - 1])).take(x.len() as int) =~= y.take(x.len() as int));
    } else {
        assert(lower_chars(s.subrange(a, b)).take(lower_chars(s.subrange(a, b)).len() as int) =~= lower_chars(s.subrange(a, b)));
    }
}

impl<P: Copy> Default for SearchTrie<P> {
    fn default() -> (r: Self)
        ensures
            r.wf(),
            r.entries() == Seq::<(Seq<char>, P)>::empty(),
    {
        let root = TrieNode { children: HashMap::new(), matches: Vec::new() };
        let mut nodes = Vec::new();
        nodes.push(root);
        let r = SearchTrie {
            nodes,
            paths: Ghost(Seq::<Seq<char>>::empty().push(Seq::<char>::empty())),
            index: Ghost(Map::<Seq<char>, int>::empty().insert(Seq::<char>::empty(), 0)),
            entries: Ghost(Seq::empty()),
        };
        assert forall|p: Seq<char>, j: int| #[trigger] r.index@.contains_key(p) && 0 <= j <= p.len()
            implies #[trigger] r.index@.contains_key(p.take(j)) by {
            assert(p.take(j) =~= Seq::<char>::empty());
        }
        assert forall|i: int, c: char| 0 <= i < r.nodes@.len() && #[trigger] r.index@.contains_key(r.paths@[i].push(c))
            implies r.nodes@[i].children@.contains_key(char_key(c)) by {
            assert(r.paths@[i].push(c).len() == 1);
        }
        r
    }
}

impl<P: Copy> SearchTrie<P> {
    /// Remove every indexed word.
    pub fn clear(&mut self)
        ensures
            final(self).wf(),
            final(self).entries() == Seq::<(Seq<char>, P)>::empty(),
    {
        *self = Self::default();
    }

    /// Index `word` (its first 128 characters, lower-cased) at `position`.
    pub fn insert(&mut self, word: &str, position: P)
        requires
            old(self).wf(),
        ensures
            final(self).wf(),
            final(self).entries() == old(self).entries().push((word_key(word@), position)),
            ascii_lowered(word@.take(if word@.len() < 128 { word@.len() as int } else { 128 })),
    {
        let chars = crate::text::str_chars(word);
        self.insert_chars(chars.as_slice(), position);
    }

    /// Index the word made of the characters `word` at `position`.
    pub fn insert_chars(&mut self, word: &[char], position: P)
        requires
            old(self).wf(),
        ensures
            final(self).wf(),
            final(self).entries() == old(self).entries().push((word_key(word@), position)),
            ascii_lowered(word@.take(if word@.len() < 128 { word@.len() as int } else { 128 })),
    {
        let chars = word;
        let limit: usize = if chars.len() < 128 { chars.len() } else { 128 };
        let key = lower_run(chars, 0, limit);
        assert(chars@.subrange(0, limit as int) =~= word@.take(limit as int));
        let ghost k = key@;
        let ghost old_entries = self.entries@;
        assert(k == word_key(word@));

        let mut node: usize = 0;
        let mut d: usize = 0;
        assert(k.take(0) =~= Seq::<char>::empty());
        while d < key.len()
            invariant
                k == key@,
                d <= key.len(),
                self.entries@ == old_entries,
                0 <= node < self.nodes@.len(),
                self.paths@[node as int] == k.take(d as int),
                self.nodes@.len() == self.paths@.len(),
                self.nodes@.len() >= 1,
                self.paths@[0] == Seq::<char>::empty(),
                forall|x: int| 0 <= x < self.nodes@.len() ==> #[trigger] self.index@.contains_key(self.paths@[x]) && self.index@[self.paths@[x]] == x,
                forall|p: Seq<char>| #[trigger] self.index@.contains_key(p) ==> 0 <= self.index@[p] < self.nodes@.len() && self.paths@[self.index@[p]] == p,
                forall|x: int, c: char| 0 <= x < self.nodes@.len() && #[trigger] self.nodes@[x].children@.contains_key(char_key(c))
                    ==> self.index@.contains_key(self.paths@[x].push(c)) && self.nodes@[x].children@[char_key(c)] == self.index@[self.paths@[x].push(c)],
                forall|x: int, c: char| 0 <= x < self.nodes@.len() && #[trigger] self.index@.contains_key(self.paths@[x].push(c))
                    ==> self.nodes@[x].children@.contains_key(char_key(c)),
                forall|p: Seq<char>, j: int| #[trigger] self.index@.contains_key(p) && 0 <= j <= p.len()
                    ==> #[trigger] self.index@.contains_key(p.take(j)),
                forall|e: int, j: int| 0 <= e < old_entries.len() && 0 <= j <= old_entries[e].0.len()
                    ==> #[trigger] self.index@.contains_key(#[trigger] old_entries[e].0.take(j)),
                forall|j: int| 0 <= j <= d ==> #[trigger] self.index@.contains_key(k.take(j)),
                forall|x: int| 0 <= x < self.nodes@.len() ==> #[trigger] self.nodes@[x].matches@
                    == if 1 <= self.paths@[x].len() <= d && k.take(self.paths@[x].len() as int) == self.paths@[x] {
                        matches_of(old_entries, self.paths@[x]).push(position)
                    } else {
                        matches_of(old_entries, self.paths@[x])
                    },
            decreases key.len() - d,
        {
            let c = key[d];
            let code = c as u32;
            assert(code == char_key(c));
            let ghost here = k.take(d as int);
            let ghost next_path = k.take(d as int + 1);
            assert(next_path == here.push(c));
            let found = match self.nodes[node].children.get(&code) {
                Some(next) => {
                    assert(self.nodes@[node as int].children@.contains_key(char_key(c)));
                    assert(self.nodes@[node as int].children@[char_key(c)] == *next);
                    assert(self.index@.contains_key(self.paths@[node as int].push(c)));
                    assert(self.paths@[node as int].push(c) == next_path);
                    assert(self.index@[next_path] == *next);
                    assert(self.paths@[*next as int] == next_path);
                    Some(*next)
                },
                None => {
                    assert(!self.nodes@[node as int].children@.contains_key(char_key(c)));
                    None
                },
            };
            let next: usize = match found {
                Some(next) => next,
                None => {
                    // No node yet for the extended path: no earlier entry shares it.
                    assert(!self.index@.contains_key(next_path));
                    assert forall|e: int| 0 <= e < old_entries.len()
                        implies !is_key_prefix(next_path, #[trigger] old_entries[e].0) by {
                        if is_key_prefix(next_path, old_entries[e].0) {
                            assert(self.index@.contains_key(old_entries[e].0.take(next_path.len() as int)));
                        }
                    }
                    proof {
                        lemma_matches_none(old_entries, next_path);
                    }
                    let fresh = self.nodes.len();
                    let ghost idx0 = self.index@;
                    let ghost nodes0 = self.nodes@;
                    let ghost paths0 = self.paths@;
                    self.nodes.push(TrieNode { children: HashMap::new(), matches: Vec::new() });
                    self.paths = Ghost(self.paths@.push(next_path));
                    self.index = Ghost(self.index@.insert(next_path, fresh as int));
                    self.nodes[node].children.insert(code, fresh);
                    proof {
                        assert forall|x: int, cc: char| 0 <= x < self.nodes@.len() && #[trigger] self.nodes@[x].children@.contains_key(char_key(cc))
                            implies self.index@.contains_key(self.paths@[x].push(cc)) && self.nodes@[x].children@[char_key(cc)] == self.index@[self.paths@[x].push(cc)] by {
                            if x == node && char_key(cc) == code {
                                vstd::utf8::char_u32_cast(cc, code);
                                vstd::utf8::char_u32_cast(c, code);
                            }
                        }
                        assert forall|x: int, cc: char| 0 <= x < self.nodes@.len() && #[trigger] self.index@.contains_key(self.paths@[x].push(cc))
                            implies self.nodes@[x].children@.contains_key(char_key(cc)) by {
                            if self.paths@[x].push(cc) == next_path {
                                assert(self.paths@[x] =~= self.paths@[x].push(cc).drop_last());
                                assert(next_path.drop_last() =~= here);
                                assert(self.index@.contains_key(self.paths@[x]));
                                assert(x == node as int);
                                assert(self.paths@[x].push(cc).last() == cc);
                                assert(next_path.last() == c);
                                assert(cc == c);
                            } else if x < fresh {
                                assert(self.paths@[x] == paths0[x]);
                                assert(idx0.contains_key(paths0[x].push(cc)));
                                assert(nodes0[x].children@.contains_key(char_key(cc)));
                            } else if x == fresh {
                                assert(idx0.contains_key(next_path.push(cc)));
                                assert(idx0.contains_key(next_path.push(cc).take(next_path.len() as int)));
                                assert(next_path.push(cc).take(next_path.len() as int) =~= next_path);
                                assert(false);
                            }
                        }
                        assert forall|p: Seq<char>, j: int| #[trigger] self.index@.contains_key(p) && 0 <= j <= p.len()
                            implies #[trigger] self.index@.contains_key(p.take(j)) by {
                            if p == next_path {
                                assert(k.take(d as int + 1).take(j) =~= k.take(j));
                            }
                        }
                        assert forall|j: int| 0 <= j <= d + 1 implies #[trigger] self.index@.contains_key(k.take(j)) by {
                            if j == d + 1 {
                                assert(k.take(j) == next_path);
                            }
                        }
                    }
                    assert(self.paths@[fresh as int] == next_path);
                    fresh
                },
            };
            assert(self.paths@[next as int] == next_path);
            self.nodes[next].matches.push(position);
            node = next;
            d = d + 1;
            proof {
                assert forall|x: int| 0 <= x < self.nodes@.len() implies #[trigger] self.nodes@[x].matches@
                    == if 1 <= self.paths@[x].len() <= d && k.take(self.paths@[x].len() as int) == self.paths@[x] {
                        matches_of(old_entries, self.paths@[x]).push(position)
                    } else {
                        matches_of(old_entries, self.paths@[x])
                    } by {
                    let p = self.paths@[x];
                    if x == next {
                        assert(p.len() == d);
                        assert(k.take(p.len() as int) == p);
                    } else {
                        if 1 <= p.len() <= d && k.take(p.len() as int) == p {
                            assert(p.len() < d) by {
                                if p.len() == d {
                                    assert(p == next_path);
                                }
                            }
                        }
                    }
                }
            }
        }
        proof {
            assert(k.take(k.len() as int) =~= k);
            self.entries = Ghost(old_entries.push((k, position)));
            assert forall|x: int| 0 <= x < self.nodes@.len() implies #[trigger] self.nodes@[x].matches@
                == matches_of(self.entries@, self.paths@[x]) by {
                lemma_matches_push(old_entries, k, position, self.paths@[x]);
                let p = self.paths@[x];
                if is_key_prefix(p, k) {
                    assert(1 <= p.len() <= d);
                }
            }
            assert forall|e: int, j: int| 0 <= e < self.entries@.len() && 0 <= j <= self.entries@[e].0.len()
                implies #[trigger] self.index@.contains_key(#[trigger] self.entries@[e].0.take(j)) by {
                if e < old_entries.len() {
                    assert(self.entries@[e] == old_entries[e]);
                } else {
                    assert(self.entries@[e].0 == k);
                }
            }
        }
    }

    /// Positions of the indexed words that start with the trimmed query,
    /// compared without case, in insertion order; empty for a blank query.
    pub fn search(&self, query: &str) -> (r: &[P])
        requires
            self.wf(),
        ensures
            r@ == matches_of(self.entries(), query_key(query@)),
            ascii_lowered(trimmed(query@)),
    {
        let chars = crate::text::str_chars(query);
        let mut a: usize = 0;
        while a < chars.len() && is_whitespace(chars[a])
            invariant
                a <= chars.len(),
                trim_start_index(chars@, 0) == trim_start_index(chars@, a as int),
            decreases chars.len() - a,
        {
            a = a + 1;
        }
        let mut b: usize = chars.len();
        while b > a && is_whitespace(chars[b - 1])
            invariant
                a <= b <= chars.len(),
                trim_end_index(chars@, a as int, chars.len() as int) == trim_end_index(chars@, a as int, b as int),
            decreases b - a,
        {
            b = b - 1;
        }
        assert(chars@.subrange(a as int, b as int) == trimmed(query@));
        let key = lower_run(chars.as_slice(), a, b);
        let ghost q = key@;
        assert(q == query_key(query@));
        if key.len() == 0 {
            proof {
                lemma_matches_none(self.entries@, q);
                lemma_matches_none(self.entries@, Seq::<char>::empty());
                assert(self.nodes@[0].matches@ == matches_of(self.entries@, self.paths@[0]));
            }
            return self.nodes[0].matches.as_slice();
        }
        let mut node: usize = 0;
        let mut d: usize = 0;
        assert(q.take(0) =~= Seq::<char>::empty());
        while d < key.len()
            invariant
                self.wf(),
                q == key@,
                q == lower_chars(chars@.subrange(a as int, b as int)),
                q == query_key(query@),
                a <= b <= chars.len(),
                chars@.subrange(a as int, b as int) == trimmed(query@),
                ascii_lowered(chars@.subrange(a as int, b as int)),
                d <= key.len(),
                0 <= node < self.nodes@.len(),
                self.paths@[node as int] == q.take(d as int),
            decreases key.len() - d,
        {
            let c = key[d];
            let ghost p = self.paths@[node as int];
            assert(q.take(d + 1) =~= p.push(c));
            let code = c as u32;
            assert(code == char_key(c));
            match self.nodes[node].children.get(&code) {
                Some(next) => {
                    assert(self.nodes@[node as int].children@.contains_key(char_key(c)));
                    assert(self.nodes@[node as int].children@[char_key(c)] == *next);
                    assert(self.index@.contains_key(self.paths@[node as int].push(c)));
                    node = *next;
                },
                None => {
                    proof {
                        self.lemma_no_match_beyond(node as int, c, q);
                        lemma_matches_none(self.entries@, Seq::<char>::empty());
                        assert(self.nodes@[0].matches@ == matches_of(self.entries@, self.paths@[0]));
                    }
                    return self.nodes[0].matches.as_slice();
                },
            }
            d = d + 1;
        }
        assert(q.take(key.len() as int) =~= q);
        self.nodes[node].matches.as_slice()
    }

    /// When the node for `p` has no child for `c`, no entry starts with `q` if
    /// `p.push(c)` is a prefix of `q`.
    proof fn lemma_no_match_beyond(
        &self,
        node: int,
        c: char,
        q: Seq<char>,
    )
        requires
            self.wf(),
            0 <= node < self.nodes@.len(),
            !self.nodes@[node].children@.contains_key(char_key(c)),
            self.paths@[node].len() + 1 <= q.len(),
            q.take(self.paths@[node].len() as int + 1) == self.paths@[node].push(c),
        ensures
            matches_of(self.entries@, q) == Seq::<P>::empty(),
    {
        let np = self.paths@[node].push(c);
        assert(!self.index@.contains_key(np));
        assert forall|e: int| 0 <= e < self.entries@.len() implies !is_key_prefix(q, #[trigger] self.entries@[e].0) by {
            let key = self.entries@[e].0;
            if is_key_prefix(q, key) {
                assert(self.index@.contains_key(key.take(np.len() as int)));
                assert(q.take(np.len() as int) =~= np);
                assert(key.take(np.len() as int) =~= key.take(q.len() as int).take(np.len() as int));
            }
        }
        lemma_matches_none(self.entries@, q);
    }
}

} // verus!
