//! The text form of a language profile ("language pack"): a header line, then
//! one tab-separated line per word-list section, plus `flags` and
//! `comment_styles` lines. `#` lines and empty lines are ignored.
use vstd::prelude::*;
use vstd::string::StringSliceAdditionalSpecFns;
use vstd::utf8::encode_utf8;
use crate::bytes::{find_byte, find_byte_from, lemma_find_byte, NL, CR, TAB, HASH};
use crate::language::{
    Language, ProfileModel, NUM_SECTIONS, NUM_FLAGS, NUM_NAMED_FLAGS, STYLE_BRACE, SECTION_ALIASES,
    spec_section_name, spec_flag_name, spec_style_name, section_name, flag_name, style_name,
};
use crate::shell::bytes_equal;
use crate::scan::slice_range;

verus! {

/// Why a language pack was refused.
#[derive(Clone, Copy, Debug, PartialEq, Eq, Structural)]
pub enum PackError {
    /// The first line is not the pack header.
    InvalidHeader,
    /// An `aliases` line lists no alias.
    NoAliases,
    /// A line (numbered from 1) has an unknown key.
    UnknownField(usize),
    /// A `comment_styles` line names an unknown style.
    UnknownCommentStyle,
    /// A `flags` line names an unknown flag.
    UnknownFlag,
    /// The pack has no `aliases` line.
    MissingAliases,
    /// An alias of the pack is already taken by another registered profile.
    AliasTaken,
}

/// A profile being read from a pack.
pub struct PackModel {
    pub words: Seq<Seq<Seq<u8>>>,
    pub flags: Seq<bool>,
    pub saw_aliases: bool,
}

/// The state before the first line.
pub open spec fn empty_pack() -> PackModel {
    PackModel {
        words: Seq::new(NUM_SECTIONS as nat, |i: int| Seq::<Seq<u8>>::empty()),
        flags: Seq::new(NUM_FLAGS as nat, |i: int| false),
        saw_aliases: false,
    }
}

/// The line starting at `i` (without its line break; a `\r` before the
/// `\n` is dropped too) and where the next line starts.
pub open spec fn spec_line_at(s: Seq<u8>, i: int) -> (Seq<u8>, int) {
    let n = find_byte(s, i, NL);
    if n >= s.len() {
        (s.subrange(i, s.len() as int), s.len() as int)
    } else {
        let l = s.subrange(i, n);
        (if l.len() > 0 && l.last() == CR { l.drop_last() } else { l }, n + 1)
    }
}

/// The key of a line: its text up to the first tab.
pub open spec fn spec_key(l: Seq<u8>) -> Seq<u8> {
    l.subrange(0, find_byte(l, 0, TAB))
}

/// The non-empty tab-separated fields of `l` from `i` on.
pub open spec fn spec_values_from(l: Seq<u8>, i: int) -> Seq<Seq<u8>>
    decreases l.len() + 1 - i,
{
    if i < 0 || i > l.len() {
        Seq::empty()
    } else {
        let t = find_byte(l, i, TAB);
        let f = l.subrange(i, if t < l.len() { t } else { l.len() as int });
        let rest = if t >= l.len() {
            Seq::empty()
        } else {
            proof {
                lemma_find_byte(l, i, TAB);
            }
            spec_values_from(l, t + 1)
        };
        if f.len() > 0 {
            seq![f] + rest
        } else {
            rest
        }
    }
}

/// The non-empty values after the key of a line.
pub open spec fn spec_values(l: Seq<u8>) -> Seq<Seq<u8>> {
    let t = find_byte(l, 0, TAB);
    if t >= l.len() {
        Seq::empty()
    } else {
        spec_values_from(l, t + 1)
    }
}

/// The first word-list section at or after `k` named `key`.
pub open spec fn spec_section_of(key: Seq<u8>, k: int) -> Option<int>
    decreases NUM_SECTIONS - k,
{
    if k < 0 || k >= NUM_SECTIONS {
        None
    } else if encode_utf8(spec_section_name(k)) == key {
        Some(k)
    } else {
        spec_section_of(key, k + 1)
    }
}

/// The first feature flag at or after `k` named `key`.
pub open spec fn spec_flag_of(key: Seq<u8>, k: int) -> Option<int>
    decreases NUM_NAMED_FLAGS - k,
{
    if k < 0 || k >= NUM_NAMED_FLAGS {
        None
    } else if encode_utf8(spec_flag_name(k)) == key {
        Some(k)
    } else {
        spec_flag_of(key, k + 1)
    }
}

/// The first comment style at or after `k` named `key`.
pub open spec fn spec_style_of(key: Seq<u8>, k: int) -> Option<int>
    decreases 6 - k,
{
    if k < 0 || k >= 6 {
        None
    } else if encode_utf8(spec_style_name(k)) == key {
        Some(k)
    } else {
        spec_style_of(key, k + 1)
    }
}

/// Set the flags named by `values[j..]`, or `None` when one is unknown.
pub open spec fn spec_set_flags(flags: Seq<bool>, values: Seq<Seq<u8>>, j: int) -> Option<Seq<bool>>
    decreases values.len() - j,
{
    if j < 0 || j >= values.len() {
        Some(flags)
    } else {
        match spec_flag_of(values[j], 0) {
            None => None,
            Some(f) => spec_set_flags(flags.update(f, true), values, j + 1),
        }
    }
}

/// The comment styles named by `values[j..]` added to `bits`, or `None` when
/// one is unknown.
pub open spec fn spec_style_bits(values: Seq<Seq<u8>>, j: int, bits: Seq<bool>) -> Option<Seq<bool>>
    decreases values.len() - j,
{
    if j < 0 || j >= values.len() {
        Some(bits)
    } else {
        match spec_style_of(values[j], 0) {
            None => None,
            Some(b) => spec_style_bits(values, j + 1, bits.update(b, true)),
        }
    }
}

/// `flags` with the comment-style flags replaced by `bits`.
pub open spec fn spec_with_styles(flags: Seq<bool>, bits: Seq<bool>) -> Seq<bool> {
    Seq::new(flags.len(), |i: int| if STYLE_BRACE <= i { bits[i - STYLE_BRACE] } else { flags[i] })
}

/// The profile after one line (numbered `line_no` from 1).
pub open spec fn spec_apply_line(m: PackModel, line: Seq<u8>, line_no: int) -> Result<PackModel, PackError> {
    if line.len() == 0 || line[0] == HASH {
        Ok(m)
    } else {
        let key = spec_key(line);
        let values = spec_values(line);
        if key == encode_utf8("comment_styles"@) {
            match spec_style_bits(values, 0, Seq::new(6, |i: int| false)) {
                None => Err(PackError::UnknownCommentStyle),
                Some(bits) => Ok(PackModel { flags: spec_with_styles(m.flags, bits), ..m }),
            }
        } else if key == encode_utf8("flags"@) {
            match spec_set_flags(m.flags, values, 0) {
                None => Err(PackError::UnknownFlag),
                Some(f) => Ok(PackModel { flags: f, ..m }),
            }
        } else {
            match spec_section_of(key, 0) {
                None => Err(PackError::UnknownField(line_no as usize)),
                Some(k) => if k == SECTION_ALIASES && values.len() == 0 {
                    Err(PackError::NoAliases)
                } else {
                    Ok(PackModel { words: m.words.update(k, values), saw_aliases: m.saw_aliases || k == SECTION_ALIASES, ..m })
                },
            }
        }
    }
}

/// The profile after the lines from byte `i` on (the first of them numbered `line_no`).
pub open spec fn spec_parse_from(s: Seq<u8>, i: int, line_no: int, m: PackModel) -> Result<PackModel, PackError>
    decreases s.len() - i,
{
    if i < 0 || i >= s.len() {
        Ok(m)
    } else {
        let (line, next) = spec_line_at(s, i);
        match spec_apply_line(m, line, line_no) {
            Err(e) => Err(e),
            Ok(m2) => if next > i {
                spec_parse_from(s, next, line_no + 1, m2)
            } else {
                Ok(m2)
            },
        }
    }
}

/// The pack header line.
pub open spec fn pack_header() -> Seq<u8> {
    encode_utf8("STREAMDOWN_LANGPACK\t1"@)
}

/// The profile a pack describes, or why it is refused.
pub open spec fn spec_parse_pack(s: Seq<u8>) -> Result<ProfileModel, PackError> {
    if s.len() == 0 || spec_line_at(s, 0).0 != pack_header() {
        Err(PackError::InvalidHeader)
    } else {
        match spec_parse_from(s, spec_line_at(s, 0).1, 2, empty_pack()) {
            Err(e) => Err(e),
            Ok(m) => if !m.saw_aliases {
                Err(PackError::MissingAliases)
            } else {
                Ok(ProfileModel { words: m.words, flags: m.flags })
            },
        }
    }
}

/// The line starting at `i < s.len()`: its byte range and where the next line starts.
pub fn line_at(s: &[u8], i: usize) -> (r: (usize, usize, usize))
    requires
        i < s.len(),
    ensures
        i <= r.0 <= r.1 <= s.len(),
        i < r.2 <= s.len(),
        (s@.subrange(r.0 as int, r.1 as int), r.2 as int) == spec_line_at(s@, i as int),
{
    let n = find_byte_from(s, i, NL);
    proof {
        lemma_find_byte(s@, i as int, NL);
    }
    if n >= s.len() {
        (i, s.len(), s.len())
    } else if n > i && s[n - 1] == CR {
        let ghost l = s@.subrange(i as int, n as int);
        assert(l.drop_last() =~= s@.subrange(i as int, n - 1));
        (i, n - 1, n + 1)
    } else {
        (i, n, n + 1)
    }
}

/// The non-empty values after the key of `line`.
pub fn values(line: &[u8]) -> (r: Vec<Vec<u8>>)
    ensures
        r.deep_view() == spec_values(line@),
{
    let t = find_byte_from(line, 0, TAB);
    let mut out: Vec<Vec<u8>> = Vec::new();
    if t >= line.len() {
        assert(out.deep_view() =~= Seq::<Seq<u8>>::empty());
        return out;
    }
    proof {
        lemma_find_byte(line@, 0, TAB);
    }
    let mut i = t + 1;
    assert(out.deep_view() =~= Seq::<Seq<u8>>::empty());
    while i <= line.len()
        invariant
            0 < i <= line.len() + 1,
            spec_values(line@) == out.deep_view() + spec_values_from(line@, i as int),
        decreases line.len() + 1 - i,
    {
        let e = find_byte_from(line, i, TAB);
        proof {
            lemma_find_byte(line@, i as int, TAB);
        }
        let f_end = if e < line.len() { e } else { line.len() };
        let ghost before = out.deep_view();
        if f_end > i {
            let f = vstd::slice::slice_to_vec(slice_range(line, i, f_end));
            assert(f.deep_view() =~= f@);
            out.push(f);
            assert(out.deep_view() =~= before.push(line@.subrange(i as int, f_end as int)));
            assert(spec_values_from(line@, i as int) == seq![line@.subrange(i as int, f_end as int)]
                + (if e >= line.len() { Seq::empty() } else { spec_values_from(line@, e + 1) }));
            assert(before + spec_values_from(line@, i as int) =~= out.deep_view()
                + (if e >= line.len() { Seq::<Seq<u8>>::empty() } else { spec_values_from(line@, e + 1) }));
        }
        if e >= line.len() {
            assert(out.deep_view() + spec_values_from(line@, line.len() + 1) =~= out.deep_view());
            return out;
        }
        i = e + 1;
    }
    assert(spec_values_from(line@, i as int) =~= Seq::<Seq<u8>>::empty());
    assert(out.deep_view() + Seq::<Seq<u8>>::empty() =~= out.deep_view());
    out
}

fn name_is(key: &[u8], name: &str) -> (r: bool)
    ensures
        r == (key@ == name.spec_bytes()),
{
    bytes_equal(key, name.as_bytes())
}

/// The word-list section named `key`.
pub fn section_of(key: &[u8]) -> (r: Option<usize>)
    ensures
        r matches Some(k) ==> k < NUM_SECTIONS && spec_section_of(key@, 0) == Some(k as int),
        r is None ==> spec_section_of(key@, 0) is None,
{
    let mut k: usize = 0;
    while k < NUM_SECTIONS
        invariant
            k <= NUM_SECTIONS,
            spec_section_of(key@, 0) == spec_section_of(key@, k as int),
        decreases NUM_SECTIONS - k,
    {
        if name_is(key, section_name(k)) {
            return Some(k);
        }
        k = k + 1;
    }
    None
}

/// The feature flag named `key`.
pub fn flag_of(key: &[u8]) -> (r: Option<usize>)
    ensures
        r matches Some(k) ==> k < NUM_NAMED_FLAGS && spec_flag_of(key@, 0) == Some(k as int),
        r is None ==> spec_flag_of(key@, 0) is None,
{
    let mut k: usize = 0;
    while k < NUM_NAMED_FLAGS
        invariant
            k <= NUM_NAMED_FLAGS,
            spec_flag_of(key@, 0) == spec_flag_of(key@, k as int),
        decreases NUM_NAMED_FLAGS - k,
    {
        if name_is(key, flag_name(k)) {
            return Some(k);
        }
        k = k + 1;
    }
    None
}

/// The comment style named `key`.
pub fn style_of(key: &[u8]) -> (r: Option<usize>)
    ensures
        r matches Some(k) ==> k < 6 && spec_style_of(key@, 0) == Some(k as int),
        r is None ==> spec_style_of(key@, 0) is None,
{
    let mut k: usize = 0;
    while k < 6
        invariant
            k <= 6,
            spec_style_of(key@, 0) == spec_style_of(key@, k as int),
        decreases 6 - k,
    {
        if name_is(key, style_name(k)) {
            return Some(k);
        }
        k = k + 1;
    }
    None
}

/// A profile being read from a pack.
pub struct PackBuilder {
    words: Vec<Vec<Vec<u8>>>,
    flags: Vec<bool>,
    saw_aliases: bool,
}

impl View for PackBuilder {
    type V = PackModel;

    closed spec fn view(&self) -> PackModel {
        PackModel { words: self.words.deep_view(), flags: self.flags@, saw_aliases: self.saw_aliases }
    }
}

impl PackBuilder {
    /// Every section and flag is present.
    pub closed spec fn wf(&self) -> bool {
        self.words@.len() == NUM_SECTIONS && self.flags@.len() == NUM_FLAGS
    }

    /// No words, no flags, no aliases yet.
    pub fn new() -> (r: Self)
        ensures
            r.wf(),
            r@ == empty_pack(),
    {
        let mut words: Vec<Vec<Vec<u8>>> = Vec::new();
        let mut k: usize = 0;
        while k < NUM_SECTIONS
            invariant
                k <= NUM_SECTIONS,
                words@.len() == k,
                forall|j: int| 0 <= j < k ==> (#[trigger] words@[j])@.len() == 0,
            decreases NUM_SECTIONS - k,
        {
            words.push(Vec::new());
            k = k + 1;
        }
        let mut flags: Vec<bool> = Vec::new();
        let mut f: usize = 0;
        while f < NUM_FLAGS
            invariant
                f <= NUM_FLAGS,
                flags@.len() == f,
                forall|j: int| 0 <= j < f ==> !flags@[j],
            decreases NUM_FLAGS - f,
        {
            flags.push(false);
            f = f + 1;
        }
        let r = PackBuilder { words, flags, saw_aliases: false };
        assert(r@.words =~= empty_pack().words) by {
            assert forall|j: int| 0 <= j < NUM_SECTIONS implies r@.words[j] =~= empty_pack().words[j] by {
                assert(words@[j]@.len() == 0);
            }
        }
        assert(r@.flags =~= empty_pack().flags);
        r
    }

    fn set_flags(&mut self, values: &Vec<Vec<u8>>) -> (ok: bool)
        requires
            old(self).wf(),
        ensures
            final(self).wf(),
            final(self).words == old(self).words,
            final(self).saw_aliases == old(self).saw_aliases,
            ok ==> spec_set_flags(old(self).flags@, values.deep_view(), 0) == Some(final(self).flags@),
            !ok ==> spec_set_flags(old(self).flags@, values.deep_view(), 0) is None,
    {
        let ghost dv = values.deep_view();
        let mut j: usize = 0;
        while j < values.len()
            invariant
                self.wf(),
                self.words == old(self).words,
                self.saw_aliases == old(self).saw_aliases,
                j <= values.len(),
                dv == values.deep_view(),
                dv.len() == values.len(),
                spec_set_flags(old(self).flags@, dv, 0) == spec_set_flags(self.flags@, dv, j as int),
            decreases values.len() - j,
        {
            assert(dv[j as int] == values@[j as int]@);
            match flag_of(values[j].as_slice()) {
                None => {
                    return false;
                },
                Some(f) => {
                    self.flags.set(f, true);
                },
            }
            j = j + 1;
        }
        true
    }

    fn set_styles(&mut self, values: &Vec<Vec<u8>>) -> (ok: bool)
        requires
            old(self).wf(),
        ensures
            final(self).wf(),
            final(self).words == old(self).words,
            final(self).saw_aliases == old(self).saw_aliases,
            ok ==> (spec_style_bits(values.deep_view(), 0, Seq::new(6, |i: int| false)) matches Some(bits)
                && final(self).flags@ == spec_with_styles(old(self).flags@, bits)),
            !ok ==> spec_style_bits(values.deep_view(), 0, Seq::new(6, |i: int| false)) is None,
    {
        let ghost dv = values.deep_view();
        let mut bits: Vec<bool> = vec![false, false, false, false, false, false];
        assert(bits@ =~= Seq::new(6, |i: int| false));
        let mut j: usize = 0;
        while j < values.len()
            invariant
                self.wf(),
                self.words == old(self).words,
                self.saw_aliases == old(self).saw_aliases,
                self.flags@ == old(self).flags@,
                j <= values.len(),
                bits@.len() == 6,
                dv == values.deep_view(),
                dv.len() == values.len(),
                spec_style_bits(dv, 0, Seq::new(6, |i: int| false)) == spec_style_bits(dv, j as int, bits@),
            decreases values.len() - j,
        {
            assert(dv[j as int] == values@[j as int]@);
            match style_of(values[j].as_slice()) {
                None => {
                    return false;
                },
                Some(b) => {
                    bits.set(b, true);
                },
            }
            j = j + 1;
        }
        let mut k: usize = 0;
        while k < 6
            invariant
                k <= 6,
                bits@.len() == 6,
                self.wf(),
                self.words == old(self).words,
                self.saw_aliases == old(self).saw_aliases,
                forall|i: int| 0 <= i < STYLE_BRACE ==> self.flags@[i] == old(self).flags@[i],
                forall|i: int| STYLE_BRACE <= i < STYLE_BRACE + k ==> self.flags@[i] == bits@[i - STYLE_BRACE],
                forall|i: int| STYLE_BRACE + k <= i < NUM_FLAGS ==> self.flags@[i] == old(self).flags@[i],
            decreases 6 - k,
        {
            self.flags.set(STYLE_BRACE + k, bits[k]);
            k = k + 1;
        }
        assert(self.flags@ =~= spec_with_styles(old(self).flags@, bits@));
        true
    }

    /// Apply one line, numbered `line_no` from 1.
    pub fn apply_line(&mut self, line: &[u8], line_no: usize) -> (r: Result<(), PackError>)
        requires
            old(self).wf(),
        ensures
            final(self).wf(),
            r is Ok ==> spec_apply_line(old(self)@, line@, line_no as int) == Ok::<PackModel, PackError>(final(self)@),
            r matches Err(e) ==> spec_apply_line(old(self)@, line@, line_no as int) == Err::<PackModel, PackError>(e),
    {
        if line.len() == 0 || line[0] == HASH {
            return Ok(());
        }
        let t = find_byte_from(line, 0, TAB);
        proof {
            lemma_find_byte(line@, 0, TAB);
        }
        let key = slice_range(line, 0, t);
        assert(key@ == spec_key(line@));
        let vals = values(line);
        if name_is(key, "comment_styles") {
            if self.set_styles(&vals) {
                return Ok(());
            }
            return Err(PackError::UnknownCommentStyle);
        }
        if name_is(key, "flags") {
            if self.set_flags(&vals) {
                return Ok(());
            }
            return Err(PackError::UnknownFlag);
        }
        match section_of(key) {
            None => Err(PackError::UnknownField(line_no)),
            Some(k) => {
                if k == SECTION_ALIASES && vals.len() == 0 {
                    return Err(PackError::NoAliases);
                }
                let ghost old_words = self.words.deep_view();
                let ghost vdv = vals.deep_view();
                self.words.set(k, vals);
                assert(self.words.deep_view() =~= old_words.update(k as int, vdv));
                if k == SECTION_ALIASES {
                    self.saw_aliases = true;
                }
                Ok(())
            },
        }
    }

    /// The finished profile.
    pub fn finish(self) -> (r: Language)
        requires
            self.wf(),
        ensures
            r.wf(),
            r@ == (ProfileModel { words: self@.words, flags: self@.flags }),
    {
        Language { words: self.words, flags: self.flags }
    }
}

/// Read a language pack.
pub fn parse_pack(source: &str) -> (r: Result<Language, PackError>)
    ensures
        match r {
            Ok(l) => l.wf() && spec_parse_pack(source.spec_bytes()) == Ok::<ProfileModel, PackError>(l@),
            Err(e) => spec_parse_pack(source.spec_bytes()) == Err::<ProfileModel, PackError>(e),
        },
{
    let s = source.as_bytes();
    if s.len() == 0 {
        return Err(PackError::InvalidHeader);
    }
    let (h0, h1, first) = line_at(s, 0);
    if !bytes_equal(slice_range(s, h0, h1), "STREAMDOWN_LANGPACK\t1".as_bytes()) {
        return Err(PackError::InvalidHeader);
    }
    let mut b = PackBuilder::new();
    let mut i = first;
    let mut line_no: usize = 2;
    assert(spec_line_at(s@, 0).0 == pack_header());
    while i < s.len()
        invariant
            s@ == source.spec_bytes(),
            s.len() > 0,
            spec_line_at(s@, 0).0 == pack_header(),
            spec_line_at(s@, 0).1 == first,
            b.wf(),
            0 < i <= s.len(),
            line_no <= i + 1,
            spec_parse_from(s@, first as int, 2, empty_pack()) == spec_parse_from(s@, i as int, line_no as int, b@),
        decreases s.len() - i,
    {
        let (l0, l1, next) = line_at(s, i);
        let line = slice_range(s, l0, l1);
        let ghost before = b@;
        assert(spec_line_at(s@, i as int) == (line@, next as int));
        match b.apply_line(line, line_no) {
            Err(e) => {
                assert(spec_parse_from(s@, i as int, line_no as int, before) == Err::<PackModel, PackError>(e));
                return Err(e);
            },
            Ok(()) => {},
        }
        assert(spec_parse_from(s@, i as int, line_no as int, before) == spec_parse_from(s@, next as int, line_no + 1, b@));
        if next < s.len() {
            line_no = line_no + 1;
        }
        i = next;
    }
    if !b.saw_aliases {
        return Err(PackError::MissingAliases);
    }
    Ok(b.finish())
}

} // verus!
