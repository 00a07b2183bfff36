//! Jump mode: the words on screen get jump tags, so that the cursor can jump to
//! a word by typing its tag. In the first phase, words from the cursor's line on
//! get single letters; in the second, every word longer than one byte gets a
//! two-letter tag.

use vstd::prelude::*;
use crate::distance::{advance, advanced, count_graphemes, lemma_last_line};
use crate::glob::utf8_width;
use crate::modes::{Position, SelectLineMode, SelectMode};
use crate::tag_generator::{
    advanced_index, double_tag_at, tag_after, SingleCharacterTagGenerator, TagGenerator,
};
use crate::text::{chars_of, string_from_chars};
use crate::token::{bytes_of, lemma_bytes_of_prefix};

verus! {

/// How jump mode is composed with a selection mode, so that a jump can extend a
/// selection.
pub enum SelectModeOptions {
    Unselected,
    Select(SelectMode),
    SelectLine(SelectLineMode),
}

/// A piece of a lexeme as the movement lexer splits it: its text, and whether it
/// is whitespace.
pub struct Subtoken {
    pub lexeme: String,
    pub whitespace: bool,
}

/// A piece of text as jump mode shows it: a jump tag, or plain text.
#[derive(Debug, PartialEq, Eq)]
pub enum MappedLexeme {
    Focused(String),
    Blurred(String),
}

/// A mapped piece of text, by its characters.
pub enum MappedView {
    Focused(Seq<char>),
    Blurred(Seq<char>),
}

pub open spec fn mapped_view(m: MappedLexeme) -> MappedView {
    match m {
        MappedLexeme::Focused(s) => MappedView::Focused(s@),
        MappedLexeme::Blurred(s) => MappedView::Blurred(s@),
    }
}

pub open spec fn mapped_views(ms: Seq<MappedLexeme>) -> Seq<MappedView> {
    ms.map_values(|m: MappedLexeme| mapped_view(m))
}

pub open spec fn subtoken_views(ts: Seq<Subtoken>) -> Seq<(Seq<char>, bool)> {
    ts.map_values(|t: Subtoken| (t.lexeme@, t.whitespace))
}

/// What jump mode's mapping depends on and changes: the phase, the cursor's line,
/// the positions of both tag generators, where each tag was placed, and the
/// position of the next piece of text.
pub struct JumpState {
    pub first_phase: bool,
    pub cursor_line: usize,
    pub single: u8,
    pub double: u16,
    pub tags: Map<Seq<char>, Position>,
    pub position: Position,
}

/// The state after some pieces of text, and what they are shown as.
pub struct Mapping {
    pub state: JumpState,
    pub out: Seq<MappedView>,
}

/// The tag a word (a piece that is not whitespace) gets, if any: in the first
/// phase, the next single letter once the cursor's line is reached; in the
/// second, the next two-letter tag when the word is longer than one byte.
pub open spec fn tag_for(st: JumpState, t: Seq<char>) -> Option<Seq<char>> {
    if st.first_phase {
        if st.position.line >= st.cursor_line {
            tag_after(st.single)
        } else {
            None
        }
    } else if bytes_of(t) > 1 {
        double_tag_at(st.double)
    } else {
        None
    }
}

/// What follows the first `k` characters of `t`.
pub open spec fn suffix(t: Seq<char>, k: int) -> Seq<char> {
    if t.len() > k {
        t.subrange(k, t.len() as int)
    } else {
        Seq::empty()
    }
}

/// One piece of text mapped. Whitespace, and a word without a tag, is shown as
/// it is, and the position moves past it. A tagged word is shown as its tag,
/// which is recorded at the word's position, and then the rest of the word after
/// as many characters as the tag has; the position moves on by the tag's length
/// and the rest's bytes.
pub open spec fn map_step(st: JumpState, piece: (Seq<char>, bool)) -> Mapping {
    let (t, whitespace) = piece;
    if whitespace {
        Mapping { state: JumpState { position: advanced(st.position, t), ..st }, out: seq![MappedView::Blurred(t)] }
    } else {
        match tag_for(st, t) {
            Some(tag) => {
                let rest = suffix(t, tag.len() as int);
                let single = if st.first_phase {
                    advanced_index(st.single)
                } else {
                    st.single
                };
                let double = if st.first_phase {
                    st.double
                } else {
                    (st.double + 1) as u16
                };
                Mapping {
                    state: JumpState {
                        single,
                        double,
                        tags: st.tags.insert(tag, st.position),
                        position: Position {
                            line: st.position.line,
                            offset: (st.position.offset + tag.len() + bytes_of(rest)) as usize,
                        },
                        ..st
                    },
                    out: seq![MappedView::Focused(tag)] + if rest.len() > 0 {
                        seq![MappedView::Blurred(rest)]
                    } else {
                        Seq::empty()
                    },
                }
            },
            None => Mapping {
                state: JumpState { position: advanced(st.position, t), ..st },
                out: seq![MappedView::Blurred(t)],
            },
        }
    }
}

/// The pieces mapped one after the other, from `st`.
pub open spec fn mapped(st: JumpState, pieces: Seq<(Seq<char>, bool)>) -> Mapping
    decreases pieces.len(),
{
    if pieces.len() == 0 {
        Mapping { state: st, out: Seq::empty() }
    } else {
        let m = mapped(st, pieces.drop_last());
        let s = map_step(m.state, pieces.last());
        Mapping { state: s.state, out: m.out + s.out }
    }
}

/// The bytes of the pieces, and two more for each (a tag may be longer than its
/// word): a bound on how far the position can move.
pub open spec fn span(pieces: Seq<(Seq<char>, bool)>) -> nat
    decreases pieces.len(),
{
    if pieces.len() == 0 {
        0
    } else {
        span(pieces.drop_last()) + bytes_of(pieces.last().0) + 2
    }
}

/// The tags placed so far, by the entries that record them.
pub open spec fn tag_map(entries: Seq<(String, Position)>) -> Map<Seq<char>, Position> {
    Map::new(
        |k: Seq<char>| exists|i: int| 0 <= i < entries.len() && #[trigger] entries[i].0@ == k,
        |k: Seq<char>| entries[choose|i: int| 0 <= i < entries.len() && #[trigger] entries[i].0@ == k].1,
    )
}

/// Whether no tag is recorded twice.
pub open spec fn distinct_tags(entries: Seq<(String, Position)>) -> bool {
    forall|i: int, j: int| 0 <= i < j < entries.len() ==> #[trigger] entries[i].0@ != #[trigger] entries[j].0@
}

proof fn lemma_record_existing(before: Seq<(String, Position)>, i: int, tag: String, at: Position)
    requires
        distinct_tags(before),
        0 <= i < before.len(),
        before[i].0@ == tag@,
    ensures
        distinct_tags(before.update(i, (tag, at))),
        tag_map(before.update(i, (tag, at))) == tag_map(before).insert(tag@, at),
{
    let after = before.update(i, (tag, at));
    assert forall|a: int, b: int| 0 <= a < b < after.len() implies #[trigger] after[a].0@
        != #[trigger] after[b].0@ by {
        assert(before[a].0@ != before[b].0@);
    }
    let m = tag_map(after);
    let n = tag_map(before).insert(tag@, at);
    assert forall|k: Seq<char>| m.dom().contains(k) <==> n.dom().contains(k) by {
        if k != tag@ && n.dom().contains(k) {
            let j = choose|j: int| 0 <= j < before.len() && #[trigger] before[j].0@ == k;
            assert(after[j].0@ == k);
        }
        if m.dom().contains(k) && k != tag@ {
            let j = choose|j: int| 0 <= j < after.len() && #[trigger] after[j].0@ == k;
            assert(before[j].0@ == k);
        }
        if k == tag@ {
            assert(after[i].0@ == tag@);
        }
    }
    assert forall|k: Seq<char>| m.dom().contains(k) implies m[k] == n[k] by {
        let j = choose|j: int| 0 <= j < after.len() && #[trigger] after[j].0@ == k;
        if k == tag@ {
            assert(after[i].0@ == tag@);
            assert(j == i);
        } else {
            let j2 = choose|j2: int| 0 <= j2 < before.len() && #[trigger] before[j2].0@ == k;
            assert(after[j2].0@ == k);
            assert(j2 == j);
        }
    }
    assert(m =~= n);
}

proof fn lemma_record_new(before: Seq<(String, Position)>, tag: String, at: Position)
    requires
        distinct_tags(before),
        forall|j: int| 0 <= j < before.len() ==> before[j].0@ != tag@,
    ensures
        distinct_tags(before.push((tag, at))),
        tag_map(before.push((tag, at))) == tag_map(before).insert(tag@, at),
{
    let after = before.push((tag, at));
    let last = before.len() as int;
    assert forall|a: int, b: int| 0 <= a < b < after.len() implies #[trigger] after[a].0@
        != #[trigger] after[b].0@ by {
        if b < before.len() {
            assert(before[a].0@ != before[b].0@);
        } else {
            assert(before[a].0@ != tag@);
        }
    }
    let m = tag_map(after);
    let n = tag_map(before).insert(tag@, at);
    assert forall|k: Seq<char>| m.dom().contains(k) <==> n.dom().contains(k) by {
        if k != tag@ && n.dom().contains(k) {
            let j = choose|j: int| 0 <= j < before.len() && #[trigger] before[j].0@ == k;
            assert(after[j].0@ == k);
        }
        if m.dom().contains(k) && k != tag@ {
            let j = choose|j: int| 0 <= j < after.len() && #[trigger] after[j].0@ == k;
            assert(before[j].0@ == k);
        }
        if k == tag@ {
            assert(after[last].0@ == tag@);
        }
    }
    assert forall|k: Seq<char>| m.dom().contains(k) implies m[k] == n[k] by {
        let j = choose|j: int| 0 <= j < after.len() && #[trigger] after[j].0@ == k;
        if k == tag@ {
            assert(after[last].0@ == tag@);
            assert(j == last);
        } else {
            let j2 = choose|j2: int| 0 <= j2 < before.len() && #[trigger] before[j2].0@ == k;
            assert(after[j2].0@ == k);
            assert(j2 == j);
        }
    }
    assert(m =~= n);
}

/// Records that `tag` was placed at `at`, replacing an earlier record of it.
fn record(entries: &mut Vec<(String, Position)>, tag: String, at: Position)
    requires
        distinct_tags(old(entries)@),
    ensures
        distinct_tags(final(entries)@),
        tag_map(final(entries)@) == tag_map(old(entries)@).insert(tag@, at),
{
    let ghost before = entries@;
    let mut i: usize = 0;
    while i < entries.len()
        invariant
            0 <= i <= entries@.len(),
            entries@ == before,
            before == old(entries)@,
            distinct_tags(before),
            forall|j: int| 0 <= j < i ==> entries@[j].0@ != tag@,
        decreases entries@.len() - i,
    {
        if entries[i].0 == tag {
            proof {
                lemma_record_existing(before, i as int, tag, at);
            }
            entries.set(i, (tag, at));
            return;
        }
        i = i + 1;
    }
    proof {
        lemma_record_new(before, tag, at);
    }
    entries.push((tag, at));
}

proof fn lemma_bytes_at_least_chars(s: Seq<char>)
    ensures
        bytes_of(s) >= s.len(),
    decreases s.len(),
{
    if s.len() > 0 {
        lemma_bytes_at_least_chars(s.drop_last());
    }
}

proof fn lemma_bytes_of_concat(a: Seq<char>, b: Seq<char>)
    ensures
        bytes_of(a + b) == bytes_of(a) + bytes_of(b),
    decreases b.len(),
{
    if b.len() == 0 {
        assert(a + b =~= a);
    } else {
        lemma_bytes_of_concat(a, b.drop_last());
        assert((a + b).drop_last() =~= a + b.drop_last());
    }
}

proof fn lemma_suffix_bytes(t: Seq<char>, k: int)
    requires
        0 <= k,
    ensures
        bytes_of(suffix(t, k)) <= bytes_of(t),
{
    if t.len() > k {
        lemma_bytes_of_concat(t.subrange(0, k), t.subrange(k, t.len() as int));
        assert(t.subrange(0, k) + t.subrange(k, t.len() as int) =~= t);
    }
}

proof fn lemma_span_prefix(pieces: Seq<(Seq<char>, bool)>, n: int)
    requires
        0 <= n <= pieces.len(),
    ensures
        span(pieces.subrange(0, n)) <= span(pieces),
    decreases pieces.len() - n,
{
    if n < pieces.len() {
        lemma_span_prefix(pieces, n + 1);
        assert(pieces.subrange(0, n + 1).drop_last() =~= pieces.subrange(0, n));
    } else {
        assert(pieces.subrange(0, n) =~= pieces);
    }
}

/// The bytes of `s`, in UTF-8.
fn byte_count(s: &Vec<char>) -> (n: usize)
    requires
        bytes_of(s@) <= usize::MAX,
    ensures
        n == bytes_of(s@),
{
    let mut n: usize = 0;
    let mut i: usize = 0;
    while i < s.len()
        invariant
            0 <= i <= s@.len(),
            bytes_of(s@) <= usize::MAX,
            n == bytes_of(s@.subrange(0, i as int)),
        decreases s@.len() - i,
    {
        assert(s@.subrange(0, i + 1).drop_last() =~= s@.subrange(0, i as int));
        proof {
            lemma_bytes_of_prefix(s@, i + 1);
        }
        n = n + utf8_width(s[i]);
        i = i + 1;
    }
    assert(s@.subrange(0, i as int) =~= s@);
    n
}

/// Tags words on screen for jumping, and resolves typed tags to positions.
pub struct JumpMode {
    pub input: String,
    pub first_phase: bool,
    cursor_line: usize,
    pub select_mode: SelectModeOptions,
    tag_positions: Vec<(String, Position)>,
    tag_generator: TagGenerator,
    single_characters: SingleCharacterTagGenerator,
    current_position: Position,
}

impl JumpMode {
    /// What the mapping of text depends on and changes.
    pub closed spec fn state(&self) -> JumpState {
        JumpState {
            first_phase: self.first_phase,
            cursor_line: self.cursor_line,
            single: self.single_characters.position(),
            double: self.tag_generator.position(),
            tags: tag_map(self.tag_positions@),
            position: self.current_position,
        }
    }

    /// What has been typed.
    pub closed spec fn input_view(&self) -> Seq<char> {
        self.input@
    }

    /// The selection mode that jump mode serves.
    pub closed spec fn selection_view(&self) -> SelectModeOptions {
        self.select_mode
    }

    /// Whether each tag is recorded once.
    pub closed spec fn well_formed(&self) -> bool {
        distinct_tags(self.tag_positions@)
    }

    /// Jump mode for a cursor on `cursor_line`: nothing typed, in the first phase,
    /// without a selection, with no tags placed and both generators at their start.
    pub fn new(cursor_line: usize) -> (m: JumpMode)
        ensures
            m.well_formed(),
            m.input_view().len() == 0,
            m.selection_view() is Unselected,
            m.state() == (JumpState {
                first_phase: true,
                cursor_line,
                single: crate::tag_generator::TAG_INDEX_START,
                double: 0,
                tags: Map::empty(),
                position: Position { line: 0, offset: 0 },
            }),
    {
        let m = JumpMode {
            input: String::new(),
            first_phase: true,
            cursor_line,
            select_mode: SelectModeOptions::Unselected,
            tag_positions: Vec::new(),
            tag_generator: TagGenerator::new(),
            single_characters: SingleCharacterTagGenerator::new(),
            current_position: Position { line: 0, offset: 0 },
        };
        assert(tag_map(m.tag_positions@) =~= Map::<Seq<char>, Position>::empty());
        m
    }

    /// The position where `tag` was placed, if it was.
    pub fn map_tag(&self, tag: &str) -> (r: Option<Position>)
        requires
            self.well_formed(),
        ensures
            self.state().tags.contains_key(tag@) ==> r == Some(self.state().tags[tag@]),
            !self.state().tags.contains_key(tag@) ==> r is None,
    {
        let wanted = String::from_str(tag);
        let mut i: usize = 0;
        while i < self.tag_positions.len()
            invariant
                0 <= i <= self.tag_positions@.len(),
                wanted@ == tag@,
                distinct_tags(self.tag_positions@),
                forall|j: int| 0 <= j < i ==> self.tag_positions@[j].0@ != tag@,
            decreases self.tag_positions@.len() - i,
        {
            if self.tag_positions[i].0 == wanted {
                proof {
                    let j = choose|j: int|
                        0 <= j < self.tag_positions@.len() && #[trigger] self.tag_positions@[j].0@ == tag@;
                    assert(self.tag_positions@[i as int].0@ == tag@);
                    assert(j == i);
                }
                return Some(self.tag_positions[i].1);
            }
            i = i + 1;
        }
        None
    }

    /// Leaves the first phase: from now on, words longer than one byte get
    /// two-letter tags.
    pub fn end_first_phase(&mut self)
        ensures
            final(self).well_formed() == old(self).well_formed(),
            final(self).state() == (JumpState { first_phase: false, ..old(self).state() }),
            final(self).input_view() == old(self).input_view(),
            final(self).selection_view() == old(self).selection_view(),
    {
        self.first_phase = false;
    }

    /// Forgets the placed tags and restarts both tag generators, before the text
    /// on screen is mapped again.
    pub fn reset_display(&mut self)
        ensures
            final(self).well_formed(),
            final(self).state() == (JumpState {
                single: crate::tag_generator::TAG_INDEX_START,
                double: 0,
                tags: Map::empty(),
                ..old(self).state()
            }),
            final(self).input_view() == old(self).input_view(),
            final(self).selection_view() == old(self).selection_view(),
    {
        self.tag_positions = Vec::new();
        self.tag_generator.reset();
        self.single_characters.reset();
        assert(tag_map(self.tag_positions@) =~= Map::<Seq<char>, Position>::empty());
    }

    /// Maps the pieces of a lexeme that starts at `position` (see `mapped`): each
    /// is shown as it is, or as a jump tag followed by the rest of it, and each tag
    /// is recorded where its word starts.
    pub fn map(&mut self, subtokens: &Vec<Subtoken>, position: Position) -> (r: Vec<MappedLexeme>)
        requires
            old(self).well_formed(),
            position.line + span(subtoken_views(subtokens@)) <= usize::MAX,
            position.offset + span(subtoken_views(subtokens@)) <= usize::MAX,
        ensures
            final(self).well_formed(),
            mapped_views(r@) == mapped(
                JumpState { position, ..old(self).state() },
                subtoken_views(subtokens@),
            ).out,
            final(self).state() == mapped(
                JumpState { position, ..old(self).state() },
                subtoken_views(subtokens@),
            ).state,
            final(self).input_view() == old(self).input_view(),
            final(self).selection_view() == old(self).selection_view(),
    {
        let ghost pieces = subtoken_views(subtokens@);
        let ghost start = JumpState { position, ..self.state() };
        self.current_position = position;
        let mut out: Vec<MappedLexeme> = Vec::new();
        assert(self.state() == mapped(start, pieces.subrange(0, 0)).state);
        assert(mapped_views(out@) =~= mapped(start, pieces.subrange(0, 0)).out);
        let mut i: usize = 0;
        while i < subtokens.len()
            invariant
                0 <= i <= subtokens@.len(),
                pieces == subtoken_views(subtokens@),
                distinct_tags(self.tag_positions@),
                self.state() == mapped(start, pieces.subrange(0, i as int)).state,
                mapped_views(out@) == mapped(start, pieces.subrange(0, i as int)).out,
                self.current_position.line <= position.line + span(pieces.subrange(0, i as int)),
                self.current_position.offset <= position.offset + span(pieces.subrange(0, i as int)),
                position.line + span(pieces) <= usize::MAX,
                position.offset + span(pieces) <= usize::MAX,
                self.input == old(self).input,
                self.select_mode == old(self).select_mode,
            decreases subtokens@.len() - i,
        {
            let ghost before = self.state();
            let ghost piece = pieces[i as int];
            proof {
                assert(pieces.subrange(0, i + 1).drop_last() =~= pieces.subrange(0, i as int));
                assert(pieces.subrange(0, i + 1).last() == piece);
                lemma_span_prefix(pieces, i + 1);
                lemma_bytes_at_least_chars(piece.0);
                lemma_last_line(piece.0);
                assert(span(pieces.subrange(0, i + 1)) == span(pieces.subrange(0, i as int)) + bytes_of(piece.0)
                    + 2);
            }
            let sub = &subtokens[i];
            let text = sub.lexeme.as_str();
            assert(piece == (text@, sub.whitespace));
            if sub.whitespace {
                count_graphemes(text);
                out.push(MappedLexeme::Blurred(sub.lexeme.clone()));
                self.current_position = advance(self.current_position, text);
            } else {
                let chars = chars_of(text);
                let bytes = byte_count(&chars);
                let tag = if self.first_phase {
                    if self.current_position.line >= self.cursor_line {
                        self.single_characters.next()
                    } else {
                        None
                    }
                } else if bytes > 1 {
                    self.tag_generator.next()
                } else {
                    None
                };
                assert(tag_for(before, text@) == match tag {
                    Some(t) => Some(t@),
                    None => None::<Seq<char>>,
                });
                match tag {
                    Some(tag) => {
                        let tag_chars = chars_of(tag.as_str());
                        let tag_len = tag_chars.len();
                        out.push(MappedLexeme::Focused(tag.clone()));
                        let at = self.current_position;
                        record(&mut self.tag_positions, tag, at);
                        let mut rest: Vec<char> = Vec::new();
                        let first = if tag_len < chars.len() {
                            tag_len
                        } else {
                            chars.len()
                        };
                        let mut k: usize = first;
                        while k < chars.len()
                            invariant
                                first <= k <= chars@.len(),
                                rest@ == chars@.subrange(first as int, k as int),
                            decreases chars@.len() - k,
                        {
                            rest.push(chars[k]);
                            k = k + 1;
                            assert(rest@ =~= chars@.subrange(first as int, k as int));
                        }
                        assert(rest@ =~= suffix(text@, tag_len as int));
                        proof {
                            lemma_suffix_bytes(text@, tag_len as int);
                        }
                        let rest_bytes = byte_count(&rest);
                        if rest.len() > 0 {
                            out.push(MappedLexeme::Blurred(string_from_chars(&rest)));
                        }
                        self.current_position = Position {
                            line: at.line,
                            offset: at.offset + tag_len + rest_bytes,
                        };
                    },
                    None => {
                        count_graphemes(text);
                        out.push(MappedLexeme::Blurred(sub.lexeme.clone()));
                        self.current_position = advance(self.current_position, text);
                    },
                }
            }
            i = i + 1;
            assert(mapped_views(out@) =~= mapped(start, pieces.subrange(0, i as int)).out);
        }
        assert(pieces.subrange(0, i as int) =~= pieces);
        out
    }
}

} // verus!
