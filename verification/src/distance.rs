//! How far a text reaches from where it starts: the lines it spans, and the
//! grapheme clusters of its last line.

use vstd::prelude::*;
use crate::modes::Position;
use crate::text::{chars_of, string_from_chars};
use crate::token::{lemma_line_feeds_concat, line_feeds};

verus! {

/// The number of extended grapheme clusters in a text, as
/// `UnicodeSegmentation::graphemes(text, true)` splits it.
pub uninterp spec fn grapheme_count(s: Seq<char>) -> nat;

/// Counts the extended grapheme clusters of `s` with `unicode_segmentation`.
/// Each cluster holds at least one character, so there are no more clusters than
/// characters.
#[verifier::external_body]
pub(crate) fn count_graphemes(s: &str) -> (n: usize)
    ensures
        n == grapheme_count(s@),
        n <= s@.len(),
{
    unicode_segmentation::UnicodeSegmentation::graphemes(s, true).count()
}

/// What follows the last line feed of `s` (all of `s` when it has none).
pub open spec fn last_line(s: Seq<char>) -> Seq<char>
    decreases s.len(),
{
    if s.len() == 0 {
        Seq::empty()
    } else if s.last() == '\n' {
        Seq::empty()
    } else {
        last_line(s.drop_last()).push(s.last())
    }
}

/// The position just after `s`, when it starts at `p`: on the same line, as many
/// grapheme clusters on, when `s` is a single line; else as many lines on as `s`
/// has line feeds, after the clusters of its last line.
pub open spec fn advanced(p: Position, s: Seq<char>) -> Position {
    if line_feeds(s) == 0 {
        Position { line: p.line, offset: (p.offset + grapheme_count(s)) as usize }
    } else {
        Position { line: (p.line + line_feeds(s)) as usize, offset: grapheme_count(last_line(s)) as usize }
    }
}

/// Whether the position after `s` from `p` can be counted in `usize`.
pub open spec fn advance_fits(p: Position, s: Seq<char>) -> bool {
    if line_feeds(s) == 0 {
        p.offset + grapheme_count(s) <= usize::MAX
    } else {
        p.line + line_feeds(s) <= usize::MAX
    }
}

pub proof fn lemma_last_line(s: Seq<char>)
    ensures
        last_line(s).len() <= s.len(),
        line_feeds(s) <= s.len(),
        line_feeds(s) == 0 ==> last_line(s) == s,
    decreases s.len(),
{
    if s.len() > 0 {
        lemma_last_line(s.drop_last());
        if s.last() != '\n' {
            assert(s.drop_last().push(s.last()) =~= s);
        }
    } else {
        assert(s =~= Seq::<char>::empty());
    }
}

/// The position just after `s`, when it starts at `p` (see `advanced`).
pub fn advance(p: Position, s: &str) -> (r: Position)
    requires
        advance_fits(p, s@),
    ensures
        r == advanced(p, s@),
        r.line == p.line + line_feeds(s@),
        r.line <= p.line + s@.len(),
        r.offset <= p.offset + s@.len(),
{
    let chars = chars_of(s);
    let mut feeds: usize = 0;
    let mut last: Vec<char> = Vec::new();
    let mut i: usize = 0;
    while i < chars.len()
        invariant
            0 <= i <= chars@.len(),
            chars@ == s@,
            feeds == line_feeds(chars@.subrange(0, i as int)),
            feeds <= i,
            last@ == last_line(chars@.subrange(0, i as int)),
        decreases chars@.len() - i,
    {
        assert(chars@.subrange(0, i + 1).drop_last() =~= chars@.subrange(0, i as int));
        if chars[i] == '\n' {
            feeds = feeds + 1;
            last = Vec::new();
        } else {
            last.push(chars[i]);
        }
        i = i + 1;
    }
    assert(chars@.subrange(0, i as int) =~= s@);
    proof {
        lemma_last_line(s@);
    }
    let n = count_graphemes(string_from_chars(&last).as_str());
    if feeds == 0 {
        Position { line: p.line, offset: p.offset + n }
    } else {
        Position { line: p.line + feeds, offset: n }
    }
}

proof fn lemma_last_line_concat(a: Seq<char>, b: Seq<char>)
    requires
        line_feeds(b) > 0,
    ensures
        last_line(a + b) == last_line(b),
    decreases b.len(),
{
    assert(b.len() > 0);
    assert((a + b).drop_last() =~= a + b.drop_last());
    assert((a + b).last() == b.last());
    if b.last() != '\n' {
        lemma_last_line_concat(a, b.drop_last());
    }
}

/// Moving past a text moves down one line for each of its line feeds; past a
/// text with line feeds, the position is on its last line, after that line's
/// clusters, and past one without, the offset grows by the text's clusters.
pub proof fn law_advance_moves_down_by_line_feeds(p: Position, s: Seq<char>)
    requires
        advance_fits(p, s),
    ensures
        advanced(p, s).line == p.line + line_feeds(s),
        line_feeds(s) > 0 ==> advanced(p, s).offset == grapheme_count(last_line(s)) as usize,
        line_feeds(s) == 0 ==> advanced(p, s).offset == p.offset + grapheme_count(s),
{
}

/// Moving past two texts one after the other moves as many lines down as moving
/// past them together; and when the second has a line feed, both land at the
/// same position.
pub proof fn law_advance_composes(p: Position, a: Seq<char>, b: Seq<char>)
    requires
        advance_fits(p, a),
        advance_fits(advanced(p, a), b),
        advance_fits(p, a + b),
    ensures
        advanced(advanced(p, a), b).line == advanced(p, a + b).line,
        line_feeds(b) > 0 ==> advanced(advanced(p, a), b) == advanced(p, a + b),
{
    lemma_line_feeds_concat(a, b);
    if line_feeds(b) > 0 {
        lemma_last_line_concat(a, b);
    }
}

} // verus!
