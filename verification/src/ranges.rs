//! Line ranges and the character ranges that cover them.

use vstd::prelude::*;
use crate::glob::{utf8_len, utf8_width};
use crate::modes::Position;
use crate::text::chars_of;

verus! {

/// A range of whole lines, from `start` to `end` inclusive.
#[derive(Clone, Copy, Debug, PartialEq, Eq, Structural)]
pub struct LineRange {
    start: usize,
    end: usize,
}

impl LineRange {
    /// The first line.
    pub closed spec fn start_view(&self) -> usize {
        self.start
    }

    /// The last line.
    pub closed spec fn end_view(&self) -> usize {
        self.end
    }

    /// The lines between `a` and `b` (inclusive), in either order.
    pub fn new(a: usize, b: usize) -> (r: LineRange)
        ensures
            r.start_view() == (if a <= b { a } else { b }),
            r.end_view() == (if a <= b { b } else { a }),
    {
        if a <= b {
            LineRange { start: a, end: b }
        } else {
            LineRange { start: b, end: a }
        }
    }

    pub fn start(&self) -> (s: usize)
        ensures
            s == self.start_view(),
    {
        self.start
    }

    pub fn end(&self) -> (e: usize)
        ensures
            e == self.end_view(),
    {
        self.end
    }
}

/// A range of text between two positions.
#[derive(Clone, Copy, Debug, PartialEq, Eq, Structural)]
pub struct Range {
    pub start: Position,
    pub end: Position,
}

/// The pieces of `s` between line feeds (the last piece may be empty).
pub open spec fn pieces(s: Seq<char>) -> Seq<Seq<char>>
    decreases s.len(),
{
    if s.len() == 0 {
        seq![Seq::<char>::empty()]
    } else {
        let p = pieces(s.drop_last());
        if s.last() == '\n' {
            p.push(Seq::<char>::empty())
        } else {
            p.update(p.len() - 1, p.last().push(s.last()))
        }
    }
}

pub proof fn lemma_pieces_nonempty(s: Seq<char>)
    ensures
        pieces(s).len() >= 1,
    decreases s.len(),
{
    if s.len() > 0 {
        lemma_pieces_nonempty(s.drop_last());
    }
}

/// A line without its trailing carriage return, if it has one.
pub open spec fn without_cr(l: Seq<char>) -> Seq<char> {
    if l.len() > 0 && l.last() == '\r' {
        l.drop_last()
    } else {
        l
    }
}

/// The lines of `s`, as `str::lines` yields them: the pieces between line feeds,
/// without a final empty piece, each without a trailing carriage return.
pub open spec fn text_lines(s: Seq<char>) -> Seq<Seq<char>> {
    let p = pieces(s);
    let kept = if p.last().len() == 0 {
        p.drop_last()
    } else {
        p
    };
    kept.map_values(|l: Seq<char>| without_cr(l))
}

/// The length of `s` in bytes, encoded in UTF-8.
pub open spec fn utf8_size(s: Seq<char>) -> nat
    decreases s.len(),
{
    if s.len() == 0 {
        0
    } else {
        utf8_size(s.drop_last()) + utf8_len(s.last())
    }
}

/// The range covering the lines of `line_range` completely: from the start of its
/// first line to the start of the line after it, or, when it ends on the last
/// line, to the end of that line (offset 0 when the text has no such line).
pub open spec fn inclusive_range_of(
    start: usize,
    end: usize,
    text: Seq<char>,
    line_count: usize,
) -> Range {
    let next_line = end + 1;
    Range {
        start: Position { line: start, offset: 0 },
        end: if line_count > next_line {
            Position { line: next_line as usize, offset: 0 }
        } else if end < text_lines(text).len() {
            Position { line: end, offset: utf8_size(text_lines(text)[end as int]) as usize }
        } else {
            Position { line: end, offset: 0 }
        },
    }
}

fn size_of(s: &Vec<char>) -> (n: u128)
    ensures
        n == utf8_size(s@),
        n <= 4 * s@.len(),
{
    let mut n: u128 = 0;
    let mut i: usize = 0;
    let len = s.len();
    while i < len
        invariant
            len == s@.len(),
            0 <= i <= s@.len() <= usize::MAX,
            n == utf8_size(s@.subrange(0, i as int)),
            n <= 4 * i,
        decreases s@.len() - i,
    {
        assert(s@.subrange(0, i + 1).drop_last() =~= s@.subrange(0, i as int));
        n = n + utf8_width(s[i]) as u128;
        i = i + 1;
    }
    assert(s@.subrange(0, i as int) =~= s@);
    n
}

/// The pieces of `s` between line feeds.
fn split_pieces(s: &Vec<char>) -> (p: Vec<Vec<char>>)
    ensures
        p@.len() == pieces(s@).len(),
        forall|k: int| 0 <= k < p@.len() ==> #[trigger] p@[k]@ == pieces(s@)[k],
{
    let mut p: Vec<Vec<char>> = Vec::new();
    let mut current: Vec<char> = Vec::new();
    let mut i: usize = 0;
    assert(s@.subrange(0, 0) =~= Seq::<char>::empty());
    while i < s.len()
        invariant
            0 <= i <= s@.len(),
            p@.len() + 1 == pieces(s@.subrange(0, i as int)).len(),
            forall|k: int| 0 <= k < p@.len() ==> #[trigger] p@[k]@ == pieces(s@.subrange(0, i as int))[k],
            current@ == pieces(s@.subrange(0, i as int)).last(),
        decreases s@.len() - i,
    {
        let ghost pre = s@.subrange(0, i as int);
        assert(s@.subrange(0, i + 1).drop_last() =~= pre);
        proof {
            lemma_pieces_nonempty(pre);
        }
        if s[i] == '\n' {
            let done = current;
            p.push(done);
            current = Vec::new();
        } else {
            current.push(s[i]);
        }
        i = i + 1;
    }
    assert(s@.subrange(0, i as int) =~= s@);
    proof {
        lemma_pieces_nonempty(s@);
    }
    p.push(current);
    p
}

/// Turns a line range into a regular range, including its last line: up to the
/// start of the following line when the buffer (of `line_count` lines, holding
/// `data`) has one, else to the end of the last line.
pub fn inclusive_range(line_range: &LineRange, data: &str, line_count: usize) -> (r: Range)
    requires
        line_range.end_view() < usize::MAX,
    ensures
        r == inclusive_range_of(line_range.start_view(), line_range.end_view(), data@, line_count),
        r.end.offset <= 4 * data@.len(),
{
    let end = line_range.end();
    let next_line = end + 1;
    let end_position = if line_count > next_line {
        Position { line: next_line, offset: 0 }
    } else {
        let s = chars_of(data);
        let p = split_pieces(&s);
        let ghost lines = text_lines(data@);
        proof {
            lemma_pieces_nonempty(s@);
        }
        let kept = if p[p.len() - 1].len() == 0 {
            p.len() - 1
        } else {
            p.len()
        };
        assert(lines.len() == kept);
        if end < kept {
            let line = &p[end];
            let n = if line.len() > 0 && line[line.len() - 1] == '\r' {
                line.len() - 1
            } else {
                line.len()
            };
            let mut trimmed: Vec<char> = Vec::new();
            let mut k: usize = 0;
            while k < n
                invariant
                    0 <= k <= n <= line@.len(),
                    trimmed@ == line@.subrange(0, k as int),
                decreases n - k,
            {
                trimmed.push(line[k]);
                k = k + 1;
                assert(trimmed@ =~= line@.subrange(0, k as int));
            }
            assert(trimmed@ =~= lines[end as int]);
            let size = size_of(&trimmed);
            proof {
                assert(line@.len() <= s@.len()) by {
                    lemma_piece_len(s@, end as int);
                }
            }
            Position { line: end, offset: size as usize }
        } else {
            Position { line: end, offset: 0 }
        }
    };
    Range { start: Position { line: line_range.start(), offset: 0 }, end: end_position }
}

proof fn lemma_piece_len(s: Seq<char>, k: int)
    requires
        0 <= k < pieces(s).len(),
    ensures
        pieces(s)[k].len() <= s.len(),
    decreases s.len(),
{
    if s.len() > 0 {
        let pre = s.drop_last();
        lemma_pieces_nonempty(pre);
        if k < pieces(pre).len() {
            lemma_piece_len(pre, k);
        }
        if s.last() != '\n' && k == pieces(pre).len() - 1 {
            lemma_piece_len(pre, k);
        }
    }
}

} // verus!
