//! Moving the cursor from token to token.
//!
//! A buffer's text is cut into tokens by a lexer; each token is its text and
//! whether it is whitespace. Tokens follow one another, so the position where
//! each starts follows from the lengths of those before it: a token without a
//! line feed advances the offset by its length in bytes, and a token with line
//! feeds moves down one line per line feed, to the offset of the bytes after
//! the last one.

use vstd::prelude::*;
use crate::glob::{utf8_len, utf8_width};
use crate::modes::Position;
use crate::text::chars_of;

verus! {

/// The direction of a movement through a buffer.
#[derive(Clone, Copy, Debug, PartialEq, Eq, Structural)]
pub enum Direction {
    Forward,
    Backward,
}

/// A lexeme of a buffer's text, and whether it is whitespace.
#[derive(Clone, Debug)]
pub struct Token {
    pub lexeme: String,
    pub whitespace: bool,
}

/// Whether `a` comes before `b`: positions are ordered by line, then by offset.
pub open spec fn position_lt(a: Position, b: Position) -> bool {
    a.line < b.line || (a.line == b.line && a.offset < b.offset)
}

/// The number of line feeds in `s`.
pub open spec fn line_feeds(s: Seq<char>) -> nat
    decreases s.len(),
{
    if s.len() == 0 {
        0
    } else {
        line_feeds(s.drop_last()) + if s.last() == '\n' {
            1nat
        } else {
            0nat
        }
    }
}

/// The length in bytes of what follows the last line feed of `s` (all of `s` when
/// it has none).
pub open spec fn last_line_bytes(s: Seq<char>) -> nat
    decreases s.len(),
{
    if s.len() == 0 {
        0
    } else if s.last() == '\n' {
        0
    } else {
        last_line_bytes(s.drop_last()) + utf8_len(s.last())
    }
}

/// The length of `s` in bytes, encoded in UTF-8.
pub open spec fn bytes_of(s: Seq<char>) -> nat
    decreases s.len(),
{
    if s.len() == 0 {
        0
    } else {
        bytes_of(s.drop_last()) + utf8_len(s.last())
    }
}

/// The position just after `lexeme`, when it starts at `p`.
pub open spec fn advance(p: Position, lexeme: Seq<char>) -> Position {
    if line_feeds(lexeme) == 0 {
        Position { line: p.line, offset: (p.offset + bytes_of(lexeme)) as usize }
    } else {
        Position {
            line: (p.line + line_feeds(lexeme)) as usize,
            offset: last_line_bytes(lexeme) as usize,
        }
    }
}

/// The position where token `k` starts (for `k == tokens.len()`, where the text ends).
pub open spec fn token_start(tokens: Seq<Token>, k: int) -> Position
    decreases k,
{
    if k <= 0 {
        Position { line: 0, offset: 0 }
    } else {
        advance(token_start(tokens, k - 1), tokens[k - 1].lexeme@)
    }
}

/// The bytes of the lexemes of `tokens`.
pub open spec fn total_bytes(tokens: Seq<Token>) -> nat
    decreases tokens.len(),
{
    if tokens.len() == 0 {
        0
    } else {
        total_bytes(tokens.drop_last()) + bytes_of(tokens.last().lexeme@)
    }
}

/// Whether moving forward may stop at token `k`: it starts after the cursor, and
/// is not whitespace unless whitespace is allowed.
pub open spec fn forward_stop(tokens: Seq<Token>, cursor: Position, whitespace: bool, k: int) -> bool {
    position_lt(cursor, token_start(tokens, k)) && (whitespace || !tokens[k].whitespace)
}

/// Whether moving backward stops at token `k`: the cursor is not after its end.
pub open spec fn backward_stop(tokens: Seq<Token>, cursor: Position, k: int) -> bool {
    !position_lt(token_start(tokens, k + 1), cursor)
}

/// The first token from `k` on at which a movement stops.
pub open spec fn first_stop(
    tokens: Seq<Token>,
    cursor: Position,
    whitespace: bool,
    direction: Direction,
    k: int,
) -> Option<int>
    decreases tokens.len() - k,
{
    if k >= tokens.len() {
        None
    } else if (direction == Direction::Forward && forward_stop(tokens, cursor, whitespace, k)) || (
    direction == Direction::Backward && backward_stop(tokens, cursor, k)) {
        Some(k)
    } else {
        first_stop(tokens, cursor, whitespace, direction, k + 1)
    }
}

/// Where a movement from `cursor` lands: moving forward, at the start of the
/// first token after the cursor (skipping whitespace unless allowed); moving
/// backward, at the start of the token that reaches the cursor, or of the token
/// before it when that one is whitespace.
pub open spec fn adjacent_position(
    tokens: Seq<Token>,
    cursor: Position,
    whitespace: bool,
    direction: Direction,
) -> Option<Position> {
    match first_stop(tokens, cursor, whitespace, direction, 0) {
        None => None,
        Some(k) => if direction == Direction::Backward && tokens[k].whitespace {
            Some(token_start(tokens, k - 1))
        } else {
            Some(token_start(tokens, k))
        },
    }
}

/// The line feeds, the bytes, and the bytes after the last line feed of a lexeme.
fn measure(lexeme: &str) -> (r: (usize, usize, usize))
    requires
        bytes_of(lexeme@) <= usize::MAX,
    ensures
        r.0 == line_feeds(lexeme@),
        r.1 == bytes_of(lexeme@),
        r.2 == last_line_bytes(lexeme@),
        line_feeds(lexeme@) + last_line_bytes(lexeme@) <= bytes_of(lexeme@),
{
    let s = chars_of(lexeme);
    let mut feeds: usize = 0;
    let mut bytes: usize = 0;
    let mut tail: usize = 0;
    let mut i: usize = 0;
    while i < s.len()
        invariant
            0 <= i <= s@.len(),
            s@ == lexeme@,
            bytes_of(lexeme@) <= usize::MAX,
            feeds == line_feeds(s@.subrange(0, i as int)),
            bytes == bytes_of(s@.subrange(0, i as int)),
            tail == last_line_bytes(s@.subrange(0, i as int)),
            feeds + tail <= bytes,
            bytes_of(s@.subrange(0, i as int)) <= bytes_of(s@),
        decreases s@.len() - i,
    {
        let ghost pre = s@.subrange(0, i as int);
        let ghost next = s@.subrange(0, i + 1);
        assert(next.drop_last() =~= pre);
        proof {
            lemma_bytes_of_prefix(s@, i + 1);
        }
        let c = s[i];
        let w = utf8_width(c);
        bytes = bytes + w;
        if c == '\n' {
            feeds = feeds + 1;
            tail = 0;
        } else {
            tail = tail + w;
        }
        i = i + 1;
    }
    assert(s@.subrange(0, i as int) =~= s@);
    (feeds, bytes, tail)
}

pub proof fn lemma_bytes_of_prefix(s: Seq<char>, n: int)
    requires
        0 <= n <= s.len(),
    ensures
        bytes_of(s.subrange(0, n)) <= bytes_of(s),
    decreases s.len() - n,
{
    if n < s.len() {
        lemma_bytes_of_prefix(s, n + 1);
        assert(s.subrange(0, n + 1).drop_last() =~= s.subrange(0, n));
    } else {
        assert(s.subrange(0, n) =~= s);
    }
}

proof fn lemma_total_bytes_prefix(tokens: Seq<Token>, n: int)
    requires
        0 <= n <= tokens.len(),
    ensures
        total_bytes(tokens.subrange(0, n)) <= total_bytes(tokens),
    decreases tokens.len() - n,
{
    if n < tokens.len() {
        lemma_total_bytes_prefix(tokens, n + 1);
        assert(tokens.subrange(0, n + 1).drop_last() =~= tokens.subrange(0, n));
    } else {
        assert(tokens.subrange(0, n) =~= tokens);
    }
}

proof fn lemma_token_start_prefix(tokens: Seq<Token>, n: int, k: int)
    requires
        0 <= k <= n <= tokens.len(),
    ensures
        token_start(tokens.subrange(0, n), k) == token_start(tokens, k),
    decreases k,
{
    if k > 0 {
        lemma_token_start_prefix(tokens, n, k - 1);
    }
}

/// The position of the token next to the cursor in the given direction (see
/// `adjacent_position`), or `None` when there is none.
pub fn adjacent_token_position(
    tokens: &Vec<Token>,
    cursor: Position,
    whitespace: bool,
    direction: Direction,
) -> (r: Option<Position>)
    requires
        total_bytes(tokens@) <= usize::MAX,
    ensures
        r == adjacent_position(tokens@, cursor, whitespace, direction),
{
    let mut line: usize = 0;
    let mut offset: usize = 0;
    let mut previous_position = Position { line: 0, offset: 0 };
    let mut k: usize = 0;
    while k < tokens.len()
        invariant
            0 <= k <= tokens@.len(),
            total_bytes(tokens@) <= usize::MAX,
            token_start(tokens@, k as int) == (Position { line, offset }),
            previous_position == token_start(tokens@, k - 1),
            line + offset <= total_bytes(tokens@.subrange(0, k as int)),
            first_stop(tokens@, cursor, whitespace, direction, 0) == first_stop(
                tokens@,
                cursor,
                whitespace,
                direction,
                k as int,
            ),
        decreases tokens@.len() - k,
    {
        let token = &tokens[k];
        let position = Position { line, offset };
        let after_cursor = line > cursor.line || (line == cursor.line && offset > cursor.offset);
        if after_cursor && direction == Direction::Forward {
            if whitespace || !token.whitespace {
                return Some(position);
            }
        }
        proof {
            lemma_total_bytes_prefix(tokens@, k + 1);
            assert(tokens@.subrange(0, k + 1).drop_last() =~= tokens@.subrange(0, k as int));
            assert(tokens@.subrange(0, k + 1).last() == tokens@[k as int]);
        }
        let (feeds, bytes, tail) = measure(token.lexeme.as_str());
        if feeds == 0 {
            offset = offset + bytes;
        } else {
            line = line + feeds;
            offset = tail;
        }
        let reaches_cursor = line > cursor.line || (line == cursor.line && offset >= cursor.offset);
        if reaches_cursor && direction == Direction::Backward {
            if token.whitespace {
                return Some(previous_position);
            } else {
                return Some(position);
            }
        }
        previous_position = position;
        k = k + 1;
    }
    None
}

/// The text of the tokens' lexemes, one after the other.
pub open spec fn lexemes_text(tokens: Seq<Token>) -> Seq<char>
    decreases tokens.len(),
{
    if tokens.len() == 0 {
        Seq::empty()
    } else {
        lexemes_text(tokens.drop_last()) + tokens.last().lexeme@
    }
}

/// The line feeds of two texts together are those of each.
pub proof fn lemma_line_feeds_concat(a: Seq<char>, b: Seq<char>)
    ensures
        line_feeds(a + b) == line_feeds(a) + line_feeds(b),
        bytes_of(a + b) == bytes_of(a) + bytes_of(b),
        last_line_bytes(a + b) == if line_feeds(b) == 0 {
            last_line_bytes(a) + bytes_of(b)
        } else {
            last_line_bytes(b)
        },
    decreases b.len(),
{
    if b.len() == 0 {
        assert(a + b =~= a);
    } else {
        lemma_line_feeds_concat(a, b.drop_last());
        assert((a + b).drop_last() =~= a + b.drop_last());
        assert((a + b).last() == b.last());
    }
}

/// A text has at least as many bytes as line feeds and bytes after its last line feed.
pub proof fn lemma_line_feeds_bound(s: Seq<char>)
    ensures
        line_feeds(s) + last_line_bytes(s) <= bytes_of(s),
    decreases s.len(),
{
    if s.len() > 0 {
        lemma_line_feeds_bound(s.drop_last());
    }
}

proof fn lemma_lexemes_bytes(tokens: Seq<Token>)
    ensures
        bytes_of(lexemes_text(tokens)) == total_bytes(tokens),
    decreases tokens.len(),
{
    if tokens.len() > 0 {
        lemma_lexemes_bytes(tokens.drop_last());
        lemma_line_feeds_concat(lexemes_text(tokens.drop_last()), tokens.last().lexeme@);
    }
}

/// Where token `k` starts is fixed by the text before it: as many lines down as
/// that text has line feeds, at the offset of the bytes after its last line feed
/// (all of its bytes when it has none).
pub proof fn law_token_start_follows_the_text(tokens: Seq<Token>, k: int)
    requires
        0 <= k <= tokens.len(),
        total_bytes(tokens.take(k)) <= usize::MAX,
    ensures
        token_start(tokens, k).line == line_feeds(lexemes_text(tokens.take(k))),
        token_start(tokens, k).offset == last_line_bytes(lexemes_text(tokens.take(k))),
    decreases k,
{
    if k > 0 {
        let pre = tokens.take(k - 1);
        let lex = tokens[k - 1].lexeme@;
        assert(tokens.take(k).drop_last() =~= pre);
        assert(tokens.take(k).last() == tokens[k - 1]);
        assert(total_bytes(tokens.take(k)) == total_bytes(pre) + bytes_of(lex));
        law_token_start_follows_the_text(tokens, k - 1);
        let t = lexemes_text(pre);
        lemma_line_feeds_concat(t, lex);
        lemma_line_feeds_bound(t);
        lemma_line_feeds_bound(lex);
        lemma_lexemes_bytes(pre);
        assert(lexemes_text(tokens.take(k)) == t + lex);
    } else {
        assert(tokens.take(0) =~= Seq::<Token>::empty());
    }
}

} // verus!
