//! Reflowing a selection of text into lines of limited length.
//!
//! The text is cut into paragraphs at blank lines (`"\n\n"`). The words of each
//! paragraph are laid out greedily: a word goes on the current line unless the
//! line would then exceed the limit, in which case it starts a new line. When the
//! selection starts with a comment marker (a first word that does not start with
//! an alphanumeric character), every line starts with that marker and a space,
//! the marker's copies inside the text are dropped, and the limit shrinks by the
//! marker's width.

use vstd::prelude::*;
use crate::glob::{utf8_bytes, utf8_len, utf8_width};
use crate::ranges::{lemma_pieces_nonempty, pieces};
use crate::text::{
    chars_of, lemma_next_whitespace_bounds, lemma_words_nonempty, lemma_words_plain, next_whitespace, plain_word,
    spec_is_whitespace, split_whitespace, string_from_chars, words, words_from,
};

verus! {

/// Whether `char::is_alphanumeric` holds of `c`.
pub uninterp spec fn char_is_alphanumeric(c: char) -> bool;

/// Calls `char::is_alphanumeric`.
#[verifier::external_body]
fn is_alphanumeric(c: char) -> (b: bool)
    ensures
        b == char_is_alphanumeric(c),
{
    c.is_alphanumeric()
}

/// Why a reflow was refused.
#[derive(Clone, Copy, Debug, PartialEq, Eq, Structural)]
pub enum ReflowError {
    /// The selection holds no word.
    EmptySelection,
}

/// The length of `s` in bytes, encoded in UTF-8.
pub open spec fn byte_len(s: Seq<char>) -> nat {
    utf8_bytes(s, 0, s.len() as int)
}

/// The prefix that starts every reflowed line: nothing when the first word of the
/// text starts with an alphanumeric character, the first word otherwise; `None`
/// when the text has no word.
pub open spec fn inferred_prefix(text: Seq<char>) -> Option<Seq<char>> {
    let ws = words(text);
    if ws.len() == 0 {
        None
    } else if char_is_alphanumeric(ws[0][0]) {
        Some(Seq::empty())
    } else {
        Some(ws[0])
    }
}

/// Whether a paragraph break `"\n\n"` starts at `i`.
pub open spec fn break_at(s: Seq<char>, i: int) -> bool {
    0 <= i && i + 1 < s.len() && s[i] == '\n' && s[i + 1] == '\n'
}

/// The first paragraph break at or after `i`, or `s.len()`.
pub open spec fn next_break(s: Seq<char>, i: int) -> int
    decreases s.len() - i,
{
    if i + 1 >= s.len() {
        s.len() as int
    } else if break_at(s, i) {
        i
    } else {
        next_break(s, i + 1)
    }
}

pub proof fn lemma_next_break(s: Seq<char>, i: int)
    requires
        0 <= i <= s.len(),
    ensures
        i <= next_break(s, i) <= s.len(),
        next_break(s, i) < s.len() ==> break_at(s, next_break(s, i)),
        forall|k: int| i <= k < next_break(s, i) ==> !break_at(s, k),
    decreases s.len() - i,
{
    if i + 1 < s.len() && !break_at(s, i) {
        lemma_next_break(s, i + 1);
    }
}

/// The paragraphs of `s[i..]`: the pieces between paragraph breaks, as
/// `str::split("\n\n")` yields them.
pub open spec fn paragraphs_from(s: Seq<char>, i: int) -> Seq<Seq<char>>
    decreases s.len() - i,
{
    if i < 0 || i > s.len() {
        Seq::empty()
    } else {
        let b = next_break(s, i);
        proof {
            lemma_next_break(s, i);
        }
        if b >= s.len() {
            seq![s.subrange(i, s.len() as int)]
        } else {
            seq![s.subrange(i, b)] + paragraphs_from(s, b + 2)
        }
    }
}

/// The paragraphs of `s`.
pub open spec fn paragraphs(s: Seq<char>) -> Seq<Seq<char>> {
    paragraphs_from(s, 0)
}

/// What starts the first line of a paragraph: the prefix and a space, if there is
/// a prefix.
pub open spec fn lead(prefix: Seq<char>) -> Seq<char> {
    if prefix.len() == 0 {
        Seq::empty()
    } else {
        prefix.push(' ')
    }
}

/// The room for words on a line: the limit, less the prefix and its space.
pub open spec fn line_limit(prefix: Seq<char>, limit: int) -> int {
    if prefix.len() == 0 {
        limit
    } else {
        limit - (byte_len(prefix) + 1)
    }
}

/// A paragraph being laid out: the text so far, the length the current line is
/// counted as, and whether no word has been placed yet.
pub struct Layout {
    pub text: Seq<char>,
    pub len: int,
    pub first: bool,
}

/// Lays out `words` greedily in lines of at most `room` bytes of words and
/// spaces. Copies of the prefix are skipped. The first word follows the lead; a
/// word that would make the line longer than `room` starts a new line (with the
/// lead); any other word follows a space. The count restarts at the width of the
/// word that starts a line, plus one.
pub open spec fn layout(words: Seq<Seq<char>>, prefix: Seq<char>, room: int) -> Layout
    decreases words.len(),
{
    if words.len() == 0 {
        Layout { text: Seq::empty(), len: 0, first: true }
    } else {
        let f = layout(words.drop_last(), prefix, room);
        let w = words.last();
        if w == prefix {
            f
        } else {
            let len = f.len + byte_len(w);
            let over = len > room;
            let delim = if f.first {
                lead(prefix)
            } else if over {
                seq!['\n'] + lead(prefix)
            } else {
                seq![' ']
            };
            Layout {
                text: f.text + delim + w,
                len: if over {
                    (byte_len(w) + 1) as int
                } else {
                    len + 1
                },
                first: false,
            }
        }
    }
}

/// The paragraphs laid out one by one, joined by blank lines.
pub open spec fn laid_out(ps: Seq<Seq<char>>, prefix: Seq<char>, room: int) -> Seq<char>
    decreases ps.len(),
{
    if ps.len() == 0 {
        Seq::empty()
    } else if ps.len() == 1 {
        layout(words(ps[0]), prefix, room).text
    } else {
        laid_out(ps.drop_last(), prefix, room) + seq!['\n', '\n'] + layout(
            words(ps.last()),
            prefix,
            room,
        ).text
    }
}

/// The text reflowed to lines of at most `limit` bytes, each starting with the
/// prefix.
pub open spec fn justified(text: Seq<char>, prefix: Seq<char>, limit: int) -> Seq<char> {
    laid_out(paragraphs(text), prefix, line_limit(prefix, limit))
}

pub proof fn lemma_utf8_bytes_bound(s: Seq<char>, i: int, hi: int)
    requires
        0 <= i <= hi,
    ensures
        utf8_bytes(s, i, hi) <= 4 * (hi - i),
    decreases hi - i,
{
    if i < hi {
        lemma_utf8_bytes_bound(s, i + 1, hi);
    }
}

/// The length of `s` in bytes, encoded in UTF-8.
fn byte_count(s: &Vec<char>) -> (n: u128)
    ensures
        n == byte_len(s@),
        n <= 4 * s@.len(),
{
    let mut n: u128 = 0;
    let mut i: usize = s.len();
    while i > 0
        invariant
            0 <= i <= s@.len() <= usize::MAX,
            n == utf8_bytes(s@, i as int, s@.len() as int),
            n <= 4 * (s@.len() - i),
        decreases i,
    {
        n = n + utf8_width(s[i - 1]) as u128;
        i = i - 1;
    }
    n
}

/// Whether `a` and `b` hold the same characters.
fn same_chars(a: &Vec<char>, b: &Vec<char>) -> (r: bool)
    ensures
        r == (a@ == b@),
{
    if a.len() != b.len() {
        return false;
    }
    let mut i: usize = 0;
    while i < a.len()
        invariant
            0 <= i <= a@.len(),
            a@.len() == b@.len(),
            a@.subrange(0, i as int) == b@.subrange(0, i as int),
        decreases a@.len() - i,
    {
        if a[i] != b[i] {
            assert(a@[i as int] != b@[i as int]);
            return false;
        }
        assert(a@.subrange(0, i + 1) =~= a@.subrange(0, i as int).push(a@[i as int]));
        assert(b@.subrange(0, i + 1) =~= b@.subrange(0, i as int).push(b@[i as int]));
        i = i + 1;
    }
    assert(a@ =~= a@.subrange(0, i as int));
    assert(b@ =~= b@.subrange(0, i as int));
    true
}

/// Appends the characters of `s` to `out`.
fn append(out: &mut Vec<char>, s: &Vec<char>)
    ensures
        final(out)@ == old(out)@ + s@,
{
    let mut i: usize = 0;
    while i < s.len()
        invariant
            0 <= i <= s@.len(),
            out@ == old(out)@ + s@.subrange(0, i as int),
        decreases s@.len() - i,
    {
        out.push(s[i]);
        i = i + 1;
        assert(out@ =~= old(out)@ + s@.subrange(0, i as int));
    }
    assert(s@.subrange(0, i as int) =~= s@);
}

/// The views of a sequence of character vectors.
pub open spec fn char_views(v: Seq<Vec<char>>) -> Seq<Seq<char>> {
    v.map_values(|w: Vec<char>| w@)
}

/// Lays out one paragraph's words after `out`.
fn layout_into(ws: &Vec<Vec<char>>, prefix: &Vec<char>, lead_chars: &Vec<char>, room: u128, out: &mut Vec<char>)
    requires
        lead_chars@ == lead(prefix@),
        room <= usize::MAX,
    ensures
        final(out)@ == old(out)@ + layout(char_views(ws@), prefix@, room as int).text,
{
    let ghost views = char_views(ws@);
    let mut len: u128 = 0;
    let mut first = true;
    let mut i: usize = 0;
    assert(views.subrange(0, 0) =~= Seq::<Seq<char>>::empty());
    assert(out@ =~= old(out)@ + Seq::<char>::empty());
    while i < ws.len()
        invariant
            0 <= i <= ws@.len(),
            views == char_views(ws@),
            lead_chars@ == lead(prefix@),
            room <= usize::MAX,
            out@ == old(out)@ + layout(views.subrange(0, i as int), prefix@, room as int).text,
            len == layout(views.subrange(0, i as int), prefix@, room as int).len,
            first == layout(views.subrange(0, i as int), prefix@, room as int).first,
            len <= room + 2 + 4 * usize::MAX,
        decreases ws@.len() - i,
    {
        let ghost before = out@;
        let ghost done = views.subrange(0, i as int);
        assert(views.subrange(0, i + 1).drop_last() =~= done);
        assert(views.subrange(0, i + 1).last() == ws@[i as int]@);
        let w = &ws[i];
        assert(w.len() == w@.len());
        if !same_chars(w, prefix) {
            let wb = byte_count(w);
            let total = len + wb;
            let over = total > room;
            if first {
                append(out, lead_chars);
            } else if over {
                out.push('\n');
                append(out, lead_chars);
                assert(out@ =~= before + (seq!['\n'] + lead_chars@));
            } else {
                out.push(' ');
                assert(out@ =~= before + seq![' ']);
            }
            append(out, w);
            len = if over {
                wb + 1
            } else {
                total + 1
            };
            first = false;
        }
        i = i + 1;
        assert(out@ =~= old(out)@ + layout(views.subrange(0, i as int), prefix@, room as int).text);
    }
    assert(views.subrange(0, i as int) =~= views);
}

/// A reflow of selected text to lines of at most `limit` bytes.
pub struct Reflow {
    text: String,
    limit: usize,
}

impl Reflow {
    /// The selected text.
    pub closed spec fn text_view(&self) -> Seq<char> {
        self.text@
    }

    /// The longest a line may be, prefix included.
    pub closed spec fn limit_view(&self) -> nat {
        self.limit as nat
    }

    /// A reflow of `text` (the selection, as read from the buffer) to lines of at
    /// most `limit` bytes.
    pub fn new(text: String, limit: usize) -> (r: Reflow)
        ensures
            r.text_view() == text@,
            r.limit_view() == limit,
    {
        Reflow { text, limit }
    }

    /// The prefix that starts every line of the reflowed text.
    pub fn infer_prefix(&self) -> (r: Result<String, ReflowError>)
        ensures
            match inferred_prefix(self.text_view()) {
                Some(p) => r matches Ok(q) && q@ == p,
                None => r == Err::<String, ReflowError>(ReflowError::EmptySelection),
            },
            words(self.text_view()).len() > 0 && char_is_alphanumeric(words(self.text_view())[0][0]) ==> (r matches Ok(
                q,
            ) && q@.len() == 0),
            words(self.text_view()).len() > 0 && !char_is_alphanumeric(words(self.text_view())[0][0]) ==> (r matches Ok(
                q,
            ) && q@ == words(self.text_view())[0]),
    {
        let chars = chars_of(self.text.as_str());
        let ws = split_whitespace(&chars);
        if ws.len() == 0 {
            return Err(ReflowError::EmptySelection);
        }
        proof {
            lemma_words_nonempty(chars@, 0);
            assert(words(chars@)[0] == ws@[0]@);
        }
        let first = &ws[0];
        if is_alphanumeric(first[0]) {
            Ok(String::new())
        } else {
            Ok(string_from_chars(first))
        }
    }

    /// The selected text reflowed, each line starting with `prefix`.
    pub fn justify_str(&self, prefix: &str) -> (r: String)
        requires
            prefix@.len() > 0 ==> byte_len(prefix@) + 1 <= self.limit_view(),
        ensures
            r@ == justified(self.text_view(), prefix@, self.limit_view() as int),
    {
        let s = chars_of(self.text.as_str());
        let p = chars_of(prefix);
        let pb = byte_count(&p);
        let room: u128 = if p.len() == 0 {
            self.limit as u128
        } else {
            self.limit as u128 - (pb + 1)
        };
        let mut lead_chars: Vec<char> = Vec::new();
        if p.len() > 0 {
            append(&mut lead_chars, &p);
            lead_chars.push(' ');
            assert(lead_chars@ =~= p@.push(' '));
        } else {
            assert(lead_chars@ =~= Seq::<char>::empty());
        }
        let ghost all = paragraphs(s@);
        let ghost mut done: Seq<Seq<char>> = Seq::empty();
        let mut out: Vec<char> = Vec::new();
        let mut i: usize = 0;
        let mut more = true;
        let mut started = false;
        proof {
            lemma_next_break(s@, 0);
            assert(all =~= done + paragraphs_from(s@, 0));
        }
        while more
            invariant
                0 <= i <= s@.len(),
                lead_chars@ == lead(p@),
                room as int == line_limit(p@, self.limit as int),
                room <= usize::MAX,
                more ==> all == done + paragraphs_from(s@, i as int),
                !more ==> all == done,
                out@ == laid_out(done, p@, room as int),
                started == (done.len() > 0),
            decreases s@.len() - i + if more { 1int } else { 0int },
        {
            let mut b: usize = i;
            while b < s.len() && b + 1 < s.len() && !(s[b] == '\n' && s[b + 1] == '\n')
                invariant
                    i <= b <= s@.len(),
                    next_break(s@, i as int) == next_break(s@, b as int),
                decreases s@.len() - b,
            {
                b = b + 1;
            }
            let end: usize = if b < s.len() && b + 1 < s.len() {
                b
            } else {
                s.len()
            };
            assert(end == next_break(s@, i as int));
            proof {
                lemma_next_break(s@, i as int);
            }
            let mut piece: Vec<char> = Vec::new();
            let mut k: usize = i;
            while k < end
                invariant
                    i <= k <= end <= s@.len(),
                    piece@ == s@.subrange(i as int, k as int),
                decreases end - k,
            {
                piece.push(s[k]);
                k = k + 1;
                assert(piece@ =~= s@.subrange(i as int, k as int));
            }
            let ws = split_whitespace(&piece);
            assert(char_views(ws@) =~= words(piece@));
            let ghost before = out@;
            if started {
                out.push('\n');
                out.push('\n');
                assert(out@ =~= before + seq!['\n', '\n']);
            }
            layout_into(&ws, &p, &lead_chars, room, &mut out);
            proof {
                let rest = paragraphs_from(s@, i as int);
                let nd = done.push(piece@);
                assert(nd.drop_last() =~= done);
                if done.len() > 0 {
                    assert(out@ =~= laid_out(done, p@, room as int) + seq!['\n', '\n'] + layout(
                        words(piece@),
                        p@,
                        room as int,
                    ).text);
                } else {
                    assert(out@ =~= layout(words(piece@), p@, room as int).text);
                }
                assert(out@ == laid_out(nd, p@, room as int));
                if end < s.len() {
                    assert(rest =~= seq![piece@] + paragraphs_from(s@, end + 2));
                    assert(all =~= nd + paragraphs_from(s@, end + 2));
                } else {
                    assert(rest =~= seq![piece@]);
                    assert(all =~= nd);
                }
                done = nd;
            }
            started = true;
            if end < s.len() {
                i = end + 2;
            } else {
                i = s.len();
                more = false;
            }
        }
        string_from_chars(&out)
    }

    /// The reflowed selection: the prefix is inferred from the first word, and the
    /// text is laid out in lines of at most the limit, each starting with the prefix.
    pub fn apply(&self) -> (r: Result<String, ReflowError>)
        requires
            match inferred_prefix(self.text_view()) {
                Some(p) => p.len() > 0 ==> byte_len(p) + 1 <= self.limit_view(),
                None => true,
            },
        ensures
            match inferred_prefix(self.text_view()) {
                Some(p) => r matches Ok(t) && t@ == justified(self.text_view(), p, self.limit_view() as int),
                None => r == Err::<String, ReflowError>(ReflowError::EmptySelection),
            },
    {
        let prefix = match self.infer_prefix() {
            Ok(p) => p,
            Err(e) => return Err(e),
        };
        Ok(self.justify_str(prefix.as_str()))
    }
}

// ---------------------------------------------------------------------------
// Line lengths
// ---------------------------------------------------------------------------

/// Whether a line of reflowed text keeps to the limit: it is at most `limit`
/// bytes long, or it holds the lead and a single word (a word longer than a line
/// gets a line of its own).
pub open spec fn fits(line: Seq<char>, prefix: Seq<char>, limit: int) -> bool {
    byte_len(line) <= limit || exists|w: Seq<char>| plain_word(w) && line == lead(prefix) + w
}

/// Whether `s` holds no line feed.
pub open spec fn one_line(s: Seq<char>) -> bool {
    forall|i: int| 0 <= i < s.len() ==> s[i] != '\n'
}

proof fn lemma_utf8_bytes_append(a: Seq<char>, b: Seq<char>)
    ensures
        byte_len(a + b) == byte_len(a) + byte_len(b),
    decreases a.len(),
{
    assert((a + b).subrange(a.len() as int, (a + b).len() as int) =~= b);
    assert((a + b).subrange(0, a.len() as int) =~= a);
    lemma_utf8_bytes_shift(a + b, a.len() as int, b);
    lemma_utf8_bytes_split(a + b, a, 0);
}

/// The bytes of `s[k..]` are those of `b` when `s[k..] == b`.
proof fn lemma_utf8_bytes_shift(s: Seq<char>, k: int, b: Seq<char>)
    requires
        0 <= k <= s.len(),
        s.subrange(k, s.len() as int) == b,
    ensures
        utf8_bytes(s, k, s.len() as int) == byte_len(b),
    decreases s.len() - k,
{
    lemma_utf8_bytes_suffix(s, k, b, 0);
}

proof fn lemma_utf8_bytes_suffix(s: Seq<char>, k: int, b: Seq<char>, j: int)
    requires
        0 <= k <= s.len(),
        0 <= j <= b.len(),
        s.subrange(k, s.len() as int) == b,
    ensures
        utf8_bytes(s, k + j, s.len() as int) == utf8_bytes(b, j, b.len() as int),
    decreases b.len() - j,
{
    if j < b.len() {
        assert(s[k + j] == b[j]);
        lemma_utf8_bytes_suffix(s, k, b, j + 1);
    }
}

/// The bytes of `s[i..]` are those of `a[i..]` and then of `s[a.len()..]`, when `s`
/// starts with `a`.
proof fn lemma_utf8_bytes_split(s: Seq<char>, a: Seq<char>, i: int)
    requires
        a.len() <= s.len(),
        s.subrange(0, a.len() as int) == a,
        0 <= i <= a.len(),
    ensures
        utf8_bytes(s, i, s.len() as int) == utf8_bytes(a, i, a.len() as int) + utf8_bytes(
            s,
            a.len() as int,
            s.len() as int,
        ),
    decreases a.len() - i,
{
    if i < a.len() {
        assert(s[i] == a[i]);
        lemma_utf8_bytes_split(s, a, i + 1);
    }
}

/// A text without line feeds is a single line.
proof fn lemma_pieces_one_line(s: Seq<char>)
    requires
        one_line(s),
    ensures
        pieces(s) == seq![s],
    decreases s.len(),
{
    if s.len() > 0 {
        lemma_pieces_one_line(s.drop_last());
        assert(s.drop_last().push(s.last()) =~= s);
    } else {
        assert(s =~= Seq::<char>::empty());
    }
}

/// Appending text without line feeds extends the last line.
proof fn lemma_pieces_extend(a: Seq<char>, b: Seq<char>)
    requires
        one_line(b),
    ensures
        pieces(a + b) == pieces(a).update(pieces(a).len() - 1, pieces(a).last() + b),
    decreases b.len(),
{
    lemma_pieces_nonempty(a);
    if b.len() == 0 {
        assert(a + b =~= a);
        assert(pieces(a).last() + b =~= pieces(a).last());
        assert(pieces(a).update(pieces(a).len() - 1, pieces(a).last()) =~= pieces(a));
    } else {
        let b0 = b.drop_last();
        assert forall|i: int| 0 <= i < b0.len() implies b0[i] != '\n' by {
            assert(b0[i] == b[i]);
        }
        lemma_pieces_extend(a, b0);
        assert((a + b).drop_last() =~= a + b0);
        assert((a + b).last() == b.last());
        assert(b.last() != '\n');
        lemma_pieces_nonempty(a + b0);
        let p0 = pieces(a + b0);
        assert(p0.len() == pieces(a).len());
        assert(p0.last() == pieces(a).last() + b0);
        assert(pieces(a + b) == p0.update(p0.len() - 1, p0.last().push(b.last())));
        assert((pieces(a).last() + b0).push(b.last()) =~= pieces(a).last() + b);
        assert(pieces(a + b) =~= pieces(a).update(pieces(a).len() - 1, pieces(a).last() + b));
    }
}

/// A line feed between two texts puts the lines of the second after those of the first.
proof fn lemma_pieces_break(a: Seq<char>, b: Seq<char>)
    ensures
        pieces(a + seq!['\n'] + b) == pieces(a) + pieces(b),
    decreases b.len(),
{
    lemma_pieces_nonempty(a);
    lemma_pieces_nonempty(b);
    if b.len() == 0 {
        assert(a + seq!['\n'] + b =~= a.push('\n'));
        assert(a.push('\n').drop_last() =~= a);
        assert(pieces(b) =~= seq![Seq::<char>::empty()]);
        assert(pieces(a + seq!['\n'] + b) =~= pieces(a) + pieces(b));
    } else {
        let b0 = b.drop_last();
        lemma_pieces_break(a, b0);
        lemma_pieces_nonempty(b0);
        assert((a + seq!['\n'] + b).drop_last() =~= a + seq!['\n'] + b0);
        assert((a + seq!['\n'] + b).last() == b.last());
        let p = pieces(a) + pieces(b0);
        if b.last() == '\n' {
            assert(pieces(a + seq!['\n'] + b) =~= p.push(Seq::<char>::empty()));
            assert(pieces(b) =~= pieces(b0).push(Seq::<char>::empty()));
            assert(p.push(Seq::<char>::empty()) =~= pieces(a) + pieces(b));
        } else {
            assert(pieces(b) =~= pieces(b0).update(pieces(b0).len() - 1, pieces(b0).last().push(b.last())));
            assert(p.update(p.len() - 1, p.last().push(b.last())) =~= pieces(a) + pieces(b));
        }
    }
}

pub proof fn lemma_lead(prefix: Seq<char>)
    requires
        prefix.len() == 0 || plain_word(prefix),
    ensures
        one_line(lead(prefix)),
        prefix.len() > 0 ==> byte_len(lead(prefix)) == byte_len(prefix) + 1,
        prefix.len() == 0 ==> byte_len(lead(prefix)) == 0,
{
    if prefix.len() > 0 {
        assert forall|i: int| 0 <= i < lead(prefix).len() implies lead(prefix)[i] != '\n' by {
            if i < prefix.len() {
                assert(!spec_is_whitespace(prefix[i]));
            }
        }
        lemma_utf8_bytes_append(prefix, seq![' ']);
        assert(prefix.push(' ') =~= prefix + seq![' ']);
        assert(utf8_bytes(seq![' '], 1, 1) == 0);
        assert(byte_len(seq![' ']) == 1);
    }
}

proof fn lemma_plain_one_line(w: Seq<char>)
    requires
        plain_word(w),
    ensures
        one_line(w),
{
    assert forall|i: int| 0 <= i < w.len() implies w[i] != '\n' by {
        assert(!spec_is_whitespace(w[i]));
    }
}

/// Laying out words keeps every finished line within the room (with the lead in
/// front), and the current line is counted exactly: its bytes are the lead's and
/// the count less one.
proof fn lemma_layout_lines(words: Seq<Seq<char>>, prefix: Seq<char>, room: int)
    requires
        forall|i: int| 0 <= i < words.len() ==> plain_word(#[trigger] words[i]),
        prefix.len() == 0 || plain_word(prefix),
    ensures
        ({
            let f = layout(words, prefix, room);
            let ps = pieces(f.text);
            &&& f.first ==> f.text == Seq::<char>::empty() && f.len == 0
            &&& !f.first ==> {
                &&& forall|i: int| 0 <= i < ps.len() - 1 ==> fits(#[trigger] ps[i], prefix, byte_len(lead(prefix)) + room)
                &&& byte_len(ps.last()) == byte_len(lead(prefix)) + f.len - 1
                &&& (f.len - 1 <= room || exists|w: Seq<char>| plain_word(w) && ps.last() == lead(prefix) + w)
            }
        }),
    decreases words.len(),
{
    lemma_lead(prefix);
    lemma_pieces_nonempty(layout(words, prefix, room).text);
    let lb = byte_len(lead(prefix));
    if words.len() > 0 {
        let ws = words.drop_last();
        assert forall|i: int| 0 <= i < ws.len() implies plain_word(#[trigger] ws[i]) by {
            assert(ws[i] == words[i]);
        }
        lemma_layout_lines(ws, prefix, room);
        let f = layout(ws, prefix, room);
        let w = words.last();
        assert(plain_word(w));
        lemma_plain_one_line(w);
        if w != prefix {
            let len = f.len + byte_len(w);
            let over = len > room;
            let g = layout(words, prefix, room);
            let l = lead(prefix);
            if f.first {
                assert(g.text =~= l + w);
                lemma_pieces_one_line(l + w);
                lemma_utf8_bytes_append(l, w);
                assert(g.len == byte_len(w) + 1);
            } else if over {
                assert(g.text =~= f.text + seq!['\n'] + (l + w));
                lemma_pieces_break(f.text, l + w);
                lemma_pieces_one_line(l + w);
                lemma_utf8_bytes_append(l, w);
                let ps = pieces(f.text);
                let qs = pieces(g.text);
                assert(qs =~= ps + seq![l + w]);
                assert forall|i: int| 0 <= i < qs.len() - 1 implies fits(#[trigger] qs[i], prefix, lb + room) by {
                    assert(qs[i] == ps[i]);
                    if i == ps.len() - 1 {
                        if f.len - 1 <= room {
                            assert(byte_len(ps[i]) <= lb + room);
                        }
                    }
                }
            } else {
                let tail = seq![' '] + w;
                assert(g.text =~= f.text + tail);
                assert forall|i: int| 0 <= i < tail.len() implies tail[i] != '\n' by {
                    if i > 0 {
                        assert(tail[i] == w[i - 1]);
                    }
                }
                lemma_pieces_extend(f.text, tail);
                lemma_pieces_nonempty(f.text);
                let ps = pieces(f.text);
                let qs = pieces(g.text);
                assert(qs.last() == ps.last() + tail);
                lemma_utf8_bytes_append(ps.last(), tail);
                lemma_utf8_bytes_append(seq![' '], w);
                assert(utf8_bytes(seq![' '], 1, 1) == 0);
                assert(byte_len(seq![' ']) == 1);
                assert(byte_len(qs.last()) == byte_len(ps.last()) + 1 + byte_len(w));
                assert forall|i: int| 0 <= i < qs.len() - 1 implies fits(#[trigger] qs[i], prefix, lb + room) by {
                    assert(qs[i] == ps[i]);
                }
            }
        }
    }
}


/// Every line of a laid out paragraph keeps to `limit`, the room and the lead together.
proof fn lemma_layout_fits(words: Seq<Seq<char>>, prefix: Seq<char>, room: int)
    requires
        forall|i: int| 0 <= i < words.len() ==> plain_word(#[trigger] words[i]),
        prefix.len() == 0 || plain_word(prefix),
        byte_len(lead(prefix)) + room >= 0,
    ensures
        forall|i: int|
            0 <= i < pieces(layout(words, prefix, room).text).len() ==> fits(
                #[trigger] pieces(layout(words, prefix, room).text)[i],
                prefix,
                byte_len(lead(prefix)) + room,
            ),
{
    lemma_layout_lines(words, prefix, room);
    let f = layout(words, prefix, room);
    let ps = pieces(f.text);
    lemma_pieces_nonempty(f.text);
    if f.first {
        assert(ps =~= seq![Seq::<char>::empty()]);
        assert(byte_len(ps[0]) == 0);
    } else {
        assert forall|i: int| 0 <= i < ps.len() implies fits(#[trigger] ps[i], prefix, byte_len(lead(prefix)) + room) by {
            if i == ps.len() - 1 {
                if f.len - 1 <= room {
                    assert(byte_len(ps[i]) <= byte_len(lead(prefix)) + room);
                } else {
                    let w = choose|w: Seq<char>| plain_word(w) && ps.last() == lead(prefix) + w;
                    assert(plain_word(w) && ps[i] == lead(prefix) + w);
                }
            }
        }
    }
}

/// Every line of paragraphs laid out and joined by blank lines keeps to `limit`.
proof fn lemma_laid_out_fits(paras: Seq<Seq<char>>, prefix: Seq<char>, room: int)
    requires
        prefix.len() == 0 || plain_word(prefix),
        byte_len(lead(prefix)) + room >= 0,
    ensures
        forall|i: int|
            0 <= i < pieces(laid_out(paras, prefix, room)).len() ==> fits(
                #[trigger] pieces(laid_out(paras, prefix, room))[i],
                prefix,
                byte_len(lead(prefix)) + room,
            ),
    decreases paras.len(),
{
    let limit = byte_len(lead(prefix)) + room;
    let t = laid_out(paras, prefix, room);
    if paras.len() == 0 {
        assert(pieces(t) =~= seq![Seq::<char>::empty()]);
        assert(byte_len(pieces(t)[0]) == 0);
    } else {
        let last = words(paras.last());
        lemma_words_plain(paras.last(), 0);
        lemma_layout_fits(last, prefix, room);
        if paras.len() == 1 {
            assert(paras.last() == paras[0]);
        } else {
            let a = laid_out(paras.drop_last(), prefix, room);
            let b = layout(last, prefix, room).text;
            lemma_laid_out_fits(paras.drop_last(), prefix, room);
            assert(t =~= a + seq!['\n'] + (Seq::<char>::empty() + seq!['\n'] + b));
            lemma_pieces_break(a, Seq::<char>::empty() + seq!['\n'] + b);
            lemma_pieces_break(Seq::<char>::empty(), b);
            let e = Seq::<char>::empty();
            assert(pieces(e) =~= seq![e]);
            let qs = pieces(t);
            assert(qs =~= pieces(a) + (seq![e] + pieces(b)));
            assert forall|i: int| 0 <= i < qs.len() implies fits(#[trigger] qs[i], prefix, limit) by {
                if i < pieces(a).len() {
                    assert(qs[i] == pieces(a)[i]);
                } else if i == pieces(a).len() {
                    assert(qs[i] == e);
                    assert(byte_len(e) == 0);
                } else {
                    assert(qs[i] == pieces(b)[i - pieces(a).len() - 1]);
                }
            }
        }
    }
}

/// Every line of a reflowed text keeps to the limit: it is at most `limit` bytes
/// long, or it holds the prefix and a single word that alone would not fit.
pub proof fn law_reflowed_lines_fit(text: Seq<char>, limit: nat)
    requires
        inferred_prefix(text) is Some,
        inferred_prefix(text)->0.len() > 0 ==> byte_len(inferred_prefix(text)->0) + 1 <= limit,
    ensures
        ({
            let prefix = inferred_prefix(text)->0;
            let lines = pieces(justified(text, prefix, limit as int));
            forall|i: int| 0 <= i < lines.len() ==> fits(#[trigger] lines[i], prefix, limit as int)
        }),
{
    let prefix = inferred_prefix(text)->0;
    let ws = words(text);
    if prefix.len() > 0 {
        lemma_words_plain(text, 0);
        assert(plain_word(ws[0]));
    }
    lemma_lead(prefix);
    let room = line_limit(prefix, limit as int);
    assert(byte_len(lead(prefix)) + room == limit);
    lemma_laid_out_fits(paragraphs(text), prefix, room);
}

// ---------------------------------------------------------------------------
// Words
// ---------------------------------------------------------------------------

/// Whether `a` and `b` meet at whitespace (or one of them is empty), so that no
/// word runs across the place where they meet.
pub open spec fn meet_at_space(a: Seq<char>, b: Seq<char>) -> bool {
    a.len() == 0 || spec_is_whitespace(a.last()) || b.len() == 0 || spec_is_whitespace(b[0])
}

proof fn lemma_next_whitespace_shift(a: Seq<char>, b: Seq<char>, j: int)
    requires
        0 <= j <= b.len(),
    ensures
        next_whitespace(a + b, a.len() + j) == a.len() + next_whitespace(b, j),
    decreases b.len() - j,
{
    if j < b.len() {
        assert((a + b)[a.len() + j] == b[j]);
        if !spec_is_whitespace(b[j]) {
            lemma_next_whitespace_shift(a, b, j + 1);
        }
    }
}

proof fn lemma_words_shift(a: Seq<char>, b: Seq<char>, j: int)
    requires
        0 <= j <= b.len(),
    ensures
        words_from(a + b, a.len() + j) == words_from(b, j),
    decreases b.len() - j,
{
    if j < b.len() {
        assert((a + b)[a.len() + j] == b[j]);
        if spec_is_whitespace(b[j]) {
            lemma_words_shift(a, b, j + 1);
        } else {
            lemma_next_whitespace_shift(a, b, j);
            lemma_next_whitespace_bounds(b, j);
            let e = next_whitespace(b, j);
            lemma_words_shift(a, b, e);
            assert((a + b).subrange(a.len() + j, a.len() + e) =~= b.subrange(j, e));
        }
    }
}

proof fn lemma_next_whitespace_prefix(a: Seq<char>, b: Seq<char>, i: int)
    requires
        0 <= i <= a.len(),
        i < a.len() || b.len() == 0 || spec_is_whitespace(b[0]),
        meet_at_space(a, b),
    ensures
        next_whitespace(a + b, i) == next_whitespace(a, i),
    decreases a.len() - i,
{
    if i < a.len() {
        assert((a + b)[i] == a[i]);
        if !spec_is_whitespace(a[i]) {
            if i + 1 == a.len() {
                assert(a.last() == a[i]);
            }
            lemma_next_whitespace_prefix(a, b, i + 1);
        }
    } else {
        if b.len() > 0 {
            assert((a + b)[i] == b[0]);
        }
    }
}

proof fn lemma_words_prefix(a: Seq<char>, b: Seq<char>, i: int)
    requires
        0 <= i <= a.len(),
        meet_at_space(a, b),
    ensures
        words_from(a + b, i) == words_from(a, i) + words_from(a + b, a.len() as int),
    decreases a.len() - i,
{
    if i == a.len() {
        assert(words_from(a, i) =~= Seq::<Seq<char>>::empty());
        assert(words_from(a + b, i) =~= words_from(a, i) + words_from(a + b, a.len() as int));
    } else {
        assert((a + b)[i] == a[i]);
        if spec_is_whitespace(a[i]) {
            lemma_words_prefix(a, b, i + 1);
        } else {
            lemma_next_whitespace_prefix(a, b, i);
            lemma_next_whitespace_bounds(a, i);
            let e = next_whitespace(a, i);
            lemma_words_prefix(a, b, e);
            assert((a + b).subrange(i, e) =~= a.subrange(i, e));
            assert(words_from(a + b, i) =~= words_from(a, i) + words_from(a + b, a.len() as int));
        }
    }
}

/// Texts that meet at whitespace have the words of the first, then those of the second.
pub proof fn lemma_words_concat(a: Seq<char>, b: Seq<char>)
    requires
        meet_at_space(a, b),
    ensures
        words(a + b) == words(a) + words(b),
{
    lemma_words_prefix(a, b, 0);
    lemma_words_shift(a, b, 0);
}

proof fn lemma_words_of_plain(w: Seq<char>)
    requires
        plain_word(w),
    ensures
        words(w) == seq![w],
{
    assert forall|i: int| 0 <= i <= w.len() implies next_whitespace(w, i) == w.len() by {
        lemma_next_whitespace_plain(w, i);
    }
    assert(words_from(w, w.len() as int) =~= Seq::<Seq<char>>::empty());
    assert(w.subrange(0, w.len() as int) =~= w);
    assert(words(w) =~= seq![w]);
}

proof fn lemma_next_whitespace_plain(w: Seq<char>, i: int)
    requires
        plain_word(w),
        0 <= i <= w.len(),
    ensures
        next_whitespace(w, i) == w.len(),
    decreases w.len() - i,
{
    if i < w.len() {
        assert(!spec_is_whitespace(w[i]));
        lemma_next_whitespace_plain(w, i + 1);
    }
}

proof fn lemma_words_of_space()
    ensures
        words(seq![' ']) == Seq::<Seq<char>>::empty(),
        words(seq!['\n']) == Seq::<Seq<char>>::empty(),
        words(seq!['\n', '\n']) == Seq::<Seq<char>>::empty(),
        spec_is_whitespace(' '),
        spec_is_whitespace('\n'),
{
    assert(spec_is_whitespace(' '));
    assert(spec_is_whitespace('\n'));
    assert(words_from(seq![' '], 1) =~= Seq::<Seq<char>>::empty());
    assert(words_from(seq!['\n'], 1) =~= Seq::<Seq<char>>::empty());
    assert(words_from(seq!['\n', '\n'], 2) =~= Seq::<Seq<char>>::empty());
    assert(words_from(seq!['\n', '\n'], 1) =~= Seq::<Seq<char>>::empty());
}

/// The words other than `p`, in order.
pub open spec fn without(ws: Seq<Seq<char>>, p: Seq<char>) -> Seq<Seq<char>>
    decreases ws.len(),
{
    if ws.len() == 0 {
        Seq::empty()
    } else if ws.last() == p {
        without(ws.drop_last(), p)
    } else {
        without(ws.drop_last(), p).push(ws.last())
    }
}

proof fn lemma_without_concat(a: Seq<Seq<char>>, b: Seq<Seq<char>>, p: Seq<char>)
    ensures
        without(a + b, p) == without(a, p) + without(b, p),
    decreases b.len(),
{
    if b.len() == 0 {
        assert(a + b =~= a);
        assert(without(a, p) + without(b, p) =~= without(a, p));
    } else {
        lemma_without_concat(a, b.drop_last(), p);
        assert((a + b).drop_last() =~= a + b.drop_last());
        assert((a + b).last() == b.last());
        if b.last() != p {
            assert(without(a, p) + without(b, p) =~= (without(a, p) + without(b.drop_last(), p)).push(b.last()));
        }
    }
}

proof fn lemma_without_single(w: Seq<char>, p: Seq<char>)
    ensures
        w != p ==> without(seq![w], p) == seq![w],
        w == p ==> without(seq![w], p) == Seq::<Seq<char>>::empty(),
{
    assert(seq![w].drop_last() =~= Seq::<Seq<char>>::empty());
    assert(seq![w].last() == w);
    assert(without(Seq::<Seq<char>>::empty(), p) == Seq::<Seq<char>>::empty());
    assert(Seq::<Seq<char>>::empty().push(w) =~= seq![w]);
}

/// The words of the lead: the prefix, if there is one.
proof fn lemma_words_of_lead(prefix: Seq<char>)
    requires
        prefix.len() == 0 || plain_word(prefix),
    ensures
        without(words(lead(prefix)), prefix) == Seq::<Seq<char>>::empty(),
        lead(prefix).len() == 0 || spec_is_whitespace(lead(prefix).last()),
{
    lemma_words_of_space();
    if prefix.len() == 0 {
        assert(words(lead(prefix)) =~= Seq::<Seq<char>>::empty());
    } else {
        assert(lead(prefix) =~= prefix + seq![' ']);
        lemma_words_concat(prefix, seq![' ']);
        lemma_words_of_plain(prefix);
        assert(words(lead(prefix)) =~= seq![prefix]);
        lemma_without_single(prefix, prefix);
    }
}

/// A paragraph laid out holds its words, and the copies of the prefix that
/// start its lines, in order.
proof fn lemma_layout_words(ws: Seq<Seq<char>>, prefix: Seq<char>, room: int)
    requires
        forall|i: int| 0 <= i < ws.len() ==> plain_word(#[trigger] ws[i]),
        prefix.len() == 0 || plain_word(prefix),
    ensures
        without(words(layout(ws, prefix, room).text), prefix) == without(ws, prefix),
        layout(ws, prefix, room).first ==> layout(ws, prefix, room).text.len() == 0,
        !layout(ws, prefix, room).first ==> layout(ws, prefix, room).text.len() > 0
            && !spec_is_whitespace(layout(ws, prefix, room).text.last()),
    decreases ws.len(),
{
    lemma_words_of_space();
    lemma_words_of_lead(prefix);
    if ws.len() == 0 {
        assert(words(Seq::<char>::empty()) =~= Seq::<Seq<char>>::empty());
    } else {
        let pre = ws.drop_last();
        assert forall|i: int| 0 <= i < pre.len() implies plain_word(#[trigger] pre[i]) by {
            assert(pre[i] == ws[i]);
        }
        lemma_layout_words(pre, prefix, room);
        let f = layout(pre, prefix, room);
        let w = ws.last();
        assert(plain_word(w));
        if w != prefix {
            let g = layout(ws, prefix, room);
            let l = lead(prefix);
            lemma_words_of_plain(w);
            assert(w.len() > 0 && !spec_is_whitespace(w.last()));
            let tail = if f.first {
                l + w
            } else if f.len + byte_len(w) > room {
                seq!['\n'] + (l + w)
            } else {
                seq![' '] + w
            };
            assert(g.text =~= f.text + tail);
            assert(g.text.last() == w.last());
            lemma_words_concat(l, w);
            let lw = words(l + w);
            lemma_without_single(w, prefix);
            assert(without(lw, prefix) =~= seq![w]) by {
                lemma_without_concat(words(l), seq![w], prefix);
            }
            if f.first {
                assert(f.text + tail =~= tail);
                assert(without(words(tail), prefix) == seq![w]);
            } else if f.len + byte_len(w) > room {
                lemma_words_concat(seq!['\n'], l + w);
                assert(words(tail) =~= lw);
            } else {
                lemma_words_concat(seq![' '], w);
                assert(words(tail) =~= seq![w]);
            }
            if !f.first {
                lemma_words_concat(f.text, tail);
                lemma_without_concat(words(f.text), words(tail), prefix);
            }
            assert(without(ws, prefix) =~= without(pre, prefix) + seq![w]);
        }
    }
}

/// The words of the paragraphs, one paragraph after the other.
pub open spec fn paragraph_words(ps: Seq<Seq<char>>) -> Seq<Seq<char>>
    decreases ps.len(),
{
    if ps.len() == 0 {
        Seq::empty()
    } else {
        paragraph_words(ps.drop_last()) + words(ps.last())
    }
}

proof fn lemma_paragraph_words_single(ps: Seq<Seq<char>>)
    requires
        ps.len() == 1,
    ensures
        paragraph_words(ps) == words(ps[0]),
{
    assert(ps.drop_last() =~= Seq::<Seq<char>>::empty());
    assert(paragraph_words(Seq::<Seq<char>>::empty()) == Seq::<Seq<char>>::empty());
    assert(Seq::<Seq<char>>::empty() + words(ps[0]) =~= words(ps[0]));
    assert(ps.last() == ps[0]);
}

proof fn lemma_paragraph_words_cons(x: Seq<char>, rest: Seq<Seq<char>>)
    ensures
        paragraph_words(seq![x] + rest) == words(x) + paragraph_words(rest),
    decreases rest.len(),
{
    if rest.len() == 0 {
        assert(seq![x] + rest =~= seq![x]);
        lemma_paragraph_words_single(seq![x]);
        assert(words(x) + paragraph_words(rest) =~= words(x));
    } else {
        lemma_paragraph_words_cons(x, rest.drop_last());
        assert((seq![x] + rest).drop_last() =~= seq![x] + rest.drop_last());
        assert((seq![x] + rest).last() == rest.last());
        assert(words(x) + paragraph_words(rest) =~= words(x) + paragraph_words(rest.drop_last()) + words(rest.last()));
    }
}

/// Paragraphs laid out and joined by blank lines hold their words, and copies
/// of the prefix, in order.
proof fn lemma_laid_out_words(ps: Seq<Seq<char>>, prefix: Seq<char>, room: int)
    requires
        prefix.len() == 0 || plain_word(prefix),
    ensures
        without(words(laid_out(ps, prefix, room)), prefix) == without(paragraph_words(ps), prefix),
    decreases ps.len(),
{
    lemma_words_of_space();
    if ps.len() == 0 {
        assert(words(Seq::<char>::empty()) =~= Seq::<Seq<char>>::empty());
    } else {
        let x = ps.last();
        lemma_words_plain(x, 0);
        lemma_layout_words(words(x), prefix, room);
        let b = layout(words(x), prefix, room).text;
        if ps.len() == 1 {
            assert(x == ps[0]);
            lemma_paragraph_words_single(ps);
        } else {
            let a = laid_out(ps.drop_last(), prefix, room);
            lemma_laid_out_words(ps.drop_last(), prefix, room);
            let nn = seq!['\n', '\n'];
            assert(laid_out(ps, prefix, room) =~= a + (nn + b));
            lemma_words_concat(a, nn + b);
            lemma_words_concat(nn, b);
            assert(words(nn + b) =~= words(b));
            lemma_without_concat(words(a), words(b), prefix);
            lemma_without_concat(paragraph_words(ps.drop_last()), words(x), prefix);
        }
    }
}

/// The words of `s[i..]` are those of its paragraphs, one after the other.
proof fn lemma_words_paragraphs(s: Seq<char>, i: int)
    requires
        0 <= i <= s.len(),
    ensures
        words_from(s, i) == paragraph_words(paragraphs_from(s, i)),
    decreases s.len() - i,
{
    lemma_words_of_space();
    lemma_next_break(s, i);
    let b = next_break(s, i);
    let rest = s.subrange(i, s.len() as int);
    assert(s =~= s.subrange(0, i) + rest);
    lemma_words_shift(s.subrange(0, i), rest, 0);
    assert(words_from(s, i) == words(rest));
    if b >= s.len() {
        assert(paragraphs_from(s, i) == seq![rest]);
        lemma_paragraph_words_single(seq![rest]);
    } else {
        let x = s.subrange(i, b);
        let y = s.subrange(b, s.len() as int);
        assert(rest =~= x + y);
        assert(y[0] == s[b]);
        lemma_words_concat(x, y);
        assert(s =~= s.subrange(0, b) + y);
        lemma_words_shift(s.subrange(0, b), y, 0);
        assert(words_from(s, b) == words_from(s, b + 1));
        assert(words_from(s, b + 1) == words_from(s, b + 2));
        lemma_words_paragraphs(s, b + 2);
        assert(paragraphs_from(s, i) == seq![x] + paragraphs_from(s, b + 2));
        lemma_paragraph_words_cons(x, paragraphs_from(s, b + 2));
    }
}

/// Reflowing keeps the words of the text, in order: apart from the copies of
/// the prefix (which start every line), the reflowed text has exactly the words
/// of the selection.
pub proof fn law_reflow_keeps_words(text: Seq<char>, prefix: Seq<char>, limit: int)
    requires
        prefix.len() == 0 || plain_word(prefix),
    ensures
        without(words(justified(text, prefix, limit)), prefix) == without(words(text), prefix),
{
    lemma_words_paragraphs(text, 0);
    lemma_laid_out_words(paragraphs(text), prefix, line_limit(prefix, limit));
}

// ---------------------------------------------------------------------------
// Filled lines
// ---------------------------------------------------------------------------

/// Whether `line` starts with the lead and then the word `w`, which ends the line
/// or is followed by a space.
pub open spec fn opens_with(line: Seq<char>, prefix: Seq<char>, w: Seq<char>) -> bool {
    let head = lead(prefix) + w;
    &&& plain_word(w)
    &&& head.len() <= line.len()
    &&& line.subrange(0, head.len() as int) == head
    &&& (line.len() == head.len() || line[head.len() as int] == ' ')
}

/// Whether each line was filled before the next began: of two lines in a row,
/// neither empty, the first followed by a space and the second's first word
/// would be longer than `limit`.
pub open spec fn filled(lines: Seq<Seq<char>>, prefix: Seq<char>, limit: int) -> bool {
    forall|k: int|
        #![trigger lines[k]]
        0 <= k < lines.len() - 1 && lines[k].len() > 0 && lines[k + 1].len() > 0 ==> exists|w: Seq<char>|
            #[trigger] opens_with(lines[k + 1], prefix, w) && byte_len(lines[k]) + 1 + byte_len(w) > limit
}

proof fn lemma_opens_with_extended(line: Seq<char>, prefix: Seq<char>, w: Seq<char>, tail: Seq<char>)
    requires
        opens_with(line, prefix, w),
        tail.len() > 0,
        tail[0] == ' ',
    ensures
        opens_with(line + tail, prefix, w),
{
    let head = lead(prefix) + w;
    assert((line + tail).subrange(0, head.len() as int) =~= line.subrange(0, head.len() as int));
    if line.len() == head.len() {
        assert((line + tail)[head.len() as int] == tail[0]);
    } else {
        assert((line + tail)[head.len() as int] == line[head.len() as int]);
    }
}

/// Laying out words fills each line before starting the next.
proof fn lemma_layout_filled(words: Seq<Seq<char>>, prefix: Seq<char>, room: int)
    requires
        forall|i: int| 0 <= i < words.len() ==> plain_word(#[trigger] words[i]),
        prefix.len() == 0 || plain_word(prefix),
    ensures
        filled(pieces(layout(words, prefix, room).text), prefix, byte_len(lead(prefix)) + room),
    decreases words.len(),
{
    lemma_lead(prefix);
    lemma_layout_lines(words, prefix, room);
    let limit = byte_len(lead(prefix)) + room;
    let g = layout(words, prefix, room);
    lemma_pieces_nonempty(g.text);
    if words.len() == 0 {
        assert(pieces(g.text) =~= seq![Seq::<char>::empty()]);
    } else {
        let ws = words.drop_last();
        assert forall|i: int| 0 <= i < ws.len() implies plain_word(#[trigger] ws[i]) by {
            assert(ws[i] == words[i]);
        }
        lemma_layout_filled(ws, prefix, room);
        lemma_layout_lines(ws, prefix, room);
        let f = layout(ws, prefix, room);
        let w = words.last();
        assert(plain_word(w));
        lemma_plain_one_line(w);
        if w != prefix {
            let l = lead(prefix);
            let ps = pieces(f.text);
            let qs = pieces(g.text);
            lemma_pieces_nonempty(f.text);
            if f.first {
                assert(g.text =~= l + w);
                lemma_pieces_one_line(l + w);
                assert(qs.len() == 1);
            } else if f.len + byte_len(w) > room {
                assert(g.text =~= f.text + seq!['\n'] + (l + w));
                lemma_pieces_break(f.text, l + w);
                lemma_pieces_one_line(l + w);
                lemma_utf8_bytes_append(l, w);
                assert(qs =~= ps + seq![l + w]);
                assert forall|k: int|
                    #![trigger qs[k]]
                    0 <= k < qs.len() - 1 && qs[k].len() > 0 && qs[k + 1].len() > 0 implies exists|v: Seq<char>|
                        #[trigger] opens_with(qs[k + 1], prefix, v) && byte_len(qs[k]) + 1 + byte_len(v) > limit by {
                    assert(qs[k] == ps[k]);
                    if k == ps.len() - 1 {
                        assert(qs[k + 1] == l + w);
                        assert((l + w).subrange(0, (l + w).len() as int) =~= l + w);
                        assert(opens_with(qs[k + 1], prefix, w));
                    } else {
                        assert(qs[k + 1] == ps[k + 1]);
                        assert(ps[k].len() > 0 && ps[k + 1].len() > 0);
                    }
                }
            } else {
                let tail = seq![' '] + w;
                assert(g.text =~= f.text + tail);
                assert forall|i: int| 0 <= i < tail.len() implies tail[i] != '\n' by {
                    if i > 0 {
                        assert(tail[i] == w[i - 1]);
                    }
                }
                lemma_pieces_extend(f.text, tail);
                assert(qs.len() == ps.len());
                assert(qs.last() == ps.last() + tail);
                assert forall|k: int|
                    #![trigger qs[k]]
                    0 <= k < qs.len() - 1 && qs[k].len() > 0 && qs[k + 1].len() > 0 implies exists|v: Seq<char>|
                        #[trigger] opens_with(qs[k + 1], prefix, v) && byte_len(qs[k]) + 1 + byte_len(v) > limit by {
                    assert(qs[k] == ps[k]);
                    if k == ps.len() - 2 {
                        assert(ps[k].len() > 0);
                        if ps.last().len() > 0 {
                            assert(ps[k + 1] == ps.last());
                            let v = choose|v: Seq<char>|
                                #[trigger] opens_with(ps[k + 1], prefix, v) && byte_len(ps[k]) + 1 + byte_len(v) > limit;
                            lemma_opens_with_extended(ps.last(), prefix, v, tail);
                            assert(qs[k + 1] == ps.last() + tail);
                        } else {
                            lemma_layout_words(ws, prefix, room);
                            lemma_words_of_space();
                            assert(f.text.last() != '\n');
                            lemma_pieces_nonempty(f.text.drop_last());
                            assert(ps.last() == pieces(f.text.drop_last()).last().push(f.text.last()));
                            assert(false);
                        }
                    } else {
                        assert(qs[k + 1] == ps[k + 1]);
                    }
                }
            }
        }
    }
}

/// Paragraphs laid out and joined by blank lines are filled.
proof fn lemma_laid_out_filled(paras: Seq<Seq<char>>, prefix: Seq<char>, room: int)
    requires
        prefix.len() == 0 || plain_word(prefix),
    ensures
        filled(pieces(laid_out(paras, prefix, room)), prefix, byte_len(lead(prefix)) + room),
    decreases paras.len(),
{
    let limit = byte_len(lead(prefix)) + room;
    let t = laid_out(paras, prefix, room);
    if paras.len() == 0 {
        assert(pieces(t) =~= seq![Seq::<char>::empty()]);
    } else {
        let last = words(paras.last());
        lemma_words_plain(paras.last(), 0);
        lemma_layout_filled(last, prefix, room);
        if paras.len() == 1 {
            assert(paras.last() == paras[0]);
        } else {
            let a = laid_out(paras.drop_last(), prefix, room);
            let b = layout(last, prefix, room).text;
            lemma_laid_out_filled(paras.drop_last(), prefix, room);
            assert(t =~= a + seq!['\n'] + (Seq::<char>::empty() + seq!['\n'] + b));
            lemma_pieces_break(a, Seq::<char>::empty() + seq!['\n'] + b);
            lemma_pieces_break(Seq::<char>::empty(), b);
            let e = Seq::<char>::empty();
            assert(pieces(e) =~= seq![e]);
            let pa = pieces(a);
            let pb = pieces(b);
            let qs = pieces(t);
            assert(qs =~= pa + (seq![e] + pb));
            assert forall|k: int|
                #![trigger qs[k]]
                0 <= k < qs.len() - 1 && qs[k].len() > 0 && qs[k + 1].len() > 0 implies exists|v: Seq<char>|
                    #[trigger] opens_with(qs[k + 1], prefix, v) && byte_len(qs[k]) + 1 + byte_len(v) > limit by {
                if k < pa.len() - 1 {
                    assert(qs[k] == pa[k]);
                    assert(qs[k + 1] == pa[k + 1]);
                } else if k == pa.len() - 1 {
                    assert(qs[k + 1] == e);
                } else if k == pa.len() {
                    assert(qs[k] == e);
                } else {
                    let j = k - pa.len() - 1;
                    assert(qs[k] == pb[j]);
                    assert(qs[k + 1] == pb[j + 1]);
                }
            }
        }
    }
}

/// Every line of a reflowed text is filled before the next line of its
/// paragraph begins: the line, a space and the next line's first word would be
/// longer than the limit.
pub proof fn law_reflowed_lines_are_filled(text: Seq<char>, limit: nat)
    requires
        inferred_prefix(text) is Some,
        inferred_prefix(text)->0.len() > 0 ==> byte_len(inferred_prefix(text)->0) + 1 <= limit,
    ensures
        ({
            let prefix = inferred_prefix(text)->0;
            filled(pieces(justified(text, prefix, limit as int)), prefix, limit as int)
        }),
{
    let prefix = inferred_prefix(text)->0;
    let ws = words(text);
    if prefix.len() > 0 {
        lemma_words_plain(text, 0);
        assert(plain_word(ws[0]));
    }
    lemma_lead(prefix);
    let room = line_limit(prefix, limit as int);
    assert(byte_len(lead(prefix)) + room == limit);
    lemma_laid_out_filled(paragraphs(text), prefix, room);
}

/// The prefix is decided by the first character of the selection's first word:
/// none when that character is alphanumeric, else the whole first word; a
/// selection without words has no prefix.
pub proof fn law_prefix_follows_the_first_character(text: Seq<char>)
    ensures
        words(text).len() == 0 <==> inferred_prefix(text) is None,
        words(text).len() > 0 && char_is_alphanumeric(words(text)[0][0]) ==> inferred_prefix(text)
            == Some(Seq::<char>::empty()),
        words(text).len() > 0 && !char_is_alphanumeric(words(text)[0][0]) ==> inferred_prefix(text) == Some(
            words(text)[0],
        ),
{
}

} // verus!
