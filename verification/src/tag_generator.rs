//! Jump tags: single lowercase letters `a` to `z` without `f`, and two-letter
//! tags `aa` to `zz`.

use vstd::prelude::*;
use crate::text::string_from_chars;

verus! {

/// The upper limit on one-letter values ("z").
pub const TAG_INDEX_LIMIT: u8 = 122;

/// The position the generator starts from: just before "a".
pub const TAG_INDEX_START: u8 = 96;

/// The letter that is never handed out: it is used to leave the first jump phase.
pub const SKIPPED_TAG_INDEX: u8 = 102;

/// Yields the one-letter jump tags in alphabetical order.
pub struct SingleCharacterTagGenerator {
    index: u8,
}

/// The index the generator holds after a successful `next` from `index`.
pub open spec fn advanced_index(index: u8) -> u8 {
    if index + 1 == SKIPPED_TAG_INDEX {
        (index + 2) as u8
    } else {
        (index + 1) as u8
    }
}

/// The tag that `next` hands out from `index`, or `None` once the letters are exhausted.
pub open spec fn tag_after(index: u8) -> Option<Seq<char>> {
    if index >= TAG_INDEX_LIMIT {
        None
    } else {
        Some(seq![advanced_index(index) as char])
    }
}

impl SingleCharacterTagGenerator {
    /// The position of the last tag handed out (96 before the first).
    pub closed spec fn position(&self) -> u8 {
        self.index
    }

    pub fn new() -> (g: SingleCharacterTagGenerator)
        ensures
            g.position() == TAG_INDEX_START,
    {
        SingleCharacterTagGenerator { index: TAG_INDEX_START }
    }

    /// Restarts the tag generator sequence.
    pub fn reset(&mut self)
        ensures
            final(self).position() == TAG_INDEX_START,
    {
        self.index = TAG_INDEX_START;
    }

    /// Hands out the next tag, or `None` once "z" has been handed out.
    pub fn next(&mut self) -> (tag: Option<String>)
        ensures
            tag_after(old(self).position()) is None ==> tag is None && final(self).position()
                == old(self).position(),
            tag_after(old(self).position()) is Some ==> tag is Some && tag->0@ == tag_after(
                old(self).position(),
            )->0 && final(self).position() == advanced_index(old(self).position()),
    {
        if self.index >= TAG_INDEX_LIMIT {
            None
        } else {
            self.index = self.index + 1;
            if self.index == SKIPPED_TAG_INDEX {
                self.index = self.index + 1;
            }
            let c = self.index as char;
            let mut chars: Vec<char> = Vec::new();
            chars.push(c);
            Some(string_from_chars(&chars))
        }
    }
}

/// Every tag handed out from a reachable position is a lowercase letter other than "f".
pub proof fn law_tags_are_lowercase_letters_without_f(index: u8)
    requires
        index >= TAG_INDEX_START,
    ensures
        tag_after(index) matches Some(t) ==> t.len() == 1 && 'a' <= t[0] <= 'z' && t[0] != 'f',
{
}

/// Each handed-out tag moves the generator strictly forward, so no tag repeats
/// until the generator is reset, and the generator never steps past "z".
pub proof fn law_tags_strictly_increase(index: u8)
    requires
        index >= TAG_INDEX_START,
    ensures
        tag_after(index) is Some ==> index < advanced_index(index) <= TAG_INDEX_LIMIT,
        index >= TAG_INDEX_LIMIT ==> tag_after(index) is None,
{
}

/// The last index from which a two-letter tag is handed out ("zz").
pub const DOUBLE_TAG_INDEX_LIMIT: u16 = 675;

/// The two-letter tag handed out from `index`: the letters of `index` written in
/// base 26, `a` standing for 0; `None` past "zz".
pub open spec fn double_tag_at(index: u16) -> Option<Seq<char>> {
    if index > DOUBLE_TAG_INDEX_LIMIT {
        None
    } else {
        Some(seq![((97 + index / 26) as u8) as char, ((97 + index % 26) as u8) as char])
    }
}

/// Yields the two-letter jump tags in alphabetical order.
pub struct TagGenerator {
    index: u16,
}

impl TagGenerator {
    /// The index of the next tag to hand out.
    pub closed spec fn position(&self) -> u16 {
        self.index
    }

    pub fn new() -> (g: TagGenerator)
        ensures
            g.position() == 0,
    {
        TagGenerator { index: 0 }
    }

    /// Restarts the tag sequence at "aa".
    pub fn reset(&mut self)
        ensures
            final(self).position() == 0,
    {
        self.index = 0;
    }

    /// Hands out the next tag, or `None` once "zz" has been handed out.
    pub fn next(&mut self) -> (tag: Option<String>)
        ensures
            double_tag_at(old(self).position()) is None ==> tag is None && final(self).position()
                == old(self).position(),
            double_tag_at(old(self).position()) is Some ==> tag is Some && tag->0@ == double_tag_at(
                old(self).position(),
            )->0 && final(self).position() == old(self).position() + 1,
    {
        if self.index > DOUBLE_TAG_INDEX_LIMIT {
            None
        } else {
            let first = (97 + self.index / 26) as u8;
            let second = (97 + self.index % 26) as u8;
            let mut chars: Vec<char> = Vec::new();
            chars.push(first as char);
            chars.push(second as char);
            self.index = self.index + 1;
            assert(chars@ =~= double_tag_at(old(self).position())->0);
            Some(string_from_chars(&chars))
        }
    }
}

/// Two-letter tags are two lowercase letters, and no two indices give the same tag.
pub proof fn law_double_tags_are_distinct_letter_pairs(i: u16, j: u16)
    requires
        i <= DOUBLE_TAG_INDEX_LIMIT,
        j <= DOUBLE_TAG_INDEX_LIMIT,
        i != j,
    ensures
        double_tag_at(i) matches Some(t) && t.len() == 2 && 'a' <= t[0] <= 'z' && 'a' <= t[1] <= 'z',
        double_tag_at(i) != double_tag_at(j),
{
    let a = double_tag_at(i)->0;
    let b = double_tag_at(j)->0;
    if a =~= b {
        assert(a[0] == b[0] && a[1] == b[1]);
        assert(i / 26 == j / 26);
        assert(i % 26 == j % 26);
        assert(i == 26 * (i / 26) + i % 26);
        assert(j == 26 * (j / 26) + j % 26);
    }
}

} // verus!
