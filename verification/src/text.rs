//! Character and string helpers shared by the editor's modes.

use vstd::prelude::*;

verus! {

/// Builds a string holding exactly the given characters.
pub(crate) fn string_from_chars(chars: &Vec<char>) -> (s: String)
    ensures
        s@ == chars@,
{
    let mut out = String::new();
    let mut i: usize = 0;
    while i < chars.len()
        invariant
            i <= chars.len(),
            out@ == chars@.subrange(0, i as int),
        decreases chars.len() - i,
    {
        string_push(&mut out, chars[i]);
        i = i + 1;
        assert(out@ =~= chars@.subrange(0, i as int));
    }
    assert(chars@.subrange(0, chars.len() as int) =~= chars@);
    out
}

/// The characters of a string, in order.
pub(crate) fn chars_of(s: &str) -> (chars: Vec<char>)
    ensures
        chars@ == s@,
{
    broadcast use vstd::string::axiom_spec_iter;

    let mut out: Vec<char> = Vec::new();
    for c in it: s.chars()
        invariant
            out@ == it.seq().take(it.index()),
            it.seq() == s@,
    {
        out.push(c);
        assert(out@ =~= it.seq().take(it.index() + 1));
    }
    assert(out@ =~= s@);
    out
}

/// Whether `c` is an ASCII character (a single byte in UTF-8).
pub open spec fn spec_is_ascii_char(c: char) -> bool {
    (c as int) < 0x80
}

pub fn is_ascii_char(c: char) -> (b: bool)
    ensures
        b == spec_is_ascii_char(c),
{
    (c as u32) < 0x80
}

/// Appends `c` to `s` (`String::push`).
#[verifier::external_body]
pub(crate) fn string_push(s: &mut String, c: char)
    ensures
        final(s)@ == old(s)@.push(c),
{
    s.push(c);
}

/// Removes and returns the last character of `s` (`String::pop`).
#[verifier::external_body]
pub(crate) fn string_pop(s: &mut String) -> (c: Option<char>)
    ensures
        old(s)@.len() == 0 ==> c is None && final(s)@ == old(s)@,
        old(s)@.len() > 0 ==> c == Some(old(s)@.last()) && final(s)@ == old(s)@.drop_last(),
{
    s.pop()
}

/// The characters with the Unicode `White_Space` property.
pub open spec fn spec_is_whitespace(c: char) -> bool {
    let v = c as int;
    (0x9 <= v && v <= 0xd) || v == 0x20 || v == 0x85 || v == 0xa0 || v == 0x1680 || (0x2000 <= v
        && v <= 0x200a) || v == 0x2028 || v == 0x2029 || v == 0x202f || v == 0x205f || v == 0x3000
}

/// Whether `c` has the Unicode `White_Space` property, as `char::is_whitespace` tells.
pub fn is_whitespace(c: char) -> (b: bool)
    ensures
        b == spec_is_whitespace(c),
{
    let v = c as u32;
    (0x9 <= v && v <= 0xd) || v == 0x20 || v == 0x85 || v == 0xa0 || v == 0x1680 || (0x2000 <= v
        && v <= 0x200a) || v == 0x2028 || v == 0x2029 || v == 0x202f || v == 0x205f || v == 0x3000
}

/// The views of a sequence of strings.
pub open spec fn string_views(v: Seq<String>) -> Seq<Seq<char>> {
    v.map_values(|s: String| s@)
}

/// The position of the first non-whitespace character in `s[i..]`, or `s.len()`.
pub open spec fn trim_start_index(s: Seq<char>, i: int) -> int
    decreases s.len() - i,
{
    if i >= s.len() {
        s.len() as int
    } else if spec_is_whitespace(s[i]) {
        trim_start_index(s, i + 1)
    } else {
        i
    }
}

/// The end of `s[lo..j]` once trailing whitespace is dropped.
pub open spec fn trim_end_index(s: Seq<char>, j: int, lo: int) -> int
    decreases j - lo,
{
    if j <= lo {
        lo
    } else if spec_is_whitespace(s[j - 1]) {
        trim_end_index(s, j - 1, lo)
    } else {
        j
    }
}

/// `s` without leading and trailing whitespace, as `str::trim` gives it.
pub open spec fn trimmed(s: Seq<char>) -> Seq<char> {
    let a = trim_start_index(s, 0);
    s.subrange(a, trim_end_index(s, s.len() as int, a))
}

pub proof fn lemma_trim_bounds(s: Seq<char>, i: int, j: int, lo: int)
    requires
        0 <= i <= s.len(),
        0 <= lo <= j <= s.len(),
    ensures
        i <= trim_start_index(s, i) <= s.len(),
        lo <= trim_end_index(s, j, lo) <= j,
    decreases s.len() - i + j - lo,
{
    if i < s.len() && spec_is_whitespace(s[i]) {
        lemma_trim_bounds(s, i + 1, j, lo);
    }
    if j > lo && spec_is_whitespace(s[j - 1]) {
        lemma_trim_bounds(s, i, j - 1, lo);
    }
}

/// The characters of `s` without leading and trailing whitespace.
pub fn trim(s: &Vec<char>) -> (r: Vec<char>)
    ensures
        r@ == trimmed(s@),
{
    let mut a: usize = 0;
    while a < s.len() && is_whitespace(s[a])
        invariant
            0 <= a <= s@.len(),
            trim_start_index(s@, a as int) == trim_start_index(s@, 0),
        decreases s@.len() - a,
    {
        a = a + 1;
    }
    let mut b: usize = s.len();
    while b > a && is_whitespace(s[b - 1])
        invariant
            a <= b <= s@.len(),
            a == trim_start_index(s@, 0),
            trim_end_index(s@, b as int, a as int) == trim_end_index(s@, s@.len() as int, a as int),
        decreases b - a,
    {
        b = b - 1;
    }
    let mut r: Vec<char> = Vec::new();
    let mut k: usize = a;
    while k < b
        invariant
            a <= k <= b <= s@.len(),
            r@ == s@.subrange(a as int, k as int),
        decreases b - k,
    {
        r.push(s[k]);
        k = k + 1;
        assert(r@ =~= s@.subrange(a as int, k as int));
    }
    r
}

/// The position of the first whitespace character in `s[i..]`, or `s.len()`.
pub open spec fn next_whitespace(s: Seq<char>, i: int) -> int
    decreases s.len() - i,
{
    if i >= s.len() {
        s.len() as int
    } else if spec_is_whitespace(s[i]) {
        i
    } else {
        next_whitespace(s, i + 1)
    }
}

/// The whitespace-separated words of `s[i..]`, as `str::split_whitespace` yields them.
pub open spec fn words_from(s: Seq<char>, i: int) -> Seq<Seq<char>>
    decreases s.len() - i, 1int,
{
    if i >= s.len() {
        Seq::empty()
    } else if spec_is_whitespace(s[i]) {
        words_from(s, i + 1)
    } else {
        let e = next_whitespace(s, i);
        proof {
            lemma_next_whitespace_bounds(s, i);
        }
        seq![s.subrange(i, e)] + words_from(s, e)
    }
}

/// The whitespace-separated words of `s`.
pub open spec fn words(s: Seq<char>) -> Seq<Seq<char>> {
    words_from(s, 0)
}

pub proof fn lemma_next_whitespace_bounds(s: Seq<char>, i: int)
    requires
        i <= s.len(),
    ensures
        i <= next_whitespace(s, i) <= s.len(),
        i < s.len() && !spec_is_whitespace(s[i]) ==> i < next_whitespace(s, i),
    decreases s.len() - i,
{
    if i < s.len() && !spec_is_whitespace(s[i]) {
        lemma_next_whitespace_bounds(s, i + 1);
    }
}

/// Every word is non-empty.
pub proof fn lemma_words_nonempty(s: Seq<char>, i: int)
    requires
        0 <= i,
    ensures
        forall|k: int| 0 <= k < words_from(s, i).len() ==> (#[trigger] words_from(s, i)[k]).len() > 0,
    decreases s.len() - i,
{
    if i < s.len() {
        if spec_is_whitespace(s[i]) {
            lemma_words_nonempty(s, i + 1);
            assert(words_from(s, i) == words_from(s, i + 1));
        } else {
            lemma_next_whitespace_bounds(s, i);
            let e = next_whitespace(s, i);
            lemma_words_nonempty(s, e);
            let rest = words_from(s, e);
            assert(words_from(s, i) == seq![s.subrange(i, e)] + rest);
            assert forall|k: int| 0 <= k < words_from(s, i).len() implies (
            #[trigger] words_from(s, i)[k]).len() > 0 by {
                if k > 0 {
                    assert(words_from(s, i)[k] == rest[k - 1]);
                } else {
                    assert(words_from(s, i)[0] == s.subrange(i, e));
                }
            }
        }
    }
}

/// A word: non-empty and free of whitespace.
pub open spec fn plain_word(w: Seq<char>) -> bool {
    w.len() > 0 && forall|k: int| 0 <= k < w.len() ==> !spec_is_whitespace(#[trigger] w[k])
}

proof fn lemma_before_whitespace(s: Seq<char>, i: int)
    requires
        0 <= i <= s.len(),
    ensures
        forall|k: int| i <= k < next_whitespace(s, i) ==> !spec_is_whitespace(#[trigger] s[k]),
    decreases s.len() - i,
{
    if i < s.len() && !spec_is_whitespace(s[i]) {
        lemma_before_whitespace(s, i + 1);
    }
}

/// Every word is non-empty and free of whitespace.
pub proof fn lemma_words_plain(s: Seq<char>, i: int)
    requires
        0 <= i,
    ensures
        forall|k: int| 0 <= k < words_from(s, i).len() ==> plain_word(#[trigger] words_from(s, i)[k]),
    decreases s.len() - i,
{
    lemma_words_nonempty(s, i);
    if i < s.len() {
        if spec_is_whitespace(s[i]) {
            lemma_words_plain(s, i + 1);
            assert(words_from(s, i) == words_from(s, i + 1));
        } else {
            lemma_next_whitespace_bounds(s, i);
            let e = next_whitespace(s, i);
            lemma_words_plain(s, e);
            lemma_before_whitespace(s, i);
            let rest = words_from(s, e);
            assert(words_from(s, i) == seq![s.subrange(i, e)] + rest);
            assert forall|k: int| 0 <= k < words_from(s, i).len() implies plain_word(
                #[trigger] words_from(s, i)[k],
            ) by {
                if k > 0 {
                    assert(words_from(s, i)[k] == rest[k - 1]);
                } else {
                    let w = s.subrange(i, e);
                    assert(words_from(s, i)[0] == w);
                    assert forall|j: int| 0 <= j < w.len() implies !spec_is_whitespace(#[trigger] w[j]) by {
                        assert(w[j] == s[i + j]);
                    }
                }
            }
        }
    }
}

/// The whitespace-separated words of `s`, each as its characters.
pub fn split_whitespace(s: &Vec<char>) -> (w: Vec<Vec<char>>)
    ensures
        w@.len() == words(s@).len(),
        forall|i: int| 0 <= i < w@.len() ==> #[trigger] w@[i]@ == words(s@)[i],
{
    let mut w: Vec<Vec<char>> = Vec::new();
    let mut i: usize = 0;
    while i < s.len()
        invariant
            0 <= i <= s@.len(),
            w@.len() + words_from(s@, i as int).len() == words(s@).len(),
            forall|k: int| 0 <= k < w@.len() ==> #[trigger] w@[k]@ == words(s@)[k],
            forall|k: int|
                0 <= k < words_from(s@, i as int).len() ==> #[trigger] words_from(s@, i as int)[k]
                    == words(s@)[w@.len() + k],
        decreases s@.len() - i,
    {
        if is_whitespace(s[i]) {
            i = i + 1;
        } else {
            let ghost rest = words_from(s@, i as int);
            let mut word: Vec<char> = Vec::new();
            let mut e = i;
            proof {
                lemma_next_whitespace_bounds(s@, i as int);
            }
            while e < s.len() && !is_whitespace(s[e])
                invariant
                    i <= e <= s@.len(),
                    next_whitespace(s@, i as int) == next_whitespace(s@, e as int),
                    word@ == s@.subrange(i as int, e as int),
                decreases s@.len() - e,
            {
                word.push(s[e]);
                e = e + 1;
                assert(word@ =~= s@.subrange(i as int, e as int));
            }
            assert(rest == seq![s@.subrange(i as int, e as int)] + words_from(s@, e as int));
            assert(rest[0] == word@);
            w.push(word);
            proof {
                assert forall|k: int| 0 <= k < words_from(s@, e as int).len() implies #[trigger] words_from(s@, e as int)[k]
                    == words(s@)[w@.len() + k] by {
                    assert(words_from(s@, e as int)[k] == rest[k + 1]);
                }
            }
            i = e;
        }
    }
    w
}

} // verus!
