//! Conversion of EditorConfig section globs into regular expressions.
//!
//! EditorConfig specifies only a small amount of wildcard patterns:
//!
//!   | glob pattern | description
//!   |--------------|-------------
//!   | *            | matches any string of characters except /
//!   | **           | matches any string of characters
//!   | ?            | matches any single character except /
//!   | [name]       | matches any single character between [ and ], no nesting allowed
//!   | [!name]      | matches any single character _not_ between [ and ], no nesting allowed
//!   | {a,b,c}      | matches any of the comma-separated strings between { and }, nesting allowed
//!   | {num1..num2} | matches any integer number between num1 and num2 (inclusive), nesting allowed
//!
//! Positions below are character positions. The conversion inspects its input
//! at a few byte offsets next to a special character; where such an offset falls
//! inside a multi-byte character the conversion cannot proceed, and the
//! specification reports that outcome as `None` (see `glob_conversion`).

use vstd::prelude::*;
use crate::text::{string_from_chars, chars_of, is_ascii_char, spec_is_ascii_char};
use crate::number::{parse_i32, spec_parse_i32, decimal_i64, push_decimal_i64};

verus! {

/// The numeric range pattern: `{start..end}` at the very start of the text.
pub const NUMERIC_RANGE_PATTERN: &'static str = r"^\{([+-]?\d+)\.\.([+-]?\d+)\}";

// ---------------------------------------------------------------------------
// Specification
// ---------------------------------------------------------------------------

/// The outcome of converting (part of) a glob:
/// `Some(Some(text))` is the regex text, `Some(None)` means the glob has no
/// regex, and `None` means the conversion cannot be carried out.
pub type Conversion = Option<Option<Seq<char>>>;

/// Characters that have a meaning in regular expressions (those `regex::escape` escapes).
pub open spec fn is_regex_meta(c: char) -> bool {
    c == '\\' || c == '.' || c == '+' || c == '*' || c == '?' || c == '(' || c == ')' || c == '|'
        || c == '[' || c == ']' || c == '{' || c == '}' || c == '^' || c == '$' || c == '#'
        || c == '&' || c == '-' || c == '~'
}

/// A backslash in front of every regex meta character, all other characters unchanged.
pub open spec fn regex_escape(s: Seq<char>) -> Seq<char>
    decreases s.len(),
{
    if s.len() == 0 {
        Seq::empty()
    } else if is_regex_meta(s.last()) {
        regex_escape(s.drop_last()).push('\\').push(s.last())
    } else {
        regex_escape(s.drop_last()).push(s.last())
    }
}

/// Characters that start a glob construct.
pub open spec fn is_glob_special(c: char) -> bool {
    c == '\\' || c == '*' || c == '?' || c == '[' || c == '{' || c == '/'
}

/// The position of the first glob special character in `s[i..hi]`, or `hi`.
pub open spec fn first_special(s: Seq<char>, i: int, hi: int) -> int
    decreases hi - i,
{
    if i >= hi {
        hi
    } else if is_glob_special(s[i]) {
        i
    } else {
        first_special(s, i + 1, hi)
    }
}

/// Number of bytes in the UTF-8 encoding of `c`.
pub open spec fn utf8_len(c: char) -> nat {
    if (c as int) < 0x80 {
        1
    } else if (c as int) < 0x800 {
        2
    } else if (c as int) < 0x10000 {
        3
    } else {
        4
    }
}

/// Number of bytes in the UTF-8 encoding of `s[i..hi]`.
pub open spec fn utf8_bytes(s: Seq<char>, i: int, hi: int) -> nat
    decreases hi - i,
{
    if i >= hi {
        0
    } else {
        utf8_len(s[i]) + utf8_bytes(s, i + 1, hi)
    }
}

/// Whether `n` bytes from character position `i` fall on a character boundary of `s[..hi]`.
pub open spec fn byte_boundary(s: Seq<char>, i: int, hi: int, n: int) -> bool
    decreases hi - i,
{
    if n == 0 {
        true
    } else if i >= hi || n < 0 {
        false
    } else {
        byte_boundary(s, i + 1, hi, n - utf8_len(s[i]))
    }
}

/// Whether `s[i]` is preceded, inside `s[lo..]`, by a backslash.
pub open spec fn escaped(s: Seq<char>, lo: int, i: int) -> bool {
    i > lo && s[i - 1] == '\\'
}

/// Scans `s[i..hi]` for the bracket that closes the one opened at `lo`. Unescaped `open`
/// characters raise the level and unescaped `close` characters lower it; the scan stops
/// where the level returns to zero. Without such a place, the last unescaped `close`
/// seen (if any) is the answer.
pub open spec fn find_end_from(
    s: Seq<char>,
    lo: int,
    hi: int,
    open: char,
    close: char,
    i: int,
    level: int,
    last_close: Option<int>,
) -> Option<int>
    decreases hi - i,
{
    if i >= hi {
        last_close
    } else {
        let c = s[i];
        let opens = c == open && !escaped(s, lo, i);
        let closes = c != open && c == close && !escaped(s, lo, i);
        let level2 = if opens {
            level + 1
        } else if closes {
            level - 1
        } else {
            level
        };
        let last2 = if closes {
            Some(i)
        } else {
            last_close
        };
        if level2 == 0 {
            Some(i)
        } else {
            find_end_from(s, lo, hi, open, close, i + 1, level2, last2)
        }
    }
}

/// The position of the character closing the bracket opened at `lo`.
pub open spec fn find_end(s: Seq<char>, lo: int, hi: int, open: char, close: char) -> Option<int> {
    find_end_from(s, lo, hi, open, close, lo, 0, None)
}

/// The bracket level reached after scanning `s[lo..i]` from level `level` at `j`
/// (unescaped `{` and `[` open, unescaped `}` and `]` close).
pub open spec fn nesting_from(s: Seq<char>, lo: int, j: int, hi: int, level: int) -> int
    decreases hi - j,
{
    if j >= hi {
        level
    } else {
        let c = s[j];
        let level2 = if (c == '{' || c == '[') && !escaped(s, lo, j) {
            level + 1
        } else if (c == '}' || c == ']') && !escaped(s, lo, j) {
            level - 1
        } else {
            level
        };
        nesting_from(s, lo, j + 1, hi, level2)
    }
}

/// The bracket nesting level of `s[lo..hi]`.
pub open spec fn nesting_level(s: Seq<char>, lo: int, hi: int) -> int {
    nesting_from(s, lo, lo, hi, 0)
}

/// `pre` followed by the text of `r`, when `r` has one.
pub open spec fn glue(pre: Seq<char>, r: Conversion) -> Conversion {
    match r {
        Some(Some(t)) => Some(Some(pre + t)),
        other => other,
    }
}

/// The decimal numbers from `lo` to `hi`, separated by `|`.
pub open spec fn range_alternatives(lo: int, hi: int) -> Seq<char>
    decreases hi - lo,
{
    if lo >= hi {
        decimal_i64(lo)
    } else {
        decimal_i64(lo) + seq!['|'] + range_alternatives(lo + 1, hi)
    }
}

/// The regex group matching the integers between the two bounds (in either order).
pub open spec fn range_regex(start: Seq<char>, end: Seq<char>) -> Option<Seq<char>> {
    match (spec_parse_i32(start), spec_parse_i32(end)) {
        (Some(a), Some(b)) => {
            let lo = if a <= b { a } else { b };
            let hi = if a <= b { b } else { a };
            Some(seq!['('] + range_alternatives(lo as int, hi as int) + seq![')'])
        },
        _ => None,
    }
}

/// What the numeric range pattern `^\{([+-]?\d+)\.\.([+-]?\d+)\}` captures at the
/// start of `text`: the whole match and its two groups.
pub uninterp spec fn numeric_range_match(text: Seq<char>) -> Option<(Seq<char>, Seq<char>, Seq<char>)>;

/// Calls `regex::Regex::captures` with the numeric range pattern on `text`. The
/// contract names the result (`numeric_range_match`) and states what the anchored
/// pattern guarantees: a match is a non-empty prefix of `text`.
#[verifier::external_body]
fn numeric_range_captures(text: &str) -> (r: Option<(String, String, String)>)
    ensures
        r is None <==> numeric_range_match(text@) is None,
        r matches Some((whole, start, end)) ==> numeric_range_match(text@) == Some(
            (whole@, start@, end@),
        ),
        r matches Some((whole, start, end)) ==> 1 <= whole@.len() <= text@.len() && whole@
            == text@.subrange(0, whole@.len() as int),
{
    match regex::Regex::new(NUMERIC_RANGE_PATTERN) {
        Ok(re) => re.captures(text).map(
            |c| (c[0].to_string(), c[1].to_string(), c[2].to_string()),
        ),
        Err(_) => None,
    }
}

pub proof fn lemma_first_special_bounds(s: Seq<char>, i: int, hi: int)
    requires
        i <= hi,
    ensures
        i <= first_special(s, i, hi) <= hi,
        first_special(s, i, hi) < hi ==> is_glob_special(s[first_special(s, i, hi)]),
    decreases hi - i,
{
    if i < hi && !is_glob_special(s[i]) {
        lemma_first_special_bounds(s, i + 1, hi);
    }
}

pub proof fn lemma_find_end_from_bounds(
    s: Seq<char>,
    lo: int,
    hi: int,
    open: char,
    close: char,
    i: int,
    level: int,
    last_close: Option<int>,
)
    requires
        lo < i <= hi,
        last_close matches Some(e) ==> lo < e < hi,
    ensures
        find_end_from(s, lo, hi, open, close, i, level, last_close) matches Some(e) ==> lo < e < hi,
    decreases hi - i,
{
    if i < hi {
        let c = s[i];
        let opens = c == open && !escaped(s, lo, i);
        let closes = c != open && c == close && !escaped(s, lo, i);
        let level2 = if opens {
            level + 1
        } else if closes {
            level - 1
        } else {
            level
        };
        let last2 = if closes {
            Some(i)
        } else {
            last_close
        };
        if level2 != 0 {
            lemma_find_end_from_bounds(s, lo, hi, open, close, i + 1, level2, last2);
        }
    }
}

/// The closing position found for a bracket opened at `lo` lies strictly after `lo`
/// and before `hi`.
pub proof fn lemma_find_end_bounds(s: Seq<char>, lo: int, hi: int, open: char, close: char)
    requires
        lo < hi,
        s[lo] == open,
    ensures
        find_end(s, lo, hi, open, close) matches Some(e) ==> lo < e < hi,
{
    if lo + 1 <= hi {
        lemma_find_end_from_bounds(s, lo, hi, open, close, lo + 1, 1, None);
    }
}

/// The conversion of `s[lo..hi]`: the text before the first special character,
/// escaped, followed by the conversion from that character on.
pub open spec fn convert(s: Seq<char>, lo: int, hi: int) -> Conversion
    decreases hi - lo, 1int, 0int,
{
    if lo >= hi {
        Some(Some(Seq::empty()))
    } else {
        let k = first_special(s, lo, hi);
        proof {
            lemma_first_special_bounds(s, lo, hi);
        }
        let pre = regex_escape(s.subrange(lo, k));
        if k >= hi {
            Some(Some(pre))
        } else {
            glue(pre, convert_special(s, k, hi))
        }
    }
}

/// The conversion of `s[k..hi]`, where `s[k]` is a glob special character.
pub open spec fn convert_special(s: Seq<char>, k: int, hi: int) -> Conversion
    decreases hi - k, 0int, 0int,
{
    if k < 0 || k >= hi {
        Some(Some(Seq::empty()))
    } else {
        let c = s[k];
        if c == '\\' {
            if k + 1 < hi && spec_is_ascii_char(s[k + 1]) {
                glue(seq![s[k + 1]], convert(s, k + 2, hi))
            } else {
                glue(seq!['\\', '\\'], convert(s, k + 1, hi))
            }
        } else if c == '?' {
            glue(seq!['[', '^', '/', ']'], convert(s, k + 1, hi))
        } else if c == '*' {
            if k + 1 < hi && !spec_is_ascii_char(s[k + 1]) {
                None
            } else if k + 1 < hi && s[k + 1] == '*' {
                glue(seq!['.', '*'], convert(s, k + 2, hi))
            } else {
                glue(seq!['[', '^', '/', ']', '*'], convert(s, k + 1, hi))
            }
        } else if c == '[' {
            proof {
                lemma_find_end_bounds(s, k, hi, '[', ']');
            }
            match find_end(s, k, hi, '[', ']') {
                None => Some(None),
                Some(e) => {
                    if e == k + 1 {
                        convert(s, k + 2, hi)
                    } else if e == k + 2 && s[k + 1] == '!' {
                        convert(s, k + 3, hi)
                    } else if !spec_is_ascii_char(s[k + 1]) {
                        Some(None)
                    } else if s[k + 1] == '!' {
                        glue(
                            seq!['[', '^'] + regex_escape(s.subrange(k + 2, e)) + seq![']'],
                            convert(s, e + 1, hi),
                        )
                    } else {
                        glue(
                            seq!['['] + regex_escape(s.subrange(k + 1, e)) + seq![']'],
                            convert(s, e + 1, hi),
                        )
                    }
                },
            }
        } else if c == '{' {
            match numeric_range_match(s.subrange(k, hi)) {
                Some((whole, start, end)) => {
                    if 1 <= whole.len() && whole.len() <= hi - k {
                        match range_regex(start, end) {
                            None => Some(None),
                            Some(r) => glue(r, convert(s, k + whole.len(), hi)),
                        }
                    } else {
                        Some(None)
                    }
                },
                None => {
                    proof {
                        lemma_find_end_bounds(s, k, hi, '{', '}');
                    }
                    match find_end(s, k, hi, '{', '}') {
                        None => Some(None),
                        Some(e) => {
                            if e == k + 1 {
                                convert(s, k + 2, hi)
                            } else {
                                match alternatives(s, k + 1, e, k + 1, k + 1) {
                                    Some(Some(a)) => glue(
                                        seq!['('] + a + seq![')'],
                                        convert(s, e + 1, hi),
                                    ),
                                    other => other,
                                }
                            }
                        },
                    }
                },
            }
        } else {
            // c == '/'
            if utf8_bytes(s, k + 1, hi) >= 3 && !byte_boundary(s, k + 1, hi, 3) {
                None
            } else if k + 3 < hi && s[k + 1] == '*' && s[k + 2] == '*' && s[k + 3] == '/' {
                glue(seq!['(', '/', '|', '/', '.', '*', '/', ')'], convert(s, k + 4, hi))
            } else {
                glue(seq!['/'], convert(s, k + 1, hi))
            }
        }
    }
}

/// The alternatives of a brace group whose content is `s[ilo..ihi]`: the scan is at `j`
/// and the current alternative starts at `start`. Commas preceded by a backslash, and
/// commas inside a nested group, do not separate alternatives; an empty alternative
/// matches the end of the name.
pub open spec fn alternatives(s: Seq<char>, ilo: int, ihi: int, start: int, j: int) -> Conversion
    decreases ihi - ilo + 1, 0int, ihi - j,
{
    let st = if start < ilo {
        ilo
    } else if start > ihi {
        ihi
    } else {
        start
    };
    if ihi < ilo {
        // Not a range of content.
        Some(None)
    } else if j >= ihi {
        match convert(s, st, ihi) {
            Some(Some(t)) => Some(Some(seq!['('] + t + seq![')'])),
            other => other,
        }
    } else if j < ilo {
        alternatives(s, ilo, ihi, st, ilo)
    } else if s[j] != ',' {
        alternatives(s, ilo, ihi, st, j + 1)
    } else if j > ilo && !spec_is_ascii_char(s[j - 1]) {
        None
    } else if j > ilo && s[j - 1] == '\\' {
        alternatives(s, ilo, ihi, st, j + 1)
    } else if j > st {
        if nesting_level(s, st, j) == 0 {
            match convert(s, st, j) {
                Some(Some(t)) => glue(
                    seq!['('] + t + seq![')', '|'],
                    alternatives(s, ilo, ihi, j + 1, j + 1),
                ),
                other => other,
            }
        } else {
            alternatives(s, ilo, ihi, st, j + 1)
        }
    } else {
        glue(seq!['$', '|'], alternatives(s, ilo, ihi, j + 1, j + 1))
    }
}

/// The outcome of converting a whole glob: its regex text ends with `$`.
pub open spec fn glob_conversion(glob: Seq<char>) -> Conversion {
    match convert(glob, 0, glob.len() as int) {
        Some(Some(t)) => Some(Some(t.push('$'))),
        other => other,
    }
}

} // verus!

verus! {

// ---------------------------------------------------------------------------
// Implementation
// ---------------------------------------------------------------------------

/// How a conversion step ended.
pub enum Step {
    /// The text was appended to the output.
    Done,
    /// The glob has no regex.
    NoRegex,
    /// The glob cannot be converted.
    Unsupported,
}

/// `r` reports `t`, and the output grew by the text of `t` when there is one.
pub open spec fn reports(r: Step, t: Conversion, before: Seq<char>, after: Seq<char>) -> bool {
    match t {
        Some(Some(x)) => r is Done && after == before + x,
        Some(None) => r is NoRegex,
        None => r is Unsupported,
    }
}

/// The result of converting a whole glob.
pub enum GlobRegex {
    /// The regex source matching the names the glob selects.
    Regex(String),
    /// The glob has no regex.
    NoRegex,
    /// The glob cannot be converted.
    Unsupported,
}

proof fn lemma_glue_glue(a: Seq<char>, b: Seq<char>, r: Conversion)
    ensures
        glue(a, glue(b, r)) == glue(a + b, r),
{
    match r {
        Some(Some(t)) => {
            assert(a + (b + t) =~= (a + b) + t);
        },
        _ => {},
    }
}

/// Appends the regex escape of `g[lo..hi]`.
fn push_escaped(g: &Vec<char>, lo: usize, hi: usize, out: &mut Vec<char>)
    requires
        lo <= hi <= g@.len(),
    ensures
        final(out)@ == old(out)@ + regex_escape(g@.subrange(lo as int, hi as int)),
{
    let mut i = lo;
    assert(g@.subrange(lo as int, lo as int) =~= Seq::<char>::empty());
    assert(old(out)@ + Seq::<char>::empty() =~= old(out)@);
    while i < hi
        invariant
            lo <= i <= hi <= g@.len(),
            out@ == old(out)@ + regex_escape(g@.subrange(lo as int, i as int)),
        decreases hi - i,
    {
        let c = g[i];
        let ghost before = g@.subrange(lo as int, i as int);
        assert(g@.subrange(lo as int, i + 1).drop_last() =~= before);
        assert(g@.subrange(lo as int, i + 1).last() == c);
        if c == '\\' || c == '.' || c == '+' || c == '*' || c == '?' || c == '(' || c == ')'
            || c == '|' || c == '[' || c == ']' || c == '{' || c == '}' || c == '^' || c == '$'
            || c == '#' || c == '&' || c == '-' || c == '~' {
            out.push('\\');
            out.push(c);
            assert(out@ =~= old(out)@ + regex_escape(before).push('\\').push(c));
        } else {
            out.push(c);
            assert(out@ =~= old(out)@ + regex_escape(before).push(c));
        }
        i = i + 1;
    }
}

/// The position of the first glob special character in `g[lo..hi]`, or `hi`.
fn find_special(g: &Vec<char>, lo: usize, hi: usize) -> (k: usize)
    requires
        lo <= hi <= g@.len(),
    ensures
        k == first_special(g@, lo as int, hi as int),
        lo <= k <= hi,
{
    let mut i = lo;
    while i < hi
        invariant
            lo <= i <= hi <= g@.len(),
            first_special(g@, lo as int, hi as int) == first_special(g@, i as int, hi as int),
        decreases hi - i,
    {
        let c = g[i];
        if c == '\\' || c == '*' || c == '?' || c == '[' || c == '{' || c == '/' {
            return i;
        }
        i = i + 1;
    }
    i
}

/// The closing bracket position, as `find_end` describes it.
fn find_end_index(g: &Vec<char>, lo: usize, hi: usize, open: char, close: char) -> (r: Option<
    usize,
>)
    requires
        lo <= hi <= g@.len(),
    ensures
        r matches Some(e) ==> find_end(g@, lo as int, hi as int, open, close) == Some(e as int),
        r is None ==> find_end(g@, lo as int, hi as int, open, close) is None,
{
    let mut i = lo;
    let mut level: i128 = 0;
    let mut last: Option<usize> = None;
    while i < hi
        invariant
            lo <= i <= hi <= g@.len(),
            -(i - lo) <= level <= i - lo,
            last matches Some(e) ==> e < hi,
            find_end(g@, lo as int, hi as int, open, close) == find_end_from(
                g@,
                lo as int,
                hi as int,
                open,
                close,
                i as int,
                level as int,
                match last {
                    Some(e) => Some(e as int),
                    None => None,
                },
            ),
        decreases hi - i,
    {
        let c = g[i];
        let esc = i > lo && g[i - 1] == '\\';
        if c == open && !esc {
            level = level + 1;
        } else if c != open && c == close && !esc {
            level = level - 1;
            last = Some(i);
        }
        if level == 0 {
            return Some(i);
        }
        i = i + 1;
    }
    last
}

/// The bracket nesting level of `g[lo..hi]`.
fn parse_nesting_level(g: &Vec<char>, lo: usize, hi: usize) -> (n: i128)
    requires
        lo <= hi <= g@.len(),
    ensures
        n == nesting_level(g@, lo as int, hi as int),
{
    let mut j = lo;
    let mut level: i128 = 0;
    while j < hi
        invariant
            lo <= j <= hi <= g@.len(),
            -(j - lo) <= level <= j - lo,
            nesting_level(g@, lo as int, hi as int) == nesting_from(
                g@,
                lo as int,
                j as int,
                hi as int,
                level as int,
            ),
        decreases hi - j,
    {
        let c = g[j];
        let esc = j > lo && g[j - 1] == '\\';
        if (c == '{' || c == '[') && !esc {
            level = level + 1;
        } else if (c == '}' || c == ']') && !esc {
            level = level - 1;
        }
        j = j + 1;
    }
    level
}

pub(crate) fn utf8_width(c: char) -> (n: usize)
    ensures
        n == utf8_len(c),
{
    let v = c as u32;
    if v < 0x80 {
        1
    } else if v < 0x800 {
        2
    } else if v < 0x10000 {
        3
    } else {
        4
    }
}

proof fn lemma_utf8_bytes_positive(s: Seq<char>, i: int, hi: int)
    requires
        i < hi,
    ensures
        utf8_bytes(s, i, hi) >= utf8_len(s[i]),
{
}

/// Whether the three bytes after a `/` at `i - 1` end inside a character.
fn slash_lookahead_splits_char(g: &Vec<char>, i: usize, hi: usize) -> (b: bool)
    requires
        i <= hi <= g@.len(),
    ensures
        b == (utf8_bytes(g@, i as int, hi as int) >= 3 && !byte_boundary(
            g@,
            i as int,
            hi as int,
            3,
        )),
{
    let mut j = i;
    let mut n: usize = 3;
    while n > 0 && j < hi
        invariant
            i <= j <= hi <= g@.len(),
            n <= 3,
            utf8_bytes(g@, i as int, hi as int) == (3 - n) + utf8_bytes(g@, j as int, hi as int),
            byte_boundary(g@, i as int, hi as int, 3) == byte_boundary(
                g@,
                j as int,
                hi as int,
                n as int,
            ),
        decreases hi - j,
    {
        let w = utf8_width(g[j]);
        if w > n {
            proof {
                lemma_utf8_bytes_positive(g@, j as int, hi as int);
                assert(byte_boundary(g@, j as int, hi as int, n as int) == byte_boundary(
                    g@,
                    j + 1,
                    hi as int,
                    n - w,
                ));
                assert(!byte_boundary(g@, j + 1, hi as int, n - w));
            }
            return true;
        }
        n = n - w;
        j = j + 1;
    }
    false
}

/// Copies `g[lo..hi]`.
fn copy_range(g: &Vec<char>, lo: usize, hi: usize) -> (r: Vec<char>)
    requires
        lo <= hi <= g@.len(),
    ensures
        r@ == g@.subrange(lo as int, hi as int),
{
    let mut r: Vec<char> = Vec::new();
    let mut i = lo;
    while i < hi
        invariant
            lo <= i <= hi <= g@.len(),
            r@ == g@.subrange(lo as int, i as int),
        decreases hi - i,
    {
        r.push(g[i]);
        i = i + 1;
        assert(r@ =~= g@.subrange(lo as int, i as int));
    }
    r
}

/// Appends the regex group for the integers between `start` and `end`, if both parse.
fn push_range_regex(start: &Vec<char>, end: &Vec<char>, out: &mut Vec<char>) -> (ok: bool)
    ensures
        range_regex(start@, end@) is None ==> !ok,
        range_regex(start@, end@) matches Some(x) ==> ok && final(out)@ == old(out)@ + x,
{
    let a = match parse_i32(start) {
        Some(a) => a,
        None => return false,
    };
    let b = match parse_i32(end) {
        Some(b) => b,
        None => return false,
    };
    let lo: i64 = if a <= b { a as i64 } else { b as i64 };
    let hi: i64 = if a <= b { b as i64 } else { a as i64 };
    out.push('(');
    let ghost whole = old(out)@ + seq!['('] + range_alternatives(lo as int, hi as int);
    let mut n: i64 = lo;
    assert(whole =~= out@ + range_alternatives(n as int, hi as int));
    while n < hi
        invariant
            lo <= n <= hi,
            hi <= i32::MAX,
            whole == out@ + range_alternatives(n as int, hi as int),
        decreases hi - n,
    {
        let ghost before = out@;
        push_decimal_i64(n, out);
        out.push('|');
        assert(range_alternatives(n as int, hi as int) == decimal_i64(n as int) + seq!['|']
            + range_alternatives(n + 1, hi as int));
        assert(whole =~= out@ + range_alternatives(n + 1, hi as int));
        n = n + 1;
    }
    push_decimal_i64(n, out);
    assert(range_alternatives(n as int, hi as int) == decimal_i64(n as int));
    out.push(')');
    assert(out@ =~= whole + seq![')']);
    assert(old(out)@ + (seq!['('] + range_alternatives(lo as int, hi as int) + seq![')']) =~= whole
        + seq![')']);
    true
}

/// Appends the conversion of `g[lo..hi]`.
fn glob_to_regex_inner(g: &Vec<char>, lo: usize, hi: usize, out: &mut Vec<char>) -> (r: Step)
    requires
        lo <= hi <= g@.len(),
    ensures
        reports(r, convert(g@, lo as int, hi as int), old(out)@, final(out)@),
    decreases hi - lo, 3int,
{
    let ghost s = g@;
    let ghost start_len = old(out)@.len();
    let mut p = lo;
    assert(old(out)@.subrange(start_len as int, start_len as int) =~= Seq::<char>::empty());
    assert(old(out)@ =~= old(out)@.subrange(0, start_len as int));
    while p < hi
        invariant
            lo <= p <= hi <= g@.len(),
            s == g@,
            start_len == old(out)@.len(),
            out@.len() >= start_len,
            out@.subrange(0, start_len as int) == old(out)@,
            convert(s, lo as int, hi as int) == glue(
                out@.subrange(start_len as int, out@.len() as int),
                convert(s, p as int, hi as int),
            ),
        decreases hi - p,
    {
        let ghost d = out@.subrange(start_len as int, out@.len() as int);
        let ghost before_iter = out@;
        assert(before_iter =~= old(out)@ + d);
        let k = find_special(g, p, hi);
        proof {
            lemma_first_special_bounds(s, p as int, hi as int);
        }
        let ghost pre = regex_escape(s.subrange(p as int, k as int));
        push_escaped(g, p, k, out);
        if k >= hi {
            assert(convert(s, p as int, hi as int) == Some(Some(pre)));
            assert(out@ =~= old(out)@ + (d + pre));
            return Step::Done;
        }
        let ghost mid = out@;
        let r = convert_special_at(g, k, hi, out);
        match r {
            Special::Stop(st) => {
                proof {
                    assert(convert(s, p as int, hi as int) == glue(pre, convert_special(s, k as int, hi as int)));
                    match convert_special(s, k as int, hi as int) {
                        Some(Some(x)) => {},
                        _ => {},
                    }
                }
                return st;
            },
            Special::Next(next) => {
                proof {
                    let piece = out@.subrange(mid.len() as int, out@.len() as int);
                    assert(mid == before_iter + pre);
                    assert(out@ =~= mid + piece);
                    assert(out@ =~= old(out)@ + (d + (pre + piece)));
                    assert(convert(s, p as int, hi as int) == glue(pre, convert_special(s, k as int, hi as int)));
                    lemma_glue_glue(pre, piece, convert(s, next as int, hi as int));
                    lemma_glue_glue(d, pre + piece, convert(s, next as int, hi as int));
                    assert(out@.subrange(start_len as int, out@.len() as int) =~= d + (pre + piece));
                    assert(out@.subrange(0, start_len as int) =~= old(out)@);
                }
                p = next;
            },
        }
    }
    assert(convert(s, p as int, hi as int) == Some(Some(Seq::<char>::empty())));
    assert(out@ =~= old(out)@ + out@.subrange(start_len as int, out@.len() as int));
    Step::Done
}

/// Where the conversion continues after a special character.
pub enum Special {
    /// The construct was converted; the conversion continues at this position.
    Next(usize),
    /// The conversion ended here.
    Stop(Step),
}

/// The output grew by `piece`, and `t` is `piece` followed by the conversion of `s[next..hi]`.
pub open spec fn continues(
    r: Special,
    t: Conversion,
    s: Seq<char>,
    k: int,
    hi: int,
    before: Seq<char>,
    after: Seq<char>,
) -> bool {
    match r {
        Special::Next(next) => k < next <= hi && after.len() >= before.len() && after.subrange(
            0,
            before.len() as int,
        ) == before && t == glue(
            after.subrange(before.len() as int, after.len() as int),
            convert(s, next as int, hi),
        ),
        Special::Stop(st) => !(st is Done) && reports(st, t, before, after),
    }
}

proof fn lemma_appended(before: Seq<char>, piece: Seq<char>)
    ensures
        (before + piece).subrange(0, before.len() as int) == before,
        (before + piece).subrange(before.len() as int, (before + piece).len() as int) == piece,
{
    assert((before + piece).subrange(0, before.len() as int) =~= before);
    assert((before + piece).subrange(before.len() as int, (before + piece).len() as int) =~= piece);
}

/// Converts the special character at `g[k]`.
fn convert_special_at(g: &Vec<char>, k: usize, hi: usize, out: &mut Vec<char>) -> (r: Special)
    requires
        k < hi <= g@.len(),
        is_glob_special(g@[k as int]),
    ensures
        continues(r, convert_special(g@, k as int, hi as int), g@, k as int, hi as int, old(out)@, final(out)@),
    decreases hi - k, 2int,
{
    let ghost s = g@;
    let ghost before = old(out)@;
    let c = g[k];
    if c == '[' {
        return parse_brackets(g, k, hi, out);
    }
    if c == '{' {
        return parse_braces(g, k, hi, out);
    }
    let ghost piece: Seq<char>;
    let next: usize;
    if c == '\\' {
        if k + 1 < hi && is_ascii_char(g[k + 1]) {
            out.push(g[k + 1]);
            proof { piece = seq![s[k + 1]]; }
            next = k + 2;
        } else {
            out.push('\\');
            out.push('\\');
            proof { piece = seq!['\\', '\\']; }
            next = k + 1;
        }
    } else if c == '?' {
        out.push('[');
        out.push('^');
        out.push('/');
        out.push(']');
        proof { piece = seq!['[', '^', '/', ']']; }
        next = k + 1;
    } else if c == '*' {
        if k + 1 < hi && !is_ascii_char(g[k + 1]) {
            return Special::Stop(Step::Unsupported);
        } else if k + 1 < hi && g[k + 1] == '*' {
            out.push('.');
            out.push('*');
            proof { piece = seq!['.', '*']; }
            next = k + 2;
        } else {
            out.push('[');
            out.push('^');
            out.push('/');
            out.push(']');
            out.push('*');
            proof { piece = seq!['[', '^', '/', ']', '*']; }
            next = k + 1;
        }
    } else {
        if slash_lookahead_splits_char(g, k + 1, hi) {
            return Special::Stop(Step::Unsupported);
        } else if hi - k > 3 && g[k + 1] == '*' && g[k + 2] == '*' && g[k + 3] == '/' {
            out.push('(');
            out.push('/');
            out.push('|');
            out.push('/');
            out.push('.');
            out.push('*');
            out.push('/');
            out.push(')');
            proof { piece = seq!['(', '/', '|', '/', '.', '*', '/', ')']; }
            next = k + 4;
        } else {
            out.push('/');
            proof { piece = seq!['/']; }
            next = k + 1;
        }
    }
    proof {
        assert(out@ =~= before + piece);
        lemma_appended(before, piece);
    }
    Special::Next(next)
}

/// Converts the bracket expression opened at `g[k]`.
fn parse_brackets(g: &Vec<char>, k: usize, hi: usize, out: &mut Vec<char>) -> (r: Special)
    requires
        k < hi <= g@.len(),
        g@[k as int] == '[',
    ensures
        continues(r, convert_special(g@, k as int, hi as int), g@, k as int, hi as int, old(out)@, final(out)@),
{
    let ghost s = g@;
    let ghost before = old(out)@;
    proof {
        lemma_find_end_bounds(s, k as int, hi as int, '[', ']');
        lemma_appended(before, Seq::empty());
        assert(before + Seq::<char>::empty() =~= before);
    }
    match find_end_index(g, k, hi, '[', ']') {
        None => Special::Stop(Step::NoRegex),
        Some(e) => {
            if e == k + 1 {
                Special::Next(k + 2)
            } else if e == k + 2 && g[k + 1] == '!' {
                Special::Next(k + 3)
            } else if !is_ascii_char(g[k + 1]) {
                Special::Stop(Step::NoRegex)
            } else if g[k + 1] == '!' {
                out.push('[');
                out.push('^');
                push_escaped(g, k + 2, e, out);
                out.push(']');
                proof {
                    let piece = seq!['[', '^'] + regex_escape(s.subrange(k + 2, e as int)) + seq![']'];
                    assert(out@ =~= before + piece);
                    lemma_appended(before, piece);
                }
                Special::Next(e + 1)
            } else {
                out.push('[');
                push_escaped(g, k + 1, e, out);
                out.push(']');
                proof {
                    let piece = seq!['['] + regex_escape(s.subrange(k + 1, e as int)) + seq![']'];
                    assert(out@ =~= before + piece);
                    lemma_appended(before, piece);
                }
                Special::Next(e + 1)
            }
        },
    }
}

/// Converts the brace group opened at `g[k]`.
fn parse_braces(g: &Vec<char>, k: usize, hi: usize, out: &mut Vec<char>) -> (r: Special)
    requires
        k < hi <= g@.len(),
        g@[k as int] == '{',
    ensures
        continues(r, convert_special(g@, k as int, hi as int), g@, k as int, hi as int, old(out)@, final(out)@),
    decreases hi - k, 1int,
{
    let ghost s = g@;
    let ghost before = old(out)@;
    proof {
        lemma_appended(before, Seq::empty());
        assert(before + Seq::<char>::empty() =~= before);
    }
    let rest = copy_range(g, k, hi);
    let text = string_from_chars(&rest);
    match numeric_range_captures(text.as_str()) {
        Some((whole, start, end)) => {
            let whole_chars = chars_of(whole.as_str());
            let width = whole_chars.len();
            let start_chars = chars_of(start.as_str());
            let end_chars = chars_of(end.as_str());
            if !push_range_regex(&start_chars, &end_chars, out) {
                return Special::Stop(Step::NoRegex);
            }
            proof {
                let piece = range_regex(start@, end@)->0;
                lemma_appended(before, piece);
            }
            Special::Next(k + width)
        },
        None => {
            proof {
                lemma_find_end_bounds(s, k as int, hi as int, '{', '}');
            }
            match find_end_index(g, k, hi, '{', '}') {
                None => Special::Stop(Step::NoRegex),
                Some(e) => {
                    if e == k + 1 {
                        Special::Next(k + 2)
                    } else {
                        out.push('(');
                        let st = push_alternatives(g, k + 1, e, out);
                        match st {
                            Step::Done => {},
                            Step::NoRegex => {
                                return Special::Stop(Step::NoRegex);
                            },
                            Step::Unsupported => {
                                return Special::Stop(Step::Unsupported);
                            },
                        }
                        out.push(')');
                        proof {
                            let a = alternatives(s, k + 1, e as int, k + 1, k + 1)->0->0;
                            let piece = seq!['('] + a + seq![')'];
                            assert(out@ =~= before + piece);
                            lemma_appended(before, piece);
                        }
                        Special::Next(e + 1)
                    }
                },
            }
        },
    }
}

/// Appends the alternatives of the brace group whose content is `g[ilo..ihi]`.
fn push_alternatives(g: &Vec<char>, ilo: usize, ihi: usize, out: &mut Vec<char>) -> (r: Step)
    requires
        ilo <= ihi <= g@.len(),
    ensures
        reports(r, alternatives(g@, ilo as int, ihi as int, ilo as int, ilo as int), old(out)@, final(out)@),
    decreases ihi - ilo + 1, 0int,
{
    let ghost s = g@;
    let ghost start_len = old(out)@.len();
    let ghost total = alternatives(s, ilo as int, ihi as int, ilo as int, ilo as int);
    let mut start = ilo;
    let mut j = ilo;
    assert(old(out)@.subrange(start_len as int, start_len as int) =~= Seq::<char>::empty());
    assert(old(out)@ =~= old(out)@.subrange(0, start_len as int));
    while j < ihi
        invariant
            ilo <= start <= j <= ihi <= g@.len(),
            s == g@,
            start_len == old(out)@.len(),
            out@.len() >= start_len,
            out@.subrange(0, start_len as int) == old(out)@,
            total == alternatives(s, ilo as int, ihi as int, ilo as int, ilo as int),
            total == glue(
                out@.subrange(start_len as int, out@.len() as int),
                alternatives(s, ilo as int, ihi as int, start as int, j as int),
            ),
        decreases ihi - j,
    {
        let ghost d = out@.subrange(start_len as int, out@.len() as int);
        let ghost here = alternatives(s, ilo as int, ihi as int, start as int, j as int);
        let c = g[j];
        if c != ',' {
            assert(here == alternatives(s, ilo as int, ihi as int, start as int, j + 1));
            j = j + 1;
        } else if j > ilo && !is_ascii_char(g[j - 1]) {
            assert(here is None);
            return Step::Unsupported;
        } else if j > ilo && g[j - 1] == '\\' {
            assert(here == alternatives(s, ilo as int, ihi as int, start as int, j + 1));
            j = j + 1;
        } else if j > start {
            if parse_nesting_level(g, start, j) == 0 {
                out.push('(');
                let st = glob_to_regex_inner(g, start, j, out);
                match st {
                    Step::Done => {},
                    Step::NoRegex => {
                        return Step::NoRegex;
                    },
                    Step::Unsupported => {
                        return Step::Unsupported;
                    },
                }
                out.push(')');
                out.push('|');
                proof {
                    let t = convert(s, start as int, j as int)->0->0;
                    let piece = seq!['('] + t + seq![')', '|'];
                    assert(here == glue(piece, alternatives(s, ilo as int, ihi as int, j + 1, j + 1)));
                    lemma_glue_glue(d, piece, alternatives(s, ilo as int, ihi as int, j + 1, j + 1));
                    assert(out@.subrange(start_len as int, out@.len() as int) =~= d + piece);
                    assert(out@.subrange(0, start_len as int) =~= old(out)@);
                }
                start = j + 1;
                j = j + 1;
            } else {
                assert(here == alternatives(s, ilo as int, ihi as int, start as int, j + 1));
                j = j + 1;
            }
        } else {
            out.push('$');
            out.push('|');
            proof {
                let piece = seq!['$', '|'];
                assert(here == glue(piece, alternatives(s, ilo as int, ihi as int, j + 1, j + 1)));
                lemma_glue_glue(d, piece, alternatives(s, ilo as int, ihi as int, j + 1, j + 1));
                assert(out@.subrange(start_len as int, out@.len() as int) =~= d + piece);
                assert(out@.subrange(0, start_len as int) =~= old(out)@);
            }
            start = j + 1;
            j = j + 1;
        }
    }
    let ghost d = out@.subrange(start_len as int, out@.len() as int);
    out.push('(');
    let st = glob_to_regex_inner(g, start, ihi, out);
    match st {
        Step::Done => {},
        Step::NoRegex => {
            return Step::NoRegex;
        },
        Step::Unsupported => {
            return Step::Unsupported;
        },
    }
    out.push(')');
    proof {
        let t = convert(s, start as int, ihi as int)->0->0;
        let piece = seq!['('] + t + seq![')'];
        assert(alternatives(s, ilo as int, ihi as int, start as int, j as int) == Some(Some(piece)));
        assert(out@ =~= old(out)@ + (d + piece));
    }
    Step::Done
}

/// The regex group for the integers between `start` and `end` (in either order), as
/// `(n|n+1|...|m)`; `None` when either bound is not an `i32`.
pub fn create_regex_range(start: &str, end: &str) -> (r: Option<String>)
    ensures
        r is None <==> range_regex(start@, end@) is None,
        r matches Some(x) ==> range_regex(start@, end@) == Some(x@),
{
    let a = chars_of(start);
    let b = chars_of(end);
    let mut out: Vec<char> = Vec::new();
    if push_range_regex(&a, &b, &mut out) {
        assert(out@ =~= Seq::<char>::empty() + range_regex(start@, end@)->0);
        Some(string_from_chars(&out))
    } else {
        None
    }
}

/// The bounds of the inclusive range between two integers given in either order.
pub fn create_range(start: &str, end: &str) -> (r: Option<(i32, i32)>)
    ensures
        r is None <==> (spec_parse_i32(start@) is None || spec_parse_i32(end@) is None),
        r matches Some((lo, hi)) ==> ({
            let a = spec_parse_i32(start@)->0;
            let b = spec_parse_i32(end@)->0;
            lo == (if a <= b { a } else { b }) && hi == (if a <= b { b } else { a })
        }),
{
    let a = match parse_i32(&chars_of(start)) {
        Some(a) => a,
        None => return None,
    };
    let b = match parse_i32(&chars_of(end)) {
        Some(b) => b,
        None => return None,
    };
    if a <= b {
        Some((a, b))
    } else {
        Some((b, a))
    }
}

/// Converts a glob into the regex source that matches the names it selects,
/// reporting when the glob has no regex and when it cannot be converted.
pub fn convert_glob(glob: &str) -> (r: GlobRegex)
    ensures
        glob_conversion(glob@) is None <==> r is Unsupported,
        glob_conversion(glob@) == Some(None::<Seq<char>>) <==> r is NoRegex,
        r matches GlobRegex::Regex(x) ==> glob_conversion(glob@) == Some(Some(x@)),
{
    let g = chars_of(glob);
    let mut out: Vec<char> = Vec::new();
    let st = glob_to_regex_inner(&g, 0, g.len(), &mut out);
    match st {
        Step::Done => {
            out.push('$');
            GlobRegex::Regex(string_from_chars(&out))
        },
        Step::NoRegex => GlobRegex::NoRegex,
        Step::Unsupported => GlobRegex::Unsupported,
    }
}

/// The regex source for an EditorConfig section glob: the glob's constructs become
/// regex constructs, all other characters are escaped, and the regex is anchored at
/// the end of the name. `None` when the glob has no regex.
pub fn glob_to_regex(glob: &str) -> (r: Option<String>)
    requires
        glob_conversion(glob@) is Some,
    ensures
        r is None <==> glob_conversion(glob@) == Some(None::<Seq<char>>),
        r matches Some(x) ==> glob_conversion(glob@) == Some(Some(x@)),
{
    match convert_glob(glob) {
        GlobRegex::Regex(x) => Some(x),
        _ => None,
    }
}

/// `glob_to_regex` for any glob: `None` when the glob cannot be converted.
pub fn checked_glob_to_regex(glob: &str) -> (r: Option<Option<String>>)
    ensures
        r is None <==> glob_conversion(glob@) is None,
        r == Some(None::<String>) <==> glob_conversion(glob@) == Some(None::<Seq<char>>),
        r matches Some(Some(x)) ==> glob_conversion(glob@) == Some(Some(x@)),
{
    match convert_glob(glob) {
        GlobRegex::Unsupported => None,
        _ => Some(glob_to_regex(glob)),
    }
}

} // verus!
