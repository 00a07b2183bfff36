//! Decimal numbers: parsing and formatting, as Rust's integer `FromStr` and
//! `Display` implementations do it.

use vstd::prelude::*;

verus! {

/// The decimal digits of `n`.
pub open spec fn decimal_nat(n: nat) -> Seq<char>
    decreases n,
{
    if n < 10 {
        seq![(n + 48) as char]
    } else {
        decimal_nat(n / 10).push(((n % 10) + 48) as char)
    }
}

/// The decimal representation of `n`, with a leading `-` when negative.
pub open spec fn decimal_i64(n: int) -> Seq<char> {
    if n < 0 {
        seq!['-'] + decimal_nat((-n) as nat)
    } else {
        decimal_nat(n as nat)
    }
}

pub open spec fn is_ascii_digit(c: char) -> bool {
    '0' <= c && c <= '9'
}

pub open spec fn all_ascii_digits(s: Seq<char>) -> bool {
    forall|i: int| 0 <= i < s.len() ==> is_ascii_digit(#[trigger] s[i])
}

/// The value of a sequence of decimal digits.
pub open spec fn digits_value(s: Seq<char>) -> nat
    decreases s.len(),
{
    if s.len() == 0 {
        0
    } else {
        digits_value(s.drop_last()) * 10 + ((s.last() as int - 48) as nat)
    }
}

/// The digits of a number without its optional leading sign.
pub open spec fn unsigned_part(s: Seq<char>) -> Seq<char> {
    if s.len() > 0 && (s[0] == '-' || s[0] == '+') {
        s.drop_first()
    } else {
        s
    }
}

/// A number written as an optional `+` or `-` followed by at least one ASCII digit,
/// whose value fits in an `i32`.
pub open spec fn spec_parse_i32(s: Seq<char>) -> Option<i32> {
    let body = unsigned_part(s);
    if body.len() == 0 || !all_ascii_digits(body) {
        None
    } else {
        let v: int = if s[0] == '-' {
            -digits_value(body)
        } else {
            digits_value(body) as int
        };
        if i32::MIN <= v && v <= i32::MAX {
            Some(v as i32)
        } else {
            None
        }
    }
}

/// The digits of an unsigned number without its optional leading `+`.
pub open spec fn plus_stripped(s: Seq<char>) -> Seq<char> {
    if s.len() > 0 && s[0] == '+' {
        s.drop_first()
    } else {
        s
    }
}

/// A number written as an optional `+` followed by at least one ASCII digit, whose
/// value fits in a `usize`.
pub open spec fn spec_parse_usize(s: Seq<char>) -> Option<usize> {
    let body = plus_stripped(s);
    if body.len() == 0 || !all_ascii_digits(body) {
        None
    } else if digits_value(body) <= usize::MAX {
        Some(digits_value(body) as usize)
    } else {
        None
    }
}

proof fn lemma_digits_value_prefix_monotone(s: Seq<char>, i: int)
    requires
        0 <= i <= s.len(),
        all_ascii_digits(s),
    ensures
        digits_value(s.subrange(0, i)) <= digits_value(s),
    decreases s.len() - i,
{
    if i < s.len() {
        lemma_digits_value_prefix_monotone(s, i + 1);
        let t = s.subrange(0, i + 1);
        assert(t.drop_last() =~= s.subrange(0, i));
        assert(is_ascii_digit(s[i]));
    } else {
        assert(s.subrange(0, i) =~= s);
    }
}

/// The value of the digits `s[from..]`, or `None` once it exceeds `cap`.
fn capped_digits_value(s: &Vec<char>, from: usize, cap: u64) -> (r: Option<u64>)
    requires
        from <= s@.len(),
        all_ascii_digits(s@.subrange(from as int, s@.len() as int)),
        cap < 0x1000_0000_0000_0000,
    ensures
        r matches Some(v) ==> v == digits_value(s@.subrange(from as int, s@.len() as int)) && v <= cap,
        r is None ==> digits_value(s@.subrange(from as int, s@.len() as int)) > cap,
{
    let ghost body = s@.subrange(from as int, s@.len() as int);
    let mut acc: u64 = 0;
    let mut i = from;
    assert(body.subrange(0, 0) =~= Seq::<char>::empty());
    while i < s.len()
        invariant
            from <= i <= s@.len(),
            body == s@.subrange(from as int, s@.len() as int),
            all_ascii_digits(body),
            acc == digits_value(body.subrange(0, i - from)),
            acc <= cap,
            cap < 0x1000_0000_0000_0000,
        decreases s@.len() - i,
    {
        let c = s[i];
        assert(c == body[i - from]);
        assert(is_ascii_digit(c));
        let d = (c as u32 - 48) as u64;
        assert(body.subrange(0, i - from + 1).drop_last() =~= body.subrange(0, i - from));
        let next = acc * 10 + d;
        if next > cap {
            proof {
                lemma_digits_value_prefix_monotone(body, i - from + 1);
            }
            return None;
        }
        acc = next;
        i = i + 1;
    }
    assert(body.subrange(0, i - from) =~= body);
    Some(acc)
}

/// Parses an `i32` the way `str::parse::<i32>` does.
pub fn parse_i32(s: &Vec<char>) -> (r: Option<i32>)
    ensures
        r == spec_parse_i32(s@),
{
    let signed = s.len() > 0 && (s[0] == '-' || s[0] == '+');
    let from: usize = if signed { 1 } else { 0 };
    let ghost body = unsigned_part(s@);
    assert(s@.subrange(from as int, s@.len() as int) =~= body);
    if from >= s.len() {
        return None;
    }
    let mut i = from;
    while i < s.len()
        invariant
            from <= i <= s@.len(),
            body == s@.subrange(from as int, s@.len() as int),
            body == unsigned_part(s@),
            forall|j: int| from <= j < i ==> is_ascii_digit(#[trigger] s@[j]),
        decreases s@.len() - i,
    {
        if !(s[i] >= '0' && s[i] <= '9') {
            assert(body[i - from] == s@[i as int]);
            assert(!is_ascii_digit(body[i - from]));
            return None;
        }
        i = i + 1;
    }
    assert forall|j: int| 0 <= j < body.len() implies is_ascii_digit(#[trigger] body[j]) by {
        assert(body[j] == s@[j + from]);
    }
    let negative = s[0] == '-';
    let cap: u64 = if negative { 0x8000_0000 } else { 0x7fff_ffff };
    match capped_digits_value(s, from, cap) {
        None => None,
        Some(v) => {
            if negative {
                Some((0 - (v as i64)) as i32)
            } else {
                Some(v as i32)
            }
        },
    }
}

/// Parses a `usize` the way `str::parse::<usize>` does.
pub fn parse_usize(s: &Vec<char>) -> (r: Option<usize>)
    ensures
        r == spec_parse_usize(s@),
{
    let from: usize = if s.len() > 0 && s[0] == '+' { 1 } else { 0 };
    let ghost body = plus_stripped(s@);
    assert(s@.subrange(from as int, s@.len() as int) =~= body);
    if from >= s.len() {
        return None;
    }
    let mut i = from;
    while i < s.len()
        invariant
            from <= i <= s@.len(),
            body == s@.subrange(from as int, s@.len() as int),
            body == plus_stripped(s@),
            forall|j: int| from <= j < i ==> is_ascii_digit(#[trigger] s@[j]),
        decreases s@.len() - i,
    {
        if !(s[i] >= '0' && s[i] <= '9') {
            assert(body[i - from] == s@[i as int]);
            assert(!is_ascii_digit(body[i - from]));
            return None;
        }
        i = i + 1;
    }
    assert forall|j: int| 0 <= j < body.len() implies is_ascii_digit(#[trigger] body[j]) by {
        assert(body[j] == s@[j + from]);
    }
    if usize::MAX as u64 >= 0x1000_0000_0000_0000 {
        // A 64-bit `usize`: values above `usize::MAX` cannot be held, so cap beneath it
        // and handle the very largest values separately.
        match capped_digits_value(s, from, 0x0fff_ffff_ffff_ffff) {
            Some(v) => Some(v as usize),
            None => parse_large_usize(s, from),
        }
    } else {
        match capped_digits_value(s, from, usize::MAX as u64) {
            Some(v) => Some(v as usize),
            None => None,
        }
    }
}

/// The value of the digits `s[from..]` as a `usize`, when it is at least 2^60.
fn parse_large_usize(s: &Vec<char>, from: usize) -> (r: Option<usize>)
    requires
        from <= s@.len(),
        all_ascii_digits(s@.subrange(from as int, s@.len() as int)),
    ensures
        r matches Some(v) ==> v == digits_value(s@.subrange(from as int, s@.len() as int)),
        r is None ==> digits_value(s@.subrange(from as int, s@.len() as int)) > usize::MAX,
{
    let ghost body = s@.subrange(from as int, s@.len() as int);
    let mut acc: u128 = 0;
    let mut i = from;
    assert(body.subrange(0, 0) =~= Seq::<char>::empty());
    while i < s.len()
        invariant
            from <= i <= s@.len(),
            body == s@.subrange(from as int, s@.len() as int),
            all_ascii_digits(body),
            acc == digits_value(body.subrange(0, i - from)),
            acc <= usize::MAX,
        decreases s@.len() - i,
    {
        let c = s[i];
        assert(c == body[i - from]);
        assert(is_ascii_digit(c));
        let d = (c as u32 - 48) as u128;
        assert(body.subrange(0, i - from + 1).drop_last() =~= body.subrange(0, i - from));
        let next = acc * 10 + d;
        if next > usize::MAX as u128 {
            proof {
                lemma_digits_value_prefix_monotone(body, i - from + 1);
            }
            return None;
        }
        acc = next;
        i = i + 1;
    }
    assert(body.subrange(0, i - from) =~= body);
    Some(acc as usize)
}

/// Appends the decimal digits of `n`.
fn push_decimal_u64(n: u64, out: &mut Vec<char>)
    ensures
        final(out)@ == old(out)@ + decimal_nat(n as nat),
    decreases n,
{
    if n >= 10 {
        push_decimal_u64(n / 10, out);
    }
    let d = ((n % 10) as u8 + 48) as char;
    out.push(d);
    proof {
        if n >= 10 {
            assert(decimal_nat(n as nat) == decimal_nat((n / 10) as nat).push(d));
        }
    }
}

/// Appends the decimal representation of `n`, as `i64`'s `Display` writes it.
pub fn push_decimal_i64(n: i64, out: &mut Vec<char>)
    ensures
        final(out)@ == old(out)@ + decimal_i64(n as int),
{
    if n < 0 {
        out.push('-');
        let m: u64 = ((-(n + 1)) as u64) + 1;
        push_decimal_u64(m, out);
    } else {
        push_decimal_u64(n as u64, out);
    }
}

} // verus!
