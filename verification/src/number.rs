//! Decimal integers as text: reading and writing.
//!
//! The accepted form is an optional sign followed by one or more ASCII
//! digits and nothing else; leading zeros are allowed. An unsigned number may
//! carry `+` but not `-`.

use vstd::prelude::*;
use crate::text::{chars_of, push_char};

verus! {

/// `c` is one of `0` to `9`.
pub open spec fn is_digit(c: char) -> bool {
    '0' <= c && c <= '9'
}

/// The value of the digit `c`.
pub open spec fn digit_value(c: char) -> nat
    recommends
        is_digit(c),
{
    (c as int - '0' as int) as nat
}

/// The digit that stands for `d`.
pub open spec fn digit_char(d: nat) -> char
    recommends
        d < 10,
{
    (d + 48) as char
}

/// Every character of `s` is a digit.
pub open spec fn all_digits(s: Seq<char>) -> bool {
    forall|i: int| 0 <= i < s.len() ==> is_digit(#[trigger] s[i])
}

/// The number that the digits of `s` denote in base ten; 0 for no digits.
pub open spec fn digits_value(s: Seq<char>) -> nat
    decreases s.len(),
{
    if s.len() == 0 {
        0
    } else {
        digits_value(s.drop_last()) * 10 + digit_value(s.last())
    }
}

/// The value of a non-empty run of digits, or `None` for anything else.
pub open spec fn parse_digits(s: Seq<char>) -> Option<nat> {
    if s.len() > 0 && all_digits(s) {
        Some(digits_value(s))
    } else {
        None
    }
}

/// `s` without its sign, if it starts with one that is allowed.
pub open spec fn unsigned_part(s: Seq<char>, minus_allowed: bool) -> Seq<char> {
    if s.len() > 0 && (s[0] == '+' || (minus_allowed && s[0] == '-')) {
        s.skip(1)
    } else {
        s
    }
}

/// The unsigned number written in `s`, if it is one and is at most `max`.
pub open spec fn parse_unsigned(s: Seq<char>, max: nat) -> Option<nat> {
    match parse_digits(unsigned_part(s, false)) {
        Some(v) => if v <= max {
            Some(v)
        } else {
            None
        },
        None => None,
    }
}

/// The signed number written in `s`, if it is one and lies in `min..=max`.
pub open spec fn parse_signed(s: Seq<char>, min: int, max: int) -> Option<int> {
    match parse_digits(unsigned_part(s, true)) {
        Some(v) => {
            let k = if s[0] == '-' {
                -(v as int)
            } else {
                v as int
            };
            if min <= k <= max {
                Some(k)
            } else {
                None
            }
        },
        None => None,
    }
}

/// The decimal digits of `n`, without leading zeros.
pub open spec fn decimal(n: nat) -> Seq<char>
    decreases n,
{
    if n < 10 {
        seq![digit_char(n)]
    } else {
        decimal(n / 10).push(digit_char(n % 10))
    }
}

/// The decimal form of `k`, with `-` in front of a negative number.
pub open spec fn signed_decimal(k: int) -> Seq<char> {
    if k < 0 {
        seq!['-'] + decimal((-k) as nat)
    } else {
        decimal(k as nat)
    }
}

/// A longer run of digits denotes no smaller number than its prefix.
pub proof fn lemma_digits_value_prefix(s: Seq<char>, i: int)
    requires
        0 <= i <= s.len(),
    ensures
        digits_value(s.take(i)) <= digits_value(s),
    decreases s.len() - i,
{
    if i == s.len() {
        assert(s.take(i) == s);
    } else {
        lemma_digits_value_prefix(s, i + 1);
        assert(s.take(i + 1).drop_last() == s.take(i));
    }
}

/// The decimal digits of `n` are a non-empty run of digits that denotes `n`.
pub proof fn lemma_decimal_is_digits(n: nat)
    ensures
        parse_digits(decimal(n)) == Some(n),
    decreases n,
{
    if n < 10 {
        assert(decimal(n).drop_last() == Seq::<char>::empty());
        assert(digits_value(decimal(n).drop_last()) == 0);
    } else {
        lemma_decimal_is_digits(n / 10);
        assert(decimal(n).drop_last() == decimal(n / 10));
    }
}

/// Writing an unsigned number and reading it back gives the number.
pub proof fn lemma_parse_unsigned_decimal(n: nat, max: nat)
    requires
        n <= max,
    ensures
        parse_unsigned(decimal(n), max) == Some(n),
{
    lemma_decimal_is_digits(n);
    assert(is_digit(decimal(n)[0]));
}

/// Writing a signed number and reading it back gives the number.
pub proof fn lemma_parse_signed_decimal(k: int, min: int, max: int)
    requires
        min <= k <= max,
    ensures
        parse_signed(signed_decimal(k), min, max) == Some(k),
{
    if k < 0 {
        lemma_decimal_is_digits((-k) as nat);
        assert(signed_decimal(k).skip(1) == decimal((-k) as nat));
    } else {
        lemma_decimal_is_digits(k as nat);
        assert(is_digit(decimal(k as nat)[0]));
    }
}

/// Reads `chars[from..to]` as a run of digits: its value if every character
/// is a digit, there is at least one, and the value is at most `max`.
pub fn read_digits(chars: &Vec<char>, from: usize, to: usize, max: u64) -> (r: Option<u64>)
    requires
        from <= to <= chars.len(),
    ensures
        match r {
            Some(v) => parse_digits(chars@.subrange(from as int, to as int)) == Some(v as nat) && v
                <= max,
            None => match parse_digits(chars@.subrange(from as int, to as int)) {
                Some(v) => v > max,
                None => true,
            },
        },
{
    let ghost s = chars@.subrange(from as int, to as int);
    if from == to {
        return None;
    }
    let mut acc: u64 = 0;
    let mut i: usize = from;
    while i < to
        invariant
            from <= i <= to <= chars.len(),
            s == chars@.subrange(from as int, to as int),
            all_digits(s.take(i - from)),
            acc == digits_value(s.take(i - from)),
            acc <= max,
        decreases to - i,
    {
        let c = chars[i];
        assert(s[i - from] == c);
        if c < '0' || c > '9' {
            assert(!is_digit(s[i - from]));
            return None;
        }
        let d: u64 = (c as u32 - '0' as u32) as u64;
        proof {
            assert(s.take(i - from + 1).drop_last() == s.take(i - from));
            assert(s.take(i - from + 1).last() == c);
            assert(all_digits(s.take(i - from + 1))) by {
                assert forall|j: int| 0 <= j < i - from + 1 implies is_digit(
                    #[trigger] s.take(i - from + 1)[j],
                ) by {
                    if j < i - from {
                        assert(s.take(i - from)[j] == s.take(i - from + 1)[j]);
                    }
                }
            }
            lemma_digits_value_prefix(s, i - from + 1);
        }
        if d > max || acc > (max - d) / 10 {
            assert(digits_value(s.take(i - from + 1)) > max);
            assert(all_digits(s) ==> digits_value(s) > max);
            return None;
        }
        acc = acc * 10 + d;
        i = i + 1;
    }
    assert(s.take(i - from) == s);
    Some(acc)
}

/// Reads `chars[from..to]` as an unsigned number no greater than `max`.
pub fn read_unsigned(chars: &Vec<char>, from: usize, to: usize, max: u64) -> (r: Option<u64>)
    requires
        from <= to <= chars.len(),
    ensures
        match r {
            Some(v) => parse_unsigned(chars@.subrange(from as int, to as int), max as nat) == Some(
                v as nat,
            ),
            None => parse_unsigned(chars@.subrange(from as int, to as int), max as nat) is None,
        },
{
    let ghost s = chars@.subrange(from as int, to as int);
    if from < to && chars[from] == '+' {
        assert(s[0] == '+');
        assert(s.skip(1) == chars@.subrange(from + 1, to as int));
        read_digits(chars, from + 1, to, max)
    } else {
        assert(from < to ==> s[0] == chars[from as int]);
        read_digits(chars, from, to, max)
    }
}

/// Reads `s` as a `usize`.
pub fn parse_usize(s: &str) -> (r: Option<usize>)
    ensures
        match r {
            Some(v) => parse_unsigned(s@, usize::MAX as nat) == Some(v as nat),
            None => parse_unsigned(s@, usize::MAX as nat) is None,
        },
{
    let chars = chars_of(s);
    assert(chars@.subrange(0, chars.len() as int) == s@);
    match read_unsigned(&chars, 0, chars.len(), usize::MAX as u64) {
        Some(v) => Some(v as usize),
        None => None,
    }
}

/// Reads `s` as an `i32`.
pub fn parse_i32(s: &str) -> (r: Option<i32>)
    ensures
        match r {
            Some(k) => parse_signed(s@, i32::MIN as int, i32::MAX as int) == Some(k as int),
            None => parse_signed(s@, i32::MIN as int, i32::MAX as int) is None,
        },
{
    let chars = chars_of(s);
    let n = chars.len();
    assert(chars@.subrange(0, n as int) == s@);
    if n > 0 && chars[0] == '-' {
        assert(s@.skip(1) == chars@.subrange(1, n as int));
        match read_digits(&chars, 1, n, 2147483648u64) {
            Some(v) => {
                let k: i64 = -(v as i64);
                Some(k as i32)
            },
            None => None,
        }
    } else if n > 0 && chars[0] == '+' {
        assert(s@.skip(1) == chars@.subrange(1, n as int));
        match read_digits(&chars, 1, n, 2147483647u64) {
            Some(v) => Some(v as i32),
            None => None,
        }
    } else {
        match read_digits(&chars, 0, n, 2147483647u64) {
            Some(v) => Some(v as i32),
            None => None,
        }
    }
}

/// Appends the decimal digits of `n` to `s`.
pub fn push_decimal(s: &mut String, n: u64)
    ensures
        final(s)@ == old(s)@ + decimal(n as nat),
    decreases n,
{
    if n >= 10 {
        push_decimal(s, n / 10);
    }
    let d: u8 = (n % 10) as u8;
    push_char(s, (d + 48u8) as char);
}

/// Appends the decimal form of `k` to `s`.
pub fn push_signed_decimal(s: &mut String, k: i64)
    ensures
        final(s)@ == old(s)@ + signed_decimal(k as int),
{
    if k < 0 {
        push_char(s, '-');
        let m: u64 = if k == i64::MIN {
            9223372036854775808u64
        } else {
            (-k) as u64
        };
        push_decimal(s, m);
    } else {
        push_decimal(s, k as u64);
    }
}

/// The decimal digits of `n`.
pub fn decimal_string(n: u64) -> (s: String)
    ensures
        s@ == decimal(n as nat),
{
    let mut s = String::new();
    push_decimal(&mut s, n);
    s
}

} // verus!
