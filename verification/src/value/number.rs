//! Integers as decimal text, and decimal text as integers.

use crate::value::grammar::is_digit;
use crate::value::text::chars_of;
use vstd::prelude::*;

verus! {

/// The character of the digit `d`.
pub open spec fn digit_char(d: int) -> char {
    if d == 0 {
        '0'
    } else if d == 1 {
        '1'
    } else if d == 2 {
        '2'
    } else if d == 3 {
        '3'
    } else if d == 4 {
        '4'
    } else if d == 5 {
        '5'
    } else if d == 6 {
        '6'
    } else if d == 7 {
        '7'
    } else if d == 8 {
        '8'
    } else {
        '9'
    }
}

/// The digit that the character `c` stands for.
pub open spec fn digit_value(c: char) -> int {
    c as int - '0' as int
}

/// The decimal digits of `n`, without leading zeros.
pub open spec fn decimal(n: nat) -> Seq<char>
    decreases n,
{
    if n < 10 {
        seq![digit_char(n as int)]
    } else {
        decimal(n / 10).push(digit_char((n % 10) as int))
    }
}

/// The decimal text of `n`: a minus sign where it is negative, then the
/// digits.
pub open spec fn integer_text(n: int) -> Seq<char> {
    if n < 0 {
        seq!['-'] + decimal((-n) as nat)
    } else {
        decimal(n as nat)
    }
}

/// The number that `s` is the digits of, if it is one or more digits.
pub open spec fn digits_value(s: Seq<char>) -> Option<nat>
    decreases s.len(),
{
    if s.len() == 0 {
        None
    } else if !is_digit(s.last()) {
        None
    } else if s.len() == 1 {
        Some(digit_value(s.last()) as nat)
    } else {
        match digits_value(s.drop_last()) {
            None => None,
            Some(v) => Some((v * 10 + digit_value(s.last())) as nat),
        }
    }
}

/// The integer that `s` is the text of, if it is one: an optional sign,
/// which may be a minus only where `signed` holds, then one or more
/// digits.
pub open spec fn integer_value(s: Seq<char>, signed: bool) -> Option<int> {
    if s.len() > 0 && s[0] == '-' {
        if signed {
            match digits_value(s.skip(1)) {
                Some(v) => Some(-(v as int)),
                None => None,
            }
        } else {
            None
        }
    } else if s.len() > 0 && s[0] == '+' {
        match digits_value(s.skip(1)) {
            Some(v) => Some(v as int),
            None => None,
        }
    } else {
        match digits_value(s) {
            Some(v) => Some(v as int),
            None => None,
        }
    }
}

/// The integer between `min` and `max` that `s` is the text of, if it is
/// one.
pub open spec fn integer_within(s: Seq<char>, signed: bool, min: int, max: int) -> Option<int> {
    match integer_value(s, signed) {
        Some(v) => if min <= v <= max {
            Some(v)
        } else {
            None
        },
        None => None,
    }
}

/// The digits of a number are digits, and read back as the number.
pub proof fn lemma_decimal_value(n: nat)
    ensures
        decimal(n).len() > 0,
        forall|i: int| 0 <= i < decimal(n).len() ==> is_digit(#[trigger] decimal(n)[i]),
        digits_value(decimal(n)) == Some(n),
    decreases n,
{
    if n >= 10 {
        lemma_decimal_value(n / 10);
        assert(decimal(n).drop_last() =~= decimal(n / 10));
    }
}

/// The text of an integer reads back as the integer.
pub proof fn lemma_integer_text_value(n: int)
    ensures
        n >= 0 ==> integer_value(integer_text(n), false) == Some(n),
        integer_value(integer_text(n), true) == Some(n),
{
    if n < 0 {
        lemma_decimal_value((-n) as nat);
        assert(integer_text(n).skip(1) =~= decimal((-n) as nat));
    } else {
        lemma_decimal_value(n as nat);
        assert(is_digit(decimal(n as nat)[0]));
    }
}

/// A text that is a number holds digits only, and every part of it that
/// starts where it starts is a number no larger.
proof fn lemma_digits_prefix(s: Seq<char>, i: int)
    requires
        0 < i <= s.len(),
        digits_value(s) is Some,
    ensures
        digits_value(s.take(i)) is Some,
        digits_value(s.take(i))->0 <= digits_value(s)->0,
        forall|j: int| 0 <= j < s.len() ==> is_digit(#[trigger] s[j]),
    decreases s.len(),
{
    if i == s.len() {
        assert(s.take(i) =~= s);
        if s.len() > 1 {
            lemma_digits_prefix(s.drop_last(), i - 1);
            assert forall|j: int| 0 <= j < s.len() implies is_digit(#[trigger] s[j]) by {
                if j < s.len() - 1 {
                    assert(s[j] == s.drop_last()[j]);
                }
            }
        }
    } else {
        lemma_digits_prefix(s.drop_last(), i);
        assert(s.drop_last().take(i) =~= s.take(i));
        assert forall|j: int| 0 <= j < s.len() implies is_digit(#[trigger] s[j]) by {
            if j < s.len() - 1 {
                assert(s[j] == s.drop_last()[j]);
            }
        }
    }
}

fn digit_of(d: u8) -> (c: char)
    requires
        d < 10,
    ensures
        c == digit_char(d as int),
{
    if d == 0 {
        '0'
    } else if d == 1 {
        '1'
    } else if d == 2 {
        '2'
    } else if d == 3 {
        '3'
    } else if d == 4 {
        '4'
    } else if d == 5 {
        '5'
    } else if d == 6 {
        '6'
    } else if d == 7 {
        '7'
    } else if d == 8 {
        '8'
    } else {
        '9'
    }
}

fn value_of(c: char) -> (d: u8)
    requires
        is_digit(c),
    ensures
        d as int == digit_value(c),
        d < 10,
{
    if c == '0' {
        0
    } else if c == '1' {
        1
    } else if c == '2' {
        2
    } else if c == '3' {
        3
    } else if c == '4' {
        4
    } else if c == '5' {
        5
    } else if c == '6' {
        6
    } else if c == '7' {
        7
    } else if c == '8' {
        8
    } else {
        9
    }
}

fn push_decimal(out: &mut String, n: u128)
    ensures
        final(out)@ == old(out)@ + decimal(n as nat),
    decreases n,
{
    if n < 10 {
        out.push(digit_of(n as u8));
        assert(out@ =~= old(out)@ + decimal(n as nat));
    } else {
        push_decimal(out, n / 10);
        out.push(digit_of((n % 10) as u8));
        assert(out@ =~= old(out)@ + decimal(n as nat));
    }
}

/// The decimal text of `n`.
pub fn integer_string(n: i128) -> (r: String)
    ensures
        r@ == integer_text(n as int),
{
    let mut out = String::new();
    if n < 0 {
        out.push('-');
        let m: u128 = ((-(n + 1)) as u128) + 1;
        push_decimal(&mut out, m);
        assert(out@ =~= integer_text(n as int));
    } else {
        push_decimal(&mut out, n as u128);
        assert(out@ =~= integer_text(n as int));
    }
    out
}

/// Reads `text` as an integer between `min` and `max`.
pub fn parse_integer(text: &str, signed: bool, min: i128, max: i128) -> (r: Option<i128>)
    requires
        -0x1_0000_0000_0000_0000 <= min <= max <= 0x1_0000_0000_0000_0000,
    ensures
        match r {
            Some(v) => integer_within(text@, signed, min as int, max as int) == Some(v as int),
            None => integer_within(text@, signed, min as int, max as int) is None,
        },
{
    let chars = chars_of(text);
    let n = chars.len();
    let mut start: usize = 0;
    let mut negative = false;
    if n > 0 && chars[0] == '-' {
        if !signed {
            return None;
        }
        negative = true;
        start = 1;
    } else if n > 0 && chars[0] == '+' {
        start = 1;
    }
    let ghost digits = chars@.skip(start as int);
    if start >= n {
        assert(digits.len() == 0);
        return None;
    }
    assert(integer_value(text@, signed) == match digits_value(digits) {
        Some(v) => Some(
            if negative {
                -(v as int)
            } else {
                v as int
            },
        ),
        None => None::<int>,
    }) by {
        if start == 0 {
            assert(digits =~= text@);
        }
    }
    let mut acc: i128 = 0;
    let mut i: usize = start;
    while i < n
        invariant
            start <= i <= n,
            start < n,
            n == chars.len(),
            digits == chars@.skip(start as int),
            -0x1_0000_0000_0000_0000 <= min <= max <= 0x1_0000_0000_0000_0000,
            integer_value(text@, signed) == match digits_value(digits) {
                Some(v) => Some(
                    if negative {
                        -(v as int)
                    } else {
                        v as int
                    },
                ),
                None => None::<int>,
            },
            0 <= acc <= 0x1_0000_0000_0000_0000,
            i > start ==> digits_value(digits.take(i - start)) == Some(acc as nat),
            i == start ==> acc == 0,
        decreases n - i,
    {
        let c = chars[i];
        assert(digits[i - start] == c);
        if !(c >= '0' && c <= '9') {
            proof {
                if digits_value(digits) is Some {
                    lemma_digits_prefix(digits, digits.len() as int);
                }
            }
            return None;
        }
        let d = value_of(c);
        let next: i128 = acc * 10 + d as i128;
        proof {
            let t = digits.take(i + 1 - start);
            assert(t.last() == c);
            if i > start {
                assert(t.drop_last() =~= digits.take(i - start));
            }
            assert(digits_value(t) == Some(next as nat));
        }
        if next > 0x1_0000_0000_0000_0000 {
            proof {
                if digits_value(digits) is Some {
                    lemma_digits_prefix(digits, i + 1 - start);
                }
            }
            return None;
        }
        acc = next;
        i += 1;
    }
    assert(digits.take(n - start) =~= digits);
    let v: i128 = if negative {
        -acc
    } else {
        acc
    };
    if min <= v && v <= max {
        Some(v)
    } else {
        None
    }
}


/// A number's text, read as an integer.
#[derive(Clone, Copy, PartialEq, PartialOrd, Debug)]
pub enum ParsedNumber {
    I64(i64),
    U64(u64),
}

/// The integer reading of a number's text: unsigned where the text is
/// one, else signed where it is one.
pub open spec fn parsed_number(text: Seq<char>) -> Option<ParsedNumber> {
    match integer_within(text, false, 0, u64::MAX as int) {
        Some(n) => Some(ParsedNumber::U64(n as u64)),
        None => match integer_within(text, true, i64::MIN as int, i64::MAX as int) {
            Some(n) => Some(ParsedNumber::I64(n as i64)),
            None => None,
        },
    }
}

impl ParsedNumber {
    /// Reads `s` as an unsigned integer, else as a signed one. A text
    /// that is neither is left to the caller.
    pub fn parse(s: &str) -> (r: Option<ParsedNumber>)
        ensures
            r == parsed_number(s@),
    {
        match parse_integer(s, false, 0, u64::MAX as i128) {
            Some(n) => Some(ParsedNumber::U64(n as u64)),
            None => match parse_integer(s, true, i64::MIN as i128, i64::MAX as i128) {
                Some(n) => Some(ParsedNumber::I64(n as i64)),
                None => None,
            },
        }
    }
}

impl crate::value::Value {
    /// The integer reading of the value, where it is a number.
    pub fn parse_number(&self) -> (r: Option<ParsedNumber>)
        ensures
            r == match self@ {
                crate::value::ValueView::Number(text) => parsed_number(text),
                _ => None,
            },
    {
        match self {
            crate::value::Value::Number(s) => ParsedNumber::parse(s.as_str()),
            _ => None,
        }
    }
}

} // verus!
