//! Numbers as text: lowercase hexadecimal for the operands of a request and
//! the lengths in a reply, decimal for the port of an endpoint.

use vstd::prelude::*;
use crate::text::chars_of;

verus! {

/// The character that stands for the digit `d`, lowercase above nine.
pub open spec fn digit_char(d: nat) -> char {
    if d < 10 {
        ((48 + d) as u8) as char
    } else {
        ((87 + d) as u8) as char
    }
}

/// `n` in lowercase hexadecimal, most significant digit first, without a
/// prefix and without leading zeros; zero is the single digit `0`.
pub open spec fn hex_digits(n: nat) -> Seq<char>
    decreases n,
{
    if n < 16 {
        seq![digit_char(n)]
    } else {
        hex_digits(n / 16).push(digit_char(n % 16))
    }
}

/// `n` in decimal, most significant digit first, without leading zeros; zero
/// is the single digit `0`.
pub open spec fn decimal_digits(n: nat) -> Seq<char>
    decreases n,
{
    if n < 10 {
        seq![digit_char(n)]
    } else {
        decimal_digits(n / 10).push(digit_char(n % 10))
    }
}

/// The value of a hexadecimal digit of either case.
pub open spec fn digit_value(c: char) -> Option<nat> {
    let u = c as u32;
    if 48 <= u <= 57 {
        Some((u - 48) as nat)
    } else if 97 <= u <= 102 {
        Some((u - 87) as nat)
    } else if 65 <= u <= 70 {
        Some((u - 55) as nat)
    } else {
        None
    }
}

/// The number that a run of hexadecimal digits denotes; `None` where one of
/// the characters is no digit. The empty run denotes zero.
pub open spec fn digits_value(s: Seq<char>) -> Option<nat>
    decreases s.len(),
{
    if s.len() == 0 {
        Some(0)
    } else {
        match (digits_value(s.drop_last()), digit_value(s.last())) {
            (Some(high), Some(d)) => Some(16 * high + d),
            _ => None,
        }
    }
}

/// The number that a hexadecimal text denotes: one or more digits of either
/// case, after an optional `+`.
pub open spec fn hex_value(s: Seq<char>) -> Option<nat> {
    let digits = if s.len() > 0 && s[0] == '+' {
        s.drop_first()
    } else {
        s
    };
    if digits.len() == 0 {
        None
    } else {
        digits_value(digits)
    }
}

pub(crate) fn digit(d: u8) -> (c: char)
    requires
        d < 16,
    ensures
        c == digit_char(d as nat),
{
    if d < 10 {
        (48u8 + d) as char
    } else {
        (87u8 + d) as char
    }
}

fn write_hex(n: u64, out: &mut String)
    ensures
        final(out)@ == old(out)@ + hex_digits(n as nat),
    decreases n,
{
    if n < 16 {
        out.push(digit(n as u8));
    } else {
        write_hex(n / 16, out);
        out.push(digit((n % 16) as u8));
    }
}

fn write_decimal(n: u64, out: &mut String)
    ensures
        final(out)@ == old(out)@ + decimal_digits(n as nat),
    decreases n,
{
    if n < 10 {
        out.push(digit(n as u8));
    } else {
        write_decimal(n / 10, out);
        out.push(digit((n % 10) as u8));
    }
}

/// `n` as lowercase hexadecimal text.
pub fn to_hex(n: u64) -> (s: String)
    ensures
        s@ == hex_digits(n as nat),
{
    let mut s = String::new();
    write_hex(n, &mut s);
    s
}

/// `n` as decimal text.
pub fn to_decimal(n: u64) -> (s: String)
    ensures
        s@ == decimal_digits(n as nat),
{
    let mut s = String::new();
    write_decimal(n, &mut s);
    s
}

pub(crate) fn value_of(c: char) -> (d: Option<u8>)
    ensures
        match d {
            Some(d) => digit_value(c) == Some(d as nat) && d < 16,
            None => digit_value(c) is None,
        },
{
    let u = c as u32;
    if 48 <= u && u <= 57 {
        Some((u - 48) as u8)
    } else if 97 <= u && u <= 102 {
        Some((u - 87) as u8)
    } else if 65 <= u && u <= 70 {
        Some((u - 55) as u8)
    } else {
        None
    }
}

/// A run that denotes a number does so in each of its prefixes, and no
/// prefix denotes more than the whole.
pub proof fn lemma_digits_value_prefix(s: Seq<char>, k: int)
    requires
        0 <= k <= s.len(),
        digits_value(s) is Some,
    ensures
        digits_value(s.take(k)) is Some,
        digits_value(s.take(k))->Some_0 <= digits_value(s)->Some_0,
    decreases s.len(),
{
    if k == s.len() {
        assert(s.take(k) =~= s);
    } else {
        lemma_digits_value_prefix(s.drop_last(), k);
        assert(s.drop_last().take(k) =~= s.take(k));
    }
}

/// A run with a character that is no digit denotes nothing.
pub proof fn lemma_digits_value_bad(s: Seq<char>, k: int)
    requires
        0 <= k < s.len(),
        digit_value(s[k]) is None,
    ensures
        digits_value(s) is None,
    decreases s.len(),
{
    if k < s.len() - 1 {
        lemma_digits_value_bad(s.drop_last(), k);
    }
}

/// The number that the hexadecimal text `s` denotes, where it denotes one
/// that fits.
pub fn parse_hex(s: &str) -> (r: Option<usize>)
    ensures
        r == match hex_value(s@) {
            Some(v) => if v <= usize::MAX {
                Some(v as usize)
            } else {
                None
            },
            None => None,
        },
{
    let chars = chars_of(s);
    let start: usize = if chars.len() > 0 && chars[0] == '+' {
        1
    } else {
        0
    };
    if start == chars.len() {
        return None;
    }
    let ghost digits = chars@.skip(start as int);
    assert(digits =~= if s@.len() > 0 && s@[0] == '+' {
        s@.drop_first()
    } else {
        s@
    });
    let mut acc: usize = 0;
    let mut i: usize = start;
    while i < chars.len()
        invariant
            start <= i <= chars.len(),
            digits == chars@.skip(start as int),
            hex_value(s@) == digits_value(digits),
            digits_value(digits.take(i - start)) == Some(acc as nat),
        decreases chars.len() - i,
    {
        let ghost head = digits.take(i - start);
        let ghost next = digits.take(i - start + 1);
        assert(next.drop_last() =~= head);
        match value_of(chars[i]) {
            None => {
                proof {
                    lemma_digits_value_bad(digits, i - start);
                }
                return None;
            },
            Some(d) => {
                if acc > (usize::MAX - d as usize) / 16 {
                    proof {
                        if digits_value(digits) is Some {
                            lemma_digits_value_prefix(digits, i - start + 1);
                        }
                    }
                    return None;
                }
                acc = acc * 16 + d as usize;
            },
        }
        i = i + 1;
    }
    assert(digits.take(i - start) =~= digits);
    Some(acc)
}

proof fn lemma_digit_round_trip(d: nat)
    requires
        d < 16,
    ensures
        digit_value(digit_char(d)) == Some(d),
        digit_char(d) != '+',
{
}

/// Every natural number is read back from its hexadecimal digits.
pub proof fn lemma_hex_round_trip(n: nat)
    ensures
        hex_value(hex_digits(n)) == Some(n),
{
    lemma_hex_digits_value(n);
}

proof fn lemma_hex_digits_value(n: nat)
    ensures
        digits_value(hex_digits(n)) == Some(n),
        hex_digits(n).len() > 0,
        hex_digits(n)[0] != '+',
    decreases n,
{
    let s = hex_digits(n);
    assert(digits_value(Seq::<char>::empty()) == Some(0nat));
    if n < 16 {
        lemma_digit_round_trip(n);
        assert(s.drop_last() =~= Seq::<char>::empty());
    } else {
        lemma_hex_digits_value(n / 16);
        lemma_digit_round_trip(n % 16);
        assert(s.drop_last() =~= hex_digits(n / 16));
    }
}

} // verus!
