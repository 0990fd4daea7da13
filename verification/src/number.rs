//! Decimal notation of signed 32-bit integers.

use vstd::prelude::*;
use crate::chars::{is_digit, digit};
use crate::text::slice;

verus! {

/// The number that a decimal digit stands for.
pub open spec fn digit_value(c: char) -> int {
    c as int - '0' as int
}

/// Whether `s` is one or more decimal digits.
pub open spec fn is_digits(s: Seq<char>) -> bool {
    s.len() > 0 && forall|i: int| 0 <= i < s.len() ==> is_digit(#[trigger] s[i])
}

/// The number that a row of decimal digits stands for.
pub open spec fn decimal_value(s: Seq<char>) -> int
    decreases s.len(),
{
    if s.len() == 0 {
        0
    } else {
        decimal_value(s.drop_last()) * 10 + digit_value(s.last())
    }
}

/// Whether `s` starts with a sign.
pub open spec fn has_sign(s: Seq<char>) -> bool {
    s.len() > 0 && (s[0] == '-' || s[0] == '+')
}

/// What follows the sign of `s`, or all of `s` where it has none.
pub open spec fn magnitude(s: Seq<char>) -> Seq<char> {
    if has_sign(s) {
        s.skip(1)
    } else {
        s
    }
}

/// The number written in `s`: an optional `+` or `-`, then one or more
/// decimal digits and nothing else.
pub open spec fn signed_value(s: Seq<char>) -> int {
    if s.len() > 0 && s[0] == '-' {
        -decimal_value(magnitude(s))
    } else {
        decimal_value(magnitude(s))
    }
}

/// The 32-bit integer written in `s`, or `None` where `s` is no decimal
/// number or the number does not fit.
pub open spec fn parse_i32(s: Seq<char>) -> Option<int> {
    if is_digits(magnitude(s)) && i32::MIN <= signed_value(s) <= i32::MAX {
        Some(signed_value(s))
    } else {
        None
    }
}

/// A row of digits stands for at least as much as any of its beginnings.
pub proof fn lemma_decimal_value_grows(s: Seq<char>, k: int)
    requires
        0 <= k <= s.len(),
        forall|i: int| 0 <= i < s.len() ==> is_digit(#[trigger] s[i]),
    ensures
        0 <= decimal_value(s.take(k)) <= decimal_value(s),
    decreases s.len(),
{
    if s.len() > 0 {
        let init = s.drop_last();
        assert(is_digit(s[s.len() - 1]));
        if k == s.len() {
            assert(s.take(k) =~= s);
            lemma_decimal_value_grows(init, k - 1);
            assert(init.take(k - 1) =~= init);
        } else {
            lemma_decimal_value_grows(init, k);
            assert(init.take(k) =~= s.take(k));
        }
    } else {
        assert(s.take(k) =~= s);
    }
}

/// Reads the 32-bit integer written in `chars[from..to]`.
pub(crate) fn parse_i32_in(chars: &Vec<char>, from: usize, to: usize) -> (r: Option<i32>)
    requires
        from <= to <= chars.len(),
    ensures
        match parse_i32(slice(chars@, from as int, to as int)) {
            Some(v) => r == Some(v as i32),
            None => r is None,
        },
{
    let ghost text = slice(chars@, from as int, to as int);
    if from == to {
        return None;
    }
    let first: char = chars[from];
    assert(text[0] == first);
    let negative: bool = first == '-';
    let start: usize = if first == '-' || first == '+' {
        from + 1
    } else {
        from
    };
    let ghost digits = magnitude(text);
    assert(digits =~= slice(chars@, start as int, to as int));
    if start == to {
        return None;
    }
    let limit: i64 = if negative {
        2147483648
    } else {
        2147483647
    };
    let mut acc: i64 = 0;
    let mut i: usize = start;
    while i < to
        invariant
            start <= i <= to <= chars.len(),
            text == slice(chars@, from as int, to as int),
            digits == magnitude(text),
            digits == slice(chars@, start as int, to as int),
            negative == (text.len() > 0 && text[0] == '-'),
            limit == if negative { 2147483648i64 } else { 2147483647i64 },
            forall|j: int| 0 <= j < i - start ==> is_digit(#[trigger] digits[j]),
            acc == decimal_value(digits.take(i - start)),
            0 <= acc <= limit <= 2147483648,
        decreases to - i,
    {
        let c: char = chars[i];
        assert(digits[i - start] == c);
        if !digit(c) {
            return None;
        }
        let d: i64 = (c as u32 - '0' as u32) as i64;
        let next: i64 = acc * 10 + d;
        proof {
            assert(digits.take(i - start + 1).drop_last() =~= digits.take(i - start));
            assert(digits.take(i - start + 1).last() == c);
            assert(next == decimal_value(digits.take(i - start + 1)));
        }
        if next > limit {
            proof {
                if is_digits(digits) {
                    lemma_decimal_value_grows(digits, i - start + 1);
                }
            }
            return None;
        }
        acc = next;
        i = i + 1;
    }
    proof {
        assert(digits.take(to - start) =~= digits);
        assert(is_digits(digits));
    }
    if negative {
        Some((0 - acc) as i32)
    } else {
        Some(acc as i32)
    }
}

} // verus!
