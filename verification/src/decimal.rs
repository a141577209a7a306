//! Numbers as operators and files write them: decimal digits, with nothing
//! around them but a plus sign in front.

use vstd::prelude::*;
use vstd::string::*;

verus! {

/// The value of a decimal digit.
pub open spec fn spec_digit(c: char) -> Option<nat> {
    if '0' <= c && c <= '9' {
        Some((c as nat - '0' as nat) as nat)
    } else {
        None
    }
}

/// The value of a string of decimal digits, 0 for the empty string. `None`
/// where a character is no digit.
pub open spec fn spec_digits(s: Seq<char>) -> Option<nat>
    decreases s.len(),
{
    if s.len() == 0 {
        Some(0)
    } else {
        match (spec_digits(s.drop_last()), spec_digit(s.last())) {
            (Some(v), Some(d)) => Some(v * 10 + d),
            _ => None,
        }
    }
}

/// The digits of a number: the string without a plus sign in front.
pub open spec fn spec_unsigned(s: Seq<char>) -> Seq<char> {
    if s.len() > 0 && s[0] == '+' {
        s.drop_first()
    } else {
        s
    }
}

/// The number that a string writes, where it writes one that is no greater
/// than `max`: at least one digit, nothing but digits, and at most one plus
/// sign in front.
pub open spec fn spec_parse(s: Seq<char>, max: u64) -> Option<u64> {
    let digits = spec_unsigned(s);
    if digits.len() == 0 {
        None
    } else {
        match spec_digits(digits) {
            Some(v) => if v <= max {
                Some(v as u64)
            } else {
                None
            },
            None => None,
        }
    }
}

/// More digits never make a smaller number.
pub proof fn lemma_digits_grow(s: Seq<char>, n: int)
    requires
        0 <= n <= s.len(),
        spec_digits(s) is Some,
    ensures
        spec_digits(s.subrange(0, n)) is Some,
        spec_digits(s.subrange(0, n)).unwrap() <= spec_digits(s).unwrap(),
    decreases s.len() - n,
{
    if n == s.len() {
        assert(s.subrange(0, n) =~= s);
    } else {
        let front = s.drop_last();
        assert(front.subrange(0, n) =~= s.subrange(0, n));
        lemma_digits_grow(front, n);
    }
}

/// Reads a number that is no greater than `max`.
pub fn parse_decimal(s: &str, max: u64) -> (r: Option<u64>)
    ensures
        r == spec_parse(s@, max),
{
    let len = s.unicode_len();
    let start: usize = if len > 0 && s.get_char(0) == '+' {
        1
    } else {
        0
    };
    if start == len {
        return None;
    }
    let ghost digits = spec_unsigned(s@);
    let mut value: u64 = 0;
    let mut i: usize = start;
    proof {
        assert(digits.subrange(0, 0) =~= Seq::<char>::empty());
    }
    while i < len
        invariant
            start <= i <= len,
            len == s@.len(),
            start <= 1,
            digits == spec_unsigned(s@),
            digits.len() == len - start,
            forall|j: int| 0 <= j < digits.len() ==> digits[j] == s@[j + start],
            spec_digits(digits.subrange(0, i - start)) == Some(value as nat),
            value <= max,
        decreases len - i,
    {
        let c = s.get_char(i);
        let ghost done = digits.subrange(0, i - start);
        let ghost next = digits.subrange(0, i - start + 1);
        proof {
            assert(next.drop_last() =~= done);
            assert(next.last() == c);
        }
        if c < '0' || c > '9' {
            proof {
                if spec_digits(digits) is Some {
                    lemma_digits_grow(digits, i - start + 1);
                }
            }
            return None;
        }
        let d = (c as u32 - '0' as u32) as u64;
        if d > max || value > (max - d) / 10 {
            proof {
                assert(value * 10 + d > max) by (nonlinear_arith)
                    requires
                        d > max || value > (max - d) / 10,
                        0 <= d <= 9,
                        0 <= value,
                ;
                if spec_digits(digits) is Some {
                    lemma_digits_grow(digits, i - start + 1);
                }
            }
            return None;
        }
        assert(value * 10 + d <= max) by (nonlinear_arith)
            requires
                value <= (max - d) / 10,
                d <= max,
        ;
        value = value * 10 + d;
        i = i + 1;
    }
    proof {
        assert(digits.subrange(0, len - start) =~= digits);
    }
    Some(value)
}

} // verus!
