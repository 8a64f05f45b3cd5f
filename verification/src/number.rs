//! Natural numbers in decimal notation.
use crate::text::{char_is_digit, code, digits_only, is_digit, law_digits_are_ascii, to_chars};
use vstd::prelude::*;

verus! {

/// The ASCII digit of a number below ten.
pub open spec fn digit(d: nat) -> char {
    (0x30 + d) as char
}

/// A number in decimal, without leading zeros.
pub open spec fn decimal(n: nat) -> Seq<char>
    decreases n,
{
    if n < 10 {
        seq![digit(n)]
    } else {
        decimal(n / 10).push(digit(n % 10))
    }
}

/// The number that a row of digits denotes.
pub open spec fn value(s: Seq<char>) -> nat
    decreases s.len(),
{
    if s.len() == 0 {
        0
    } else {
        value(s.drop_last()) * 10 + (code(s.last()) - 0x30) as nat
    }
}

/// `s` without a plus sign at its start.
pub open spec fn unsigned_part(s: Seq<char>) -> Seq<char> {
    if s.len() > 0 && s[0] == '+' {
        s.skip(1)
    } else {
        s
    }
}

/// The number that `s` denotes: digits, with or without a plus sign before
/// them, of a number that is `max` at most. Anything else is no number.
pub open spec fn parse(s: Seq<char>, max: nat) -> Option<nat> {
    let digits = unsigned_part(s);
    if digits_only(digits) && value(digits) <= max {
        Some(value(digits))
    } else {
        None
    }
}

/// A longer row of digits does not denote a smaller number.
proof fn lemma_value_of_prefix(s: Seq<char>, i: int)
    requires
        digits_only(s),
        0 <= i <= s.len(),
    ensures
        value(s.take(i)) <= value(s),
    decreases s.len(),
{
    if i == s.len() {
        assert(s.take(i) =~= s);
    } else {
        let shorter = s.drop_last();
        assert(shorter.take(i) =~= s.take(i));
        if shorter.len() > 0 {
            assert(digits_only(shorter)) by {
                assert forall|j: int| 0 <= j < shorter.len() implies is_digit(
                    #[trigger] shorter[j],
                ) by {
                    assert(shorter[j] == s[j]);
                }
            }
            lemma_value_of_prefix(shorter, i);
        }
        assert(is_digit(s[s.len() - 1]));
    }
}

/// Writing a number in decimal gives digits, which denote that number.
pub proof fn lemma_decimal_denotes(n: nat)
    ensures
        digits_only(decimal(n)),
        value(decimal(n)) == n,
    decreases n,
{
    if n < 10 {
        assert(decimal(n).drop_last() =~= Seq::<char>::empty());
        assert(value(Seq::<char>::empty()) == 0);
    } else {
        lemma_decimal_denotes(n / 10);
        assert(decimal(n).drop_last() =~= decimal(n / 10));
        assert forall|j: int| 0 <= j < decimal(n).len() implies is_digit(
            #[trigger] decimal(n)[j],
        ) by {
            if j < decimal(n / 10).len() {
                assert(decimal(n)[j] == decimal(n / 10)[j]);
            }
        }
    }
}

/// A number that is written in decimal is read back as itself, under any limit
/// that is not below it.
pub proof fn lemma_decimal_is_read_back(n: nat, max: nat)
    requires
        n <= max,
    ensures
        parse(decimal(n), max) == Some(n),
{
    lemma_decimal_denotes(n);
    assert(is_digit(decimal(n)[0]));
    assert(unsigned_part(decimal(n)) == decimal(n));
}

/// `n` in decimal.
pub fn to_decimal(n: u64) -> (s: String)
    ensures
        s@ == decimal(n as nat),
    decreases n,
{
    let last: char = (0x30u8 + (n % 10) as u8) as char;
    assert(last == digit((n % 10) as nat));
    if n < 10 {
        let mut s = String::new();
        s.push(last);
        assert(s@ =~= decimal(n as nat));
        s
    } else {
        let mut s = to_decimal(n / 10);
        s.push(last);
        s
    }
}

/// Reads a number of at most `max`.
fn parse_up_to(s: &str, max: u64) -> (n: Option<u64>)
    ensures
        n is Some == parse(s@, max as nat) is Some,
        n matches Some(v) ==> parse(s@, max as nat) == Some(v as nat),
{
    let chars = to_chars(s);
    let start: usize = if chars.len() > 0 && chars[0] == '+' {
        1
    } else {
        0
    };
    let ghost digits = unsigned_part(s@);
    assert(digits =~= s@.skip(start as int));
    if start == chars.len() {
        return None;
    }
    let mut i: usize = start;
    while i < chars.len()
        invariant
            chars@ == s@,
            start <= i <= chars.len(),
            digits == s@.skip(start as int),
            digits == unsigned_part(s@),
            forall|j: int| 0 <= j < i - start ==> is_digit(#[trigger] digits[j]),
        decreases chars.len() - i,
    {
        if !char_is_digit(chars[i]) {
            assert(!is_digit(digits[i - start]));
            return None;
        }
        i += 1;
    }
    let mut total: u64 = 0;
    i = start;
    while i < chars.len()
        invariant
            chars@ == s@,
            start <= i <= chars.len(),
            digits == s@.skip(start as int),
            digits == unsigned_part(s@),
            digits_only(digits),
            total == value(digits.take(i - start)),
            total <= max,
        decreases chars.len() - i,
    {
        let ghost next = digits.take(i - start + 1);
        assert(is_digit(digits[i - start]));
        assert(next.drop_last() =~= digits.take(i - start));
        assert(next.last() == chars@[i as int]);
        let d: u64 = (chars[i] as u32 - 0x30) as u64;
        assert(value(next) == total * 10 + d);
        if total as u128 * 10 + d as u128 > max as u128 {
            proof {
                lemma_value_of_prefix(digits, i - start + 1);
            }
            return None;
        }
        total = total * 10 + d;
        i += 1;
    }
    assert(digits.take(digits.len() as int) =~= digits);
    Some(total)
}

/// Reads a number that fits 64 bits.
pub fn parse_u64(s: &str) -> (n: Option<u64>)
    ensures
        n is Some == parse(s@, u64::MAX as nat) is Some,
        n matches Some(v) ==> parse(s@, u64::MAX as nat) == Some(v as nat),
{
    parse_up_to(s, u64::MAX)
}

/// Reads a number that fits 32 bits.
pub fn parse_u32(s: &str) -> (n: Option<u32>)
    ensures
        n is Some == parse(s@, u32::MAX as nat) is Some,
        n matches Some(v) ==> parse(s@, u32::MAX as nat) == Some(v as nat),
{
    match parse_up_to(s, u32::MAX as u64) {
        Some(v) => Some(v as u32),
        None => None,
    }
}

// ---------------------------------------------------------------------------- laws

/// A number is read from its digits, from the left to the right: one more digit makes
/// it ten times as much, and the digit. A plus sign before it does not count. What is
/// over the limit, or holds another character, is no number, and neither is nothing.
pub proof fn law_numbers_are_read_by_their_digits(s: Seq<char>, c: char, max: nat)
    ensures
        parse(seq![], max) is None,
        parse(seq!['+'], max) is None,
        '0' <= c && c <= '9' ==> parse(seq![c], 9) == Some((c as u32 - '0' as u32) as nat),
        s.len() == 0 || s[0] != '+' ==> parse(seq!['+'] + s, max) == parse(s, max),
        parse(s, max) matches Some(n) ==> {
            &&& n <= max
            &&& '0' <= c && c <= '9' ==> parse(s.push(c), max) == {
                let more = 10 * n + (c as u32 - '0' as u32) as nat;
                if more <= max {
                    Some(more as nat)
                } else {
                    None
                }
            }
            &&& !('0' <= c && c <= '9') ==> parse(s.push(c), max) is None
        },
{
    assert(unsigned_part(seq!['+']) =~= seq![]);
    assert(unsigned_part(Seq::<char>::empty()) =~= seq![]);
    assert(seq![c].drop_last() =~= Seq::<char>::empty());
    assert(value(Seq::<char>::empty()) == 0);
    assert(seq![c][0] == c);
    if '0' <= c && c <= '9' {
        assert(digits_only(seq![c]));
        assert(value(seq![c]) == (code(c) - 0x30) as nat);
    }
    assert((seq!['+'] + s).skip(1) =~= s);
    if let Some(n) = parse(s, max) {
        let digits = unsigned_part(s);
        assert(unsigned_part(s.push(c)) =~= digits.push(c)) by {
            assert(s.push(c)[0] == s[0]);
            assert(s.push(c).skip(1) =~= s.skip(1).push(c));
        }
        assert(digits.push(c).drop_last() =~= digits);
        if '0' <= c && c <= '9' {
            assert forall|i: int| 0 <= i < digits.push(c).len() implies is_digit(
                #[trigger] digits.push(c)[i],
            ) by {
                if i < digits.len() {
                    assert(digits.push(c)[i] == digits[i]);
                }
            }
        } else {
            assert(digits.push(c)[digits.len() as int] == c);
        }
    }
}

/// A number is written in the ten digits, without leading zeros, so that it is read
/// back; different numbers are written differently.
pub proof fn law_numbers_are_written_in_digits(n: nat, other: nat, i: int)
    requires
        0 <= i < decimal(n).len(),
    ensures
        '0' <= decimal(n)[i] && decimal(n)[i] <= '9',
        decimal(n)[0] == '0' ==> n == 0,
        n < 10 ==> decimal(n).len() == 1,
        parse(decimal(n), n) == Some(n),
        decimal(n) == decimal(other) ==> n == other,
{
    lemma_decimal_denotes(n);
    lemma_decimal_denotes(other);
    lemma_decimal_is_read_back(n, n);
    lemma_no_leading_zero(n);
    let c = decimal(n)[i];
    assert(is_digit(c));
    law_digits_are_ascii(c);
}

proof fn lemma_no_leading_zero(n: nat)
    ensures
        decimal(n).len() > 0,
        decimal(n)[0] == '0' ==> n == 0,
    decreases n,
{
    if n >= 10 {
        lemma_no_leading_zero(n / 10);
        assert(decimal(n)[0] == decimal(n / 10)[0]);
    } else {
        assert(decimal(n)[0] == digit(n));
    }
}

} // verus!
