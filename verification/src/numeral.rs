//! Decimal numerals.

use crate::text::{joined, string_of};
use vstd::prelude::*;

verus! {

/// The digit of value `d`.
pub open spec fn digit(d: nat) -> char {
    ('0' as u8 + d) as char
}

/// The decimal numeral of `n`, without leading zeros.
pub open spec fn decimal(n: nat) -> Seq<char>
    decreases n,
{
    if n < 10 {
        seq![digit(n)]
    } else {
        decimal(n / 10).push(digit(n % 10))
    }
}

/// Whether a character is one of the ten digits.
pub open spec fn is_digit(c: char) -> bool {
    '0' <= c <= '9'
}

/// What a sequence of digits stands for.
pub open spec fn value(s: Seq<char>) -> nat
    decreases s.len(),
{
    if s.len() == 0 {
        0
    } else {
        value(s.drop_last()) * 10 + (s.last() as nat - '0' as nat) as nat
    }
}

/// The digits of a numeral: a leading plus sign is passed over.
pub open spec fn unsigned_digits(s: Seq<char>) -> Seq<char> {
    if s.len() > 0 && s[0] == '+' {
        s.skip(1)
    } else {
        s
    }
}

/// The number that a text stands for, if it is one or more digits, with or
/// without a plus sign in front, and no greater than `max`.
pub open spec fn parsed(s: Seq<char>, max: nat) -> Option<nat> {
    let d = unsigned_digits(s);
    if d.len() > 0 && (forall|i: int| 0 <= i < d.len() ==> is_digit(#[trigger] d[i])) && value(d)
        <= max {
        Some(value(d))
    } else {
        None
    }
}

fn digit_char(d: u8) -> (c: char)
    requires
        d < 10,
    ensures
        c == digit(d as nat),
{
    match d {
        0 => '0',
        1 => '1',
        2 => '2',
        3 => '3',
        4 => '4',
        5 => '5',
        6 => '6',
        7 => '7',
        8 => '8',
        _ => '9',
    }
}

fn decimal_chars(n: u64) -> (r: Vec<char>)
    ensures
        r@ == decimal(n as nat),
    decreases n,
{
    if n < 10 {
        let mut r: Vec<char> = Vec::new();
        r.push(digit_char(n as u8));
        assert(r@ =~= decimal(n as nat));
        r
    } else {
        let mut r = decimal_chars(n / 10);
        r.push(digit_char((n % 10) as u8));
        r
    }
}

/// The decimal numeral of a number.
pub fn to_decimal(n: u64) -> (r: String)
    ensures
        r@ == decimal(n as nat),
{
    string_of(decimal_chars(n).as_slice())
}

/// A text with a number behind it.
pub fn prefixed(before: &str, n: u64) -> (r: String)
    ensures
        r@ == before@ + decimal(n as nat),
{
    joined(before, to_decimal(n).as_str())
}

/// A text with a number between two parts.
pub fn numbered(before: &str, n: u64, after: &str) -> (r: String)
    ensures
        r@ == before@ + decimal(n as nat) + after@,
{
    joined(prefixed(before, n).as_str(), after)
}

proof fn lemma_value_grows(s: Seq<char>, t: Seq<char>)
    requires
        forall|i: int| 0 <= i < t.len() ==> is_digit(#[trigger] t[i]),
    ensures
        value(s) <= value(s + t),
    decreases t.len(),
{
    if t.len() > 0 {
        lemma_value_grows(s, t.drop_last());
        assert((s + t).drop_last() =~= s + t.drop_last());
        assert((s + t).last() == t.last());
        assert(is_digit(t[t.len() - 1]));
    } else {
        assert(s + t =~= s);
    }
}

/// Reads a number no greater than `max`.
pub fn parse_unsigned(s: &[char], max: u32) -> (r: Option<u32>)
    ensures
        match parsed(s@, max as nat) {
            Some(n) => r == Some(n as u32) && n <= max,
            None => r == None::<u32>,
        },
{
    let size: usize = s.len();
    let start: usize = if size > 0 && s[0] == '+' {
        1
    } else {
        0
    };
    let ghost d = unsigned_digits(s@);
    assert(d =~= s@.skip(start as int));
    if start == size {
        return None;
    }
    let mut n: u64 = 0;
    let mut i: usize = start;
    assert(d.take(0) =~= Seq::empty());
    while i < size
        invariant
            start <= i <= size,
            size == s@.len(),
            d == s@.skip(start as int),
            d == unsigned_digits(s@),
            n == value(d.take(i - start)),
            n <= max,
            forall|j: int| 0 <= j < i - start ==> is_digit(#[trigger] d[j]),
        decreases size - i,
    {
        let c = s[i];
        assert(d[i - start] == c);
        if !('0' <= c && c <= '9') {
            return None;
        }
        assert(d.take(i - start + 1).drop_last() =~= d.take(i - start));
        n = n * 10 + (c as u64 - '0' as u64);
        i = i + 1;
        if n > max as u64 {
            proof {
                if forall|j: int| 0 <= j < d.len() ==> is_digit(#[trigger] d[j]) {
                    let head = d.take(i - start);
                    let tail = d.skip(i - start);
                    assert(d =~= head + tail);
                    assert forall|j: int| 0 <= j < tail.len() implies is_digit(
                        #[trigger] tail[j],
                    ) by {
                        assert(tail[j] == d[i - start + j]);
                    }
                    lemma_value_grows(head, tail);
                }
            }
            return None;
        }
    }
    assert(d.take(i - start) =~= d);
    Some(n as u32)
}

/// A numeral is made of digits and stands for its number.
pub proof fn lemma_decimal(n: nat)
    ensures
        decimal(n).len() > 0,
        forall|i: int| 0 <= i < decimal(n).len() ==> is_digit(#[trigger] decimal(n)[i]),
        value(decimal(n)) == n,
    decreases n,
{
    let s = decimal(n);
    if n < 10 {
        assert(s.drop_last() =~= Seq::<char>::empty());
        assert(value(Seq::<char>::empty()) == 0);
    } else {
        lemma_decimal(n / 10);
        assert(s.drop_last() =~= decimal(n / 10));
        assert forall|i: int| 0 <= i < s.len() implies is_digit(#[trigger] s[i]) by {
            if i < s.len() - 1 {
                assert(s[i] == decimal(n / 10)[i]);
            }
        }
    }
}

/// Reading the numeral of a number gives the number back.
pub proof fn law_numeral_round_trip(n: nat, max: nat)
    requires
        n <= max,
    ensures
        parsed(decimal(n), max) == Some(n),
{
    lemma_decimal(n);
    assert(is_digit(decimal(n)[0]));
}

/// Digits stand for what their places say: one more digit in front counts that
/// many times ten to the number of digits behind it.
pub proof fn law_digits_have_their_place(d: char, s: Seq<char>)
    requires
        is_digit(d),
    ensures
        value(seq![d] + s) == (d as nat - '0' as nat) * vstd::arithmetic::power::pow(
            10,
            s.len(),
        ) + value(s),
        value(seq![d]) == d as nat - '0' as nat,
    decreases s.len(),
{
    let t = seq![d] + s;
    reveal_with_fuel(value, 2);
    assert(seq![d].drop_last() =~= Seq::<char>::empty());
    if s.len() == 0 {
        vstd::arithmetic::power::lemma_pow0(10);
        assert(t =~= seq![d]);
    } else {
        law_digits_have_their_place(d, s.drop_last());
        assert(t.drop_last() =~= seq![d] + s.drop_last());
        assert(t.last() == s.last());
        let n = (s.len() - 1) as nat;
        let x = d as nat - '0' as nat;
        let p = vstd::arithmetic::power::pow(10, n);
        vstd::arithmetic::power::lemma_pow_adds(10, n, 1);
        vstd::arithmetic::power::lemma_pow1(10);
        assert(x * (p * 10) == x * p * 10) by (nonlinear_arith);
    }
}

/// A numeral has no zero in front, unless it is that of zero itself.
pub proof fn law_numerals_have_no_leading_zero(n: nat)
    ensures
        decimal(n)[0] == '0' <==> n == 0,
        n < 10 <==> decimal(n).len() == 1,
    decreases n,
{
    if n >= 10 {
        law_numerals_have_no_leading_zero(n / 10);
        lemma_decimal(n / 10);
        assert(decimal(n)[0] == decimal(n / 10)[0]);
    }
}

/// What is no number is not read as one: nothing at all, a sign without digits, or
/// anything with a character that is no digit behind its first; nor is one that is
/// too large.
pub proof fn law_what_is_no_number(s: Seq<char>, max: nat, i: int)
    ensures
        s.len() == 0 ==> parsed(s, max) is None,
        s == seq!['+'] ==> parsed(s, max) is None,
        0 < i < s.len() && !('0' <= s[i] <= '9') ==> parsed(s, max) is None,
        s.len() > 0 && s[0] != '+' && !('0' <= s[0] <= '9') ==> parsed(s, max) is None,
        parsed(s, max) matches Some(n) ==> n <= max,
{
    let d = unsigned_digits(s);
    if s.len() > 0 && s[0] == '+' {
        if 0 < i < s.len() {
            assert(d[i - 1] == s[i]);
        }
    } else {
        if 0 < i < s.len() {
            assert(d[i] == s[i]);
        }
        if s.len() > 0 {
            assert(d[0] == s[0]);
        }
    }
}

/// A plus sign in front of a number is passed over.
pub proof fn law_plus_sign_is_passed_over(n: nat, max: nat)
    requires
        n <= max,
    ensures
        parsed(seq!['+'] + decimal(n), max) == Some(n),
{
    let s = seq!['+'] + decimal(n);
    assert(s.skip(1) =~= decimal(n));
    lemma_decimal(n);
}

} // verus!
