//! Decimal numbers as text.

use vstd::prelude::*;

use crate::text::chars::{chars_of, digit, is_digit};
use crate::text::order::{lemma_precedes_behind, precedes};

verus! {

/// The value of the decimal digits `s`, read from the left.
pub open spec fn digits_value(s: Seq<char>) -> nat
    decreases s.len(),
{
    if s.len() == 0 {
        0
    } else {
        10 * digits_value(s.drop_last()) + (s.last() as u32 - '0' as u32) as nat
    }
}

/// Whether `s` is one or more decimal digits.
pub open spec fn is_number(s: Seq<char>) -> bool {
    s.len() > 0 && forall|i: int| 0 <= i < s.len() ==> is_digit(#[trigger] s[i])
}

/// `s` without one leading plus sign.
pub open spec fn without_plus(s: Seq<char>) -> Seq<char> {
    if s.len() > 0 && s[0] == '+' {
        s.skip(1)
    } else {
        s
    }
}

/// The number that `s` writes in decimal digits, after at most one plus sign,
/// where it is no more than `max`.
pub open spec fn parse_number(s: Seq<char>, max: nat) -> Option<nat> {
    let d = without_plus(s);
    if is_number(d) && digits_value(d) <= max {
        Some(digits_value(d))
    } else {
        None
    }
}

/// The decimal digit of value `n`.
pub open spec fn digit_char(n: nat) -> char {
    ('0' as u32 + n) as char
}

/// `n` in decimal digits, without leading zeros.
pub open spec fn decimal(n: nat) -> Seq<char>
    decreases n,
{
    if n < 10 {
        seq![digit_char(n)]
    } else {
        decimal(n / 10).push(digit_char(n % 10))
    }
}

/// The last `width` decimal digits of `n`, with leading zeros.
pub open spec fn fixed_decimal(n: nat, width: nat) -> Seq<char>
    decreases width,
{
    if width == 0 {
        Seq::empty()
    } else {
        fixed_decimal(n / 10, (width - 1) as nat).push(digit_char(n % 10))
    }
}

/// The first number that takes more than `width` decimal digits.
pub open spec fn digits_bound(width: nat) -> nat
    decreases width,
{
    if width == 0 {
        1
    } else {
        10 * digits_bound((width - 1) as nat)
    }
}

/// More digits never make a smaller number.
proof fn lemma_value_monotone(s: Seq<char>, i: int)
    requires
        0 <= i <= s.len(),
        forall|k: int| 0 <= k < s.len() ==> is_digit(#[trigger] s[k]),
    ensures
        digits_value(s.take(i)) <= digits_value(s),
    decreases s.len() - i,
{
    if i < s.len() {
        lemma_value_monotone(s, i + 1);
        assert(s.take(i + 1).drop_last() =~= s.take(i));
    } else {
        assert(s.take(i) =~= s);
    }
}

/// Whether `s` is one or more decimal digits.
pub fn all_digits(s: &str) -> (r: bool)
    ensures
        r == is_number(s@),
{
    let a: Vec<char> = chars_of(s);
    let mut i: usize = 0;
    while i < a.len()
        invariant
            a@ == s@,
            i <= a@.len(),
            forall|k: int| 0 <= k < i ==> is_digit(#[trigger] a@[k]),
        decreases a@.len() - i,
    {
        if !digit(a[i]) {
            return false;
        }
        i = i + 1;
    }
    a.len() > 0
}

/// The number that `s` writes, as a `u64`.
pub fn parse_u64(s: &str) -> (r: Option<u64>)
    ensures
        match r {
            Some(n) => parse_number(s@, u64::MAX as nat) == Some(n as nat),
            None => parse_number(s@, u64::MAX as nat) is None,
        },
{
    let a: Vec<char> = chars_of(s);
    let n: usize = a.len();
    let start: usize = if n > 0 && a[0] == '+' {
        1
    } else {
        0
    };
    let ghost d = without_plus(s@);
    assert(d =~= a@.skip(start as int));
    if start == n {
        return None;
    }
    let mut v: u64 = 0;
    let mut i: usize = start;
    assert(d.take(0) =~= Seq::<char>::empty());
    while i < n
        invariant
            a@ == s@,
            n == a@.len(),
            start <= i <= n,
            d == a@.skip(start as int),
            d == without_plus(s@),
            forall|k: int| 0 <= k < i - start ==> is_digit(#[trigger] d[k]),
            v == digits_value(d.take(i - start)),
        decreases n - i,
    {
        let c: char = a[i];
        assert(d[i - start] == c);
        if !digit(c) {
            return None;
        }
        let x: u64 = (c as u32 - '0' as u32) as u64;
        proof {
            assert(d.take(i - start + 1).drop_last() =~= d.take(i - start));
            assert(d.take(i - start + 1).last() == c);
            if is_number(d) {
                lemma_value_monotone(d, i - start + 1);
            }
        }
        if v > (u64::MAX - x) / 10 {
            return None;
        }
        v = v * 10 + x;
        i = i + 1;
    }
    assert(d.take(i - start) =~= d);
    Some(v)
}

/// The number that `s` writes, as a `u32`.
pub fn parse_u32(s: &str) -> (r: Option<u32>)
    ensures
        match r {
            Some(n) => parse_number(s@, u32::MAX as nat) == Some(n as nat),
            None => parse_number(s@, u32::MAX as nat) is None,
        },
{
    match parse_u64(s) {
        Some(n) => {
            if n <= u32::MAX as u64 {
                Some(n as u32)
            } else {
                None
            }
        },
        None => None,
    }
}

/// `n` in decimal digits.
pub fn decimal_of(n: u64) -> (r: String)
    ensures
        r@ == decimal(n as nat),
    decreases n,
{
    if n < 10 {
        let mut r: String = String::new();
        r.push((48u8 + n as u8) as char);
        r
    } else {
        let mut r: String = decimal_of(n / 10);
        r.push((48u8 + (n % 10) as u8) as char);
        r
    }
}

/// The last `width` decimal digits of `n`.
pub fn fixed_decimal_of(n: u64, width: usize) -> (r: String)
    ensures
        r@ == fixed_decimal(n as nat, width as nat),
    decreases width,
{
    if width == 0 {
        String::new()
    } else {
        let mut r: String = fixed_decimal_of(n / 10, width - 1);
        r.push((48u8 + (n % 10) as u8) as char);
        r
    }
}

/// What `fixed_decimal` writes is `width` digits, and the number where it is
/// small enough for them.
pub proof fn lemma_fixed_decimal_value(n: nat, width: nat)
    ensures
        fixed_decimal(n, width).len() == width,
        forall|i: int| 0 <= i < width ==> is_digit(#[trigger] fixed_decimal(n, width)[i]),
        n < digits_bound(width) ==> digits_value(fixed_decimal(n, width)) == n,
    decreases width,
{
    if width > 0 {
        let w = (width - 1) as nat;
        lemma_fixed_decimal_value(n / 10, w);
        assert(fixed_decimal(n, width).drop_last() =~= fixed_decimal(n / 10, w));
        assert(fixed_decimal(n, width).last() as u32 == '0' as u32 + n % 10);
    }
}

/// Digits are what `fixed_decimal` writes of their value.
pub proof fn lemma_fixed_decimal_of_value(s: Seq<char>)
    requires
        forall|i: int| 0 <= i < s.len() ==> is_digit(#[trigger] s[i]),
    ensures
        fixed_decimal(digits_value(s), s.len()) == s,
    decreases s.len(),
{
    if s.len() == 0 {
        assert(s =~= Seq::<char>::empty());
    } else {
        let d = s.drop_last();
        assert forall|i: int| 0 <= i < d.len() implies is_digit(#[trigger] d[i]) by {
            assert(d[i] == s[i]);
        }
        lemma_fixed_decimal_of_value(d);
        assert(is_digit(s[s.len() - 1]));
        let x = (s.last() as u32 - '0' as u32) as nat;
        assert(digits_value(s) / 10 == digits_value(d));
        assert(digits_value(s) % 10 == x);
        assert(digit_char(x) == s.last());
        assert(d.push(s.last()) =~= s);
    }
}

/// Of two numbers that fit, the text of the smaller one stands first, whatever
/// follows.
pub proof fn lemma_fixed_decimal_order(
    a: nat,
    b: nat,
    width: nat,
    p: Seq<char>,
    q: Seq<char>,
)
    requires
        a < b,
        b < digits_bound(width),
    ensures
        precedes(fixed_decimal(a, width) + p, fixed_decimal(b, width) + q),
    decreases width,
{
    if width > 0 {
        let w = (width - 1) as nat;
        let x = fixed_decimal(a / 10, w);
        let y = fixed_decimal(b / 10, w);
        let p1 = seq![digit_char(a % 10)] + p;
        let q1 = seq![digit_char(b % 10)] + q;
        assert(fixed_decimal(a, width) + p =~= x + p1);
        assert(fixed_decimal(b, width) + q =~= y + q1);
        if a / 10 < b / 10 {
            lemma_fixed_decimal_order(a / 10, b / 10, w, p1, q1);
        } else {
            assert(a / 10 == b / 10);
            assert(a % 10 < b % 10);
            assert(digit_char(a % 10) as u32 == '0' as u32 + a % 10);
            assert(digit_char(b % 10) as u32 == '0' as u32 + b % 10);
            assert(precedes(p1, q1));
            lemma_precedes_behind(x, p1, q1);
        }
    }
}

/// What `decimal` writes is a number, of the same value.
pub proof fn lemma_decimal_value(n: nat)
    ensures
        is_number(decimal(n)),
        digits_value(decimal(n)) == n,
    decreases n,
{
    if n < 10 {
        assert(decimal(n).drop_last() =~= Seq::<char>::empty());
        assert(digits_value(Seq::<char>::empty()) == 0);
        assert(decimal(n).last() as u32 == '0' as u32 + n);
    } else {
        lemma_decimal_value(n / 10);
        assert(decimal(n).drop_last() =~= decimal(n / 10));
        assert(decimal(n).last() as u32 == '0' as u32 + n % 10);
    }
}

} // verus!
