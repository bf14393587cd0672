//! Decimal text of integers: writing them and reading them back as
//! `i32::from_str` reads them (an optional sign, then ASCII digits only).

use vstd::prelude::*;
use crate::text::{push_char, str_chars};

verus! {

/// An ASCII decimal digit.
pub open spec fn is_digit(c: char) -> bool {
    '0' <= c && c <= '9'
}

/// The value of an ASCII decimal digit.
pub open spec fn digit_value(c: char) -> int {
    c as int - 48
}

/// The character of a digit value in `0..10`.
pub open spec fn digit_char(d: int) -> char {
    (d + 48) as char
}

/// Every character is an ASCII decimal digit.
pub open spec fn all_digits(d: Seq<char>) -> bool {
    forall|i: int| 0 <= i < d.len() ==> is_digit(#[trigger] d[i])
}

/// The number written by a sequence of decimal digits.
pub open spec fn digits_value(d: Seq<char>) -> int
    decreases d.len(),
{
    if d.len() == 0 {
        0
    } else {
        digits_value(d.drop_last()) * 10 + digit_value(d.last())
    }
}

/// The decimal digits of a natural number, without leading zeros.
pub open spec fn decimal(n: nat) -> Seq<char>
    decreases n,
{
    if n < 10 {
        seq![digit_char(n as int)]
    } else {
        decimal(n / 10).push(digit_char((n % 10) as int))
    }
}

/// The decimal text of an `i32`, with a leading `-` when negative.
pub open spec fn spec_i32_text(n: i32) -> Seq<char> {
    if n < 0 {
        seq!['-'] + decimal((-n) as nat)
    } else {
        decimal(n as nat)
    }
}

/// What `str::parse::<i32>` accepts: an optional `+` or `-`, then one or more
/// ASCII digits whose value (negated after `-`) lies in the range of `i32`.
pub open spec fn spec_parse_i32(s: Seq<char>) -> Option<i32> {
    let neg = s.len() > 0 && s[0] == '-';
    let signed = s.len() > 0 && (s[0] == '-' || s[0] == '+');
    let d = if signed { s.skip(1) } else { s };
    let v = if neg { -digits_value(d) } else { digits_value(d) };
    if d.len() > 0 && all_digits(d) && i32::MIN <= v <= i32::MAX {
        Some(v as i32)
    } else {
        None
    }
}

/// Appends the decimal digits of `n`.
fn push_decimal(s: &mut String, n: u32)
    ensures
        final(s)@ == old(s)@ + decimal(n as nat),
    decreases n,
{
    if n >= 10 {
        push_decimal(s, n / 10);
    }
    let d: u32 = n % 10;
    let c = char_of_digit(d);
    push_char(s, c);
    proof {
        if n >= 10 {
            assert(decimal(n as nat) == decimal((n / 10) as nat).push(digit_char((n % 10) as int)));
        }
    }
}

/// The character of a digit.
fn char_of_digit(d: u32) -> (c: char)
    requires
        d < 10,
    ensures
        c == digit_char(d as int),
{
    if d == 0 { '0' }
    else if d == 1 { '1' }
    else if d == 2 { '2' }
    else if d == 3 { '3' }
    else if d == 4 { '4' }
    else if d == 5 { '5' }
    else if d == 6 { '6' }
    else if d == 7 { '7' }
    else if d == 8 { '8' }
    else { '9' }
}

/// The decimal text of an `i32` (as `i32::to_string` writes it).
pub fn i32_text(n: i32) -> (s: String)
    ensures
        s@ == spec_i32_text(n),
{
    let mut s = String::new();
    if n < 0 {
        push_char(&mut s, '-');
        let m: u32 = if n == i32::MIN { 2147483648u32 } else { (-n) as u32 };
        push_decimal(&mut s, m);
    } else {
        push_decimal(&mut s, n as u32);
    }
    s
}

proof fn lemma_decimal_digits(n: nat)
    ensures
        decimal(n).len() > 0,
        all_digits(decimal(n)),
        digits_value(decimal(n)) == n,
    decreases n,
{
    if n >= 10 {
        lemma_decimal_digits(n / 10);
        let d = decimal(n);
        assert(d.drop_last() == decimal(n / 10));
        assert(digit_char((n % 10) as int) as int == (n % 10) + 48);
        assert(n == (n / 10) * 10 + n % 10);
        assert(d.last() == digit_char((n % 10) as int));
        assert forall|i: int| 0 <= i < d.len() implies is_digit(#[trigger] d[i]) by {
            if i < d.len() - 1 {
                assert(d[i] == decimal(n / 10)[i]);
            }
        }
    } else {
        let d = decimal(n);
        assert(d.drop_last() =~= Seq::<char>::empty());
        assert(digit_char(n as int) as int == n + 48);
        assert(d.last() == digit_char(n as int));
        assert(digits_value(d.drop_last()) == 0);
    }
}

/// Reading back the decimal text of an `i32` gives the same number.
pub proof fn lemma_parse_i32_text(n: i32)
    ensures
        spec_parse_i32(spec_i32_text(n)) == Some(n),
{
    let t = spec_i32_text(n);
    if n < 0 {
        let m = (-n) as nat;
        lemma_decimal_digits(m);
        assert(t.skip(1) =~= decimal(m));
    } else {
        lemma_decimal_digits(n as nat);
        assert(is_digit(t[0]));
    }
}

/// The decimal text of an `i32` is made of ASCII digits and `-` only.
pub proof fn lemma_i32_text_chars(n: i32)
    ensures
        forall|k: int| 0 <= k < spec_i32_text(n).len() ==> #[trigger] spec_i32_text(n)[k] == '-' || is_digit(
            spec_i32_text(n)[k],
        ),
{
    let t = spec_i32_text(n);
    if n < 0 {
        let m = (-n) as nat;
        lemma_decimal_digits(m);
        assert forall|k: int| 0 <= k < t.len() implies #[trigger] t[k] == '-' || is_digit(t[k]) by {
            if k > 0 {
                assert(t[k] == decimal(m)[k - 1]);
            }
        }
    } else {
        lemma_decimal_digits(n as nat);
    }
}

proof fn lemma_digits_value_nonneg(d: Seq<char>)
    requires
        all_digits(d),
    ensures
        digits_value(d) >= 0,
    decreases d.len(),
{
    if d.len() > 0 {
        assert(all_digits(d.drop_last()));
        lemma_digits_value_nonneg(d.drop_last());
        assert(is_digit(d[d.len() - 1]));
    }
}

/// Is `c` an ASCII digit?
fn is_digit_char(c: char) -> (b: bool)
    ensures
        b == is_digit(c),
{
    c >= '0' && c <= '9'
}

/// The value of an ASCII digit.
fn value_of_digit(c: char) -> (v: u32)
    requires
        is_digit(c),
    ensures
        v as int == digit_value(c),
        v < 10,
{
    (c as u32) - 48
}

/// Reads a decimal `i32` as `str::parse::<i32>` does; `None` where that
/// gives an error.
pub fn parse_i32(s: &str) -> (r: Option<i32>)
    ensures
        r == spec_parse_i32(s@),
{
    let v = str_chars(s);
    let n = v.len();
    let mut start: usize = 0;
    let mut neg = false;
    if n > 0 && (v[0] == '-' || v[0] == '+') {
        start = 1;
        neg = v[0] == '-';
    }
    let ghost d = if start == 1 { s@.skip(1) } else { s@ };
    assert(d == (if s@.len() > 0 && (s@[0] == '-' || s@[0] == '+') { s@.skip(1) } else { s@ }));
    assert(neg == (s@.len() > 0 && s@[0] == '-'));
    if start == n {
        return None;
    }
    // The value read so far, exact while it does not exceed 2^31.
    let mut acc: u64 = 0;
    let mut big = false;
    let mut k = start;
    while k < n
        invariant
            n == v@.len(),
            v@ == s@,
            start <= k <= n,
            start == 0 || start == 1,
            d == s@.skip(start as int),
            d == (if s@.len() > 0 && (s@[0] == '-' || s@[0] == '+') { s@.skip(1) } else { s@ }),
            neg == (s@.len() > 0 && s@[0] == '-'),
            all_digits(d.take(k - start)),
            !big ==> acc as int == digits_value(d.take(k - start)),
            !big ==> acc <= 2147483648,
            big ==> digits_value(d.take(k - start)) > 2147483648,
        decreases n - k,
    {
        let c = v[k];
        if !is_digit_char(c) {
            assert(d[k - start] == c);
            assert(!all_digits(d));
            return None;
        }
        let dv = value_of_digit(c);
        let ghost prev = d.take(k - start);
        let ghost next = d.take(k - start + 1);
        assert(next.drop_last() =~= prev);
        assert(next.last() == c);
        assert(all_digits(next));
        proof {
            lemma_digits_value_nonneg(prev);
        }
        if !big {
            let nv = acc * 10 + dv as u64;
            if nv > 2147483648 {
                big = true;
            } else {
                acc = nv;
            }
        }
        k = k + 1;
    }
    assert(d.take(n - start) =~= d);
    if big {
        return None;
    }
    if neg {
        let r: i64 = -(acc as i64);
        Some(r as i32)
    } else if acc <= 2147483647 {
        Some(acc as i32)
    } else {
        None
    }
}

} // verus!
