//! Arbitrary-precision integers held as two's-complement bytes.
//!
//! The arithmetic itself is done by `num::BigInt`; the library keeps the value
//! as plain bytes so that its logic can reason about it as a mathematical `int`.

use vstd::prelude::*;
use num::BigInt;
use num::Zero;

verus! {

/// The integer that a little-endian two's-complement byte string stands for.
pub open spec fn twos_value(b: Seq<u8>) -> int
    decreases b.len(),
{
    if b.len() == 0 {
        0
    } else if b.len() == 1 {
        if b[0] < 128 {
            b[0] as int
        } else {
            b[0] - 256
        }
    } else {
        b[0] + 256 * twos_value(b.drop_first())
    }
}

/// Quotient of `a` by `b` rounded toward zero.
pub open spec fn trunc_div(a: int, b: int) -> int {
    let q = abs(a) / abs(b);
    if (a < 0) != (b < 0) {
        -q
    } else {
        q
    }
}

pub open spec fn abs(a: int) -> int {
    if a < 0 {
        -a
    } else {
        a
    }
}

/// The character of a decimal digit.
pub open spec fn digit_char(d: nat) -> char {
    if d == 0 { '0' }
    else if d == 1 { '1' }
    else if d == 2 { '2' }
    else if d == 3 { '3' }
    else if d == 4 { '4' }
    else if d == 5 { '5' }
    else if d == 6 { '6' }
    else if d == 7 { '7' }
    else if d == 8 { '8' }
    else { '9' }
}

/// Decimal digits of a natural number, without leading zeros ("0" for zero).
pub open spec fn digits_of(n: nat) -> Seq<char>
    decreases n,
{
    if n < 10 {
        seq![digit_char(n)]
    } else {
        digits_of(n / 10).push(digit_char(n % 10))
    }
}

/// Decimal rendering of an integer: a minus sign for negative values, then its digits.
pub open spec fn decimal(v: int) -> Seq<char> {
    if v < 0 {
        seq!['-'] + digits_of((-v) as nat)
    } else {
        digits_of(v as nat)
    }
}

pub open spec fn is_digit(c: char) -> bool {
    '0' <= c && c <= '9'
}

pub open spec fn digit_value(c: char) -> int {
    c as int - '0' as int
}

/// Digits, possibly separated by underscores, that start with a digit.
pub open spec fn is_digit_run(s: Seq<char>) -> bool {
    &&& s.len() > 0
    &&& is_digit(s[0])
    &&& forall|i: int| 0 <= i < s.len() ==> is_digit(#[trigger] s[i]) || s[i] == '_'
}

/// Value of a run of decimal digits, underscores skipped.
pub open spec fn digit_run_value(s: Seq<char>) -> int
    decreases s.len(),
{
    if s.len() == 0 {
        0
    } else if s.last() == '_' {
        digit_run_value(s.drop_last())
    } else {
        10 * digit_run_value(s.drop_last()) + digit_value(s.last())
    }
}

pub open spec fn digit_run(s: Seq<char>) -> Option<int> {
    if is_digit_run(s) {
        Some(digit_run_value(s))
    } else {
        None
    }
}

/// The integer that a token denotes in decimal: an optional `-` or `+`, then
/// digits that may be separated by underscores.
pub open spec fn parse_decimal(s: Seq<char>) -> Option<int> {
    if s.len() > 0 && s[0] == '-' {
        match digit_run(s.drop_first()) {
            Some(v) => Some(-v),
            None => None,
        }
    } else if s.len() > 0 && s[0] == '+' {
        digit_run(s.drop_first())
    } else {
        digit_run(s)
    }
}

/// An integer of any size, held as the little-endian two's-complement bytes
/// that `BigInt::to_signed_bytes_le` gives and `BigInt::from_signed_bytes_le`
/// reads back; its view is the value those bytes stand for.
#[derive(Debug)]
pub struct Int {
    bytes: Vec<u8>,
}

impl View for Int {
    type V = int;

    closed spec fn view(&self) -> int {
        twos_value(self.bytes@)
    }
}

/// `num::BigInt`'s `FromStr` in radix 10 (`str::parse::<BigInt>`): the value
/// of the token as `parse_decimal` reads it, or `None` where the token is
/// refused.
#[verifier::external_body]
fn big_parse(s: &str) -> (r: Option<Int>)
    ensures
        r matches Some(n) ==> parse_decimal(s@) == Some(n@),
        r is None ==> parse_decimal(s@) is None,
{
    match s.parse::<BigInt>() {
        Ok(b) => Some(Int { bytes: b.to_signed_bytes_le() }),
        Err(_) => None,
    }
}

/// `BigInt::from(i32)`: the same value.
#[verifier::external_body]
pub(crate) fn big_from_i32(v: i32) -> (r: Int)
    ensures
        r@ == v,
{
    Int { bytes: BigInt::from(v).to_signed_bytes_le() }
}

/// `BigInt + BigInt`: the sum.
#[verifier::external_body]
pub(crate) fn big_add(a: &Int, b: &Int) -> (r: Int)
    ensures
        r@ == a@ + b@,
{
    let s = BigInt::from_signed_bytes_le(&a.bytes) + BigInt::from_signed_bytes_le(&b.bytes);
    Int { bytes: s.to_signed_bytes_le() }
}

/// `BigInt * BigInt`: the product.
#[verifier::external_body]
pub(crate) fn big_mul(a: &Int, b: &Int) -> (r: Int)
    ensures
        r@ == a@ * b@,
{
    let p = BigInt::from_signed_bytes_le(&a.bytes) * BigInt::from_signed_bytes_le(&b.bytes);
    Int { bytes: p.to_signed_bytes_le() }
}

/// `BigInt / BigInt`: the quotient rounded toward zero; it panics on a zero
/// divisor, which `requires` leaves out.
#[verifier::external_body]
pub(crate) fn big_div(a: &Int, b: &Int) -> (r: Int)
    requires
        b@ != 0,
    ensures
        r@ == trunc_div(a@, b@),
{
    let q = BigInt::from_signed_bytes_le(&a.bytes) / BigInt::from_signed_bytes_le(&b.bytes);
    Int { bytes: q.to_signed_bytes_le() }
}

/// `-BigInt`: the negation.
#[verifier::external_body]
pub(crate) fn big_neg(a: &Int) -> (r: Int)
    ensures
        r@ == -a@,
{
    let n = -BigInt::from_signed_bytes_le(&a.bytes);
    Int { bytes: n.to_signed_bytes_le() }
}

/// `BigInt + i32`: the sum.
#[verifier::external_body]
pub(crate) fn big_add_i32(a: &Int, k: i32) -> (r: Int)
    ensures
        r@ == a@ + k,
{
    let s = BigInt::from_signed_bytes_le(&a.bytes) + k;
    Int { bytes: s.to_signed_bytes_le() }
}

/// `BigInt - i32`: the difference.
#[verifier::external_body]
pub(crate) fn big_sub_i32(a: &Int, k: i32) -> (r: Int)
    ensures
        r@ == a@ - k,
{
    let s = BigInt::from_signed_bytes_le(&a.bytes) - k;
    Int { bytes: s.to_signed_bytes_le() }
}

/// `BigInt == BigInt`: whether the values are equal.
#[verifier::external_body]
pub(crate) fn big_eq(a: &Int, b: &Int) -> (r: bool)
    ensures
        r == (a@ == b@),
{
    BigInt::from_signed_bytes_le(&a.bytes) == BigInt::from_signed_bytes_le(&b.bytes)
}

/// `BigInt < BigInt`: whether the first value is the smaller.
#[verifier::external_body]
pub(crate) fn big_lt(a: &Int, b: &Int) -> (r: bool)
    ensures
        r == (a@ < b@),
{
    BigInt::from_signed_bytes_le(&a.bytes) < BigInt::from_signed_bytes_le(&b.bytes)
}

/// `Zero::is_zero` on a `BigInt`: whether the value is zero.
#[verifier::external_body]
pub(crate) fn big_is_zero(a: &Int) -> (r: bool)
    ensures
        r == (a@ == 0),
{
    BigInt::from_signed_bytes_le(&a.bytes).is_zero()
}

/// `BigInt`'s `Display` (`to_string`): the decimal rendering.
#[verifier::external_body]
pub(crate) fn big_to_string(a: &Int) -> (r: String)
    ensures
        r@ == decimal(a@),
{
    BigInt::from_signed_bytes_le(&a.bytes).to_string()
}

impl Int {
    /// The integer zero.
    pub fn zero() -> (r: Int)
        ensures
            r@ == 0,
    {
        Int { bytes: Vec::new() }
    }

    /// The integer with the value of `v`.
    pub fn from_i32(v: i32) -> (r: Int)
        ensures
            r@ == v,
    {
        big_from_i32(v)
    }

    /// Reads a decimal token as `str::parse::<BigInt>` does.
    pub fn parse(s: &str) -> (r: Option<Int>)
        ensures
            r matches Some(n) ==> parse_decimal(s@) == Some(n@),
            r is None ==> parse_decimal(s@) is None,
    {
        big_parse(s)
    }

    pub fn copy(&self) -> (r: Int)
        ensures
            r@ == self@,
    {
        let mut bytes: Vec<u8> = Vec::new();
        let mut i: usize = 0;
        while i < self.bytes.len()
            invariant
                i <= self.bytes.len(),
                bytes@ == self.bytes@.subrange(0, i as int),
            decreases self.bytes.len() - i,
        {
            bytes.push(self.bytes[i]);
            i = i + 1;
        }
        assert(bytes@ == self.bytes@);
        Int { bytes }
    }

    pub fn equals(&self, other: &Int) -> (r: bool)
        ensures
            r == (self@ == other@),
    {
        big_eq(self, other)
    }

    pub fn less_than(&self, other: &Int) -> (r: bool)
        ensures
            r == (self@ < other@),
    {
        big_lt(self, other)
    }

    pub fn is_zero(&self) -> (r: bool)
        ensures
            r == (self@ == 0),
    {
        big_is_zero(self)
    }

    /// Decimal rendering, as `BigInt`'s `Display` writes it.
    pub fn to_decimal(&self) -> (r: String)
        ensures
            r@ == decimal(self@),
    {
        big_to_string(self)
    }
}

} // verus!
