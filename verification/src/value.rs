//! Exact numbers of any size. The arithmetic is that of `num`'s `BigRational`;
//! a [`Value`] keeps numerator and denominator as bytes in between, so that
//! every contract can say which fraction it holds.

use crate::rational::{signed_le, Rational};
use num::bigint::BigInt;
use num::rational::Ratio;
use num::traits::{Pow, ToPrimitive, Zero};
use vstd::prelude::*;

verus! {

/// An exact rational number in lowest terms.
///
/// Numerator and denominator are held in two's complement, least significant
/// byte first.
#[derive(Debug, PartialEq, Eq)]
pub struct Value {
    numer: Vec<u8>,
    denom: Vec<u8>,
}

impl View for Value {
    type V = Rational;

    closed spec fn view(&self) -> Rational {
        Rational { num: signed_le(self.numer@), den: signed_le(self.denom@) }
    }
}

impl Clone for Value {
    fn clone(&self) -> (r: Value)
        ensures
            r@ == self@,
    {
        proof {
            use_type_invariant(self);
        }
        let numer = self.numer.clone();
        let denom = self.denom.clone();
        assert(numer@ =~= self.numer@ && denom@ =~= self.denom@);
        Value { numer, denom }
    }
}

impl Value {
    /// Every value is in lowest terms with a positive denominator.
    #[verifier::type_invariant]
    pub open spec fn well_formed(self) -> bool {
        self@.is_reduced()
    }

    /// The whole number `n`.
    pub fn from_integer(n: i64) -> (r: Value)
        ensures
            r@ == Rational::integer(n as int),
    {
        ratio_from_i64(n)
    }

    /// The whole number that `bytes` denote in two's complement, least
    /// significant byte first.
    pub fn from_signed_bytes_le(bytes: &[u8]) -> (r: Value)
        ensures
            r@ == Rational::integer(signed_le(bytes@)),
    {
        ratio_from_bytes(bytes)
    }

    /// The numerator in two's complement, least significant byte first.
    pub fn numer(&self) -> (r: &[u8])
        ensures
            signed_le(r@) == self@.num,
    {
        self.numer.as_slice()
    }

    /// The denominator in two's complement, least significant byte first.
    pub fn denom(&self) -> (r: &[u8])
        ensures
            signed_le(r@) == self@.den,
    {
        self.denom.as_slice()
    }

    pub fn is_zero(&self) -> (r: bool)
        ensures
            r == self@.is_zero(),
    {
        ratio_is_zero(self)
    }

    pub fn is_integer(&self) -> (r: bool)
        ensures
            r == self@.is_integer(),
    {
        ratio_is_integer(self)
    }

    /// The quotient of two values, unless the divisor is zero.
    pub fn checked_div(&self, divisor: &Value) -> (r: Option<Value>)
        ensures
            divisor@.is_zero() ==> r is None,
            !divisor@.is_zero() ==> r is Some && r->0@ == self@.over(divisor@),
    {
        if ratio_is_zero(divisor) {
            None
        } else {
            Some(ratio_quotient(self, divisor))
        }
    }
}

/// `BigInt::from` an `i64`, as a ratio over 1 (`Ratio::from_integer`): the
/// whole number `n`.
#[verifier::external_body]
fn ratio_from_i64(n: i64) -> (r: Value)
    ensures
        r@ == Rational::integer(n as int),
{
    let z = Ratio::from_integer(BigInt::from(n));
    Value { numer: z.numer().to_signed_bytes_le(), denom: z.denom().to_signed_bytes_le() }
}

/// `BigInt::from_signed_bytes_le`, as a ratio over 1: the whole number that
/// the bytes denote in two's complement, least significant byte first.
#[verifier::external_body]
fn ratio_from_bytes(bytes: &[u8]) -> (r: Value)
    ensures
        r@ == Rational::integer(signed_le(bytes@)),
{
    let z = Ratio::from_integer(BigInt::from_signed_bytes_le(bytes));
    Value { numer: z.numer().to_signed_bytes_le(), denom: z.denom().to_signed_bytes_le() }
}

/// `Zero::is_zero` of a `Ratio`: whether the numerator is zero.
#[verifier::external_body]
pub(crate) fn ratio_is_zero(a: &Value) -> (r: bool)
    ensures
        r == a@.is_zero(),
{
    let x = Ratio::new_raw(
        BigInt::from_signed_bytes_le(&a.numer),
        BigInt::from_signed_bytes_le(&a.denom),
    );
    x.is_zero()
}

/// `Ratio::is_integer`: whether the denominator is 1.
#[verifier::external_body]
pub(crate) fn ratio_is_integer(a: &Value) -> (r: bool)
    ensures
        r == a@.is_integer(),
{
    let x = Ratio::new_raw(
        BigInt::from_signed_bytes_le(&a.numer),
        BigInt::from_signed_bytes_le(&a.denom),
    );
    x.is_integer()
}

/// `ToPrimitive::to_i128` of a `Ratio` that is a whole number: the number,
/// if it lies in the range of `i128`.
#[verifier::external_body]
pub(crate) fn ratio_to_i128(a: &Value) -> (r: Option<i128>)
    requires
        a@.is_integer(),
    ensures
        r == if i128::MIN <= a@.num <= i128::MAX {
            Some(a@.num as i128)
        } else {
            None
        },
{
    let x = Ratio::new_raw(
        BigInt::from_signed_bytes_le(&a.numer),
        BigInt::from_signed_bytes_le(&a.denom),
    );
    x.to_i128()
}

/// `Ratio`'s unary `-`: the numerator changes sign.
#[verifier::external_body]
pub(crate) fn ratio_negation(a: &Value) -> (r: Value)
    ensures
        r@ == a@.negated(),
{
    let x = Ratio::new_raw(
        BigInt::from_signed_bytes_le(&a.numer),
        BigInt::from_signed_bytes_le(&a.denom),
    );
    let z = -x;
    Value { numer: z.numer().to_signed_bytes_le(), denom: z.denom().to_signed_bytes_le() }
}

/// `Ratio`'s `+`: the sum in lowest terms.
#[verifier::external_body]
pub(crate) fn ratio_sum(a: &Value, b: &Value) -> (r: Value)
    ensures
        r@ == a@.plus(b@),
{
    let x = Ratio::new_raw(
        BigInt::from_signed_bytes_le(&a.numer),
        BigInt::from_signed_bytes_le(&a.denom),
    );
    let y = Ratio::new_raw(
        BigInt::from_signed_bytes_le(&b.numer),
        BigInt::from_signed_bytes_le(&b.denom),
    );
    let z = x + y;
    Value { numer: z.numer().to_signed_bytes_le(), denom: z.denom().to_signed_bytes_le() }
}

/// `Ratio`'s binary `-`: the difference in lowest terms.
#[verifier::external_body]
pub(crate) fn ratio_difference(a: &Value, b: &Value) -> (r: Value)
    ensures
        r@ == a@.minus(b@),
{
    let x = Ratio::new_raw(
        BigInt::from_signed_bytes_le(&a.numer),
        BigInt::from_signed_bytes_le(&a.denom),
    );
    let y = Ratio::new_raw(
        BigInt::from_signed_bytes_le(&b.numer),
        BigInt::from_signed_bytes_le(&b.denom),
    );
    let z = x - y;
    Value { numer: z.numer().to_signed_bytes_le(), denom: z.denom().to_signed_bytes_le() }
}

/// `Ratio`'s `*`: the product in lowest terms.
#[verifier::external_body]
pub(crate) fn ratio_product(a: &Value, b: &Value) -> (r: Value)
    ensures
        r@ == a@.times(b@),
{
    let x = Ratio::new_raw(
        BigInt::from_signed_bytes_le(&a.numer),
        BigInt::from_signed_bytes_le(&a.denom),
    );
    let y = Ratio::new_raw(
        BigInt::from_signed_bytes_le(&b.numer),
        BigInt::from_signed_bytes_le(&b.denom),
    );
    let z = x * y;
    Value { numer: z.numer().to_signed_bytes_le(), denom: z.denom().to_signed_bytes_le() }
}

/// `Ratio`'s `/`, which panics on a zero divisor: the quotient in lowest terms.
#[verifier::external_body]
pub(crate) fn ratio_quotient(a: &Value, b: &Value) -> (r: Value)
    requires
        !b@.is_zero(),
    ensures
        r@ == a@.over(b@),
{
    let x = Ratio::new_raw(
        BigInt::from_signed_bytes_le(&a.numer),
        BigInt::from_signed_bytes_le(&a.denom),
    );
    let y = Ratio::new_raw(
        BigInt::from_signed_bytes_le(&b.numer),
        BigInt::from_signed_bytes_le(&b.denom),
    );
    let z = x / y;
    Value { numer: z.numer().to_signed_bytes_le(), denom: z.denom().to_signed_bytes_le() }
}

/// `Pow::pow` of a `Ratio` with an `i128` exponent, which panics on zero to a
/// negative power: numerator and denominator are raised to the exponent's
/// magnitude and, for a negative exponent, change places, the sign staying
/// with the numerator.
#[verifier::external_body]
pub(crate) fn ratio_power(a: &Value, exponent: i128) -> (r: Value)
    requires
        !a@.is_zero() || exponent >= 0,
    ensures
        r@ == a@.power(exponent as int),
{
    let x = Ratio::new_raw(
        BigInt::from_signed_bytes_le(&a.numer),
        BigInt::from_signed_bytes_le(&a.denom),
    );
    let z = Pow::pow(&x, exponent);
    Value { numer: z.numer().to_signed_bytes_le(), denom: z.denom().to_signed_bytes_le() }
}

} // verus!
