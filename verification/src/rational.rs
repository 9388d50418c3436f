//! Fractions of mathematical integers: the model in which every contract of
//! this crate states what a number is.

use vstd::arithmetic::div_mod::{
    lemma_fundamental_div_mod, lemma_fundamental_div_mod_converse, lemma_small_mod,
};
use vstd::arithmetic::power::pow;
use vstd::prelude::*;

verus! {

/// The absolute value of an integer.
pub open spec fn magnitude(x: int) -> nat {
    if x < 0 {
        (-x) as nat
    } else {
        x as nat
    }
}

/// The greatest common divisor of two natural numbers; `gcd(0, 0)` is 0.
pub open spec fn gcd(a: nat, b: nat) -> nat
    decreases b,
{
    if b == 0 {
        a
    } else {
        gcd(b, a % b)
    }
}

/// The number that a sequence of bytes denotes in base 256, least significant
/// byte first.
pub open spec fn unsigned_le(bytes: Seq<u8>) -> nat
    decreases bytes.len(),
{
    if bytes.len() == 0 {
        0
    } else {
        bytes[0] as nat + 256 * unsigned_le(bytes.drop_first())
    }
}

/// The integer that a sequence of bytes denotes in two's complement, least
/// significant byte first. The empty sequence denotes 0.
pub open spec fn signed_le(bytes: Seq<u8>) -> int {
    if bytes.len() > 0 && bytes.last() >= 128 {
        unsigned_le(bytes) - pow(256, bytes.len())
    } else {
        unsigned_le(bytes) as int
    }
}

/// A fraction `num / den`.
pub struct Rational {
    pub num: int,
    pub den: int,
}

impl Rational {
    /// The whole number `n`.
    pub open spec fn integer(n: int) -> Rational {
        Rational { num: n, den: 1 }
    }

    /// `n / d` in lowest terms with a positive denominator, for `d != 0`.
    pub open spec fn reduce(n: int, d: int) -> Rational
        recommends
            d != 0,
    {
        let g = gcd(magnitude(n), magnitude(d)) as int;
        if d < 0 {
            Rational { num: (-n) / g, den: (-d) / g }
        } else {
            Rational { num: n / g, den: d / g }
        }
    }

    /// The denominator is positive and shares no factor with the numerator.
    pub open spec fn is_reduced(self) -> bool {
        self.den > 0 && gcd(magnitude(self.num), magnitude(self.den)) == 1
    }

    pub open spec fn is_zero(self) -> bool {
        self.num == 0
    }

    /// A reduced fraction is a whole number exactly when its denominator is 1.
    pub open spec fn is_integer(self) -> bool {
        self.den == 1
    }

    pub open spec fn negated(self) -> Rational {
        Rational { num: -self.num, den: self.den }
    }

    pub open spec fn plus(self, other: Rational) -> Rational {
        Rational::reduce(self.num * other.den + other.num * self.den, self.den * other.den)
    }

    pub open spec fn minus(self, other: Rational) -> Rational {
        Rational::reduce(self.num * other.den - other.num * self.den, self.den * other.den)
    }

    pub open spec fn times(self, other: Rational) -> Rational {
        Rational::reduce(self.num * other.num, self.den * other.den)
    }

    /// The quotient, for a divisor other than zero.
    pub open spec fn over(self, other: Rational) -> Rational
        recommends
            other.num != 0,
    {
        Rational::reduce(self.num * other.den, self.den * other.num)
    }

    /// The power with a whole exponent. A negative exponent gives the
    /// reciprocal of the positive power and asks for a base other than zero;
    /// the sign then moves to the numerator.
    pub open spec fn power(self, exponent: int) -> Rational
        recommends
            self.num != 0 || exponent >= 0,
    {
        let e = magnitude(exponent);
        let n = pow(self.num, e);
        let d = pow(self.den, e);
        if exponent >= 0 {
            Rational { num: n, den: d }
        } else if n > 0 {
            Rational { num: d, den: n }
        } else {
            Rational { num: -d, den: -n }
        }
    }
}

/// A multiple of `c` leaves no remainder when divided by `c`, and its
/// quotient is the other factor.
proof fn lemma_multiple(c: int, k: int)
    requires
        c > 0,
    ensures
        (c * k) % c == 0,
        (c * k) / c == k,
{
    assert(c * k == k * c + 0) by (nonlinear_arith);
    lemma_fundamental_div_mod_converse(c * k, c, k, 0);
}

/// What leaves no remainder when divided by `c` is `c` times its quotient.
proof fn lemma_divisible(a: int, c: int)
    requires
        c > 0,
        a % c == 0,
    ensures
        a == c * (a / c),
{
    lemma_fundamental_div_mod(a, c);
}

/// The greatest common divisor divides both numbers, and is positive unless
/// both are zero.
pub proof fn lemma_gcd_divides(a: nat, b: nat)
    requires
        a > 0 || b > 0,
    ensures
        gcd(a, b) > 0,
        a % gcd(a, b) == 0,
        b % gcd(a, b) == 0,
    decreases b,
{
    if b == 0 {
        lemma_multiple(a as int, 1);
        lemma_multiple(a as int, 0);
    } else {
        let r = a % b;
        let g = gcd(b, r);
        lemma_gcd_divides(b, r);
        lemma_fundamental_div_mod(a as int, b as int);
        lemma_divisible(b as int, g as int);
        lemma_divisible(r as int, g as int);
        let i = (b as int) / (g as int);
        let j = (r as int) / (g as int);
        let q = (a as int) / (b as int);
        assert(a == g * (i * q + j)) by (nonlinear_arith)
            requires
                a == b * q + r,
                b == g * i,
                r == g * j,
        ;
        lemma_multiple(g as int, i * q + j);
    }
}

/// Every common divisor of two numbers divides their greatest common
/// divisor.
pub proof fn lemma_gcd_is_greatest(a: nat, b: nat, c: nat)
    requires
        c > 0,
        a % c == 0,
        b % c == 0,
    ensures
        gcd(a, b) % c == 0,
    decreases b,
{
    if b != 0 {
        let r = a % b;
        lemma_fundamental_div_mod(a as int, b as int);
        lemma_divisible(a as int, c as int);
        lemma_divisible(b as int, c as int);
        let i = (a as int) / (c as int);
        let j = (b as int) / (c as int);
        let q = (a as int) / (b as int);
        assert(r == c * (i - j * q)) by (nonlinear_arith)
            requires
                a == b * q + r,
                a == c * i,
                b == c * j,
        ;
        lemma_multiple(c as int, i - j * q);
        lemma_gcd_is_greatest(b, r, c);
    }
}

/// Two numbers divided by their greatest common divisor share no factor.
pub proof fn lemma_gcd_of_quotients(a: nat, b: nat)
    requires
        a > 0 || b > 0,
    ensures
        gcd(a / gcd(a, b), b / gcd(a, b)) == 1,
{
    let g = gcd(a, b);
    lemma_gcd_divides(a, b);
    lemma_divisible(a as int, g as int);
    lemma_divisible(b as int, g as int);
    let x = a / g;
    let y = b / g;
    assert(x > 0 || y > 0) by (nonlinear_arith)
        requires
            a == g * x,
            b == g * y,
            a > 0 || b > 0,
    ;
    let h = gcd(x, y);
    lemma_gcd_divides(x, y);
    lemma_divisible(x as int, h as int);
    lemma_divisible(y as int, h as int);
    let i = (x as int) / (h as int);
    let j = (y as int) / (h as int);
    let c = g * h;
    assert(c > 0 && c >= g && (h > 1 ==> c > g)) by (nonlinear_arith)
        requires
            c == g * h,
            g > 0,
            h > 0,
    ;
    assert(a == c * i && b == c * j) by (nonlinear_arith)
        requires
            a == g * x,
            b == g * y,
            x == h * i,
            y == h * j,
            c == g * h,
    ;
    lemma_multiple(c as int, i);
    lemma_multiple(c as int, j);
    lemma_gcd_is_greatest(a, b, c);
    if h > 1 {
        lemma_small_mod(g, c);
    }
}

/// `reduce` gives the same fraction in lowest terms: crosswise products
/// agree, the denominator is positive, and numerator and denominator share
/// no factor.
pub proof fn lemma_reduce(n: int, d: int)
    requires
        d != 0,
    ensures
        Rational::reduce(n, d).is_reduced(),
        Rational::reduce(n, d).num * d == n * Rational::reduce(n, d).den,
{
    let a = magnitude(n);
    let b = magnitude(d);
    let g = gcd(a, b);
    lemma_gcd_divides(a, b);
    lemma_gcd_of_quotients(a, b);
    lemma_divisible(a as int, g as int);
    lemma_divisible(b as int, g as int);
    let x = (a as int) / (g as int);
    let y = (b as int) / (g as int);
    assert(y > 0 && x >= 0) by (nonlinear_arith)
        requires
            a == g * x,
            b == g * y,
            b > 0,
            a >= 0,
            g > 0,
    ;
    // The numerator that `reduce` divides: `n` if `d` is positive, `-n` otherwise.
    let m = if d < 0 {
        -n
    } else {
        n
    };
    let sign: int = if m < 0 {
        -1
    } else {
        1
    };
    assert(m == sign * a) by {
        assert(sign * a == if m < 0 {
            -(a as int)
        } else {
            a as int
        }) by (nonlinear_arith)
            requires
                sign == if m < 0 {
                    -1int
                } else {
                    1int
                },
        ;
    }
    assert(m == g * (sign * x)) by (nonlinear_arith)
        requires
            a == g * x,
            m == sign * a,
    ;
    lemma_multiple(g as int, sign * x);
    lemma_multiple(g as int, y);
    let r = Rational::reduce(n, d);
    assert(r.num == sign * x);
    assert(r.den == y);
    assert(magnitude(r.num) == x) by (nonlinear_arith)
        requires
            r.num == sign * x,
            x >= 0,
            sign == 1 || sign == -1,
    ;
    assert(r.num * d == n * r.den) by (nonlinear_arith)
        requires
            r.num == sign * x,
            r.den == y,
            m == g * (sign * x),
            b == g * y,
            (d < 0 && m == -n && b == -d) || (d > 0 && m == n && b == d),
    ;
}

} // verus!
