//! Exact non-negative rational arithmetic.
//!
//! Clearing prices feed conservation checks, so they are kept as exact
//! fractions of unsigned 128-bit integers, always reduced by the greatest
//! common divisor of numerator and denominator. Division therefore loses
//! nothing: two prices are equal exactly when they are equal as rationals.

use vstd::prelude::*;

verus! {

/// Greatest common divisor, by Euclid's rule.
pub open spec fn spec_gcd(a: nat, b: nat) -> nat
    decreases b,
{
    if b == 0 {
        a
    } else {
        spec_gcd(b, a % b)
    }
}

/// The gcd of two numbers, not both zero, is positive and divides both.
pub proof fn lemma_gcd_divides(a: nat, b: nat)
    requires
        a > 0 || b > 0,
    ensures
        spec_gcd(a, b) > 0,
        a % spec_gcd(a, b) == 0,
        b % spec_gcd(a, b) == 0,
    decreases b,
{
    if b == 0 {
        assert(a % a == 0) by (nonlinear_arith)
            requires
                a > 0,
        ;
        assert(0nat % a == 0) by (nonlinear_arith)
            requires
                a > 0,
        ;
    } else {
        lemma_gcd_divides(b, a % b);
        let g = spec_gcd(b, a % b);
        let q = a as int / b as int;
        let r = a % b;
        vstd::arithmetic::div_mod::lemma_fundamental_div_mod(a as int, b as int);
        assert(a == b * q + r);
        let kb = b as int / g as int;
        let kr = r as int / g as int;
        vstd::arithmetic::div_mod::lemma_fundamental_div_mod(b as int, g as int);
        vstd::arithmetic::div_mod::lemma_fundamental_div_mod(r as int, g as int);
        assert(b == g * kb && r == g * kr);
        assert(a == g * (kb * q + kr)) by (nonlinear_arith)
            requires
                a == b * q + r,
                b == g * kb,
                r == g * kr,
        ;
        vstd::arithmetic::div_mod::lemma_mod_multiples_basic(kb * q + kr, g as int);
    }
}

/// A divisor of a positive number is no greater than it.
pub proof fn lemma_divisor_le(d: nat, n: nat)
    requires
        d > 0,
        n > 0,
        n % d == 0,
    ensures
        d <= n,
{
    assert(d <= n) by (nonlinear_arith)
        requires
            d > 0,
            n > 0,
            n % d == 0,
    ;
}

/// Euclid's algorithm.
fn gcd(a: u128, b: u128) -> (g: u128)
    ensures
        g == spec_gcd(a as nat, b as nat),
{
    let mut x = a;
    let mut y = b;
    while y != 0
        invariant
            spec_gcd(x as nat, y as nat) == spec_gcd(a as nat, b as nat),
        decreases y,
    {
        let r = x % y;
        x = y;
        y = r;
    }
    x
}

/// An exact non-negative rational number, kept in lowest terms.
///
/// The denominator is always at least one, and numerator and denominator
/// share no common factor, so equal rationals are equal field for field.
#[derive(Clone, Copy, Debug, PartialEq, Eq, Structural)]
pub struct Ratio {
    pub num: u128,
    pub den: u128,
}

/// The reduced form of the fraction `n / d`.
pub open spec fn reduced(n: u128, d: u128) -> Ratio {
    let g = spec_gcd(n as nat, d as nat);
    Ratio { num: (n as nat / g) as u128, den: (d as nat / g) as u128 }
}

impl Ratio {
    /// A denominator of at least one; the shape every public operation
    /// establishes and preserves.
    pub open spec fn well_formed(self) -> bool {
        self.den >= 1
    }

    /// The rational value of `self` equals `n / d`.
    pub open spec fn represents(self, n: int, d: int) -> bool {
        self.num * d == n * self.den
    }

    /// Build the reduced fraction `num / den`.
    pub fn new(num: u128, den: u128) -> (r: Ratio)
        requires
            den >= 1,
        ensures
            r == reduced(num, den),
            r.well_formed(),
            r.represents(num as int, den as int),
            r.num > 0 <==> num > 0,
    {
        let g = gcd(num, den);
        proof {
            lemma_gcd_divides(num as nat, den as nat);
            lemma_divisor_le(spec_gcd(num as nat, den as nat), den as nat);
            lemma_cancel_common(num as nat, den as nat, spec_gcd(num as nat, den as nat));
        }
        Ratio { num: num / g, den: den / g }
    }

    /// Whether the rational is exactly zero.
    pub fn is_zero(&self) -> (r: bool)
        ensures
            r == (self.num == 0),
    {
        self.num == 0
    }
}

/// Dividing out a common divisor preserves the rational value:
/// `(n / g) * d == n * (d / g)` when `g` divides both.
proof fn lemma_cancel_common(n: nat, d: nat, g: nat)
    requires
        g > 0,
        n % g == 0,
        d % g == 0,
    ensures
        (n / g) * d == n * (d / g),
        n > 0 ==> n / g > 0,
        d > 0 ==> d / g > 0,
{
    assert((n / g) * d == n * (d / g) && (n > 0 ==> n / g > 0) && (d > 0 ==> d / g > 0))
        by (nonlinear_arith)
        requires
            g > 0,
            n % g == 0,
            d % g == 0,
    ;
}

} // verus!
