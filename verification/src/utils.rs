//! Numeric utilities over exact rationals: unit normalization,
//! multiplication, and slippage.

use vstd::prelude::*;
use crate::numeric::{reduced, Ratio};

verus! {

/// Ten to the power `e`.
pub open spec fn pow10(e: nat) -> nat
    decreases e,
{
    if e == 0 {
        1
    } else {
        10 * pow10((e - 1) as nat)
    }
}

/// Powers of ten are positive.
proof fn lemma_pow10_pos(e: nat)
    ensures
        pow10(e) >= 1,
    decreases e,
{
    if e > 0 {
        lemma_pow10_pos((e - 1) as nat);
    }
}

/// Powers of ten grow with the exponent.
proof fn lemma_pow10_mono(a: nat, b: nat)
    requires
        a <= b,
    ensures
        pow10(a) <= pow10(b),
        pow10(a) >= 1,
    decreases b,
{
    lemma_pow10_pos(a);
    if a < b {
        lemma_pow10_mono(a, (b - 1) as nat);
        assert(pow10(b) == 10 * pow10((b - 1) as nat));
    }
}

/// An exact rational with a sign: `magnitude`, negated when `negative`.
#[derive(Clone, Copy, Debug, PartialEq, Eq, Structural)]
pub struct SignedRatio {
    pub negative: bool,
    pub magnitude: Ratio,
}

/// Normalize an integer token amount in smallest units to the exact
/// fraction `amount / 10^decimals`.
pub fn normalize_amount(amount: u128, decimals: u32) -> (r: Ratio)
    requires
        decimals <= 19,
    ensures
        r == reduced(amount, pow10(decimals as nat) as u128),
        r.well_formed(),
{
    proof {
        lemma_pow10_mono(19, 19);
        assert(pow10(19) == 10_000_000_000_000_000_000) by {
            reveal_with_fuel(pow10, 21);
        }
    }
    let mut p: u128 = 1;
    let mut i: u32 = 0;
    while i < decimals
        invariant
            0 <= i <= decimals,
            decimals <= 19,
            p == pow10(i as nat),
            pow10(19) == 10_000_000_000_000_000_000,
        decreases decimals - i,
    {
        proof {
            lemma_pow10_mono((i + 1) as nat, 19);
        }
        p = p * 10;
        i = i + 1;
    }
    proof {
        lemma_pow10_mono(decimals as nat, 19);
    }
    Ratio::new(amount, p)
}

/// Multiply two exact rationals; the result is again in lowest terms.
pub fn mul(a: Ratio, b: Ratio) -> (r: Ratio)
    requires
        a.well_formed(),
        b.well_formed(),
        a.num * b.num <= u128::MAX,
        a.den * b.den <= u128::MAX,
    ensures
        r == reduced((a.num * b.num) as u128, (a.den * b.den) as u128),
        r.well_formed(),
        r.represents(a.num * b.num, a.den * b.den),
{
    let n = a.num * b.num;
    let d = a.den * b.den;
    proof {
        assert(d >= 1) by (nonlinear_arith)
            requires
                a.den >= 1,
                b.den >= 1,
                d == a.den * b.den,
        ;
    }
    Ratio::new(n, d)
}

/// Relative slippage between an expected and an actual amount:
/// `(expected - actual) / expected`, exactly. None when `expected` is
/// zero, to avoid dividing by zero.
pub fn slippage(expected: Ratio, actual: Ratio) -> (r: Option<SignedRatio>)
    requires
        expected.well_formed(),
        actual.well_formed(),
        expected.num * actual.den <= u128::MAX,
        actual.num * expected.den <= u128::MAX,
    ensures
        r is None <==> expected.num == 0,
        r matches Some(sr) ==> ({
            let diff = expected.num * actual.den - actual.num * expected.den;
            &&& sr.negative == (diff < 0)
            &&& sr.magnitude == reduced(
                (if diff >= 0 {
                    diff
                } else {
                    -diff
                }) as u128,
                (expected.num * actual.den) as u128,
            )
            &&& sr.magnitude.well_formed()
        }),
{
    if expected.is_zero() {
        return None;
    }
    let cross_expected = expected.num * actual.den;
    let cross_actual = actual.num * expected.den;
    proof {
        assert(cross_expected >= 1) by (nonlinear_arith)
            requires
                expected.num >= 1,
                actual.den >= 1,
                cross_expected == expected.num * actual.den,
        ;
    }
    if cross_expected >= cross_actual {
        let magnitude = Ratio::new(cross_expected - cross_actual, cross_expected);
        Some(SignedRatio { negative: false, magnitude })
    } else {
        let magnitude = Ratio::new(cross_actual - cross_expected, cross_expected);
        Some(SignedRatio { negative: true, magnitude })
    }
}

} // verus!
