//! How near the roundings come: each result is told from all others by its distance from the exact one.
use crate::double::{decimal_digits, floor, half_even, nearest, round, scaled, Binary};
use crate::rounding::lemma_nearest_scale;
use vstd::arithmetic::div_mod::lemma_fundamental_div_mod;
use vstd::arithmetic::power2::{lemma_pow2_pos, pow2};
use vstd::prelude::*;

verus! {

/// Whether `r` is the integer nearest to `a / b`, and the even one in a tie.
pub open spec fn is_nearest_even(r: nat, a: nat, b: nat) -> bool {
    &&& 2 * (r * b) <= 2 * a + b
    &&& 2 * a <= 2 * (r * b) + b
    &&& 2 * (r * b) == 2 * a + b || 2 * a == 2 * (r * b) + b ==> r % 2 == 0
}

/// Rounding a fraction gives the nearest integer, and the even one in a tie.
pub proof fn law_fractions_round_to_even(a: nat, b: nat)
    requires
        b > 0,
    ensures
        is_nearest_even(half_even(a, b), a, b),
{
    let below = a / b;
    let rest = a % b;
    lemma_fundamental_div_mod(a as int, b as int);
    assert(below * b == b * below) by (nonlinear_arith);
    assert((below + 1) * b == b * below + b) by (nonlinear_arith);
    assert(rest < b);
}

/// The integer part is the largest integer that is no larger.
pub proof fn law_integer_part(x: Binary)
    ensures
        x.exp >= 0 ==> floor(x) == x.mant * pow2(x.exp as nat),
        x.exp < 0 ==> floor(x) * pow2((-x.exp) as nat) <= x.mant < (floor(x) + 1) * pow2((-x.exp) as nat),
{
    if x.exp < 0 {
        let u = pow2((-x.exp) as nat);
        lemma_pow2_pos((-x.exp) as nat);
        lemma_fundamental_div_mod(x.mant as int, u as int);
        let f = floor(x);
        assert(f * u == u * f) by (nonlinear_arith);
        assert((f + 1) * u == u * f + u) by (nonlinear_arith);
    }
}

/// Rounding a number gives the nearest integer, and the larger one in a tie.
pub proof fn law_numbers_round_up_in_a_tie(x: Binary)
    ensures
        x.exp >= 0 ==> round(x) == x.mant * pow2(x.exp as nat),
        x.exp < 0 ==> {
            let u = pow2((-x.exp) as nat);
            2 * (round(x) * u) <= 2 * x.mant + u < 2 * (round(x) * u) + 2 * u
        },
{
    if x.exp < 0 {
        let u = pow2((-x.exp) as nat);
        lemma_pow2_pos((-x.exp) as nat);
        let r = round(x);
        let n = 2 * x.mant + u;
        lemma_fundamental_div_mod(n as int, (2 * u) as int);
        assert((2 * u) * r == 2 * (r * u)) by (nonlinear_arith);
    }
}

/// The decimal digits of a number are those of the nearest integer to its multiple, and of the even one in
/// a tie.
pub proof fn law_digits_round_to_even(x: Binary, scale: nat)
    ensures
        x.exp >= 0 ==> decimal_digits(x, scale) == x.mant * pow2(x.exp as nat) * scale,
        x.exp < 0 ==> is_nearest_even(decimal_digits(x, scale), x.mant * scale, pow2((-x.exp) as nat)),
{
    if x.exp < 0 {
        lemma_pow2_pos((-x.exp) as nat);
        law_fractions_round_to_even(x.mant * scale, pow2((-x.exp) as nat));
    }
}

/// The number nearest to a fraction has 53 bits, and the last of them is the nearest one; in a tie it is
/// even.
pub proof fn law_nearest_is_nearest(p: nat, q: nat)
    requires
        q > 0,
    ensures
        p == 0 ==> nearest(p, q).mant == 0,
        p > 0 ==> {
            let x = nearest(p, q);
            &&& pow2(52) <= x.mant <= pow2(53)
            &&& x.exp <= 0 ==> is_nearest_even(x.mant, p * pow2((-x.exp) as nat), q)
            &&& x.exp > 0 ==> is_nearest_even(x.mant, p, q * pow2(x.exp as nat))
        },
{
    if p > 0 {
        let k = lemma_nearest_scale(p, q);
        let (a, b) = scaled(p, q, k);
        law_fractions_round_to_even(a, b);
    }
}

} // verus!
