//! Laws of binary64 rounding: it is exact where it can be, and it keeps order.
use crate::double::{
    half_even, lemma_normal_unique, nearest, normal, of_int, product, quotient, round, scaled, seconds, sum, Binary,
};
use vstd::arithmetic::mul::{lemma_mul_is_commutative, lemma_mul_strictly_positive};
use vstd::arithmetic::power2::{
    lemma2_to64, lemma2_to64_rest, lemma_pow2_adds, lemma_pow2_pos, lemma_pow2_unfold, pow2,
};
use vstd::prelude::*;

verus! {

/// `x` in units of `2^e`, for an `e` that is not above the exponent.
pub open spec fn at(x: Binary, e: int) -> nat {
    x.mant * pow2((x.exp - e) as nat)
}

/// Whether `x` is at most `y`.
pub open spec fn le(x: Binary, y: Binary) -> bool {
    if x.exp <= y.exp {
        x.mant <= at(y, x.exp)
    } else {
        at(x, y.exp) <= y.mant
    }
}

proof fn lemma_at_lower(x: Binary, e: int, f: int)
    requires
        f <= e <= x.exp,
    ensures
        at(x, f) == at(x, e) * pow2((e - f) as nat),
{
    let u = pow2((x.exp - e) as nat);
    let v = pow2((e - f) as nat);
    lemma_pow2_adds((x.exp - e) as nat, (e - f) as nat);
    assert(x.mant * (u * v) == x.mant * u * v) by (nonlinear_arith);
}

/// Order can be decided in any common unit.
pub proof fn lemma_le_at(x: Binary, y: Binary, e: int)
    requires
        e <= x.exp,
        e <= y.exp,
    ensures
        le(x, y) <==> at(x, e) <= at(y, e),
{
    lemma2_to64();
    let m = if x.exp <= y.exp { x.exp } else { y.exp };
    lemma_at_lower(x, m, e);
    lemma_at_lower(y, m, e);
    let t = pow2((m - e) as nat);
    lemma_pow2_pos((m - e) as nat);
    let a = at(x, m);
    let b = at(y, m);
    assert(a <= b <==> a * t <= b * t) by (nonlinear_arith)
        requires
            t > 0,
    ;
    if x.exp <= y.exp {
        assert(a == x.mant) by (nonlinear_arith)
            requires
                a == x.mant * pow2(0),
                pow2(0) == 1,
        ;
    }
    if y.exp <= x.exp {
        assert(b == y.mant) by (nonlinear_arith)
            requires
                b == y.mant * pow2(0),
                pow2(0) == 1,
        ;
    }
}

/// The order is transitive.
pub proof fn lemma_le_trans(x: Binary, y: Binary, z: Binary)
    requires
        le(x, y),
        le(y, z),
    ensures
        le(x, z),
{
    let m = if x.exp <= y.exp { x.exp } else { y.exp };
    let e = if m <= z.exp { m } else { z.exp };
    lemma_le_at(x, y, e);
    lemma_le_at(y, z, e);
    lemma_le_at(x, z, e);
}

/// Some exponent brings a positive fraction into the normal range: here for fractions below `2^53`.
proof fn lemma_scale_up(p: nat, q: nat) -> (k: nat)
    requires
        p > 0,
        q > 0,
        p < pow2(53) * q,
    ensures
        normal(p, q, k as int),
    decreases pow2(53) * q - p,
{
    lemma2_to64();
    lemma2_to64_rest();
    if p >= pow2(52) * q {
        assert(p * pow2(0) == p) by (nonlinear_arith)
            requires
                pow2(0) == 1,
        ;
        0
    } else {
        let k = lemma_scale_up(2 * p, q);
        lemma_pow2_unfold(k + 1);
        assert((2 * p) * pow2(k) == p * (2 * pow2(k))) by (nonlinear_arith);
        k + 1
    }
}

/// Some exponent brings a positive fraction into the normal range: here for fractions of `2^52` and
/// more.
proof fn lemma_scale_down(p: nat, q: nat) -> (k: nat)
    requires
        q > 0,
        p >= pow2(52) * q,
    ensures
        normal(p, q, -(k as int)),
    decreases p - pow2(52) * q,
{
    lemma2_to64();
    lemma2_to64_rest();
    if p < pow2(53) * q {
        assert(p * pow2(0) == p) by (nonlinear_arith)
            requires
                pow2(0) == 1,
        ;
        0
    } else {
        let k = lemma_scale_down(p, 2 * q);
        lemma_pow2_unfold(k + 1);
        assert((2 * q) * pow2(k) == q * (2 * pow2(k))) by (nonlinear_arith);
        if k == 0 {
            assert(q * pow2(1) == 2 * q) by (nonlinear_arith)
                requires
                    pow2(1) == 2,
            ;
        }
        k + 1
    }
}

/// Every positive fraction has a scale, and it determines the nearest number.
pub proof fn lemma_nearest_scale(p: nat, q: nat) -> (k: int)
    requires
        p > 0,
        q > 0,
    ensures
        normal(p, q, k),
        nearest(p, q) == (Binary { mant: half_even(scaled(p, q, k).0, scaled(p, q, k).1), exp: -k }),
        scaled(p, q, k).1 > 0,
        pow2(52) <= nearest(p, q).mant <= pow2(53),
{
    let k: int = if p < pow2(53) * q {
        lemma_scale_up(p, q) as int
    } else {
        lemma_pow2_unfold(53);
        assert(p >= pow2(52) * q) by (nonlinear_arith)
            requires
                p >= pow2(53) * q,
                pow2(53) == 2 * pow2(52),
        ;
        -(lemma_scale_down(p, q) as int)
    };
    let c = choose|c: int| normal(p, q, c);
    lemma_normal_unique(p, q, c, k);
    let (a, b) = scaled(p, q, k);
    if k < 0 {
        lemma_pow2_pos((-k) as nat);
        lemma_mul_strictly_positive(q as int, pow2((-k) as nat) as int);
    }
    let below = a / b;
    assert(pow2(52) <= below < pow2(53)) by (nonlinear_arith)
        requires
            b > 0,
            pow2(52) * b <= a < pow2(53) * b,
            below == a / b,
    ;
    k
}

/// Rounding to an integer keeps order.
proof fn lemma_half_even_mono(a1: nat, b1: nat, a2: nat, b2: nat)
    requires
        b1 > 0,
        b2 > 0,
        a1 * b2 <= a2 * b1,
    ensures
        half_even(a1, b1) <= half_even(a2, b2),
{
    let f1 = a1 / b1;
    let f2 = a2 / b2;
    let r1 = a1 % b1;
    let r2 = a2 % b2;
    vstd::arithmetic::div_mod::lemma_fundamental_div_mod(a1 as int, b1 as int);
    vstd::arithmetic::div_mod::lemma_fundamental_div_mod(a2 as int, b2 as int);
    assert(a1 == b1 * f1 + r1 && a2 == b2 * f2 + r2);
    assert(f1 <= f2) by (nonlinear_arith)
        requires
            a1 * b2 <= a2 * b1,
            a1 == b1 * f1 + r1,
            a2 == b2 * f2 + r2,
            r1 >= 0,
            r2 < b2,
            b1 > 0,
            b2 > 0,
    {
        // b1 * f1 * b2 <= a1 * b2 <= a2 * b1 < b2 * (f2 + 1) * b1
        assert(b1 * f1 * b2 <= a1 * b2);
        assert(a2 * b1 < b2 * (f2 + 1) * b1);
        assert(b1 * b2 * f1 < b1 * b2 * (f2 + 1));
        assert(b1 * b2 > 0);
    }
    if f1 == f2 {
        assert(r1 * b2 <= r2 * b1) by (nonlinear_arith)
            requires
                a1 * b2 <= a2 * b1,
                a1 == b1 * f1 + r1,
                a2 == b2 * f2 + r2,
                f1 == f2,
        ;
        assert(2 * r1 >= b1 ==> 2 * r2 >= b2) by (nonlinear_arith)
            requires
                r1 * b2 <= r2 * b1,
                b1 > 0,
                b2 > 0,
        ;
        assert(2 * r1 > b1 ==> 2 * r2 > b2) by (nonlinear_arith)
            requires
                r1 * b2 <= r2 * b1,
                b1 > 0,
                b2 > 0,
        ;
    }
}

/// Two fractions brought to the same scale.
proof fn lemma_scaled_order(p1: nat, q1: nat, p2: nat, q2: nat, k: int)
    requires
        p1 * q2 <= p2 * q1,
    ensures
        scaled(p1, q1, k).0 * scaled(p2, q2, k).1 <= scaled(p2, q2, k).0 * scaled(p1, q1, k).1,
{
    if k >= 0 {
        let u = pow2(k as nat);
        assert((p1 * u) * q2 <= (p2 * u) * q1) by (nonlinear_arith)
            requires
                p1 * q2 <= p2 * q1,
        ;
    } else {
        let u = pow2((-k) as nat);
        assert(p1 * (q2 * u) <= p2 * (q1 * u)) by (nonlinear_arith)
            requires
                p1 * q2 <= p2 * q1,
        ;
    }
}

/// Bringing a fraction to a higher scale multiplies it.
proof fn lemma_scaled_step(p: nat, q: nat, k1: int, k2: int)
    requires
        k1 <= k2,
    ensures
        scaled(p, q, k2).0 * scaled(p, q, k1).1 == scaled(p, q, k1).0 * scaled(p, q, k2).1 * pow2((k2 - k1) as nat),
{
    let d = (k2 - k1) as nat;
    let t = pow2(d);
    if k1 >= 0 {
        lemma_pow2_adds(k1 as nat, d);
        let u = pow2(k1 as nat);
        assert((p * (u * t)) * q == (p * u) * q * t) by (nonlinear_arith);
    } else if k2 >= 0 {
        lemma_pow2_adds((-k1) as nat, k2 as nat);
        let u = pow2((-k1) as nat);
        let v = pow2(k2 as nat);
        assert((p * v) * (q * u) == p * q * (u * v)) by (nonlinear_arith);
    } else {
        lemma_pow2_adds((-k2) as nat, d);
        let v = pow2((-k2) as nat);
        assert(p * (q * (v * t)) == p * (q * v) * t) by (nonlinear_arith);
    }
}

/// Rounding keeps order: the number nearest to a smaller fraction is not larger.
pub proof fn law_nearest_monotone(p1: nat, q1: nat, p2: nat, q2: nat)
    requires
        q1 > 0,
        q2 > 0,
        p1 * q2 <= p2 * q1,
    ensures
        le(nearest(p1, q1), nearest(p2, q2)),
{
    let x = nearest(p1, q1);
    let y = nearest(p2, q2);
    if p1 == 0 {
        let e = if x.exp <= y.exp { x.exp } else { y.exp };
        lemma_le_at(x, y, e);
        assert(at(x, e) == 0) by (nonlinear_arith)
            requires
                at(x, e) == x.mant * pow2((x.exp - e) as nat),
                x.mant == 0,
        ;
    } else {
        assert(p2 > 0) by (nonlinear_arith)
            requires
                p1 * q2 <= p2 * q1,
                p1 > 0,
                q2 > 0,
        ;
        let k1 = lemma_nearest_scale(p1, q1);
        let k2 = lemma_nearest_scale(p2, q2);
        let (a1, b1) = scaled(p1, q1, k1);
        let (a2, b2) = scaled(p2, q2, k2);
        lemma2_to64();
        lemma_pow2_unfold(53);
        if k1 == k2 {
            lemma_scaled_order(p1, q1, p2, q2, k1);
            lemma_half_even_mono(a1, b1, a2, b2);
            assert(y.mant * pow2(0) == y.mant) by (nonlinear_arith)
                requires
                    pow2(0) == 1,
            ;
        } else if k1 > k2 {
            // x is on the finer grid: x <= 2^53 units of it, and that is at most 2^52 units of the
            // coarser one
            let d = (k1 - k2) as nat;
            let t = pow2(d);
            lemma_pow2_unfold(d);
            lemma_pow2_pos((d - 1) as nat);
            assert(x.exp < y.exp);
            assert(y.mant * t >= 2 * pow2(52)) by (nonlinear_arith)
                requires
                    y.mant >= pow2(52),
                    t >= 2,
            ;
        } else {
            // the smaller fraction cannot be on the coarser grid
            let (c1, d1) = scaled(p1, q1, k2);
            lemma_scaled_step(p1, q1, k1, k2);
            lemma_scaled_order(p1, q1, p2, q2, k2);
            let t = pow2((k2 - k1) as nat);
            lemma_pow2_unfold((k2 - k1) as nat);
            lemma_pow2_pos((k2 - k1 - 1) as nat);
            if k2 < 0 {
                lemma_pow2_pos((-k2) as nat);
                lemma_mul_strictly_positive(q1 as int, pow2((-k2) as nat) as int);
            }
            assert(d1 > 0);
            // c1 / d1 == (a1 / b1) * t >= 2^53 > a2 / b2
            assert(c1 >= pow2(53) * d1) by (nonlinear_arith)
                requires
                    c1 * b1 == a1 * d1 * t,
                    a1 >= pow2(52) * b1,
                    t >= 2,
                    pow2(53) == 2 * pow2(52),
                    b1 > 0,
                    d1 > 0,
            {
                assert(a1 * d1 >= pow2(52) * b1 * d1);
                assert(a1 * d1 * t >= pow2(52) * b1 * d1 * 2);
                assert(c1 * b1 >= (pow2(53) * d1) * b1);
            }
            assert(false) by (nonlinear_arith)
                requires
                    c1 >= pow2(53) * d1,
                    a2 < pow2(53) * b2,
                    c1 * b2 <= a2 * d1,
                    b2 > 0,
                    d1 > 0,
            {
                assert(c1 * b2 >= pow2(53) * d1 * b2);
                assert(a2 * d1 < pow2(53) * b2 * d1);
            }
        }
    }
}

/// `x` times a power of two.
pub open spec fn shift(x: Binary, d: int) -> Binary {
    Binary { mant: x.mant, exp: x.exp + d }
}

/// Rounding to an integer does not depend on the form of the fraction.
proof fn lemma_half_even_form(a1: nat, b1: nat, a2: nat, b2: nat)
    requires
        b1 > 0,
        b2 > 0,
        a1 * b2 == a2 * b1,
    ensures
        half_even(a1, b1) == half_even(a2, b2),
{
    lemma_half_even_mono(a1, b1, a2, b2);
    lemma_half_even_mono(a2, b2, a1, b1);
}

/// Rounding commutes with powers of two.
pub proof fn lemma_nearest_shift(p: nat, q: nat, d: nat)
    requires
        p > 0,
        q > 0,
    ensures
        nearest(p * pow2(d), q) == shift(nearest(p, q), d as int),
{
    lemma_pow2_pos(d);
    let t = pow2(d);
    lemma_mul_strictly_positive(p as int, t as int);
    let k = lemma_nearest_scale(p, q);
    let j = lemma_nearest_scale(p * t, q);
    let (a, b) = scaled(p, q, k);
    let (c, e) = scaled(p * t, q, k - d);
    // (p * t / q) * 2^(k - d) == (p / q) * 2^k
    assert(c * b == a * e) by {
        if k - d >= 0 {
            lemma_pow2_adds((k - d) as nat, d);
            let u = pow2((k - d) as nat);
            assert((p * t) * u * q == p * (u * t) * q) by (nonlinear_arith);
        } else if k >= 0 {
            lemma_pow2_adds(k as nat, (d - k) as nat);
            let u = pow2(k as nat);
            let v = pow2((d - k) as nat);
            assert((p * (u * v)) * q == (p * u) * (q * v)) by (nonlinear_arith);
        } else {
            lemma_pow2_adds((-k) as nat, d);
            let u = pow2((-k) as nat);
            assert((p * t) * (q * u) == p * (q * (u * t))) by (nonlinear_arith);
        }
    }
    if k - d < 0 {
        lemma_pow2_pos((d - k) as nat);
        lemma_mul_strictly_positive(q as int, pow2((d - k) as nat) as int);
    }
    assert(e > 0);
    assert(normal(p * t, q, k - d)) by (nonlinear_arith)
        requires
            scaled(p * t, q, k - d) == (c, e),
            c * b == a * e,
            pow2(52) * b <= a < pow2(53) * b,
            b > 0,
            e > 0,
            normal(p * t, q, k - d) == (pow2(52) * e <= c < pow2(53) * e),
    {
        assert(pow2(52) * b * e <= a * e);
        assert((pow2(52) * e) * b <= c * b);
        assert(a * e < pow2(53) * b * e);
        assert(c * b < (pow2(53) * e) * b);
    }
    lemma_normal_unique(p * t, q, j, k - d);
    lemma_half_even_form(c, e, a, b);
}

/// A number in binary64: zero, or a mantissa of 53 bits. (`2^53` itself is allowed: it arises when
/// a mantissa is rounded up.)
pub open spec fn representable(x: Binary) -> bool {
    x.mant == 0 || pow2(52) <= x.mant <= pow2(53)
}

/// Whether `x` and `y` are the same number.
pub open spec fn same(x: Binary, y: Binary) -> bool {
    le(x, y) && le(y, x)
}

/// Rounding leaves a binary64 number as it is.
pub proof fn law_nearest_exact(m: nat)
    requires
        pow2(52) <= m <= pow2(53),
    ensures
        same(nearest(m, 1), Binary { mant: m, exp: 0 }),
        m < pow2(53) ==> nearest(m, 1) == (Binary { mant: m, exp: 0 }),
{
    lemma2_to64();
    lemma2_to64_rest();
    let x = Binary { mant: m, exp: 0 };
    if m < pow2(53) {
        assert(m * pow2(0) == m) by (nonlinear_arith)
            requires
                pow2(0) == 1,
        ;
        assert(normal(m, 1, 0));
        let k = lemma_nearest_scale(m, 1);
        lemma_normal_unique(m, 1, k, 0);
        lemma_le_at(x, x, 0);
    } else {
        assert(1 * pow2(1) == 2) by (nonlinear_arith)
            requires
                pow2(1) == 2,
        ;
        assert(normal(m, 1, -1));
        let k = lemma_nearest_scale(m, 1);
        lemma_normal_unique(m, 1, k, -1);
        let y = nearest(m, 1);
        assert(y.mant == pow2(52) && y.exp == 1);
        lemma_le_at(x, y, 0);
        lemma_le_at(y, x, 0);
        assert(m * pow2(0) == m) by (nonlinear_arith)
            requires
                pow2(0) == 1,
        ;
    }
}

/// A positive integer below `2^53` converts without rounding.
pub proof fn law_of_int_exact(n: nat)
    requires
        0 < n < pow2(53),
    ensures
        of_int(n).exp <= 0,
        of_int(n).mant == n * pow2((-of_int(n).exp) as nat),
        pow2(52) <= of_int(n).mant < pow2(53),
{
    lemma2_to64();
    let k = lemma_nearest_scale(n, 1);
    if k < 0 {
        let u = pow2((-k) as nat);
        lemma_pow2_unfold((-k) as nat);
        lemma_pow2_pos((-k - 1) as nat);
        lemma_pow2_unfold(53);
        assert(false) by (nonlinear_arith)
            requires
                pow2(52) * (1 * u) <= n,
                n < pow2(53),
                pow2(53) == 2 * pow2(52),
                u >= 2,
        ;
    }
    let a = n * pow2(k as nat);
    assert(a / 1 == a && a % 1 == 0);
}

/// A number and its quotient by itself.
pub proof fn law_quotient_by_itself(x: Binary)
    requires
        x.mant > 0,
    ensures
        quotient(x, x) == (Binary { mant: pow2(52), exp: -52 }),
{
    let m = x.mant;
    lemma2_to64_rest();
    let h = pow2(52);
    assert(normal(m, m, 52)) by (nonlinear_arith)
        requires
            normal(m, m, 52) == (h * m <= m * h < pow2(53) * m),
            pow2(53) > h,
            m > 0,
    ;
    let k = lemma_nearest_scale(m, m);
    lemma_normal_unique(m, m, k, 52);
    let below = (m * h) / m;
    let rest = (m * h) % m;
    assert(below == h && rest == 0) by {
        vstd::arithmetic::div_mod::lemma_div_multiples_vanish(h as int, m as int);
        vstd::arithmetic::div_mod::lemma_mod_multiples_basic(h as int, m as int);
        lemma_mul_is_commutative(h as int, m as int);
    }
}

/// The quotient in a lower unit of the dividend.
proof fn lemma_quotient_at(x: Binary, y: Binary, e: int)
    requires
        x.mant > 0,
        y.mant > 0,
        e <= x.exp,
    ensures
        quotient(x, y) == shift(nearest(at(x, e), y.mant), e - y.exp),
        at(x, e) > 0,
{
    lemma_nearest_shift(x.mant, y.mant, (x.exp - e) as nat);
    lemma_pow2_pos((x.exp - e) as nat);
    lemma_mul_strictly_positive(x.mant as int, pow2((x.exp - e) as nat) as int);
}

/// Order is kept by powers of two.
pub proof fn lemma_le_shift(x: Binary, y: Binary, d: int)
    ensures
        le(x, y) <==> le(shift(x, d), shift(y, d)),
{
}

/// Zero is the least number.
pub proof fn lemma_zero_le(x: Binary, y: Binary)
    requires
        x.mant == 0,
    ensures
        le(x, y),
{
    let e = if x.exp <= y.exp { x.exp } else { y.exp };
    lemma_le_at(x, y, e);
    assert(at(x, e) == 0) by (nonlinear_arith)
        requires
            at(x, e) == x.mant * pow2((x.exp - e) as nat),
            x.mant == 0,
    ;
}

/// Only zero is at most zero.
proof fn lemma_le_zero(x: Binary, y: Binary)
    requires
        le(x, y),
        y.mant == 0,
    ensures
        x.mant == 0,
{
    let e = if x.exp <= y.exp { x.exp } else { y.exp };
    lemma_le_at(x, y, e);
    assert(at(y, e) == 0) by (nonlinear_arith)
        requires
            at(y, e) == y.mant * pow2((y.exp - e) as nat),
            y.mant == 0,
    ;
    lemma_pow2_pos((x.exp - e) as nat);
    assert(x.mant == 0) by (nonlinear_arith)
        requires
            x.mant * pow2((x.exp - e) as nat) == 0,
            pow2((x.exp - e) as nat) > 0,
    ;
}

/// Division keeps order in the dividend.
pub proof fn law_quotient_monotone(x1: Binary, x2: Binary, y: Binary)
    requires
        le(x1, x2),
        y.mant > 0,
    ensures
        le(quotient(x1, y), quotient(x2, y)),
{
    if x1.mant == 0 {
        lemma_zero_le(quotient(x1, y), quotient(x2, y));
    } else {
        if x2.mant == 0 {
            lemma_le_zero(x1, x2);
        }
        let e = if x1.exp <= x2.exp { x1.exp } else { x2.exp };
        lemma_le_at(x1, x2, e);
        lemma_quotient_at(x1, y, e);
        lemma_quotient_at(x2, y, e);
        let a = at(x1, e);
        let b = at(x2, e);
        assert(a * y.mant <= b * y.mant) by (nonlinear_arith)
            requires
                a <= b,
        ;
        law_nearest_monotone(a, y.mant, b, y.mant);
        lemma_le_shift(nearest(a, y.mant), nearest(b, y.mant), e - y.exp);
    }
}

/// The product in a lower unit of the second factor.
proof fn lemma_product_at(w: Binary, x: Binary, e: int)
    requires
        w.mant > 0,
        x.mant > 0,
        e <= x.exp,
    ensures
        product(w, x) == shift(nearest(w.mant * at(x, e), 1), e + w.exp),
        w.mant * at(x, e) > 0,
{
    let t = pow2((x.exp - e) as nat);
    lemma_mul_strictly_positive(w.mant as int, x.mant as int);
    lemma_nearest_shift(w.mant * x.mant, 1, (x.exp - e) as nat);
    assert((w.mant * x.mant) * t == w.mant * (x.mant * t)) by (nonlinear_arith);
    lemma_pow2_pos((x.exp - e) as nat);
    lemma_mul_strictly_positive((w.mant * x.mant) as int, t as int);
}

/// Multiplication keeps order.
pub proof fn law_product_monotone(w: Binary, x1: Binary, x2: Binary)
    requires
        le(x1, x2),
    ensures
        le(product(w, x1), product(w, x2)),
{
    if w.mant == 0 || x1.mant == 0 {
        assert(w.mant * x1.mant == 0) by (nonlinear_arith)
            requires
                w.mant == 0 || x1.mant == 0,
        ;
        lemma_zero_le(product(w, x1), product(w, x2));
    } else {
        if x2.mant == 0 {
            lemma_le_zero(x1, x2);
        }
        let e = if x1.exp <= x2.exp { x1.exp } else { x2.exp };
        lemma_le_at(x1, x2, e);
        lemma_product_at(w, x1, e);
        lemma_product_at(w, x2, e);
        let a = w.mant * at(x1, e);
        let b = w.mant * at(x2, e);
        assert(a <= b) by (nonlinear_arith)
            requires
                a == w.mant * at(x1, e),
                b == w.mant * at(x2, e),
                at(x1, e) <= at(x2, e),
        ;
        law_nearest_monotone(a, 1, b, 1);
        lemma_le_shift(nearest(a, 1), nearest(b, 1), e + w.exp);
    }
}

/// Rounding to the nearest integer in a lower unit.
proof fn lemma_round_at(x: Binary, s: nat)
    requires
        -(s as int) <= x.exp,
    ensures
        round(x) == (2 * at(x, -(s as int)) + pow2(s)) / (2 * pow2(s)),
{
    let m = x.mant;
    let u = pow2(s);
    lemma_pow2_pos(s);
    if x.exp >= 0 {
        lemma_pow2_adds(x.exp as nat, s);
        let v = pow2(x.exp as nat);
        let whole = m * v;
        assert(m * (v * u) == whole * u) by (nonlinear_arith)
            requires
                whole == m * v,
        ;
        assert((2 * (whole * u) + u) / (2 * u) == whole) by (nonlinear_arith)
            requires
                u > 0,
        {
            assert(2 * (whole * u) + u == (2 * u) * whole + u);
            vstd::arithmetic::div_mod::lemma_fundamental_div_mod_converse(
                (2 * (whole * u) + u) as int,
                (2 * u) as int,
                whole as int,
                u as int,
            );
        }
    } else {
        let t = (-x.exp) as nat;
        let d = (s - t) as nat;
        lemma_pow2_adds(t, d);
        let v = pow2(t);
        let w = pow2(d);
        lemma_pow2_pos(t);
        lemma_pow2_pos(d);
        assert(2 * (m * w) + v * w == w * (2 * m + v)) by (nonlinear_arith);
        assert(2 * (v * w) == w * (2 * v)) by (nonlinear_arith);
        vstd::arithmetic::div_mod::lemma_div_multiples_vanish_quotient(
            w as int,
            (2 * m + v) as int,
            (2 * v) as int,
        );
    }
}

/// Rounding to the nearest integer keeps order.
pub proof fn law_round_monotone(x: Binary, y: Binary)
    requires
        le(x, y),
    ensures
        round(x) <= round(y),
{
    let m = if x.exp <= y.exp { x.exp } else { y.exp };
    let s: nat = if m < 0 { (-m) as nat } else { 0 };
    let e = -(s as int);
    lemma_le_at(x, y, e);
    lemma_round_at(x, s);
    lemma_round_at(y, s);
    lemma_pow2_pos(s);
    vstd::arithmetic::div_mod::lemma_div_is_ordered(
        (2 * at(x, e) + pow2(s)) as int,
        (2 * at(y, e) + pow2(s)) as int,
        (2 * pow2(s)) as int,
    );
}

/// An integer below `2^53` survives conversion and rounding back.
pub proof fn law_round_of_int(n: nat)
    requires
        n < pow2(53),
    ensures
        round(of_int(n)) == n,
{
    let x = of_int(n);
    if n == 0 {
        assert(0 * pow2(0) == 0) by (nonlinear_arith);
    } else {
        law_of_int_exact(n);
        let s = (-x.exp) as nat;
        lemma2_to64();
        lemma_round_at(x, s);
        let u = pow2(s);
        lemma_pow2_pos(s);
        assert(x.mant * pow2(0) == n * u) by (nonlinear_arith)
            requires
                x.mant == n * u,
                pow2(0) == 1,
        ;
        assert((2 * (n * u) + u) / (2 * u) == n) by (nonlinear_arith)
            requires
                u > 0,
        {
            assert(2 * (n * u) + u == (2 * u) * n + u);
            vstd::arithmetic::div_mod::lemma_fundamental_div_mod_converse(
                (2 * (n * u) + u) as int,
                (2 * u) as int,
                n as int,
                u as int,
            );
        }
    }
}

/// An integer below `2^53` times one.
pub proof fn law_product_with_one(n: nat)
    requires
        n < pow2(53),
    ensures
        round(product(of_int(n), Binary { mant: pow2(52), exp: -52 })) == n,
        round(product(Binary { mant: pow2(52), exp: -52 }, of_int(n))) == n,
{
    let w = of_int(n);
    let h = pow2(52);
    lemma_pow2_pos(52);
    assert(h * w.mant == w.mant * h) by (nonlinear_arith);
    if n == 0 {
        assert(w.mant * h == 0) by (nonlinear_arith)
            requires
                w.mant == 0,
        ;
        let r = product(w, Binary { mant: h, exp: -52 });
        assert(r.mant == 0 && r.exp == -52);
        lemma2_to64_rest();
        assert((2 * 0 + h) / (2 * h) == 0) by {
            vstd::arithmetic::div_mod::lemma_basic_div(h as int, (2 * h) as int);
        }
    } else {
        law_of_int_exact(n);
        lemma_nearest_shift(w.mant, 1, 52);
        law_nearest_exact(w.mant);
        law_round_of_int(n);
    }
}

/// The sum in a common unit.
proof fn lemma_sum_at(x: Binary, y: Binary, e: int)
    requires
        representable(x),
        representable(y),
        e <= x.exp,
        e <= y.exp,
    ensures
        same(sum(x, y), shift(nearest(at(x, e) + at(y, e), 1), e)),
{
    let r = shift(nearest(at(x, e) + at(y, e), 1), e);
    if x.mant == 0 {
        lemma_zero_at(x, e);
        lemma_nearest_at(y, e);
    } else if y.mant == 0 {
        lemma_zero_at(y, e);
        lemma_nearest_at(x, e);
    } else {
        let m = if x.exp <= y.exp { x.exp } else { y.exp };
        lemma_at_lower(x, m, e);
        lemma_at_lower(y, m, e);
        let t = pow2((m - e) as nat);
        let a = at(x, m);
        let b = at(y, m);
        assert(a * t + b * t == (a + b) * t) by (nonlinear_arith);
        lemma_pow2_pos((x.exp - m) as nat);
        lemma_pow2_pos(52);
        lemma_mul_strictly_positive(x.mant as int, pow2((x.exp - m) as nat) as int);
        lemma_nearest_shift(a + b, 1, (m - e) as nat);
        lemma_le_at(r, r, r.exp);
    }
}

proof fn lemma_zero_at(x: Binary, e: int)
    requires
        x.mant == 0,
    ensures
        at(x, e) == 0,
{
    assert(0 * pow2((x.exp - e) as nat) == 0) by (nonlinear_arith);
}

/// Rounding leaves a binary64 number as it is, in any unit.
proof fn lemma_nearest_at(x: Binary, e: int)
    requires
        representable(x),
        e <= x.exp,
    ensures
        same(x, shift(nearest(at(x, e), 1), e)),
{
    let r = shift(nearest(at(x, e), 1), e);
    if x.mant == 0 {
        lemma_zero_at(x, e);
        lemma_zero_le(x, r);
        lemma_zero_le(r, x);
    } else {
        lemma_pow2_pos(52);
        lemma_nearest_shift(x.mant, 1, (x.exp - e) as nat);
        law_nearest_exact(x.mant);
        let y = Binary { mant: x.mant, exp: 0 };
        lemma_le_shift(nearest(x.mant, 1), y, x.exp);
        lemma_le_shift(y, nearest(x.mant, 1), x.exp);
    }
}

/// Conversion of integers keeps order.
pub proof fn law_of_int_monotone(a: nat, b: nat)
    requires
        a <= b,
    ensures
        le(of_int(a), of_int(b)),
{
    law_nearest_monotone(a, 1, b, 1);
}

proof fn lemma_nearest_representable(p: nat, q: nat)
    requires
        q > 0,
    ensures
        representable(nearest(p, q)),
        p > 0 ==> nearest(p, q).mant > 0,
{
    if p > 0 {
        let k = lemma_nearest_scale(p, q);
        lemma_pow2_pos(52);
    }
}

/// A small integer in a lower unit.
proof fn lemma_int_at(n: nat, e: int)
    requires
        n < pow2(53),
        e <= of_int(n).exp,
        e <= 0,
    ensures
        at(of_int(n), e) == n * pow2((-e) as nat),
{
    let x = of_int(n);
    if n == 0 {
        lemma_zero_at(x, e);
        assert(0 * pow2((-e) as nat) == 0) by (nonlinear_arith);
    } else {
        law_of_int_exact(n);
        let s = (-x.exp) as nat;
        lemma_pow2_adds(s, (x.exp - e) as nat);
        let u = pow2(s);
        let v = pow2((x.exp - e) as nat);
        assert((n * u) * v == n * (u * v)) by (nonlinear_arith);
    }
}

/// A longer span of time is not shorter in seconds.
pub proof fn law_seconds_monotone(n1: nat, n2: nat)
    requires
        n1 <= n2,
        n2 / 1_000_000_000 < pow2(53),
    ensures
        le(seconds(n1), seconds(n2)),
{
    let w1 = n1 / 1_000_000_000;
    let w2 = n2 / 1_000_000_000;
    let billion = of_int(1_000_000_000);
    let x1 = of_int(w1);
    let x2 = of_int(w2);
    let y1 = quotient(of_int(n1 % 1_000_000_000), billion);
    let y2 = quotient(of_int(n2 % 1_000_000_000), billion);
    let one = Binary { mant: pow2(52), exp: -52 };
    lemma_nearest_representable(1_000_000_000, 1);
    lemma_nearest_representable(w1, 1);
    lemma_nearest_representable(w2, 1);
    lemma_nearest_representable(of_int(n1 % 1_000_000_000).mant, billion.mant);
    lemma_nearest_representable(of_int(n2 % 1_000_000_000).mant, billion.mant);
    let a = if x1.exp <= x2.exp { x1.exp } else { x2.exp };
    let b = if y1.exp <= y2.exp { y1.exp } else { y2.exp };
    let c = if a <= b { a } else { b };
    let e = if c <= -52 { c } else { -52 };
    lemma_sum_at(x1, y1, e);
    lemma_sum_at(x2, y2, e);
    let s1 = at(x1, e) + at(y1, e);
    let s2 = at(x2, e) + at(y2, e);
    assert(s1 <= s2) by {
        if w1 == w2 {
            law_of_int_monotone(n1 % 1_000_000_000, n2 % 1_000_000_000);
            law_quotient_monotone(of_int(n1 % 1_000_000_000), of_int(n2 % 1_000_000_000), billion);
            lemma_le_at(y1, y2, e);
        } else {
            law_of_int_monotone(n1 % 1_000_000_000, 1_000_000_000);
            law_quotient_monotone(of_int(n1 % 1_000_000_000), billion, billion);
            law_quotient_by_itself(billion);
            lemma_le_at(y1, one, e);
            let u = pow2((-e) as nat);
            lemma_pow2_adds(52, (-52 - e) as nat);
            assert(at(one, e) == u);
            lemma_int_at(w1, e);
            lemma_int_at(w2, e);
            assert(w1 * u + u <= w2 * u) by (nonlinear_arith)
                requires
                    w1 + 1 <= w2,
            ;
        }
    }
    law_nearest_monotone(s1, 1, s2, 1);
    let r1 = shift(nearest(s1, 1), e);
    let r2 = shift(nearest(s2, 1), e);
    lemma_le_shift(nearest(s1, 1), nearest(s2, 1), e);
    lemma_le_trans(seconds(n1), r1, r2);
    lemma_le_trans(seconds(n1), r2, seconds(n2));
}

/// A positive span of time is positive in seconds.
pub proof fn law_seconds_positive(n: nat)
    requires
        n > 0,
    ensures
        seconds(n).mant > 0,
{
    let w = n / 1_000_000_000;
    let r = n % 1_000_000_000;
    let billion = of_int(1_000_000_000);
    lemma_nearest_representable(1_000_000_000, 1);
    lemma_nearest_representable(w, 1);
    lemma_nearest_representable(r, 1);
    lemma_nearest_representable(of_int(r).mant, billion.mant);
    let x = of_int(w);
    let y = quotient(of_int(r), billion);
    if x.mant > 0 && y.mant > 0 {
        let e = if x.exp <= y.exp { x.exp } else { y.exp };
        let a = x.mant * pow2((x.exp - e) as nat);
        let b = y.mant * pow2((y.exp - e) as nat);
        lemma_pow2_pos((x.exp - e) as nat);
        lemma_mul_strictly_positive(x.mant as int, pow2((x.exp - e) as nat) as int);
        lemma_nearest_representable(a + b, 1);
    }
}

} // verus!
