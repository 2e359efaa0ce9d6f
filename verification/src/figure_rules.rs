//! How near the figures shown come to the counts behind them.
use crate::double::{decimal_digits, floor, nearest, of_int, quotient, seconds};
use crate::figures::{bytes, per_second, ratio, short};
use crate::numeral_rules::{law_numeral_reads_back, law_one_place_reads_back, value};
use crate::rounding::law_of_int_exact;
use crate::rounding_rules::{law_digits_round_to_even, law_integer_part, law_nearest_is_nearest};
use crate::text::{digits, one_place};
use vstd::arithmetic::div_mod::lemma_fundamental_div_mod;
use vstd::arithmetic::power2::{lemma2_to64_rest, lemma_pow2_adds, lemma_pow2_pos, pow2};
use vstd::prelude::*;

verus! {

/// Whether `t` is an integer nearest to `n / d`: off by half at most.
pub open spec fn is_nearest_to(t: nat, n: nat, d: nat) -> bool {
    2 * (t * d) <= 2 * n + d && 2 * n <= 2 * (t * d) + d
}

proof fn lemma_no_large_quotient(m: nat, p: nat, q: nat, w: nat)
    requires
        m >= 0x10_0000_0000_0000,
        q >= 0x10_0000_0000_0000,
        w >= 1,
        p < 0x20_0000_0000_0000,
    ensures
        2 * (m * (q * w)) > 2 * p + q * w,
{
    assert(q * w >= 0x10_0000_0000_0000) by (nonlinear_arith)
        requires
            q >= 0x10_0000_0000_0000,
            w >= 1,
    ;
    let u = q * w;
    assert(2 * (m * u) >= 6 * u) by (nonlinear_arith)
        requires
            m >= 3,
    ;
}

proof fn lemma_cancel(m: nat, d: nat, n: nat, u: nat, b: nat)
    requires
        b > 0,
        2 * (m * (d * b)) <= 2 * (n * (u * b)) + d * b,
        2 * (n * (u * b)) <= 2 * (m * (d * b)) + d * b,
    ensures
        2 * (m * d) <= 2 * (n * u) + d,
        2 * (n * u) <= 2 * (m * d) + d,
{
    let x = m * d;
    let y = n * u;
    assert(m * (d * b) == x * b) by (nonlinear_arith)
        requires
            x == m * d,
    ;
    assert(n * (u * b) == y * b) by (nonlinear_arith)
        requires
            y == n * u,
    ;
    assert(2 * x <= 2 * y + d) by (nonlinear_arith)
        requires
            b > 0,
            2 * (x * b) <= 2 * (y * b) + d * b,
    ;
    assert(2 * y <= 2 * x + d) by (nonlinear_arith)
        requires
            b > 0,
            2 * (y * b) <= 2 * (x * b) + d * b,
    ;
}

proof fn lemma_two_roundings(m: nat, d: nat, n: nat, u: nat, t: nat, s: nat)
    requires
        d > 0,
        n > 0,
        u > 0,
        s > 0,
        m >= 0x10_0000_0000_0000,
        2 * (n * s) < 0x1f_ffff_ffff_ffff,
        2 * (m * d) <= 2 * (n * u) + d,
        2 * (n * u) <= 2 * (m * d) + d,
        2 * (t * u) <= 2 * (m * s) + u,
        2 * (m * s) <= 2 * (t * u) + u,
    ensures
        is_nearest_to(t, n * s, d),
{
    if u <= s * d {
        assert(n * u <= n * (s * d)) by (nonlinear_arith)
            requires
                u <= s * d,
        ;
        assert(n * (s * d) == (n * s) * d) by (nonlinear_arith);
        assert(2 * ((n * s) * d) <= 0x1f_ffff_ffff_fffe * d) by (nonlinear_arith)
            requires
                2 * (n * s) <= 0x1f_ffff_ffff_fffe,
                d > 0,
        ;
        assert(2 * (m * d) >= 0x20_0000_0000_0000 * d) by (nonlinear_arith)
            requires
                m >= 0x10_0000_0000_0000,
                d > 0,
        ;
    }
    let td = t * d;
    let ns = n * s;
    assert(2 * (td * u) <= 2 * (m * s * d) + u * d) by (nonlinear_arith)
        requires
            td == t * d,
            2 * (t * u) <= 2 * (m * s) + u,
    ;
    assert(2 * (m * s * d) <= 2 * (td * u) + u * d) by (nonlinear_arith)
        requires
            td == t * d,
            2 * (m * s) <= 2 * (t * u) + u,
    ;
    assert(2 * (m * s * d) <= 2 * (ns * u) + s * d) by (nonlinear_arith)
        requires
            ns == n * s,
            2 * (m * d) <= 2 * (n * u) + d,
    ;
    assert(2 * (ns * u) <= 2 * (m * s * d) + s * d) by (nonlinear_arith)
        requires
            ns == n * s,
            2 * (n * u) <= 2 * (m * d) + d,
    ;
    let sd = s * d;
    assert(2 * td <= 2 * ns + d) by (nonlinear_arith)
        requires
            2 * (td * u) <= 2 * (ns * u) + sd + u * d,
            u > sd,
    ;
    assert(2 * ns <= 2 * td + d) by (nonlinear_arith)
        requires
            2 * (ns * u) <= 2 * (td * u) + sd + u * d,
            u > sd,
    ;
}

/// The quotient of two counts has 53 bits, and the last of them is the nearest one.
proof fn lemma_ratio(n: nat, d: nat) -> (u: nat)
    requires
        0 < d < 0x20_0000_0000_0000,
        0 < n,
        2 * n < 0x1f_ffff_ffff_ffff,
    ensures
        ratio(n, d).exp < 0,
        u == pow2((-ratio(n, d).exp) as nat),
        u > 0,
        ratio(n, d).mant >= 0x10_0000_0000_0000,
        2 * (ratio(n, d).mant * d) <= 2 * (n * u) + d,
        2 * (n * u) <= 2 * (ratio(n, d).mant * d) + d,
{
    lemma2_to64_rest();
    let x = of_int(n);
    let y = of_int(d);
    law_of_int_exact(n);
    law_of_int_exact(d);
    let a = (-x.exp) as nat;
    let b = (-y.exp) as nat;
    let pa = pow2(a);
    let pb = pow2(b);
    lemma_pow2_pos(a);
    lemma_pow2_pos(b);
    let r = nearest(x.mant, y.mant);
    let m = r.mant;
    law_nearest_is_nearest(x.mant, y.mant);
    if r.exp > 0 {
        let w = pow2(r.exp as nat);
        lemma_pow2_pos(r.exp as nat);
        lemma_no_large_quotient(m, x.mant, y.mant, w);
    }
    let c = (-r.exp) as nat;
    let pc = pow2(c);
    lemma_pow2_pos(c);
    lemma_pow2_adds(a, c);
    let pac = pow2(a + c);
    assert(x.mant * pc == n * pac) by (nonlinear_arith)
        requires
            x.mant == n * pa,
            pac == pa * pc,
    ;
    let z = quotient(x, y);
    if z.exp >= 0 {
        let v = pow2(z.exp as nat);
        lemma_pow2_pos(z.exp as nat);
        lemma_pow2_adds(z.exp as nat, a + c);
        assert(z.exp as nat + (a + c) == b);
        assert(d * pb == (d * v) * pac) by (nonlinear_arith)
            requires
                pb == v * pac,
        ;
        lemma_pow2_pos(a + c);
        let dv = d * v;
        assert(n * pac == n * (1 * pac)) by (nonlinear_arith);
        lemma_cancel(m, dv, n, 1, pac);
        assert(dv >= 1) by (nonlinear_arith)
            requires
                dv == d * v,
                d > 0,
                v > 0,
        ;
        assert(2 * (m * dv) - dv >= 0x1f_ffff_ffff_ffff) by (nonlinear_arith)
            requires
                m >= 0x10_0000_0000_0000,
                dv >= 1,
        ;
    }
    let u = pow2((-z.exp) as nat);
    lemma_pow2_pos((-z.exp) as nat);
    lemma_pow2_adds((-z.exp) as nat, b);
    assert((-z.exp) as nat + b == a + c);
    lemma_cancel(m, d, n, u, pb);
    u
}

/// The digits of a quotient of two counts are those of an integer nearest to it, as long as the counts are
/// not too large for 53 bits.
pub proof fn law_digits_of_a_quotient(n: nat, d: nat, s: nat)
    requires
        0 < d < 0x20_0000_0000_0000,
        0 < n,
        s > 0,
        2 * (n * s) < 0x1f_ffff_ffff_ffff,
    ensures
        is_nearest_to(decimal_digits(ratio(n, d), s), n * s, d),
{
    assert(2 * (n * s) >= 2 * n) by (nonlinear_arith)
        requires
            s > 0,
    ;
    let z = ratio(n, d);
    let u = lemma_ratio(n, d);
    law_digits_round_to_even(z, s);
    lemma_two_roundings(z.mant, d, n, u, decimal_digits(z, s), s);
}

/// Over whole seconds, the rate is the number of items for each of them, rounded down.
pub proof fn law_rate_over_whole_seconds(count: nat, whole: nat)
    requires
        0 < whole < 0x20_0000_0000_0000,
        2 * count < 0x1f_ffff_ffff_ffff,
    ensures
        per_second(count, whole * 1_000_000_000) == count / whole,
{
    let nanos = whole * 1_000_000_000;
    assert(nanos / 1_000_000_000 == whole && nanos % 1_000_000_000 == 0);
    lemma2_to64_rest();
    law_of_int_exact(whole);
    assert(of_int(0).mant == 0);
    assert(quotient(of_int(0), of_int(1_000_000_000)).mant == 0);
    assert(seconds(nanos) == of_int(whole));
    let q = count / whole;
    let z = ratio(count, whole);
    lemma_fundamental_div_mod(count as int, whole as int);
    if count == 0 {
        law_integer_part(z);
        assert(z.mant == 0);
        assert(q == 0) by (nonlinear_arith)
            requires
                q == 0int / whole as int,
                whole > 0,
        ;
        if z.exp >= 0 {
            assert(0 * pow2(z.exp as nat) == 0) by (nonlinear_arith);
        } else {
            let u = pow2((-z.exp) as nat);
            lemma_pow2_pos((-z.exp) as nat);
            assert(floor(z) == 0) by (nonlinear_arith)
                requires
                    floor(z) * u <= 0,
                    u > 0,
            ;
        }
    } else {
        let u = lemma_ratio(count, whole);
        law_integer_part(z);
        lemma_integer_part_of(z.mant, whole, count, u, q, floor(z));
    }
}

proof fn lemma_integer_part_of(m: nat, d: nat, n: nat, u: nat, q: nat, f: nat)
    requires
        d > 0,
        n > 0,
        u > 0,
        m >= 0x10_0000_0000_0000,
        2 * n < 0x1f_ffff_ffff_ffff,
        2 * (m * d) <= 2 * (n * u) + d,
        2 * (n * u) <= 2 * (m * d) + d,
        d * q <= n < d * q + d,
        f * u <= m < (f + 1) * u,
    ensures
        f == q,
{
    assert(2 * (d * q * u) <= 2 * (m * d) + d) by (nonlinear_arith)
        requires
            d * q <= n,
            2 * (n * u) <= 2 * (m * d) + d,
    ;
    let qu = q * u;
    assert(d * q * u == qu * d) by (nonlinear_arith)
        requires
            qu == q * u,
    ;
    assert(qu <= m) by (nonlinear_arith)
        requires
            2 * (qu * d) <= 2 * (m * d) + d,
            d > 0,
    ;
    if 2 * u <= d {
        assert(2 * (n * u) <= n * d) by (nonlinear_arith)
            requires
                2 * u <= d,
        ;
        assert(n * d <= 0xf_ffff_ffff_ffff * d) by (nonlinear_arith)
            requires
                n <= 0xf_ffff_ffff_ffff,
        ;
        assert(2 * (m * d) >= 0x20_0000_0000_0000 * d) by (nonlinear_arith)
            requires
                m >= 0x10_0000_0000_0000,
        ;
    }
    assert(2 * (n * u) <= 2 * (qu * d) + 2 * (d * u) - 2 * u) by (nonlinear_arith)
        requires
            n <= d * q + d - 1,
            qu == q * u,
    ;
    let du = d * u;
    assert(m < qu + u) by (nonlinear_arith)
        requires
            2 * (m * d) <= 2 * (qu * d) + 2 * du - 2 * u + d,
            du == d * u,
            2 * u > d,
            d > 0,
    ;
    if f < q {
        assert((f + 1) * u <= qu) by (nonlinear_arith)
            requires
                f + 1 <= q,
                qu == q * u,
        ;
    } else if f > q {
        assert(f * u >= qu + u) by (nonlinear_arith)
            requires
                f >= q + 1,
                qu == q * u,
        ;
    }
}

/// A count of ten thousand up to a hundred thousand is shown in thousands, and one of a million or more in
/// millions, rounded to tenths.
pub proof fn law_short_counts_are_near(n: nat)
    requires
        n <= 400_000_000_000_000,
    ensures
        ({
            let s = short(n);
            let k = s.len() - 3;
            let tenths = (10 * value(s.take(k)) + (s[k + 1] as int - '0' as int)) as nat;
            &&& 10_000 <= n < 100_000 ==> k > 0 && s[k] == '.' && s[k + 2] == 'K' && is_nearest_to(tenths, n * 10, 1000)
            &&& n >= 1_000_000 ==> k > 0 && s[k] == '.' && s[k + 2] == 'M' && is_nearest_to(tenths, n * 10, 1_000_000)
        }),
{
    reveal_strlit("K");
    reveal_strlit("M");
    if 10_000 <= n < 100_000 {
        let t = decimal_digits(ratio(n, 1000), 10);
        law_digits_of_a_quotient(n, 1000, 10);
        law_one_place_reads_back(t);
        assert(short(n).take(short(n).len() - 3) =~= one_place(t).take(one_place(t).len() - 2));
    } else if n >= 1_000_000 {
        let t = decimal_digits(ratio(n, 1_000_000), 10);
        law_digits_of_a_quotient(n, 1_000_000, 10);
        law_one_place_reads_back(t);
        assert(short(n).take(short(n).len() - 3) =~= one_place(t).take(one_place(t).len() - 2));
    }
}

/// A size of 1024 bytes or more is shown in whole units of 1024 or 1048576 bytes, and one of 1073741824 or
/// more in tenths of that.
pub proof fn law_byte_sizes_are_near(n: nat)
    requires
        n <= 400_000_000_000_000,
    ensures
        ({
            let s = bytes(n);
            let k = s.len() - 5;
            let whole = value(s.take(s.len() - 3));
            let tenths = (10 * value(s.take(k)) + (s[k + 1] as int - '0' as int)) as nat;
            &&& 1024 <= n < 1024 * 1024 ==> is_nearest_to(whole, n, 1024)
            &&& 1024 * 1024 <= n < 1024 * 1024 * 1024 ==> is_nearest_to(whole, n, 1_048_576)
            &&& n >= 1024 * 1024 * 1024 ==> k > 0 && s[k] == '.' && is_nearest_to(tenths, n * 10, 1_073_741_824)
        }),
{
    reveal_strlit(" KB");
    reveal_strlit(" MB");
    reveal_strlit(" GB");
    let s = bytes(n);
    if n >= 1_073_741_824 {
        let t = decimal_digits(ratio(n, 1_073_741_824), 10);
        law_digits_of_a_quotient(n, 1_073_741_824, 10);
        law_one_place_reads_back(t);
        assert(s.take(s.len() - 5) =~= one_place(t).take(one_place(t).len() - 2));
    } else if n >= 1_048_576 {
        let t = decimal_digits(ratio(n, 1_048_576), 1);
        law_digits_of_a_quotient(n, 1_048_576, 1);
        law_numeral_reads_back(t);
        assert(s.take(s.len() - 3) =~= digits(t));
    } else if n >= 1024 {
        let t = decimal_digits(ratio(n, 1024), 1);
        law_digits_of_a_quotient(n, 1024, 1);
        law_numeral_reads_back(t);
        assert(s.take(s.len() - 3) =~= digits(t));
    }
}

} // verus!
