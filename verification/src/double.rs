//! Arithmetic on non-negative binary64 numbers, carried out on integers.
//!
//! Progress figures are shown as rounded quotients of counters and durations. The rounding is
//! the one of IEEE 754 binary64: every operation returns the 53-bit number nearest to the exact
//! result, and the even one of two that are equally near. The magnitudes that occur here stay far
//! away from both ends of the exponent range, so that neither overflow nor subnormals arise.
use vstd::arithmetic::power2::{
    lemma2_to64, lemma2_to64_rest, lemma_pow2_adds, lemma_pow2_pos, lemma_pow2_strictly_increases,
    lemma_pow2_unfold, pow2,
};
use vstd::prelude::*;

verus! {

/// The number `mant * 2^exp`.
pub struct Binary {
    pub mant: nat,
    pub exp: int,
}

/// `a / b` rounded to an integer, to the even one in a tie.
pub open spec fn half_even(a: nat, b: nat) -> nat {
    let below = a / b;
    let rest = a % b;
    if 2 * rest < b || (2 * rest == b && below % 2 == 0) {
        below
    } else {
        below + 1
    }
}

/// The fraction `(p / q) * 2^k`, as numerator and denominator.
pub open spec fn scaled(p: nat, q: nat, k: int) -> (nat, nat) {
    if k >= 0 {
        (p * pow2(k as nat), q)
    } else {
        (p, q * pow2((-k) as nat))
    }
}

/// Whether `(p / q) * 2^k` lies in `[2^52, 2^53)`.
pub open spec fn normal(p: nat, q: nat, k: int) -> bool {
    let (a, b) = scaled(p, q, k);
    pow2(52) * b <= a < pow2(53) * b
}

/// The binary64 number nearest to `p / q`.
pub open spec fn nearest(p: nat, q: nat) -> Binary {
    if p == 0 {
        Binary { mant: 0, exp: 0 }
    } else {
        let k = choose|k: int| normal(p, q, k);
        let (a, b) = scaled(p, q, k);
        Binary { mant: half_even(a, b), exp: -k }
    }
}

/// The integer `n` converted to binary64.
pub open spec fn of_int(n: nat) -> Binary {
    nearest(n, 1)
}

/// The binary64 quotient.
pub open spec fn quotient(x: Binary, y: Binary) -> Binary {
    let r = nearest(x.mant, y.mant);
    Binary { mant: r.mant, exp: r.exp + x.exp - y.exp }
}

/// The binary64 product.
pub open spec fn product(x: Binary, y: Binary) -> Binary {
    let r = nearest(x.mant * y.mant, 1);
    Binary { mant: r.mant, exp: r.exp + x.exp + y.exp }
}

/// The binary64 sum.
pub open spec fn sum(x: Binary, y: Binary) -> Binary {
    if x.mant == 0 {
        y
    } else if y.mant == 0 {
        x
    } else {
        let e = if x.exp <= y.exp { x.exp } else { y.exp };
        let total = x.mant * pow2((x.exp - e) as nat) + y.mant * pow2((y.exp - e) as nat);
        let r = nearest(total, 1);
        Binary { mant: r.mant, exp: r.exp + e }
    }
}

/// The integer part.
pub open spec fn floor(x: Binary) -> nat {
    if x.exp >= 0 {
        x.mant * pow2(x.exp as nat)
    } else {
        x.mant / pow2((-x.exp) as nat)
    }
}

/// The nearest integer, the larger one in a tie.
pub open spec fn round(x: Binary) -> nat {
    if x.exp >= 0 {
        x.mant * pow2(x.exp as nat)
    } else {
        (2 * x.mant + pow2((-x.exp) as nat)) / (2 * pow2((-x.exp) as nat))
    }
}

/// `x * scale` rounded to an integer, to the even one in a tie. With `scale` equal to a power of
/// ten these are the digits that a decimal rendering with that many places shows.
pub open spec fn decimal_digits(x: Binary, scale: nat) -> nat {
    if x.exp >= 0 {
        x.mant * pow2(x.exp as nat) * scale
    } else {
        half_even(x.mant * scale, pow2((-x.exp) as nat))
    }
}

/// A number in binary64.
#[derive(Clone, Copy)]
pub struct Double {
    pub mant: u64,
    pub exp: i32,
}

impl View for Double {
    type V = Binary;

    open spec fn view(&self) -> Binary {
        Binary { mant: self.mant as nat, exp: self.exp as int }
    }
}

impl Double {
    /// At most 53 bits, and an exponent with room for the operations below.
    pub open spec fn wf(self) -> bool {
        &&& self.mant <= 0x20_0000_0000_0000
        &&& -2000 <= self.exp <= 2000
    }
}

/// At most one exponent brings a fraction into the normal range.
pub proof fn lemma_normal_unique(p: nat, q: nat, k1: int, k2: int)
    requires
        q > 0,
        normal(p, q, k1),
        normal(p, q, k2),
    ensures
        k1 == k2,
{
    if k1 < k2 {
        lemma_normal_step(p, q, k1, k2);
    } else if k2 < k1 {
        lemma_normal_step(p, q, k2, k1);
    }
}

proof fn lemma_normal_step(p: nat, q: nat, k1: int, k2: int)
    requires
        q > 0,
        normal(p, q, k1),
        k1 < k2,
    ensures
        !normal(p, q, k2),
{
    let (a1, b1) = scaled(p, q, k1);
    let (a2, b2) = scaled(p, q, k2);
    lemma_pow2_unfold(53);
    lemma_pow2_pos(52);
    // a2 / b2 == (a1 / b1) * 2^(k2 - k1)
    let d = (k2 - k1) as nat;
    lemma_pow2_pos(d);
    lemma_pow2_unfold(d);
    lemma_pow2_pos((d - 1) as nat);
    let t = pow2(d);
    assert(t >= 2);
    assert(b1 > 0 && b2 > 0) by {
        if k1 < 0 {
            lemma_pow2_pos((-k1) as nat);
            vstd::arithmetic::mul::lemma_mul_strictly_positive(q as int, pow2((-k1) as nat) as int);
        }
        if k2 < 0 {
            lemma_pow2_pos((-k2) as nat);
            vstd::arithmetic::mul::lemma_mul_strictly_positive(q as int, pow2((-k2) as nat) as int);
        }
    }
    assert(a2 * b1 == a1 * t * b2) by {
        if k1 >= 0 {
            lemma_pow2_adds(k1 as nat, d);
            let u = pow2(k1 as nat);
            assert((p * (u * t)) * q == p * u * t * q) by (nonlinear_arith);
        } else if k2 >= 0 {
            lemma_pow2_adds((-k1) as nat, k2 as nat);
            let u = pow2((-k1) as nat);
            let v = pow2(k2 as nat);
            assert((p * v) * (q * u) == p * (u * v) * q) by (nonlinear_arith);
        } else {
            lemma_pow2_adds((-k2) as nat, d);
            let v = pow2((-k2) as nat);
            assert(p * (q * (v * t)) == p * t * (q * v)) by (nonlinear_arith);
        }
    }
    let h = pow2(52);
    // a1 >= h * b1, so a2 * b1 >= 2 * h * b1 * b2
    assert(a2 * b1 >= (2 * h * b2) * b1) by (nonlinear_arith)
        requires
            a2 * b1 == a1 * t * b2,
            a1 >= h * b1,
            t >= 2,
            b1 > 0,
            b2 > 0,
            h > 0,
    {
        assert(a1 * t >= h * b1 * t);
        assert(h * b1 * t >= h * b1 * 2);
        assert(a1 * t * b2 >= h * b1 * 2 * b2);
    }
    assert(a2 >= 2 * h * b2) by (nonlinear_arith)
        requires
            a2 * b1 >= (2 * h * b2) * b1,
            b1 > 0,
    ;
}

proof fn lemma_nearest(p: nat, q: nat, k: int)
    requires
        p > 0,
        q > 0,
        normal(p, q, k),
    ensures
        nearest(p, q) == (Binary { mant: half_even(scaled(p, q, k).0, scaled(p, q, k).1), exp: -k }),
{
    let c = choose|c: int| normal(p, q, c);
    lemma_normal_unique(p, q, c, k);
}

/// `2^e` as an integer.
fn power(e: u32) -> (r: u128)
    requires
        e <= 126,
    ensures
        r == pow2(e as nat),
        r > 0,
        r <= 0x4000_0000_0000_0000_0000_0000_0000_0000,
{
    let mut r: u128 = 1;
    let mut i: u32 = 0;
    proof {
        lemma2_to64();
    }
    while i < e
        invariant
            i <= e,
            e <= 126,
            r == pow2(i as nat),
            r > 0,
            r <= 0x4000_0000_0000_0000_0000_0000_0000_0000,
        decreases e - i,
    {
        proof {
            lemma_pow2_unfold((i + 1) as nat);
            lemma_pow2_126();
            if i < 125 {
                lemma_pow2_strictly_increases((i + 1) as nat, 126);
            }
        }
        r = 2 * r;
        i = i + 1;
    }
    r
}

proof fn lemma_pow2_126()
    ensures
        pow2(126) == 0x4000_0000_0000_0000_0000_0000_0000_0000,
{
    lemma2_to64_rest();
    lemma_pow2_adds(63, 63);
}

/// `a / b` rounded to an integer, to the even one in a tie.
fn divide_half_even(a: u128, b: u128) -> (r: u128)
    requires
        0 < b <= 0x4000_0000_0000_0000_0000_0000_0000_0000,
    ensures
        r == half_even(a as nat, b as nat),
{
    let below: u128 = a / b;
    let rest: u128 = a % b;
    if 2 * rest < b || (2 * rest == b && below % 2 == 0) {
        below
    } else {
        proof {
            if b == 1 {
                assert(rest == 0);
            }
            assert(below <= a / 2) by (nonlinear_arith)
                requires
                    below == a / b,
                    b >= 2,
            ;
        }
        below + 1
    }
}

/// The binary64 number nearest to `p / q`.
fn round_fraction(p: u128, q: u128) -> (r: Double)
    requires
        0 < q <= 0x1_0000_0000_0000_0000,
        p <= 0x40_0000_0000_0000_0000_0000_0000_0000,
    ensures
        r@ == nearest(p as nat, q as nat),
        r.mant <= 0x20_0000_0000_0000,
        -116 <= r.exp <= 66,
        p == 0 ==> r.mant == 0,
        p > 0 ==> r.mant >= 0x10_0000_0000_0000 && normal(p as nat, q as nat, -r.exp),
{
    if p == 0 {
        return Double { mant: 0, exp: 0 };
    }
    let mut a: u128 = p;
    let mut b: u128 = q;
    let mut k: i32 = 0;
    proof {
        lemma2_to64();
        lemma2_to64_rest();
    }
    assert(pow2(0) == 1);
    assert(p as nat * 1 == p as nat);
    while a < 0x10_0000_0000_0000 * b
        invariant
            0 <= k <= 116,
            p > 0,
            b == q,
            0 < b <= 0x1_0000_0000_0000_0000,
            p <= 0x40_0000_0000_0000_0000_0000_0000_0000,
            a > 0,
            a == p * pow2(k as nat),
            pow2(k as nat) <= a,
            k == 0 || a < 0x20_0000_0000_0000 * b,
            a <= 0x40_0000_0000_0000_0000_0000_0000_0000,
        decreases 0x20_0000_0000_0000 * b - a,
    {
        proof {
            lemma_pow2_unfold((k + 1) as nat);
            let u = pow2(k as nat);
            assert(p * (2 * u) == 2 * (p * u)) by (nonlinear_arith);
            if k >= 116 {
                lemma2_to64();
                lemma2_to64_rest();
                lemma_pow2_adds(52, 64);
                if k > 116 {
                    lemma_pow2_strictly_increases(116, k as nat);
                }
            }
        }
        a = 2 * a;
        k = k + 1;
    }
    let ghost k0 = k;
    let ghost mut j: nat = 0;
    assert(b as nat * pow2(0) == b) by (nonlinear_arith) requires pow2(0) == 1;
    while a >= 0x20_0000_0000_0000 * b
        invariant
            -66 <= k <= 116,
            p > 0,
            0 < q <= 0x1_0000_0000_0000_0000,
            0 < b <= 0x4_0000_0000_0000_0000,
            a <= 0x40_0000_0000_0000_0000_0000_0000_0000,
            k0 - j == k,
            j == 0 || k0 == 0,
            j > 0 ==> a == p,
            a >= 0x10_0000_0000_0000 * b,
            k0 == 0 || a < 0x20_0000_0000_0000 * b,
            k0 >= 0,
            a == p * pow2(k0 as nat),
            b == q * pow2(j),
            pow2(j) <= b,
        decreases a - 0x10_0000_0000_0000 * b,
    {
        proof {
            lemma2_to64();
            lemma_pow2_unfold(j + 1);
            let u = pow2(j);
            assert(q * (2 * u) == 2 * (q * u)) by (nonlinear_arith);
            assert(p as nat * pow2(0) == p) by (nonlinear_arith) requires pow2(0) == 1;
            if j >= 66 {
                lemma_pow2_adds(2, 64);
                if j > 66 {
                    lemma_pow2_strictly_increases(66, j);
                }
            }
            j = j + 1;
        }
        b = 2 * b;
        k = k - 1;
    }
    proof {
        lemma2_to64_rest();
        if k < 0 {
            assert(j == (-k) as nat);
        }
        assert(q as nat * pow2(0) == q) by (nonlinear_arith) requires pow2(0) == 1;
        assert(scaled(p as nat, q as nat, k as int) == (a as nat, b as nat));
        assert(normal(p as nat, q as nat, k as int));
        lemma_nearest(p as nat, q as nat, k as int);
        let below = a as nat / b as nat;
        assert(below >= 0x10_0000_0000_0000) by (nonlinear_arith)
            requires
                a >= 0x10_0000_0000_0000 * b,
                b > 0,
                below == a as nat / b as nat,
        ;
        assert(below < 0x20_0000_0000_0000) by (nonlinear_arith)
            requires
                a < 0x20_0000_0000_0000 * b,
                b > 0,
                below == a as nat / b as nat,
        ;
    }
    let mant = divide_half_even(a, b);
    Double { mant: mant as u64, exp: -k }
}

impl Double {
    /// The integer `n` converted to binary64.
    pub fn of_u64(n: u64) -> (r: Double)
        ensures
            r@ == of_int(n as nat),
            r.mant <= 0x20_0000_0000_0000,
            -52 <= r.exp <= 11,
            n == 0 ==> r.mant == 0,
            n > 0 ==> r.mant >= 0x10_0000_0000_0000 && normal(n as nat, 1, -r.exp),
    {
        let r = round_fraction(n as u128, 1);
        proof {
            if n > 0 {
                lemma_scale_of_int(n, -r.exp);
            }
        }
        r
    }

    /// The quotient of two numbers.
    pub fn divide(self, y: Double) -> (r: Double)
        requires
            self.wf(),
            y.wf(),
            y.mant > 0,
        ensures
            r@ == quotient(self@, y@),
            r.mant <= 0x20_0000_0000_0000,
            self.exp - y.exp - 116 <= r.exp <= self.exp - y.exp + 66,
            self.mant == 0 ==> r.mant == 0,
            self.mant > 0 ==> r.mant >= 0x10_0000_0000_0000,
            self.mant >= 0x10_0000_0000_0000 && y.mant >= 0x10_0000_0000_0000
                ==> self.exp - y.exp - 53 <= r.exp <= self.exp - y.exp - 51,
    {
        let r = round_fraction(self.mant as u128, y.mant as u128);
        proof {
            if self.mant >= 0x10_0000_0000_0000 && y.mant >= 0x10_0000_0000_0000 {
                lemma_scale_of_mantissas(self.mant as nat, y.mant as nat, -r.exp);
            }
        }
        Double { mant: r.mant, exp: r.exp + self.exp - y.exp }
    }

    /// The product of two numbers.
    pub fn multiply(self, y: Double) -> (r: Double)
        requires
            self.wf(),
            y.wf(),
        ensures
            r@ == product(self@, y@),
            r.mant <= 0x20_0000_0000_0000,
            self.exp + y.exp - 116 <= r.exp <= self.exp + y.exp + 66,
    {
        let a: u128 = self.mant as u128;
        let b: u128 = y.mant as u128;
        assert(a * b <= 0x20_0000_0000_0000 * 0x20_0000_0000_0000) by (nonlinear_arith)
            requires
                a <= 0x20_0000_0000_0000,
                b <= 0x20_0000_0000_0000,
        ;
        let r = round_fraction(a * b, 1);
        Double { mant: r.mant, exp: r.exp + self.exp + y.exp }
    }

    /// The sum of two numbers whose exponents are at most 64 apart.
    pub fn plus(self, y: Double) -> (r: Double)
        requires
            self.wf(),
            y.wf(),
            self.mant == 0 || y.mant == 0 || -64 <= self.exp - y.exp <= 64,
        ensures
            r@ == sum(self@, y@),
            r.mant <= 0x20_0000_0000_0000,
            self.mant == 0 ==> r == y,
            y.mant == 0 ==> r == self || r == y,
            self.mant >= 0x10_0000_0000_0000 && y.mant >= 0x10_0000_0000_0000 ==> {
                &&& r.mant >= 0x10_0000_0000_0000
                &&& r.exp >= self.exp || r.exp >= y.exp
                &&& r.exp <= self.exp + 66
            },
    {
        if self.mant == 0 {
            return y;
        }
        if y.mant == 0 {
            return self;
        }
        let e: i32 = if self.exp <= y.exp { self.exp } else { y.exp };
        let u = power((self.exp - e) as u32);
        let v = power((y.exp - e) as u32);
        let a: u128 = self.mant as u128;
        let b: u128 = y.mant as u128;
        proof {
            lemma2_to64();
            if self.exp - e < 64 {
                lemma_pow2_strictly_increases((self.exp - e) as nat, 64);
            }
            if y.exp - e < 64 {
                lemma_pow2_strictly_increases((y.exp - e) as nat, 64);
            }
        }
        assert(0 < a * u <= 0x20_0000_0000_0000 * 0x1_0000_0000_0000_0000) by (nonlinear_arith)
            requires
                0 < a <= 0x20_0000_0000_0000,
                0 < u <= 0x1_0000_0000_0000_0000,
        ;
        assert(0 < b * v <= 0x20_0000_0000_0000 * 0x1_0000_0000_0000_0000) by (nonlinear_arith)
            requires
                0 < b <= 0x20_0000_0000_0000,
                0 < v <= 0x1_0000_0000_0000_0000,
        ;
        let total: u128 = a * u + b * v;
        let r = round_fraction(total, 1);
        proof {
            lemma2_to64_rest();
            if self.mant >= 0x10_0000_0000_0000 && y.mant >= 0x10_0000_0000_0000 && r.exp < 0 {
                let k = (-r.exp) as nat;
                assert(a * u >= a && b * v >= b) by (nonlinear_arith)
                    requires
                        u >= 1,
                        v >= 1,
                ;
                lemma_pow2_pos(k);
                assert(total * pow2(k) >= total) by (nonlinear_arith)
                    requires
                        pow2(k) >= 1,
                ;
            }
        }
        Double { mant: r.mant, exp: r.exp + e }
    }

    /// The integer part, or `u64::MAX` where that is smaller.
    pub fn to_u64(self) -> (r: u64)
        requires
            self.wf(),
        ensures
            r == if floor(self@) <= u64::MAX { floor(self@) } else { u64::MAX as nat },
    {
        proof {
            lemma2_to64();
            lemma2_to64_rest();
        }
        if self.mant == 0 {
            proof {
                lemma_zero_over_power(self@);
            }
            0
        } else if self.exp >= 64 {
            proof {
                let u = pow2(self.exp as nat);
                if self.exp > 64 {
                    lemma_pow2_strictly_increases(64, self.exp as nat);
                }
                assert(self.mant * u > u64::MAX) by (nonlinear_arith)
                    requires
                        self.mant >= 1,
                        u >= 0x1_0000_0000_0000_0000,
                ;
            }
            u64::MAX
        } else if self.exp >= 0 {
            let u = power(self.exp as u32);
            let m: u128 = self.mant as u128;
            proof {
                lemma_pow2_strictly_increases(self.exp as nat, 64);
            }
            assert(0 <= m * u <= 0x20_0000_0000_0000 * 0x1_0000_0000_0000_0000) by (nonlinear_arith)
                requires
                    m <= 0x20_0000_0000_0000,
                    u <= 0x1_0000_0000_0000_0000,
            ;
            let whole: u128 = m * u;
            if whole <= u64::MAX as u128 {
                whole as u64
            } else {
                u64::MAX
            }
        } else if self.exp >= -64 {
            let u = power((-self.exp) as u32);
            let m: u128 = self.mant as u128;
            let whole: u128 = m / u;
            assert(whole <= m) by (nonlinear_arith)
                requires
                    whole == m / u,
                    u > 0,
            ;
            whole as u64
        } else {
            proof {
                let s = (-self.exp) as nat;
                lemma_pow2_strictly_increases(64, s);
                vstd::arithmetic::div_mod::lemma_basic_div(self.mant as int, pow2(s) as int);
            }
            0
        }
    }

    /// The nearest integer, the larger one in a tie, or `u64::MAX` where that is smaller.
    pub fn round_to_u64(self) -> (r: u64)
        requires
            self.wf(),
        ensures
            r == if round(self@) <= u64::MAX { round(self@) } else { u64::MAX as nat },
    {
        if self.exp >= 0 {
            return self.to_u64();
        }
        proof {
            lemma2_to64();
            lemma2_to64_rest();
        }
        let m: u128 = self.mant as u128;
        if self.exp >= -64 {
            let u = power((-self.exp) as u32);
            proof {
                if self.exp > -64 {
                    lemma_pow2_strictly_increases((-self.exp) as nat, 64);
                }
            }
            let whole: u128 = (2 * m + u) / (2 * u);
            assert(whole <= m + 1) by (nonlinear_arith)
                requires
                    whole == (2 * m + u) / (2 * u),
                    u >= 1,
            ;
            whole as u64
        } else {
            proof {
                let s = (-self.exp) as nat;
                lemma_pow2_strictly_increases(64, s);
                vstd::arithmetic::div_mod::lemma_basic_div((2 * self.mant + pow2(s)) as int, (2 * pow2(s)) as int);
            }
            0
        }
    }

    /// The digits of a decimal rendering: `self * scale`, rounded to an integer, to the even one
    /// in a tie.
    pub fn to_digits(self, scale: u64) -> (r: u128)
        requires
            self.wf(),
            self.mant > 0 ==> self.exp <= 66,
            0 < scale <= 10,
        ensures
            r == decimal_digits(self@, scale as nat),
    {
        if self.mant == 0 {
            proof {
                lemma_zero_digits(self@, scale as nat);
            }
            return 0;
        }
        proof {
            lemma2_to64();
            lemma2_to64_rest();
        }
        let m: u128 = self.mant as u128;
        let s: u128 = scale as u128;
        assert(m * s <= 0x20_0000_0000_0000 * 10) by (nonlinear_arith)
            requires
                m <= 0x20_0000_0000_0000,
                s <= 10,
        ;
        let a: u128 = m * s;
        if self.exp >= 0 {
            let u = power(self.exp as u32);
            proof {
                lemma_pow2_adds(64, 2);
                if self.exp < 66 {
                    lemma_pow2_strictly_increases(self.exp as nat, 66);
                }
            }
            assert(a * u <= 0x20_0000_0000_0000 * 10 * 0x4_0000_0000_0000_0000) by (nonlinear_arith)
                requires
                    a <= 0x20_0000_0000_0000 * 10,
                    u <= 0x4_0000_0000_0000_0000,
            ;
            assert(m * u * s == (m * s) * u) by (nonlinear_arith);
            a * u
        } else if self.exp >= -64 {
            let u = power((-self.exp) as u32);
            divide_half_even(a, u)
        } else {
            proof {
                let t = (-self.exp) as nat;
                lemma_pow2_strictly_increases(64, t);
                vstd::arithmetic::div_mod::lemma_basic_div(a as int, pow2(t) as int);
                vstd::arithmetic::div_mod::lemma_small_mod(a as nat, pow2(t));
            }
            0
        }
    }

    /// A span of `nanos` nanoseconds in seconds: whole seconds and the fraction are converted on
    /// their own and then added.
    pub fn seconds(nanos: u64) -> (r: Double)
        ensures
            r@ == seconds(nanos as nat),
            r.wf(),
            -82 <= r.exp <= 66,
            nanos == 0 ==> r.mant == 0,
            nanos > 0 ==> r.mant >= 0x10_0000_0000_0000,
    {
        let whole = Double::of_u64(nanos / 1_000_000_000);
        let rest = Double::of_u64(nanos % 1_000_000_000);
        let billion = Double::of_u64(1_000_000_000);
        let part = rest.divide(billion);
        proof {
            lemma2_to64();
            lemma2_to64_rest();
            lemma_scale_bounds(1_000_000_000, 1, -billion.exp, 29, 30);
            if whole.mant > 0 {
                lemma_scale_bounds((nanos / 1_000_000_000) as nat, 1, -whole.exp, 0, 35);
            }
            if rest.mant > 0 {
                lemma_scale_bounds((nanos % 1_000_000_000) as nat, 1, -rest.exp, 0, 30);
            }
        }
        whole.plus(part)
    }
}

/// A span of `nanos` nanoseconds in seconds.
pub open spec fn seconds(nanos: nat) -> Binary {
    sum(
        of_int(nanos / 1_000_000_000),
        quotient(of_int(nanos % 1_000_000_000), of_int(1_000_000_000)),
    )
}

/// The exponent that brings `p / q` into the normal range, for `p / q` in `[2^lo, 2^hi)`.
proof fn lemma_scale_bounds(p: nat, q: nat, k: int, lo: nat, hi: nat)
    requires
        q > 0,
        normal(p, q, k),
        q * pow2(lo) <= p < q * pow2(hi),
        hi <= 52,
    ensures
        53 - hi <= k <= 52 - lo,
{
    lemma_pow2_pos(52);
    lemma_pow2_unfold(53);
    if k < 0 {
        let b = q * pow2((-k) as nat);
        lemma_pow2_pos((-k) as nat);
        if hi < 52 {
            lemma_pow2_strictly_increases(hi, 52);
        }
        assert(false) by (nonlinear_arith)
            requires
                b == q * pow2((-k) as nat),
                pow2((-k) as nat) >= 1,
                pow2(52) * b <= p,
                p < q * pow2(hi),
                pow2(hi) <= pow2(52),
                q > 0,
        {
            assert(b >= q);
            assert(pow2(52) * b >= pow2(52) * q);
            assert(q * pow2(hi) <= q * pow2(52));
        }
    }
    let u = pow2(k as nat);
    lemma_pow2_pos(k as nat);
    if k > 52 - lo {
        lemma_pow2_adds(lo, k as nat);
        if lo + k > 53 {
            lemma_pow2_strictly_increases(53, (lo + k) as nat);
        }
        assert(false) by (nonlinear_arith)
            requires
                q * pow2(lo) <= p,
                p * u < pow2(53) * q,
                pow2(lo) * u >= pow2(53),
                q > 0,
                u > 0,
        {
            assert(q * pow2(lo) * u <= p * u);
            assert(q * (pow2(lo) * u) == q * pow2(lo) * u);
            assert(q * (pow2(lo) * u) >= q * pow2(53));
        }
    }
    if k < 53 - hi {
        lemma_pow2_adds(hi, k as nat);
        if hi + k < 52 {
            lemma_pow2_strictly_increases((hi + k) as nat, 52);
        }
        assert(false) by (nonlinear_arith)
            requires
                p < q * pow2(hi),
                pow2(52) * q <= p * u,
                pow2(hi) * u <= pow2(52),
                q > 0,
                u > 0,
        {
            assert(p * u < q * pow2(hi) * u);
            assert(q * (pow2(hi) * u) == q * pow2(hi) * u);
            assert(q * (pow2(hi) * u) <= q * pow2(52));
        }
    }
}

/// The exponent that brings a positive 64-bit integer into the normal range.
proof fn lemma_scale_of_int(n: u64, k: int)
    requires
        n > 0,
        normal(n as nat, 1, k),
    ensures
        -11 <= k <= 52,
{
    lemma2_to64();
    lemma2_to64_rest();
    if k > 52 {
        if k > 53 {
            lemma_pow2_strictly_increases(53, k as nat);
        }
        assert(n as nat * pow2(k as nat) >= pow2(53)) by (nonlinear_arith)
            requires
                n >= 1,
                pow2(k as nat) >= pow2(53),
        ;
    }
    if k < -11 {
        let u = pow2((-k) as nat);
        if k < -12 {
            lemma_pow2_strictly_increases(12, (-k) as nat);
        }
    }
}

/// The quotient of two full mantissas is close to one.
proof fn lemma_scale_of_mantissas(p: nat, q: nat, k: int)
    requires
        0x10_0000_0000_0000 <= p <= 0x20_0000_0000_0000,
        0x10_0000_0000_0000 <= q <= 0x20_0000_0000_0000,
        normal(p, q, k),
    ensures
        51 <= k <= 53,
{
    lemma2_to64_rest();
    if k < 0 {
        let b = q * pow2((-k) as nat);
        lemma_pow2_pos((-k) as nat);
        assert(b >= q) by (nonlinear_arith)
            requires
                b == q * pow2((-k) as nat),
                pow2((-k) as nat) >= 1,
        ;
    } else {
        let u = pow2(k as nat);
        if k >= 54 {
            if k > 54 {
                lemma_pow2_strictly_increases(54, k as nat);
            }
            assert(p * u >= p * pow2(54)) by (nonlinear_arith)
                requires
                    u >= pow2(54),
            ;
        }
        if k <= 50 {
            if k < 50 {
                lemma_pow2_strictly_increases(k as nat, 50);
            }
            assert(p * u <= p * pow2(50)) by (nonlinear_arith)
                requires
                    u <= pow2(50),
            ;
        }
    }
}

proof fn lemma_zero_digits(x: Binary, scale: nat)
    requires
        x.mant == 0,
    ensures
        decimal_digits(x, scale) == 0,
{
    if x.exp >= 0 {
        assert(0 * pow2(x.exp as nat) * scale == 0) by (nonlinear_arith);
    } else {
        let b = pow2((-x.exp) as nat);
        lemma_pow2_pos((-x.exp) as nat);
        assert(0 * scale == 0) by (nonlinear_arith);
        vstd::arithmetic::div_mod::lemma_basic_div(0, b as int);
        vstd::arithmetic::div_mod::lemma_small_mod(0, b);
    }
}

proof fn lemma_zero_over_power(x: Binary)
    requires
        x.mant == 0,
    ensures
        floor(x) == 0,
{
    if x.exp >= 0 {
        assert(0 * pow2(x.exp as nat) == 0) by (nonlinear_arith);
    } else {
        lemma_pow2_pos((-x.exp) as nat);
        vstd::arithmetic::div_mod::lemma_basic_div(0, pow2((-x.exp) as nat) as int);
    }
}

} // verus!
