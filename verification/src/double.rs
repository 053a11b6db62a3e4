//! Double-precision numbers.
//!
//! Positions in time are calculated in double precision: where a frame of one rate lies
//! among the frames of another, and how many samples a time has. All of these are
//! between 2 to the power of -300 and 2 to the power of 300, or 0, and none is negative.
//! Places along a bar are [`Fraction`]s, which come from outside as they are.

use vstd::prelude::*;
use vstd::arithmetic::power2::{lemma2_to64, lemma2_to64_rest, lemma_pow2_pos, lemma_pow2_strictly_increases, pow2};

use crate::arithmetic::{
    capped, den_of, nan, nearest, nearest_is_unique, nearest_to, num_of, NAN_BITS,
};
use crate::rounding::{middle, parts, power, power_of_sum, rounded_product, rounds_to};
use crate::scalar::{units, Scalar, SIGN, STEP};

verus! {

/// The smallest significand of 53 bits.
pub const FULL: u64 = 0x10_0000_0000_0000;

/// The number `m` times 2 to the power of `x`.
#[derive(Clone, Copy, Debug, PartialEq, Eq, Structural)]
pub struct Double {
    pub m: u64,
    pub x: i32,
}

/// The numerator of 2 to the power of `x`.
pub open spec fn up(x: int) -> nat {
    if x >= 0 {
        pow2(x as nat)
    } else {
        1
    }
}

/// The denominator of 2 to the power of `x`.
pub open spec fn down(x: int) -> nat {
    if x >= 0 {
        1
    } else {
        pow2((-x) as nat)
    }
}

/// `a / b`, counted in units of 2 to the power of `x`, has a whole part of 53 bits.
pub open spec fn has_scale(a: nat, b: nat, x: int) -> bool {
    FULL * (b * up(x)) <= a * down(x) < 2 * FULL * (b * up(x))
}

/// The number nearest to `a / b` times 2 to the power of `y`, in double precision: the
/// quotient is counted in units that make it 53 bits long, and rounded to a whole number
/// of them, halves to the even one.
pub open spec fn nearest_double(a: nat, b: nat, y: int) -> Double {
    if a == 0 {
        Double { m: 0, x: 0 }
    } else {
        let x = choose|x: int| has_scale(a, b, x);
        Double {
            m: rounded_product((a * down(x)) as int, (b * up(x)) as int) as u64,
            x: (x + y) as i32,
        }
    }
}

proof fn powers(x: int)
    ensures
        up(x) > 0,
        down(x) > 0,
{
    lemma_pow2_pos(0);
    if x >= 0 {
        lemma_pow2_pos(x as nat);
    } else {
        lemma_pow2_pos((-x) as nat);
    }
}

/// The next power of two.
proof fn next_power(x: int)
    ensures
        up(x + 1) * down(x) == 2 * (up(x) * down(x + 1)),
{
    lemma2_to64();
    if x >= 0 {
        power_of_sum(x as nat, 1);
    } else {
        power_of_sum((-x - 1) as nat, 1);
        assert((-x - 1) as nat + 1 == (-x) as nat);
    }
}

/// Powers of two grow.
proof fn powers_grow(x: int, z: int)
    requires
        x < z,
    ensures
        up(z) * down(x) >= 2 * (up(x) * down(z)),
    decreases z - x,
{
    next_power(x);
    powers(x);
    powers(x + 1);
    powers(z);
    if x + 1 < z {
        powers_grow(x + 1, z);
        let (a, b) = (up(x) as int, down(x) as int);
        let (c, d) = (up(x + 1) as int, down(x + 1) as int);
        let (e, f) = (up(z) as int, down(z) as int);
        assert(e * b >= 2 * (a * f)) by (nonlinear_arith)
            requires
                c * b == 2 * (a * d),
                e * d >= 2 * (c * f),
                a > 0,
                b > 0,
                c > 0,
                d > 0,
                e > 0,
                f > 0,
        {
            assert((e * d) * b >= (2 * (c * f)) * b);
            assert((e * d) * b == (e * b) * d);
            assert((2 * (c * f)) * b == 2 * f * (c * b));
            assert(2 * f * (c * b) == 2 * f * (2 * (a * d)));
            assert(2 * f * (2 * (a * d)) == (4 * (a * f)) * d);
            assert((e * b) * d >= (4 * (a * f)) * d);
            assert(e * b >= 4 * (a * f));
            assert(a * f > 0);
        }
    }
}

/// A quotient that has a scale has no larger one.
proof fn no_larger_scale(a: nat, b: nat, x: int, z: int)
    requires
        b > 0,
        x < z,
        has_scale(a, b, x),
    ensures
        !has_scale(a, b, z),
{
    powers_grow(x, z);
    powers(x);
    powers(z);
    let (ux, dx) = (up(x) as int, down(x) as int);
    let (uz, dz) = (up(z) as int, down(z) as int);
    let f = FULL as int;
    let (a, b) = (a as int, b as int);
    assert(a * dz < f * (b * uz)) by (nonlinear_arith)
        requires
            a * dx < 2 * f * (b * ux),
            uz * dx >= 2 * (ux * dz),
            b > 0,
            f > 0,
            dx > 0,
            dz > 0,
    {
        assert((a * dx) * dz < (2 * f * (b * ux)) * dz);
        assert((2 * f * (b * ux)) * dz == (f * b) * (2 * (ux * dz)));
        assert(f * b > 0);
        assert((f * b) * (uz * dx) >= (f * b) * (2 * (ux * dz)));
        assert((f * b) * (uz * dx) == (f * (b * uz)) * dx);
        assert((a * dx) * dz == (a * dz) * dx);
    }
}

/// A quotient has one scale at most.
pub proof fn scale_is_unique(a: nat, b: nat, x: int, z: int)
    requires
        b > 0,
        has_scale(a, b, x),
        has_scale(a, b, z),
    ensures
        x == z,
{
    if x < z {
        no_larger_scale(a, b, x, z);
    } else if z < x {
        no_larger_scale(a, b, z, x);
    }
}

/// The number of bits of `n`.
fn length(n: u128) -> (bits: u32)
    requires
        0 < n < 0x800_0000_0000_0000_0000_0000_0000,
    ensures
        1 <= bits <= 107,
        pow2((bits - 1) as nat) <= n < pow2(bits as nat),
{
    let mut bits: u32 = 1;
    let mut top: u128 = 2;
    proof {
        lemma2_to64();
        lemma2_to64_rest();
        power_of_sum(64, 43);
    }
    while top <= n
        invariant
            1 <= bits <= 107,
            top == pow2(bits as nat),
            pow2((bits - 1) as nat) <= n,
            n < 0x800_0000_0000_0000_0000_0000_0000,
            pow2(107) == 0x800_0000_0000_0000_0000_0000_0000,
        decreases 107 - bits,
    {
        proof {
            power_of_sum(bits as nat, 1);
            lemma2_to64();
        }
        top = top * 2;
        bits = bits + 1;
    }
    bits
}

/// By the lengths of `a` and `b`, the scale of their quotient is one of two.
proof fn scale_by_lengths(a: nat, b: nat, la: int, lb: int)
    requires
        la >= 1,
        lb >= 1,
        pow2((la - 1) as nat) <= a < pow2(la as nat),
        pow2((lb - 1) as nat) <= b < pow2(lb as nat),
    ensures
        ({
            let x = la - lb - 53;
            &&& FULL * (b * up(x)) <= a * down(x)
            &&& a * down(x + 1) < 2 * FULL * (b * up(x + 1))
        }),
{
    let x = la - lb - 53;
    lemma2_to64();
    lemma2_to64_rest();
    power_of_sum((la - 1) as nat, 1);
    power_of_sum((lb - 1) as nat, 1);
    powers(x);
    powers(x + 1);
    let half = pow2((la - 1) as nat) as int;
    let whole = pow2(lb as nat) as int;
    let low = pow2((lb - 1) as nat) as int;
    let (u, d) = (up(x) as int, down(x) as int);
    let (v, e) = (up(x + 1) as int, down(x + 1) as int);
    let (a, b) = (a as int, b as int);
    let f = FULL as int;
    // 2^52 * 2^lb * 2^x == 2^(la - 1).
    if x >= 0 {
        power_of_sum(52, (lb + x) as nat);
        power_of_sum(lb as nat, x as nat);
        assert(52 + (lb + x) as nat == (la - 1) as nat);
    } else {
        power_of_sum(52, lb as nat);
        power_of_sum((la - 1) as nat, (-x) as nat);
        assert((la - 1) as nat + (-x) as nat == 52 + lb as nat);
    }
    assert(f * (whole * u) == half * d) by (nonlinear_arith)
        requires
            x >= 0 ==> half == f * pow2((lb + x) as nat) && pow2((lb + x) as nat) == whole * u && d
                == 1,
            x < 0 ==> pow2((52 + lb) as nat) == f * whole && pow2((52 + lb) as nat) == half * d && u
                == 1,
    ;
    assert(f * (b * u) <= a * d) by (nonlinear_arith)
        requires
            f * (whole * u) == half * d,
            b <= whole,
            half <= a,
            f > 0,
            u > 0,
            d > 0,
            b >= 0,
    {
        assert(b * u <= whole * u);
        assert(f * (b * u) <= f * (whole * u));
        assert(half * d <= a * d);
    }
    // 2^53 * 2^(lb - 1) * 2^(x + 1) == 2^la.
    next_power(x);
    assert(2 * f * (low * v) == 2 * half * e) by (nonlinear_arith)
        requires
            f * (whole * u) == half * d,
            whole == 2 * low,
            v * d == 2 * (u * e),
            d > 0,
    {
        assert((2 * f * (low * v)) * d == 2 * f * low * (v * d));
        assert(2 * f * low * (v * d) == 2 * f * low * (2 * (u * e)));
        assert(2 * f * low * (2 * (u * e)) == 2 * (f * ((2 * low) * u)) * e);
        assert(2 * (f * ((2 * low) * u)) * e == 2 * (half * d) * e);
        assert(2 * (half * d) * e == (2 * half * e) * d);
    }
    assert(a * e < 2 * f * (b * v)) by (nonlinear_arith)
        requires
            2 * f * (low * v) == 2 * half * e,
            a < 2 * half,
            low <= b,
            f > 0,
            v > 0,
            e > 0,
    {
        assert(a * e < (2 * half) * e);
        assert(low * v <= b * v);
        assert(2 * f * (low * v) <= 2 * f * (b * v));
    }
}

/// Where the smaller of the two scales is too small, the other one is right.
proof fn second_scale(a: nat, b: nat, x: int)
    requires
        a * down(x) >= 2 * FULL * (b * up(x)),
    ensures
        FULL * (b * up(x + 1)) <= a * down(x + 1),
{
    next_power(x);
    powers(x);
    powers(x + 1);
    let (u, d) = (up(x) as int, down(x) as int);
    let (v, e) = (up(x + 1) as int, down(x + 1) as int);
    let (a, b) = (a as int, b as int);
    let f = FULL as int;
    assert(f * (b * v) <= a * e) by (nonlinear_arith)
        requires
            a * d >= 2 * f * (b * u),
            v * d == 2 * (u * e),
            d > 0,
            e > 0,
    {
        assert((a * d) * e >= (2 * f * (b * u)) * e);
        assert((2 * f * (b * u)) * e == f * b * (2 * (u * e)));
        assert(f * b * (v * d) == (f * (b * v)) * d);
        assert((a * d) * e == (a * e) * d);
    }
}

/// The numerator and the denominator of `a / b` in units of 2 to the power of `x`.
fn brought(a: u128, b: u64, la: u32, lb: u32, x: i32) -> (r: (u128, u128))
    requires
        1 <= la <= 107,
        1 <= lb <= 54,
        a < pow2(la as nat),
        b < pow2(lb as nat),
        la - lb - 53 <= x <= la - lb - 52,
    ensures
        r.0 == a * down(x as int),
        r.1 == b * up(x as int),
        r.1 <= 0x80_0000_0000_0000,
{
    proof {
        lemma2_to64();
        lemma2_to64_rest();
    }
    if x >= 0 {
        let f: u128 = power(x as u32);
        proof {
            power_of_sum(lb as nat, x as nat);
            if lb + x < 55 {
                lemma_pow2_strictly_increases((lb + x) as nat, 55);
            }
            assert(b * f <= pow2(55)) by (nonlinear_arith)
                requires
                    b < pow2(lb as nat),
                    pow2((lb + x) as nat) == pow2(lb as nat) * f,
                    pow2((lb + x) as nat) <= pow2(55),
                    f > 0,
            ;
        }
        (a, b as u128 * f)
    } else {
        let f: u128 = power((-x) as u32);
        proof {
            power_of_sum(la as nat, (-x) as nat);
            power_of_sum(64, 43);
            if la - x < 107 {
                lemma_pow2_strictly_increases((la - x) as nat, 107);
            }
            assert(a * f <= pow2(107)) by (nonlinear_arith)
                requires
                    a < pow2(la as nat),
                    pow2((la - x) as nat) == pow2(la as nat) * f,
                    pow2((la - x) as nat) <= pow2(107),
                    f > 0,
            ;
            if lb < 55 {
                lemma_pow2_strictly_increases(lb as nat, 55);
            }
        }
        (a * f, b as u128)
    }
}

/// The quotient `n / d` at its scale, rounded.
fn finished(a: u128, b: u64, y: i32, x: i32, n: u128, d: u128) -> (r: Double)
    requires
        a > 0,
        b > 0,
        has_scale(a as nat, b as nat, x as int),
        n == a * down(x as int),
        d == b * up(x as int),
        d <= 0x80_0000_0000_0000,
        -1000 <= y <= 1000,
        -106 <= x <= 54,
    ensures
        r == nearest_double(a as nat, b as nat, y as int),
        r.x == x + y,
        FULL <= r.m <= 2 * FULL,
{
    proof {
        powers(x as int);
        assert(d > 0) by (nonlinear_arith)
            requires
                d == b * up(x as int),
                b > 0,
                up(x as int) > 0,
        ;
    }
    let q: u128 = n / d;
    let rest: u128 = n % d;
    let ghost full = FULL as int;
    assert(full <= q < 2 * full) by (nonlinear_arith)
        requires
            q == n / d,
            d > 0,
            full * d <= n < 2 * full * d,
    ;
    proof {
        let z = choose|z: int| has_scale(a as nat, b as nat, z);
        scale_is_unique(a as nat, b as nat, x as int, z);
    }
    let m: u64 = if 2 * rest > d || (2 * rest == d && q % 2 == 1) {
        (q + 1) as u64
    } else {
        q as u64
    };
    Double { m, x: x + y }
}

/// The number nearest to `a / b` times 2 to the power of `y`.
pub fn double(a: u128, b: u64, y: i32) -> (r: Double)
    requires
        a < 0x800_0000_0000_0000_0000_0000_0000,
        0 < b < 0x40_0000_0000_0000,
        -1000 <= y <= 1000,
    ensures
        r == nearest_double(a as nat, b as nat, y as int),
        a == 0 ==> r.m == 0 && r.x == 0,
        a > 0 ==> FULL <= r.m <= 2 * FULL && -106 + y <= r.x <= 54 + y,
{
    if a == 0 {
        return Double { m: 0, x: 0 };
    }
    let la: u32 = length(a);
    let lb: u32 = length(b as u128);
    proof {
        lemma2_to64();
        lemma2_to64_rest();
        if lb > 55 {
            lemma_pow2_strictly_increases(54, (lb - 1) as nat);
        }
    }
    let first: i32 = la as i32 - lb as i32 - 53;
    proof {
        scale_by_lengths(a as nat, b as nat, la as int, lb as int);
    }
    let (n, d): (u128, u128) = brought(a, b, la, lb, first);
    let full: u128 = FULL as u128;
    assert(full * d <= 0x1000_0000_0000_0000_0000_0000_0000) by (nonlinear_arith)
        requires
            full == 0x10_0000_0000_0000,
            d <= 0x80_0000_0000_0000,
    ;
    assert(2 * full * d == 2 * (full * d)) by (nonlinear_arith);
    if n < 2 * (full * d) {
        finished(a, b, y, first, n, d)
    } else {
        proof {
            second_scale(a as nat, b as nat, first as int);
        }
        let (n, d): (u128, u128) = brought(a, b, la, lb, first + 1);
        finished(a, b, y, first + 1, n, d)
    }
}

impl Double {
    /// The whole part.
    pub open spec fn whole_part(self) -> nat {
        self.m as nat * up(self.x as int) / down(self.x as int)
    }

    /// The next whole number that is not smaller.
    pub open spec fn rounded_up(self) -> nat {
        let d = down(self.x as int);
        ((self.m as nat * up(self.x as int) + d - 1) as nat) / d
    }

    /// The nearest whole number, halves up.
    pub open spec fn rounded_half_up(self) -> nat {
        let d = down(self.x as int);
        (2 * (self.m as nat * up(self.x as int)) + d) / (2 * d)
    }

    /// What is left without the whole part, in units of 2 to the power of `x`.
    pub open spec fn rest(self) -> nat {
        (self.m as nat * up(self.x as int)) % down(self.x as int)
    }

    /// What is left without the whole part, in single precision.
    pub open spec fn part(self) -> Scalar {
        nearest_to(
            false,
            num_of(self.rest(), self.x + 149),
            den_of(1, self.x + 149),
        )
    }

    /// The product of two numbers.
    pub open spec fn product(self, other: Double) -> Double {
        nearest_double(self.m as nat * other.m as nat, 1, self.x + other.x)
    }

    /// The quotient of two numbers.
    pub open spec fn ratio(self, other: Double) -> Double {
        nearest_double(self.m as nat, other.m as nat, self.x - other.x)
    }

    /// The numerator and the denominator.
    fn terms(self) -> (r: (u128, u128))
        requires
            self.m <= 2 * FULL,
            -120 <= self.x <= 63,
        ensures
            r.0 == self.m as nat * up(self.x as int),
            r.1 == down(self.x as int),
            r.0 <= 0x20_0000_0000_0000_0000_0000_0000_0000,
            0 < r.1 <= 0x100_0000_0000_0000_0000_0000_0000_0000,
            self.x >= 0 ==> r.1 == 1,
            self.x < 0 ==> r.0 == self.m,
    {
        let ghost m = self.m as int;
        proof {
            lemma2_to64();
            lemma2_to64_rest();
            power_of_sum(64, 56);
            lemma_pow2_pos(0);
        }
        if self.x >= 0 {
            let f: u128 = power(self.x as u32);
            proof {
                lemma_pow2_strictly_increases(self.x as nat, 64);
                assert(0 <= m * f <= 0x20_0000_0000_0000_0000_0000_0000_0000) by (nonlinear_arith)
                    requires
                        0 <= m <= 0x20_0000_0000_0000,
                        0 <= f <= 0x1_0000_0000_0000_0000,
                ;
            }
            (self.m as u128 * f, 1)
        } else {
            let f: u128 = power((-self.x) as u32);
            proof {
                lemma_pow2_pos((-self.x) as nat);
                if -self.x < 120 {
                    lemma_pow2_strictly_increases((-self.x) as nat, 120);
                }
                assert(m * 1 == m);
            }
            (self.m as u128, f)
        }
    }

    /// A number with a large power of two is beyond all counting, one with a small
    /// power of two is a fraction.
    proof fn far_off(self)
        requires
            0 < self.m <= 2 * FULL,
        ensures
            self.x > 63 ==> self.whole_part() > u64::MAX && self.rounded_up() > u64::MAX
                && self.rounded_half_up() > u64::MAX,
            self.x < -120 ==> self.whole_part() == 0 && self.rounded_up() == 1
                && self.rounded_half_up() == 0 && self.rest() == self.m,
    {
        lemma2_to64();
        lemma2_to64_rest();
        let m = self.m as int;
        if self.x > 63 {
            if self.x > 64 {
                lemma_pow2_strictly_increases(64, self.x as nat);
            }
            let f = pow2(self.x as nat) as int;
            assert(m * f >= 0x1_0000_0000_0000_0000) by (nonlinear_arith)
                requires
                    m >= 1,
                    f >= 0x1_0000_0000_0000_0000,
            ;
            let n = m * f;
            assert((2 * n + 1) / 2 == n) by (nonlinear_arith);
        }
        if self.x < -120 {
            lemma_pow2_strictly_increases(64, (-self.x) as nat);
            let d = pow2((-self.x) as nat) as int;
            assert(m * 1 == m);
            assert(m / d == 0 && (m + d - 1) / d == 1 && m % d == m) by (nonlinear_arith)
                requires
                    0 < m < d,
            ;
            assert((2 * m + d) / (2 * d) == 0) by (nonlinear_arith)
                requires
                    0 < 2 * m < d,
            ;
        }
    }

    /// The whole part, or `max` where that is less.
    pub fn floor(self, max: u64) -> (r: u64)
        requires
            self.m <= 2 * FULL,
        ensures
            r == capped(self.whole_part(), max as nat),
    {
        if self.m == 0 {
            proof {
                powers(self.x as int);
                let (u, d) = (up(self.x as int) as int, down(self.x as int) as int);
                assert(0 * u == 0 && 0int / d == 0) by (nonlinear_arith)
                    requires
                        d > 0,
                ;
            }
            return 0;
        }
        proof {
            self.far_off();
        }
        if self.x > 63 {
            return max;
        }
        if self.x < -120 {
            return 0;
        }
        let (n, d): (u128, u128) = self.terms();
        let whole: u128 = n / d;
        if whole <= max as u128 {
            whole as u64
        } else {
            max
        }
    }

    /// The next whole number that is not smaller, or `max` where that is less.
    pub fn ceil(self, max: u64) -> (r: u64)
        requires
            self.m <= 2 * FULL,
        ensures
            r == capped(self.rounded_up(), max as nat),
    {
        if self.m == 0 {
            proof {
                powers(self.x as int);
                let (u, d) = (up(self.x as int) as int, down(self.x as int) as int);
                assert(0 * u == 0 && (d - 1) / d == 0) by (nonlinear_arith)
                    requires
                        d > 0,
                ;
            }
            return 0;
        }
        proof {
            self.far_off();
        }
        if self.x > 63 {
            return max;
        }
        if self.x < -120 {
            return if max == 0 {
                0
            } else {
                1
            };
        }
        let (n, d): (u128, u128) = self.terms();
        let whole: u128 = (n + d - 1) / d;
        if whole <= max as u128 {
            whole as u64
        } else {
            max
        }
    }

    /// The nearest whole number, halves up, or `max` where that is less.
    pub fn round(self, max: u64) -> (r: u64)
        requires
            self.m <= 2 * FULL,
        ensures
            r == capped(self.rounded_half_up(), max as nat),
    {
        if self.m == 0 {
            proof {
                powers(self.x as int);
                let (u, d) = (up(self.x as int) as int, down(self.x as int) as int);
                assert(2 * (0 * u) == 0 && d / (2 * d) == 0) by (nonlinear_arith)
                    requires
                        d > 0,
                ;
            }
            return 0;
        }
        proof {
            self.far_off();
        }
        if self.x > 63 {
            return max;
        }
        if self.x < -120 {
            return 0;
        }
        let (n, d): (u128, u128) = self.terms();
        let whole: u128 = (2 * n + d) / (2 * d);
        if whole <= max as u128 {
            whole as u64
        } else {
            max
        }
    }

    /// What is left without the whole part.
    pub fn fraction(self) -> (r: Scalar)
        requires
            self.m <= 2 * FULL,
            -500 <= self.x <= 400,
        ensures
            r == self.part(),
    {
        if self.x >= 0 {
            assert(self.rest() == 0);
            return nearest(false, 0, 1, self.x + 149);
        }
        if self.x < -120 {
            proof {
                if self.m > 0 {
                    self.far_off();
                } else {
                    powers(self.x as int);
                    let d = down(self.x as int) as int;
                    assert(0int % d == 0) by (nonlinear_arith)
                        requires
                            d > 0,
                    ;
                }
            }
            return nearest(false, self.m as u128, 1, self.x + 149);
        }
        let (n, d): (u128, u128) = self.terms();
        let rest: u128 = n % d;
        proof {
            let (a, b) = (n as int, d as int);
            assert(a % b <= a && (b == 1 ==> a % b == 0)) by (nonlinear_arith)
                requires
                    a >= 0,
                    b > 0,
            ;
        }
        nearest(false, rest, 1, self.x + 149)
    }

    /// The product of two numbers.
    pub fn times(self, other: Double) -> (r: Double)
        requires
            self.m <= 2 * FULL,
            other.m <= 2 * FULL,
            -1000 <= self.x + other.x <= 1000,
        ensures
            r == self.product(other),
            r.m <= 2 * FULL,
            r.m == 0 ==> r.x == 0,
            r.m > 0 ==> -106 + self.x + other.x <= r.x <= 54 + self.x + other.x,
    {
        let ghost (a, b) = (self.m as int, other.m as int);
        assert(0 <= a * b <= 0x400_0000_0000_0000_0000_0000_0000) by (nonlinear_arith)
            requires
                0 <= a <= 0x20_0000_0000_0000,
                0 <= b <= 0x20_0000_0000_0000,
        ;
        double(self.m as u128 * other.m as u128, 1, self.x + other.x)
    }

    /// The quotient of two numbers.
    pub fn over(self, other: Double) -> (r: Double)
        requires
            self.m <= 2 * FULL,
            0 < other.m <= 2 * FULL,
            -1000 <= self.x - other.x <= 1000,
        ensures
            r == self.ratio(other),
            r.m <= 2 * FULL,
            self.m > 0 ==> r.m > 0,
            r.m == 0 ==> r.x == 0,
            r.m > 0 ==> -106 + self.x - other.x <= r.x <= 54 + self.x - other.x,
    {
        double(self.m as u128, other.m, self.x - other.x)
    }
}

/// The whole number `n`, rounded.
pub open spec fn whole_double(n: nat) -> Double {
    nearest_double(n, 1, 0)
}

/// The whole number `n`, rounded.
pub fn double_of(n: u64) -> (r: Double)
    ensures
        r == whole_double(n as nat),
        r.m <= 2 * FULL,
        n == 0 ==> r.m == 0,
        n > 0 ==> r.m > 0,
        -106 <= r.x <= 54,
{
    double(n as u128, 1, 0)
}

/// The significand of a finite magnitude pattern.
pub open spec fn significand(magnitude: nat) -> nat {
    if magnitude < STEP {
        magnitude
    } else {
        STEP as nat + magnitude % (STEP as nat)
    }
}

/// The power of two that the significand counts, in single precision.
pub open spec fn exponent(magnitude: nat) -> int {
    if magnitude < STEP {
        -149
    } else {
        magnitude / (STEP as nat) - 150
    }
}

impl Scalar {
    /// The magnitude of a finite number, in double precision.
    pub open spec fn widened(self) -> Double {
        nearest_double(significand(self.magnitude()), 1, exponent(self.magnitude()))
    }

    /// The magnitude of a finite number, in double precision.
    pub fn widen(self) -> (r: Double)
        requires
            self.is_finite(),
        ensures
            r == self.widened(),
            r.m <= 2 * FULL,
            self.magnitude() > 0 ==> r.m > 0,
            -300 <= r.x <= 200,
    {
        let (m, x): (u64, u32) = parts(self.get_magnitude());
        double(m as u128, 1, x as i32 - 149)
    }
}

// ── Fractions ────────────────────────────────────────────────────────────────

/// Double-precision patterns from here on carry a sign.
pub const WIDE_SIGN: u64 = 0x8000_0000_0000_0000;

/// The magnitude pattern of infinity; larger ones are not numbers.
pub const WIDE_INFINITE: u64 = 0x7ff0_0000_0000_0000;

/// The pattern of 1.
pub const WIDE_ONE: u64 = 0x3ff0_0000_0000_0000;

/// A place along a bar: a double-precision number by its bit pattern.
#[derive(Clone, Copy, Debug, PartialEq, Eq, Structural)]
pub struct Fraction {
    pub bits: u64,
}

/// The significand of a finite magnitude pattern in double precision.
pub open spec fn wide_significand(magnitude: nat) -> nat {
    if magnitude < FULL {
        magnitude
    } else {
        FULL as nat + magnitude % (FULL as nat)
    }
}

/// The power of two that the significand counts, in double precision.
pub open spec fn wide_exponent(magnitude: nat) -> int {
    if magnitude < FULL {
        -1074
    } else {
        magnitude / (FULL as nat) - 1075
    }
}

impl Fraction {
    pub open spec fn negative(self) -> bool {
        self.bits >= WIDE_SIGN
    }

    /// The pattern without its sign.
    pub open spec fn magnitude(self) -> nat {
        (self.bits as nat) % (WIDE_SIGN as nat)
    }

    pub open spec fn is_nan(self) -> bool {
        self.magnitude() > WIDE_INFINITE
    }

    /// The number is larger than the positive one with the given pattern.
    pub open spec fn above(self, pattern: u64) -> bool {
        !self.is_nan() && !self.negative() && self.bits > pattern
    }

    /// The number, or the nearer end of 0 to 1 where it lies outside.
    pub open spec fn pinned(self) -> Fraction {
        if self.is_nan() {
            self
        } else if self.negative() && self.magnitude() > 0 {
            Fraction { bits: 0 }
        } else if self.above(WIDE_ONE) {
            Fraction { bits: WIDE_ONE }
        } else {
            self
        }
    }

    /// A finite number in single precision; what is not a number stays none.
    pub open spec fn narrowed(self) -> Scalar {
        if self.is_nan() {
            nan()
        } else {
            let x = wide_exponent(self.magnitude()) + 149;
            nearest_to(
                self.negative(),
                num_of(wide_significand(self.magnitude()), x),
                den_of(1, x),
            )
        }
    }

    fn get_magnitude(self) -> (r: u64)
        ensures
            r == self.magnitude(),
    {
        self.bits % WIDE_SIGN
    }

    /// Whether the number is larger than the positive one with the given pattern.
    pub fn is_above(self, pattern: u64) -> (r: bool)
        ensures
            r == self.above(pattern),
    {
        self.get_magnitude() <= WIDE_INFINITE && self.bits < WIDE_SIGN && self.bits > pattern
    }

    /// The number, or the nearer end of 0 to 1 where it lies outside.
    pub fn pin(self) -> (r: Fraction)
        ensures
            r == self.pinned(),
            r.is_nan() || r.magnitude() <= WIDE_ONE,
    {
        let p: u64 = self.get_magnitude();
        if p > WIDE_INFINITE {
            self
        } else if self.bits >= WIDE_SIGN && p > 0 {
            Fraction { bits: 0 }
        } else if self.is_above(WIDE_ONE) {
            Fraction { bits: WIDE_ONE }
        } else {
            self
        }
    }

    /// A fraction in single precision.
    pub fn narrow(self) -> (r: Scalar)
        requires
            self.is_nan() || self.magnitude() <= WIDE_ONE,
        ensures
            r == self.narrowed(),
    {
        let p: u64 = self.get_magnitude();
        let negative: bool = self.bits >= WIDE_SIGN;
        if p > WIDE_INFINITE {
            return Scalar { bits: NAN_BITS };
        }
        let (m, x): (u64, i32) = if p < FULL {
            (p, -1074)
        } else {
            (FULL + p % FULL, (p / FULL) as i32 - 1075)
        };
        assert(m == wide_significand(p as nat) && x == wide_exponent(p as nat));
        if x >= -500 {
            return nearest(negative, m as u128, 1, x + 149);
        }
        // Far less than half of the smallest number that single precision has.
        let r: Scalar = if negative {
            Scalar { bits: SIGN }
        } else {
            Scalar { bits: 0 }
        };
        proof {
            let d = pow2((-x - 149) as nat);
            lemma2_to64();
            lemma_pow2_strictly_increases(64, (-x - 149) as nat);
            let y = x + 149;
            assert(num_of(m as nat, y as int) == m);
            assert(den_of(1, y as int) == d) by {
                assert(1 * d == d);
            }
            assert(units(0) == 0 && units(1) == 1);
            assert(middle(0) * d == d) by (nonlinear_arith)
                requires
                    middle(0) == 1,
            ;
            assert(rounds_to(m as nat, d, 0));
            nearest_is_unique(negative, m as nat, d, r);
        }
        r
    }
}

/// The larger of two patterns belongs to the larger number.
pub proof fn larger_patterns_are_larger(p: nat, q: nat)
    requires
        p < q < WIDE_INFINITE,
    ensures
        wide_significand(p) * (up(wide_exponent(p)) * down(wide_exponent(q))) < wide_significand(q)
            * (up(wide_exponent(q)) * down(wide_exponent(p))),
{
    let (m, n) = (wide_significand(p) as int, wide_significand(q) as int);
    let (x, y) = (wide_exponent(p), wide_exponent(q));
    powers(x);
    powers(y);
    let f = FULL as int;
    if x == y {
        let e = (up(x) * down(x)) as int;
        assert(e > 0) by (nonlinear_arith)
            requires
                e == up(x) * down(x),
                up(x) > 0,
                down(x) > 0,
        ;
        assert(m < n) by {
            if p >= f {
                vstd::arithmetic::div_mod::lemma_fundamental_div_mod(p as int, f);
                vstd::arithmetic::div_mod::lemma_fundamental_div_mod(q as int, f);
            }
        }
        assert(m * e < n * e) by (nonlinear_arith)
            requires
                m < n,
                e > 0,
        ;
    } else {
        assert(x < y) by {
            vstd::arithmetic::div_mod::lemma_div_is_ordered(p as int, q as int, f);
        }
        powers_grow(x, y);
        let a = (up(x) * down(y)) as int;
        let b = (up(y) * down(x)) as int;
        assert(a > 0) by (nonlinear_arith)
            requires
                a == up(x) * down(y),
                up(x) > 0,
                down(y) > 0,
        ;
        assert(m * a < n * b) by (nonlinear_arith)
            requires
                0 <= m < 2 * f,
                n >= f,
                b >= 2 * a,
                a > 0,
                f > 0,
        {
            assert(m * a < (2 * f) * a);
            assert(f * b >= f * (2 * a));
            assert(n * b >= f * b);
        }
    }
}

/// A fraction between 0 and 1 stays as it is; one below is taken as 0 and one above as 1.
pub proof fn fractions_are_pinned_to_their_nearer_end(at: Fraction)
    requires
        !at.is_nan(),
    ensures
        at.negative() && at.magnitude() > 0 ==> at.pinned().bits == 0,
        !at.negative() && at.bits > WIDE_ONE ==> at.pinned().bits == WIDE_ONE,
        !at.negative() && at.bits <= WIDE_ONE ==> at.pinned() == at,
        at.pinned().pinned() == at.pinned(),
{
}

} // verus!
