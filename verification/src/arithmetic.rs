//! Sums, products and quotients of single-precision numbers.
//!
//! Each operation takes the exact result and rounds it to the nearest number. All of
//! it is done in integers.

use vstd::prelude::*;
use vstd::arithmetic::power2::{lemma2_to64, lemma2_to64_rest, lemma_pow2_pos, lemma_pow2_strictly_increases, pow2};

use crate::rounding::{
    distance, is_milli, middle, milli, parts, pattern_units, power, power_of_sum, quotient_rounds, rounded, rounded_product,
    rounding_exists, rounding_is_unique, rounds_down_to, rounds_to,
};
use crate::scalar::{units, units_grow, Scalar, INFINITE, ONE_BITS, SIGN, STEP};

verus! {

/// What an operation without a result gives.
pub const NAN_BITS: u32 = 0x7fc0_0000;

/// The number with the given sign that is nearest to the magnitude `n / d`, in the
/// unit of [`units`].
pub open spec fn nearest_to(negative: bool, n: nat, d: nat) -> Scalar {
    choose|r: Scalar| is_nearest(negative, n, d, r)
}

pub open spec fn is_nearest(negative: bool, n: nat, d: nat, r: Scalar) -> bool {
    r.negative() == negative && rounds_to(n, d, r.magnitude())
}

pub(crate) proof fn nearest_is_unique(negative: bool, n: nat, d: nat, r: Scalar)
    requires
        d > 0,
        is_nearest(negative, n, d, r),
    ensures
        r == nearest_to(negative, n, d),
{
    let other = nearest_to(negative, n, d);
    rounding_is_unique(n, d, r.magnitude(), other.magnitude());
    assert(r.bits == other.bits);
}

/// There always is a nearest number; it is infinite beyond the largest finite one.
pub proof fn nearest_exists(negative: bool, n: nat, d: nat)
    requires
        d > 0,
    ensures
        is_nearest(negative, n, d, nearest_to(negative, n, d)),
        !nearest_to(negative, n, d).is_nan(),
{
    let p = rounding_exists(n, d, INFINITE as nat);
    let r = signed(p, negative);
    assert(is_nearest(negative, n, d, r));
}

pub open spec fn signed(p: nat, negative: bool) -> Scalar {
    if negative {
        Scalar { bits: (SIGN + p) as u32 }
    } else {
        Scalar { bits: p as u32 }
    }
}

fn with_sign(p: u32, negative: bool) -> (r: Scalar)
    requires
        p < SIGN,
    ensures
        r == signed(p as nat, negative),
        r.magnitude() == p,
        r.negative() == negative,
{
    if negative {
        Scalar { bits: SIGN + p }
    } else {
        Scalar { bits: p }
    }
}

/// The numerator and the denominator of `a / b` times 2 to the power of `x`.
pub open spec fn num_of(a: nat, x: int) -> nat {
    if x >= 0 {
        a * pow2(x as nat)
    } else {
        a
    }
}

pub open spec fn den_of(b: nat, x: int) -> nat {
    if x >= 0 {
        b
    } else {
        b * pow2((-x) as nat)
    }
}

/// The number of bits of `n`.
fn bits_of(n: u128) -> (bits: u32)
    requires
        0 < n < 0x1_0000_0000_0000_0000_0000_0000,
    ensures
        1 <= bits <= 96,
        pow2((bits - 1) as nat) <= n < pow2(bits as nat),
{
    let mut bits: u32 = 1;
    let mut top: u128 = 2;
    proof {
        lemma2_to64();
        power_of_sum(64, 32);
    }
    while top <= n
        invariant
            1 <= bits <= 96,
            top == pow2(bits as nat),
            pow2((bits - 1) as nat) <= n,
            n < 0x1_0000_0000_0000_0000_0000_0000,
            pow2(96) == 0x1_0000_0000_0000_0000_0000_0000,
        decreases 96 - bits,
    {
        proof {
            power_of_sum(bits as nat, 1);
            lemma2_to64();
        }
        top = top * 2;
        bits = bits + 1;
    }
    bits
}

/// `a` and `b` brought to a quotient of 2 to the power of `k` times as much.
fn scaled(a: u128, b: u64, la: u32, lb: u32, k: i32) -> (r: (u128, u128))
    requires
        1 <= la <= 96,
        1 <= lb <= 24,
        a < pow2(la as nat),
        b < pow2(lb as nat),
        23 + lb - la <= k <= 24 + lb - la,
    ensures
        r.0 == num_of(a as nat, k as int),
        r.1 == den_of(b as nat, k as int),
        r.0 < 0x1_0000_0000_0000_0000_0000_0000,
        r.1 < 0x1_0000_0000_0000_0000_0000_0000,
{
    proof {
        lemma2_to64();
        lemma2_to64_rest();
        power_of_sum(64, 32);
        if la < 96 {
            lemma_pow2_strictly_increases(la as nat, 96);
        }
        if lb < 24 {
            lemma_pow2_strictly_increases(lb as nat, 24);
        }
    }
    if k >= 0 {
        let f: u128 = power(k as u32);
        proof {
            power_of_sum(la as nat, k as nat);
            if la + k < 48 {
                lemma_pow2_strictly_increases((la + k) as nat, 48);
            }
            let top = pow2(la as nat);
            assert(a * f < 0x1_0000_0000_0000) by (nonlinear_arith)
                requires
                    a < top,
                    top * f <= 0x1_0000_0000_0000,
                    f > 0,
            ;
        }
        (a * f, b as u128)
    } else {
        let f: u128 = power((-k) as u32);
        proof {
            power_of_sum(lb as nat, (-k) as nat);
            if lb - k < 96 {
                lemma_pow2_strictly_increases((lb - k) as nat, 96);
            }
            let top = pow2(lb as nat);
            assert(b * f < 0x1_0000_0000_0000_0000_0000_0000) by (nonlinear_arith)
                requires
                    b < top,
                    top * f <= 0x1_0000_0000_0000_0000_0000_0000,
                    f > 0,
            ;
        }
        (a, b as u128 * f)
    }
}

/// The same quotient at two scales.
proof fn common_factor(a: nat, b: nat, x: int, k: int) -> (g: nat)
    requires
        k <= x,
    ensures
        g > 0,
        num_of(a, x) == num_of(a, k) * g,
        pow2((x - k) as nat) * den_of(b, x) == den_of(b, k) * g,
{
    let t = (x - k) as nat;
    lemma2_to64();
    if k >= 0 {
        power_of_sum(k as nat, t);
        let (e, f) = (pow2(k as nat), pow2(t));
        assert(a * (e * f) == (a * e) * f) by (nonlinear_arith);
        assert(f * b == b * f) by (nonlinear_arith);
        f
    } else if x >= 0 {
        power_of_sum((-k) as nat, x as nat);
        let (e, f) = (pow2((-k) as nat), pow2(x as nat));
        assert((e * f) * b == (b * e) * f) by (nonlinear_arith);
        f
    } else {
        power_of_sum(t, (-x) as nat);
        let (e, f) = (pow2(t), pow2((-x) as nat));
        assert(e * (b * f) == (b * (e * f)) * 1) by (nonlinear_arith);
        assert(a * 1 == a);
        1
    }
}

proof fn far_above(a: nat, b: nat, x: int, k: int)
    requires
        x - k >= 254,
        STEP * den_of(b, k) <= num_of(a, k),
    ensures
        num_of(a, x) >= units(INFINITE as nat) * den_of(b, x),
{
    let g = common_factor(a, b, x, k);
    let t = (x - k) as nat;
    if t > 254 {
        lemma_pow2_strictly_increases(254, t);
    }
    let (n, d) = (num_of(a, x), den_of(b, x));
    let (p, q) = (num_of(a, k), den_of(b, k));
    let (top, low) = (pow2(t), pow2(254));
    assert(units(INFINITE as nat) == STEP * low);
    assert(n >= (STEP * low) * d) by (nonlinear_arith)
        requires
            n == p * g,
            top * d == q * g,
            STEP * q <= p,
            low <= top,
            g > 0,
    ;
}

proof fn below_normal(a: nat, b: nat, x: int, k: int)
    requires
        x < k,
        num_of(a, k) < 2 * STEP * den_of(b, k),
    ensures
        num_of(a, x) < STEP * den_of(b, x),
{
    let g = common_factor(a, b, k, x);
    let s = (k - x) as nat;
    lemma2_to64();
    if s > 1 {
        lemma_pow2_strictly_increases(1, s);
    }
    let (n, d) = (num_of(a, x), den_of(b, x));
    let (p, q) = (num_of(a, k), den_of(b, k));
    let f = pow2(s);
    if n >= STEP * d {
        assert(p * f >= (2 * STEP * q) * f) by (nonlinear_arith)
            requires
                p == n * g,
                f * q == d * g,
                n >= STEP * d,
                f >= 2,
                g > 0,
        ;
        assert(p * f < (2 * STEP * q) * f) by (nonlinear_arith)
            requires
                p < 2 * STEP * q,
                f >= 2,
        ;
    }
}

proof fn first_scale(a: nat, b: nat, la: nat, lb: nat)
    requires
        1 <= la,
        1 <= lb,
        pow2((la - 1) as nat) <= a < pow2(la),
        pow2((lb - 1) as nat) <= b < pow2(lb),
    ensures
        ({
            let k = 24 - la + lb;
            let (n, d) = (num_of(a, k), den_of(b, k));
            STEP * d <= n < 4 * STEP * d
        }),
{
    let k = 24 - la + lb;
    lemma2_to64();
    power_of_sum((la - 1) as nat, 1);
    power_of_sum((lb - 1) as nat, 1);
    let ua = pow2((la - 1) as nat);
    let ub = pow2((lb - 1) as nat);
    if k >= 0 {
        let f = pow2(k as nat);
        // 2^la * 2^k == 2^24 * 2^lb
        power_of_sum(la, k as nat);
        power_of_sum(24, lb);
        assert(STEP * b <= a * f) by (nonlinear_arith)
            requires
                (2 * ua) * f == 0x100_0000 * (2 * ub),
                ua <= a,
                b < 2 * ub,
                STEP == 0x80_0000,
                f > 0,
        ;
        assert(a * f < 4 * STEP * b) by (nonlinear_arith)
            requires
                (2 * ua) * f == 0x100_0000 * (2 * ub),
                a < 2 * ua,
                ub <= b,
                STEP == 0x80_0000,
                f > 0,
        ;
    } else {
        let f = pow2((-k) as nat);
        // 2^la == 2^24 * 2^lb * 2^-k
        power_of_sum(24 + lb, (-k) as nat);
        power_of_sum(24, lb);
        assert(STEP * (b * f) <= a) by (nonlinear_arith)
            requires
                2 * ua == (0x100_0000 * (2 * ub)) * f,
                ua <= a,
                b < 2 * ub,
                STEP == 0x80_0000,
                f > 0,
        ;
        assert(a < 4 * STEP * (b * f)) by (nonlinear_arith)
            requires
                2 * ua == (0x100_0000 * (2 * ub)) * f,
                a < 2 * ua,
                ub <= b,
                STEP == 0x80_0000,
                f > 0,
        ;
    }
}

/// One step less of scale halves the quotient.
proof fn next_scale(a: nat, b: nat, k: int)
    ensures
        num_of(a, k) * den_of(b, k - 1) == 2 * (num_of(a, k - 1) * den_of(b, k)),
        num_of(a, k) == 2 * num_of(a, k - 1) || den_of(b, k - 1) == 2 * den_of(
            b,
            k,
        ),
        num_of(a, k) == num_of(a, k - 1) || den_of(b, k - 1) == den_of(b, k),
{
    lemma2_to64();
    if k >= 1 {
        power_of_sum((k - 1) as nat, 1);
        let f = pow2((k - 1) as nat);
        assert(a * (f * 2) == 2 * (a * f)) by (nonlinear_arith);
        assert((2 * (a * f)) * b == 2 * ((a * f) * b)) by (nonlinear_arith);
    } else {
        power_of_sum((-k) as nat, 1);
        let f = pow2((-k) as nat);
        assert(b * (f * 2) == 2 * (b * f)) by (nonlinear_arith);
        if k == 0 {
            assert(a * 1 == a);
            assert(pow2(0) == 1);
            assert(b * pow2(0) == b);
        }
        assert(a * (2 * (b * f)) == 2 * (a * (b * f))) by (nonlinear_arith);
    }
}

/// Below the smallest normal number, patterns count units.
proof fn small_rounds(n: nat, d: nat, a: nat, b: nat, m: nat)
    requires
        b > 0,
        n == a,
        d == b,
        a < STEP * b,
        m == rounded_product(a as int, b as int),
    ensures
        m <= STEP,
        rounds_to(n, d, m),
{
    let q = a as int / b as int;
    let r = a as int % b as int;
    assert(a == q * b + r && 0 <= r < b && 0 <= q < STEP) by (nonlinear_arith)
        requires
            b > 0,
            q == a as int / b as int,
            r == a as int % b as int,
            a < STEP * b,
    ;
    lemma2_to64();
    assert forall|p: nat| p <= STEP implies #[trigger] units(p) == p by {
        if p == STEP {
            assert(STEP * pow2(0) == STEP);
        }
    }
    assert(units((STEP + 1) as nat) == STEP + 1) by {
        assert((STEP + 1) * pow2(0) == STEP + 1);
    }
    assert(units(m) == m);
    assert(units(m + 1) == m + 1);
    assert(middle(m) * b == 2 * (m * b) + b) by (nonlinear_arith)
        requires
            middle(m) == 2 * m + 1,
    ;
    if m == q {
        assert(m * b == q * b);
    } else {
        assert(m * b == q * b + b) by (nonlinear_arith)
            requires
                m == q + 1,
        ;
    }
    if m > 0 {
        let below = (m - 1) as nat;
        assert(units(below) == below);
        assert(middle(below) == 2 * m - 1);
        assert(middle(below) * b == 2 * (m * b) - b) by (nonlinear_arith)
            requires
                middle(below) == 2 * m - 1,
        ;
    }
}

/// A magnitude from that of infinity on rounds to infinity.
proof fn large_rounds(n: nat, d: nat)
    requires
        d > 0,
        n >= units(INFINITE as nat) * d,
    ensures
        rounds_to(n, d, INFINITE as nat),
{
    let p = (INFINITE - 1) as nat;
    units_grow(p, INFINITE as nat);
    let under = middle(p);
    let top = 2 * units(INFINITE as nat);
    assert(under * d < top * d) by (nonlinear_arith)
        requires
            under < top,
            d > 0,
    ;
    assert(top * d == 2 * (units(INFINITE as nat) * d)) by (nonlinear_arith)
        requires
            top == 2 * units(INFINITE as nat),
    ;
}

/// The number nearest to `a / b` times 2 to the power of `x`, in the unit of
/// [`units`].
pub(crate) fn nearest(negative: bool, a: u128, b: u64, x: i32) -> (r: Scalar)
    requires
        a < 0x1_0000_0000_0000_0000_0000_0000,
        0 < b < 2 * STEP,
        -400 <= x <= 600,
    ensures
        r == nearest_to(negative, num_of(a as nat, x as int), den_of(b as nat, x as int)),
{
    let ghost n = num_of(a as nat, x as int);
    let ghost d = den_of(b as nat, x as int);
    proof {
        lemma2_to64();
        if x < 0 {
            lemma_pow2_pos((-x) as nat);
            assert(b * pow2((-x) as nat) > 0) by (nonlinear_arith)
                requires
                    b > 0,
                    pow2((-x) as nat) > 0,
            ;
        }
    }
    if a == 0 {
        proof {
            assert(n == 0) by {
                if x >= 0 {
                    assert(0 * pow2(x as nat) == 0);
                }
            }
            units_grow(0, 1);
            assert(units(0) == 0);
            assert(middle(0) * d > 0) by (nonlinear_arith)
                requires
                    middle(0) > 0,
                    d > 0,
            ;
        }
        let r = with_sign(0, negative);
        proof {
            nearest_is_unique(negative, n, d, r);
        }
        return r;
    }
    let la: u32 = bits_of(a);
    let lb: u32 = bits_of(b as u128);
    proof {
        first_scale(a as nat, b as nat, la as nat, lb as nat);
        if lb > 24 {
            if lb > 25 {
                lemma_pow2_strictly_increases(24, (lb - 1) as nat);
            }
            assert(false);
        }
    }
    let k1: i32 = 24 + lb as i32 - la as i32;
    let (a1, b1): (u128, u128) = scaled(a, b, la, lb, k1);
    let k: i32 = if a1 >= 0x100_0000 * b1 {
        k1 - 1
    } else {
        k1
    };
    let (am, bm): (u128, u128) = if k == k1 {
        (a1, b1)
    } else {
        scaled(a, b, la, lb, k)
    };
    proof {
        next_scale(a as nat, b as nat, k1 as int);
        assert(STEP * bm <= am < 2 * STEP * bm);
    }
    let t: i32 = x - k;
    if t >= 254 {
        proof {
            far_above(a as nat, b as nat, x as int, k as int);
            large_rounds(n, d);
        }
        let r = with_sign(INFINITE, negative);
        proof {
            nearest_is_unique(negative, n, d, r);
        }
        return r;
    }
    if t >= 0 {
        let m: u32 = rounded(am, bm);
        proof {
            let g = common_factor(a as nat, b as nat, x as int, k as int);
            quotient_rounds(n, d, t as nat, am as nat, bm as nat, g, m as nat);
        }
        let p: u32 = t as u32 * STEP + m;
        let r = with_sign(p, negative);
        proof {
            nearest_is_unique(negative, n, d, r);
        }
        return r;
    }
    // Below the smallest normal number.
    proof {
        below_normal(a as nat, b as nat, x as int, k as int);
    }
    if x < -100 {
        proof {
            power_of_sum(64, 32);
            lemma_pow2_strictly_increases(100, (-x) as nat);
            power_of_sum(96, 4);
            units_grow(0, 1);
            assert(units(0) == 0 && units(1) == 1);
            assert(2 * n < middle(0) * d) by (nonlinear_arith)
                requires
                    n == a,
                    a < 0x1_0000_0000_0000_0000_0000_0000,
                    d == b * pow2((-x) as nat),
                    b >= 1,
                    pow2((-x) as nat) >= 0x10_0000_0000_0000_0000_0000_0000,
                    middle(0) == 1,
            ;
        }
        let r = with_sign(0, negative);
        proof {
            nearest_is_unique(negative, n, d, r);
        }
        return r;
    }
    let (an, bn): (u128, u128) = if x >= 0 {
        proof {
            let f = pow2(x as nat);
            assert(a * f < 0x80_0000 * 0x100_0000) by (nonlinear_arith)
                requires
                    a * f < STEP * b,
                    b < 0x100_0000,
                    STEP == 0x80_0000,
            ;
            assert(f <= a * f) by (nonlinear_arith)
                requires
                    a >= 1,
            ;
            if x >= 48 {
                lemma2_to64_rest();
                if x > 48 {
                    lemma_pow2_strictly_increases(48, x as nat);
                }
                assert(false);
            }
        }
        (a * power(x as u32), b as u128)
    } else {
        proof {
            if x > -100 {
                lemma_pow2_strictly_increases((-x) as nat, 100);
            }
            power_of_sum(64, 36);
            lemma2_to64_rest();
            assert(b * pow2((-x) as nat) < 0x1000_0000_0000_0000_0000_0000_0000_0000)
                by (nonlinear_arith)
                requires
                    b < 0x100_0000,
                    pow2((-x) as nat) <= 0x10_0000_0000_0000_0000_0000_0000,
            ;
        }
        (a, b as u128 * power((-x) as u32))
    };
    assert(an == n && bn == d);
    assert(an < STEP * bn);
    let m: u32 = rounded(an, bn);
    proof {
        small_rounds(n, d, an as nat, bn as nat, m as nat);
    }
    let r = with_sign(m, negative);
    proof {
        nearest_is_unique(negative, n, d, r);
    }
    r
}

// ── The operations ───────────────────────────────────────────────────────────

/// What an operation without a result gives.
pub open spec fn nan() -> Scalar {
    Scalar { bits: NAN_BITS }
}

impl Scalar {
    pub open spec fn is_infinite(self) -> bool {
        self.magnitude() == INFINITE
    }

    pub open spec fn is_zero(self) -> bool {
        self.magnitude() == 0
    }

    /// The number with the other sign.
    pub open spec fn negated(self) -> Scalar {
        signed(self.magnitude(), !self.negative())
    }

    /// The number without its sign.
    pub open spec fn absolute(self) -> Scalar {
        signed(self.magnitude(), false)
    }

    /// `self + other`, rounded.
    #[verifier::opaque]
    pub open spec fn sum(self, other: Scalar) -> Scalar {
        if self.is_nan() || other.is_nan() {
            nan()
        } else if self.is_infinite() {
            if other.is_infinite() && self.negative() != other.negative() {
                nan()
            } else {
                self
            }
        } else if other.is_infinite() {
            other
        } else {
            let v = self.value() + other.value();
            if v == 0 {
                signed(0, self.negative() && other.negative())
            } else {
                nearest_to(v < 0, distance(v, 0), 1)
            }
        }
    }

    /// `self - other`, rounded.
    pub open spec fn difference(self, other: Scalar) -> Scalar {
        self.sum(other.negated())
    }

    /// `self * other`, rounded.
    #[verifier::opaque]
    pub open spec fn product(self, other: Scalar) -> Scalar {
        let negative = self.negative() != other.negative();
        if self.is_nan() || other.is_nan() {
            nan()
        } else if self.is_infinite() || other.is_infinite() {
            if self.is_zero() || other.is_zero() {
                nan()
            } else {
                signed(INFINITE as nat, negative)
            }
        } else {
            nearest_to(
                negative,
                units(self.magnitude()) * units(other.magnitude()),
                pow2(149),
            )
        }
    }

    /// `self / other`, rounded.
    #[verifier::opaque]
    pub open spec fn ratio(self, other: Scalar) -> Scalar {
        let negative = self.negative() != other.negative();
        if self.is_nan() || other.is_nan() {
            nan()
        } else if self.is_infinite() {
            if other.is_infinite() {
                nan()
            } else {
                signed(INFINITE as nat, negative)
            }
        } else if other.is_infinite() {
            signed(0, negative)
        } else if other.is_zero() {
            if self.is_zero() {
                nan()
            } else {
                signed(INFINITE as nat, negative)
            }
        } else {
            nearest_to(
                negative,
                units(self.magnitude()) * pow2(149),
                units(other.magnitude()),
            )
        }
    }

    /// The number with the other sign.
    pub fn negate(self) -> (r: Scalar)
        ensures
            r == self.negated(),
    {
        with_sign(self.get_magnitude(), !self.get_negative())
    }

    /// The number without its sign.
    pub fn abs(self) -> (r: Scalar)
        ensures
            r == self.absolute(),
    {
        with_sign(self.get_magnitude(), false)
    }

    /// `self * other`.
    pub fn times(self, other: Scalar) -> (r: Scalar)
        ensures
            r == self.product(other),
    {
        proof {
            reveal(Scalar::product);
        }
        let p: u32 = self.get_magnitude();
        let q: u32 = other.get_magnitude();
        let negative: bool = self.get_negative() != other.get_negative();
        if p > INFINITE || q > INFINITE {
            return Scalar { bits: NAN_BITS };
        }
        if p == INFINITE || q == INFINITE {
            return if p == 0 || q == 0 {
                Scalar { bits: NAN_BITS }
            } else {
                with_sign(INFINITE, negative)
            };
        }
        let (m, x): (u64, u32) = parts(p);
        let (k, y): (u64, u32) = parts(q);
        assert(m * k < 0x1_0000_0000_0000) by (nonlinear_arith)
            requires
                m < 0x100_0000,
                k < 0x100_0000,
        ;
        let a: u64 = m * k;
        let z: i32 = x as i32 + y as i32 - 149;
        let r: Scalar = nearest(negative, a as u128, 1, z);
        proof {
            let n = units(self.magnitude()) * units(other.magnitude());
            let d = pow2(149);
            let (e, f) = (pow2(x as nat), pow2(y as nat));
            power_of_sum(x as nat, y as nat);
            lemma_pow2_pos(149);
            assert(n == a * (e * f)) by (nonlinear_arith)
                requires
                    n == (m * e) * (k * f),
                    a == m * k,
            ;
            if z >= 0 {
                power_of_sum(149, z as nat);
                let g = pow2(z as nat);
                assert(n == (a * g) * d) by (nonlinear_arith)
                    requires
                        n == a * (e * f),
                        e * f == d * g,
                ;
                assert(1 * d == d);
                same_quotient(a as nat * g, 1, n, d, d);
                moved(negative, a as nat * g, 1, n, d, r);
            } else {
                power_of_sum((x + y) as nat, (-z) as nat);
                let g = pow2((-z) as nat);
                let h = pow2((x + y) as nat);
                assert(d == (1 * g) * h) by (nonlinear_arith)
                    requires
                        d == h * g,
                ;
                same_quotient(a as nat, 1 * g, n, d, h);
                moved(negative, a as nat, 1 * g, n, d, r);
            }
        }
        r
    }

    /// `self / other`.
    pub fn over(self, other: Scalar) -> (r: Scalar)
        ensures
            r == self.ratio(other),
    {
        proof {
            reveal(Scalar::ratio);
        }
        let p: u32 = self.get_magnitude();
        let q: u32 = other.get_magnitude();
        let negative: bool = self.get_negative() != other.get_negative();
        if p > INFINITE || q > INFINITE {
            return Scalar { bits: NAN_BITS };
        }
        if p == INFINITE {
            return if q == INFINITE {
                Scalar { bits: NAN_BITS }
            } else {
                with_sign(INFINITE, negative)
            };
        }
        if q == INFINITE {
            return with_sign(0, negative);
        }
        if q == 0 {
            return if p == 0 {
                Scalar { bits: NAN_BITS }
            } else {
                with_sign(INFINITE, negative)
            };
        }
        let (m, x): (u64, u32) = parts(p);
        let (k, y): (u64, u32) = parts(q);
        let z: i32 = x as i32 + 149 - y as i32;
        let r: Scalar = nearest(negative, m as u128, k, z);
        proof {
            let n = units(self.magnitude()) * pow2(149);
            let d = units(other.magnitude());
            let (e, f, u) = (pow2(x as nat), pow2(y as nat), pow2(149));
            lemma_pow2_pos(x as nat);
            lemma_pow2_pos(y as nat);
            power_of_sum(x as nat, 149);
            assert(n == m * (e * u)) by (nonlinear_arith)
                requires
                    n == (m * e) * u,
            ;
            assert(d == k * f);
            assert(d > 0) by (nonlinear_arith)
                requires
                    d == k * f,
                    k > 0,
                    f > 0,
            ;
            if z >= 0 {
                power_of_sum(y as nat, z as nat);
                let g = pow2(z as nat);
                assert(n == (m * g) * f) by (nonlinear_arith)
                    requires
                        n == m * (e * u),
                        e * u == f * g,
                ;
                same_quotient(m as nat * g, k as nat, n, d, f);
                moved(negative, m as nat * g, k as nat, n, d, r);
            } else {
                power_of_sum((x + 149) as nat, (-z) as nat);
                let g = pow2((-z) as nat);
                let h = pow2((x + 149) as nat);
                assert(d == (k * g) * h) by (nonlinear_arith)
                    requires
                        d == k * f,
                        f == h * g,
                ;
                lemma_pow2_pos((-z) as nat);
                assert(k * g > 0) by (nonlinear_arith)
                    requires
                        k > 0,
                        g > 0,
                ;
                same_quotient(m as nat, k as nat * g, n, d, h);
                moved(negative, m as nat, k as nat * g, n, d, r);
            }
        }
        r
    }
}

/// A quotient does not change when both sides grow by a factor.
proof fn same_quotient(a: nat, b: nat, n: nat, d: nat, g: nat)
    requires
        b > 0,
        g > 0,
        n == a * g,
        d == b * g,
    ensures
        forall|p: nat| rounds_to(n, d, p) == rounds_to(a, b, p),
        d > 0,
{
    assert(d > 0) by (nonlinear_arith)
        requires
            d == b * g,
            b > 0,
            g > 0,
    ;
    assert forall|p: nat| #[trigger] rounds_down_to(n, d, p) == rounds_down_to(a, b, p) by {
        let w = middle(p);
        assert(2 * n == (2 * a) * g) by (nonlinear_arith)
            requires
                n == a * g,
        ;
        assert(w * d == (w * b) * g) by (nonlinear_arith)
            requires
                d == b * g,
        ;
        let (u, v) = (2 * a, w * b);
        assert(u * g < v * g <==> u < v) by (nonlinear_arith)
            requires
                g > 0,
        ;
        assert(u * g == v * g <==> u == v) by (nonlinear_arith)
            requires
                g > 0,
        ;
    }
    assert forall|p: nat| rounds_to(n, d, p) == rounds_to(a, b, p) by {
        assert(rounds_down_to(n, d, p) == rounds_down_to(a, b, p));
        if p > 0 {
            assert(rounds_down_to(n, d, (p - 1) as nat) == rounds_down_to(a, b, (p - 1) as nat));
        }
    }
}

proof fn moved(negative: bool, a: nat, b: nat, n: nat, d: nat, r: Scalar)
    requires
        b > 0,
        d > 0,
        r == nearest_to(negative, a, b),
        forall|p: nat| rounds_to(n, d, p) == rounds_to(a, b, p),
    ensures
        r == nearest_to(negative, n, d),
{
    nearest_exists(negative, a, b);
    assert(rounds_to(n, d, r.magnitude()));
    nearest_is_unique(negative, n, d, r);
}

/// A magnitude much nearer to a number than to its neighbours rounds to it.
proof fn near_rounds(x: nat, m: nat, n: nat)
    requires
        60 < x <= 253,
        STEP <= m < 2 * STEP,
        distance(n as int, (m * pow2(x)) as int) < pow2((x - 37) as nat),
    ensures
        rounds_to(n, 1, (x * STEP + m) as nat),
        units((x * STEP + m) as nat) == m * pow2(x),
        x * STEP + m < INFINITE,
{
    let e = pow2(x);
    let tiny = pow2((x - 37) as nat);
    lemma2_to64();
    lemma2_to64_rest();
    power_of_sum((x - 37) as nat, 37);
    assert(e == tiny * 0x20_0000_0000);
    pattern_units(x, m);
    pattern_units(x, m + 1);
    let p = (x * STEP + m) as nat;
    assert(p + 1 == x * STEP + (m + 1));
    let over = middle(p);
    assert(over == (2 * m + 1) * e) by (nonlinear_arith)
        requires
            over == m * e + (m + 1) * e,
    ;
    assert((2 * m + 1) * e == 2 * (m * e) + e) by (nonlinear_arith);
    assert(2 * n < over * 1);
    let below = (p - 1) as nat;
    if m > STEP {
        pattern_units(x, (m - 1) as nat);
        assert(below == x * STEP + (m - 1));
        let under = middle(below);
        assert(under == 2 * (m * e) - e) by (nonlinear_arith)
            requires
                under == (m - 1) * e + m * e,
        ;
        assert(!rounds_down_to(n, 1, below));
    } else {
        power_of_sum((x - 1) as nat, 1);
        let h = pow2((x - 1) as nat);
        pattern_units((x - 1) as nat, (2 * STEP - 1) as nat);
        assert(below == (x - 1) * STEP + (2 * STEP - 1));
        let under = middle(below);
        assert(under == 2 * (m * e) - h) by (nonlinear_arith)
            requires
                under == (2 * STEP - 1) * h + m * e,
                m == STEP,
                e == h * 2,
        ;
        assert(!rounds_down_to(n, 1, below));
    }
}

/// The exact value of a number taken apart.
pub open spec fn signed_value(negative: bool, m: nat, x: nat) -> int {
    if negative {
        -(m * pow2(x))
    } else {
        (m * pow2(x)) as int
    }
}

/// The sum of two numbers taken apart, the first with the larger exponent.
fn add_parts(
    neg: bool,
    m: u64,
    x: u32,
    other_neg: bool,
    k: u64,
    y: u32,
) -> (r: Scalar)
    requires
        y <= x <= 253,
        m < 2 * STEP,
        k < 2 * STEP,
        x > 0 ==> m >= STEP,
    ensures
        ({
            let v = signed_value(neg, m as nat, x as nat) + signed_value(
                other_neg,
                k as nat,
                y as nat,
            );
            v != 0 ==> r == nearest_to(v < 0, distance(v, 0), 1)
        }),
        ({
            let v = signed_value(neg, m as nat, x as nat) + signed_value(
                other_neg,
                k as nat,
                y as nat,
            );
            v == 0 ==> r == signed(0, neg && other_neg)
        }),
{
    let ghost e = pow2(x as nat);
    let ghost f = pow2(y as nat);
    let ghost v = signed_value(neg, m as nat, x as nat) + signed_value(
        other_neg,
        k as nat,
        y as nat,
    );
    proof {
        lemma_pow2_pos(x as nat);
        lemma_pow2_pos(y as nat);
    }
    if x - y > 60 {
        proof {
            if y < x - 61 {
                lemma_pow2_strictly_increases(y as nat, (x - 61) as nat);
            }
            let tiny = pow2((x - 37) as nat);
            power_of_sum((x - 61) as nat, 24);
            lemma2_to64();
            let low = pow2((x - 61) as nat);
            assert(k * f < tiny) by (nonlinear_arith)
                requires
                    k < 0x100_0000,
                    f <= low,
                    tiny == low * 0x100_0000,
                    low > 0,
            ;
            power_of_sum((x - 37) as nat, 37);
            lemma2_to64_rest();
            assert(m * e > k * f) by (nonlinear_arith)
                requires
                    m >= 1,
                    e == tiny * 0x20_0000_0000,
                    k * f < tiny,
            ;
            near_rounds(x as nat, m as nat, distance(v, 0));
        }
        let p: u32 = x * STEP + m as u32;
        let r = with_sign(p, neg);
        proof {
            nearest_is_unique(v < 0, distance(v, 0), 1, r);
        }
        return r;
    }
    let shift: u128 = power(x - y);
    proof {
        power_of_sum(y as nat, (x - y) as nat);
        lemma2_to64();
        lemma2_to64_rest();
        lemma_pow2_strictly_increases((x - y) as nat, 61);
        assert(m * shift < 0x20_0000_0000_0000_0000_0000) by (nonlinear_arith)
            requires
                m < 0x100_0000,
                shift <= 0x2000_0000_0000_0000,
        ;
        assert(m * e == (m * shift) * f) by (nonlinear_arith)
            requires
                e == f * shift,
        ;
    }
    let a: u128 = m as u128 * shift;
    let b: u128 = k as u128;
    if neg == other_neg {
        let s: u128 = a + b;
        assert(s * f == a * f + b * f) by (nonlinear_arith)
            requires
                s == a + b,
        ;
        sum_of(neg, s, y, neg)
    } else if a > b {
        let s: u128 = a - b;
        assert(s * f == a * f - b * f) by (nonlinear_arith)
            requires
                s == a - b,
        ;
        sum_of(neg, s, y, false)
    } else {
        let s: u128 = b - a;
        assert(s * f == b * f - a * f) by (nonlinear_arith)
            requires
                s == b - a,
        ;
        sum_of(other_neg, s, y, false)
    }
}

fn sum_of(negative: bool, s: u128, y: u32, zero_sign: bool) -> (r: Scalar)
    requires
        s < 0x1_0000_0000_0000_0000_0000_0000,
        y <= 253,
    ensures
        ({
            let v = signed_value(negative, s as nat, y as nat);
            v != 0 ==> r == nearest_to(v < 0, distance(v, 0), 1)
        }),
        signed_value(negative, s as nat, y as nat) == 0 ==> r == signed(0, zero_sign),
{
    proof {
        lemma_pow2_pos(y as nat);
        let f = pow2(y as nat);
        assert(s * f == 0 <==> s == 0) by (nonlinear_arith)
            requires
                f > 0,
                s >= 0,
        ;
        assert(s * f >= 0) by (nonlinear_arith)
            requires
                f > 0,
                s >= 0,
        ;
    }
    if s == 0 {
        return with_sign(0, zero_sign);
    }
    nearest(negative, s, 1, y as i32)
}

impl Scalar {
    /// `self + other`.
    pub fn plus(self, other: Scalar) -> (r: Scalar)
        ensures
            r == self.sum(other),
    {
        proof {
            reveal(Scalar::sum);
        }
        let p: u32 = self.get_magnitude();
        let q: u32 = other.get_magnitude();
        if p > INFINITE || q > INFINITE {
            return Scalar { bits: NAN_BITS };
        }
        if p == INFINITE {
            return if q == INFINITE && self.get_negative() != other.get_negative() {
                Scalar { bits: NAN_BITS }
            } else {
                self
            };
        }
        if q == INFINITE {
            return other;
        }
        let (m, x): (u64, u32) = parts(p);
        let (k, y): (u64, u32) = parts(q);
        proof {
            assert(self.value() == signed_value(self.negative(), m as nat, x as nat));
            assert(other.value() == signed_value(other.negative(), k as nat, y as nat));
        }
        if y <= x {
            add_parts(self.get_negative(), m, x, other.get_negative(), k, y)
        } else {
            add_parts(other.get_negative(), k, y, self.get_negative(), m, x)
        }
    }

    /// `self - other`.
    pub fn minus(self, other: Scalar) -> (r: Scalar)
        ensures
            r == self.difference(other),
    {
        self.plus(other.negate())
    }
}

// ── Whole numbers ────────────────────────────────────────────────────────────

pub open spec fn capped(n: nat, max: nat) -> nat {
    if n <= max {
        n
    } else {
        max
    }
}

impl Scalar {
    /// The whole part of `self * factor`, taken exactly; 0 for a number that is negative
    /// or not a number, and at most `max`.
    #[verifier::opaque]
    pub open spec fn whole_times(self, factor: nat, max: nat) -> nat {
        if self.is_nan() || self.negative() {
            0
        } else if self.is_infinite() {
            max
        } else {
            capped(units(self.magnitude()) * factor / pow2(149), max)
        }
    }

    /// The whole part of `self * factor`.
    pub fn floor_times(self, factor: u64, max: u64) -> (r: u64)
        requires
            0 < factor <= 0x2_0000,
        ensures
            r == self.whole_times(factor as nat, max as nat),
            r <= max,
    {
        proof {
            reveal(Scalar::whole_times);
        }
        let p: u32 = self.get_magnitude();
        if p > INFINITE || self.get_negative() {
            return 0;
        }
        if p == INFINITE {
            return max;
        }
        let (m, x): (u64, u32) = parts(p);
        assert(m * factor <= 0x200_0000_0000) by (nonlinear_arith)
            requires
                m < 0x100_0000,
                factor <= 0x2_0000,
        ;
        let product: u128 = m as u128 * factor as u128;
        let ghost e = pow2(x as nat) as int;
        let ghost d = pow2(149) as int;
        proof {
            lemma_pow2_pos(x as nat);
            lemma_pow2_pos(149);
            assert(units(p as nat) * factor == product * e) by (nonlinear_arith)
                requires
                    units(p as nat) == m * e,
                    product == m * factor,
            ;
            lemma2_to64();
            lemma2_to64_rest();
        }
        if x >= 149 {
            // Whole multiples of a power of two.
            if x >= 213 {
                proof {
                    assert(product >= 1) by (nonlinear_arith)
                        requires
                            product == m * factor,
                            m >= 1,
                            factor >= 1,
                    ;
                    power_of_sum(149, (x - 149) as nat);
                    let f = pow2((x - 149) as nat);
                    if x > 213 {
                        lemma_pow2_strictly_increases(64, (x - 149) as nat);
                    }
                    assert(product * e / d == product * f) by (nonlinear_arith)
                        requires
                            e == d * f,
                            d > 0,
                    ;
                    assert(product * f >= 0x1_0000_0000_0000_0000) by (nonlinear_arith)
                        requires
                            product >= 1,
                            f >= 0x1_0000_0000_0000_0000,
                    ;
                }
                return max;
            }
            let f: u128 = power(x - 149);
            proof {
                power_of_sum(149, (x - 149) as nat);
                lemma_pow2_strictly_increases((x - 149) as nat, 64);
                assert(product * e / d == product * f) by (nonlinear_arith)
                    requires
                        e == d * f,
                        d > 0,
                ;
                assert(product * f <= 0x200_0000_0000_0000_0000_0000_0000) by (nonlinear_arith)
                    requires
                        product <= 0x200_0000_0000,
                        f <= 0x1_0000_0000_0000_0000,
                ;
            }
            let n: u128 = product * f;
            return if n <= max as u128 {
                n as u64
            } else {
                max
            };
        }
        if x < 106 {
            proof {
                power_of_sum(x as nat, (149 - x) as nat);
                lemma_pow2_strictly_increases(43, (149 - x) as nat);
                let g = pow2((149 - x) as nat);
                assert(product * e < d) by (nonlinear_arith)
                    requires
                        d == e * g,
                        product < g,
                        e > 0,
                ;
                assert(product * e / d == 0) by (nonlinear_arith)
                    requires
                        0 <= product * e < d,
                ;
            }
            return 0;
        }
        let g: u128 = power(149 - x);
        proof {
            power_of_sum(x as nat, (149 - x) as nat);
            lemma_pow2_pos((149 - x) as nat);
            assert(product * e == e * product) by (nonlinear_arith);
            vstd::arithmetic::div_mod::lemma_div_denominator(product * e, e, g as int);
            vstd::arithmetic::div_mod::lemma_div_multiples_vanish(product as int, e);
        }
        let n: u128 = product / g;
        if n <= max as u128 {
            n as u64
        } else {
            max
        }
    }
}

/// The whole number `n`, rounded.
pub open spec fn whole(n: nat) -> Scalar {
    nearest_to(false, n * pow2(149), 1)
}

/// The whole number `n`.
pub fn from_whole(n: u64) -> (r: Scalar)
    ensures
        r == whole(n as nat),
{
    nearest(false, n as u128, 1, 149)
}

/// From here on every number is whole.
pub const ALL_WHOLE: u32 = 0x4b00_0000;

impl Scalar {
    /// The whole number that is nearest; the one farther from 0 in the middle of two.
    #[verifier::opaque]
    pub open spec fn rounded_off(self) -> Scalar {
        if self.magnitude() >= ALL_WHOLE {
            self
        } else {
            let n = (self.absolute().whole_times(2, u64::MAX as nat) + 1) as nat / 2;
            signed(whole(n).magnitude(), self.negative())
        }
    }

    /// The nearest whole number.
    pub fn round(self) -> (r: Scalar)
        ensures
            r == self.rounded_off(),
    {
        proof {
            reveal(Scalar::rounded_off);
        }
        let p: u32 = self.get_magnitude();
        if p >= ALL_WHOLE {
            return self;
        }
        let twice: u64 = self.abs().floor_times(2, u64::MAX);
        let n: u64 = twice / 2 + twice % 2;
        assert(n == (twice + 1) as nat / 2);
        with_sign(from_whole(n).get_magnitude(), self.get_negative())
    }
}

/// The decimal fraction 1000 thousandths is the number 1.
pub proof fn milli_one()
    ensures
        milli(1000) == (Scalar { bits: ONE_BITS }),
        units(ONE_BITS as nat) == pow2(149),
{
    let p = ONE_BITS as nat;
    lemma2_to64();
    power_of_sum(126, 23);
    let f = pow2(126);
    assert(units(p) == 0x80_0000 * f) by {
        assert(p / (STEP as nat) == 127);
        assert(p % (STEP as nat) == 0);
    }
    assert(units(p) == pow2(149)) by (nonlinear_arith)
        requires
            units(p) == 0x80_0000 * f,
            pow2(149) == f * 0x80_0000,
    ;
    units_grow(p, p + 1);
    units_grow((p - 1) as nat, p);
    let n = 1000 * pow2(149);
    let r = Scalar { bits: ONE_BITS };
    assert(distance(1000, 0) == 1000);
    assert(is_milli(1000, r));
    let other = milli(1000);
    assert(is_milli(1000, other));
    rounding_is_unique(n, 1000, r.magnitude(), other.magnitude());
    assert(r.bits == other.bits);
}

/// A number from 1 on has a whole part of at least 1.
pub proof fn whole_part_of_one(x: Scalar, max: nat)
    requires
        milli(1000).le(x),
        max >= 1,
    ensures
        x.whole_times(1, max) >= 1,
{
    reveal(Scalar::whole_times);
    milli_one();
    if x.is_finite() {
        let u = units(x.magnitude());
        let d = pow2(149);
        if x.magnitude() > ONE_BITS {
            units_grow(ONE_BITS as nat, x.magnitude());
        }
        lemma_pow2_pos(149);
        assert(u * 1 / d >= 1) by (nonlinear_arith)
            requires
                u >= d,
                d > 0,
        ;
    }
}

} // verus!
