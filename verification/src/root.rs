//! Square roots of single-precision numbers, rounded.
//!
//! The root of a number is the nearest number to the exact root. Over integers: the
//! exact root of `u` units lies below the half way mark over a pattern where `4 * u`,
//! counted in the square of the unit, is less than the square of twice the mark.

use vstd::prelude::*;
use vstd::arithmetic::power2::{lemma2_to64, lemma2_to64_rest, lemma_pow2_pos, pow2};

use crate::arithmetic::{nan, NAN_BITS};
use crate::rounding::{middle, parts, pattern_units, power_of_sum};
use crate::scalar::{units, units_grow, Scalar, INFINITE, STEP};

verus! {

/// The root of `u` units does not lie above the half way mark over the pattern `p`; on
/// the mark it goes to the even pattern.
pub open spec fn root_below(u: nat, p: nat) -> bool {
    4 * u * pow2(149) < middle(p) * middle(p) || (4 * u * pow2(149) == middle(p) * middle(p) && p
        % 2 == 0)
}

/// The root of `u` units is nearest to the magnitude with the pattern `p`.
pub open spec fn is_root(u: nat, p: nat) -> bool {
    &&& p < INFINITE
    &&& root_below(u, p)
    &&& p > 0 ==> !root_below(u, (p - 1) as nat)
}

pub open spec fn is_root_of(x: Scalar, r: Scalar) -> bool {
    !r.negative() && is_root(units(x.magnitude()), r.magnitude())
}

impl Scalar {
    /// The square root, rounded. A negative number has none.
    #[verifier::opaque]
    pub open spec fn root(self) -> Scalar {
        if self.is_nan() {
            nan()
        } else if self.is_zero() {
            self
        } else if self.negative() {
            nan()
        } else if self.is_infinite() {
            self
        } else {
            choose|r: Scalar| is_root_of(self, r)
        }
    }
}

proof fn squares_grow(a: nat, b: nat)
    by (nonlinear_arith)
    requires
        a < b,
    ensures
        a * a < b * b,
{
}

proof fn root_is_monotone(u: nat, p: nat, q: nat)
    requires
        p < q,
        root_below(u, p),
    ensures
        root_below(u, q),
{
    units_grow(p, q);
    units_grow(p + 1, q + 1);
    squares_grow(middle(p), middle(q));
}

/// A number has one root.
pub proof fn root_is_unique(u: nat, p: nat, q: nat)
    requires
        is_root(u, p),
        is_root(u, q),
    ensures
        p == q,
{
    if p < q {
        if p < q - 1 {
            root_is_monotone(u, p, (q - 1) as nat);
        }
    } else if q < p {
        if q < p - 1 {
            root_is_monotone(u, q, (p - 1) as nat);
        }
    }
}

proof fn root_is(x: Scalar, r: Scalar)
    requires
        x.is_finite(),
        !x.is_zero(),
        !x.negative(),
        is_root_of(x, r),
    ensures
        x.root() == r,
{
    reveal(Scalar::root);
    let s = choose|s: Scalar| is_root_of(x, s);
    root_is_unique(units(x.magnitude()), r.magnitude(), s.magnitude());
    assert(r.bits == r.magnitude() && s.bits == s.magnitude());
}

/// The whole part of the root of a number below 2 to the power of 48.
fn whole_root(n: u64) -> (q: u64)
    requires
        n < 0x1_0000_0000_0000,
    ensures
        q * q <= n < (q + 1) * (q + 1),
        q < 0x100_0000,
{
    let mut q: u64 = 0;
    let mut bit: u64 = 0x100_0000;
    proof {
        lemma2_to64();
        assert(bit == pow2(24));
        assert((0 + 0x100_0000) * (0 + 0x100_0000) == 0x1_0000_0000_0000) by (nonlinear_arith);
    }
    while bit > 1
        invariant
            n < 0x1_0000_0000_0000,
            1 <= bit <= 0x100_0000,
            q + bit <= 0x100_0000,
            q * q <= n < (q + bit) * (q + bit),
            exists|k: nat| k <= 24 && bit == #[trigger] pow2(k),
        decreases bit,
    {
        proof {
            let k = choose|k: nat| k <= 24 && bit == #[trigger] pow2(k);
            lemma2_to64();
            assert(k > 0);
            power_of_sum(1, (k - 1) as nat);
            if k > 1 {
                power_of_sum(1, (k - 2) as nat);
            }
            assert(bit == 2 * pow2((k - 1) as nat));
            assert(bit / 2 == pow2((k - 1) as nat));
        }
        let half: u64 = bit / 2;
        let next: u64 = q + half;
        assert(next * next < 0x1_0000_0000_0000_0000) by (nonlinear_arith)
            requires
                next <= 0x100_0000,
        ;
        if next * next <= n {
            q = next;
        }
        bit = half;
    }
    q
}

/// Rounding the root of `u` units to 24 bits: `a` is `u` scaled by an even power of two,
/// and `q` the whole part of its root.
proof fn root_rounds(u: nat, a: nat, y: nat, q: nat, m: nat)
    requires
        u * pow2(149) == a * (pow2(y) * pow2(y)),
        q * q <= a < (q + 1) * (q + 1),
        STEP <= q < 2 * STEP,
        y <= 250,
        m == (if a > q * q + q {
            q + 1
        } else {
            q
        }),
    ensures
        is_root(u, (y * STEP + m) as nat),
        y * STEP + m < INFINITE,
{
    let e = pow2(y);
    lemma_pow2_pos(y);
    let p = (y * STEP + m) as nat;
    pattern_units(y, m);
    let w: nat = if m < 2 * STEP {
        2 * m + 1
    } else {
        2 * m + 2
    };
    if m < 2 * STEP {
        pattern_units(y, m + 1);
        assert(m * e + (m + 1) * e == (2 * m + 1) * e) by (nonlinear_arith);
    } else {
        assert(p == (y + 1) * STEP + STEP);
        pattern_units(y + 1, (STEP + 1) as nat);
        power_of_sum(y, 1);
        lemma2_to64();
        assert(p + 1 == (y + 1) * STEP + (STEP + 1));
        assert((STEP + 1) * (e * 2) == (m + 2) * e) by (nonlinear_arith)
            requires
                m == 2 * STEP,
        ;
        assert(m * e + (m + 2) * e == (2 * m + 2) * e) by (nonlinear_arith);
    }
    let s = e * e;
    let over = middle(p);
    assert(4 * u * pow2(149) == (4 * a) * s) by (nonlinear_arith)
        requires
            u * pow2(149) == a * s,
    ;
    assert(over * over == (w * w) * s) by (nonlinear_arith)
        requires
            over == w * e,
            s == e * e,
    ;
    assert(s > 0) by (nonlinear_arith)
        requires
            s == e * e,
            e > 0,
    ;
    assert(4 * a < w * w) by (nonlinear_arith)
        requires
            w >= 2 * m + 1,
            a <= m * m + m,
    {
        assert(w * w >= (2 * m + 1) * (2 * m + 1));
        assert((2 * m + 1) * (2 * m + 1) == 4 * (m * m) + 4 * m + 1);
    }
    assert((4 * a) * s < (w * w) * s) by (nonlinear_arith)
        requires
            4 * a < w * w,
            s > 0,
    ;
    // And the mark below.
    let below = (p - 1) as nat;
    let under = middle(below);
    let v: nat = if m == q {
        2 * q
    } else {
        2 * q + 1
    };
    if m == q {
        units_grow(below, p);
        assert(2 * units(p) == v * e) by (nonlinear_arith)
            requires
                units(p) == m * e,
                v == 2 * m,
        ;
    } else {
        pattern_units(y, q);
        assert(below == y * STEP + q);
        assert(q * e + (q + 1) * e == (2 * q + 1) * e) by (nonlinear_arith);
    }
    assert(under <= v * e);
    assert(under * under <= (v * v) * s) by (nonlinear_arith)
        requires
            under <= v * e,
            s == e * e,
    {
        assert(under * under <= (v * e) * (v * e));
        assert((v * e) * (v * e) == (v * v) * s);
    }
    if m == q {
        squares_grow(under, v * e);
        assert((v * e) * (v * e) == (v * v) * s) by (nonlinear_arith)
            requires
                s == e * e,
        ;
        assert(v * v <= 4 * a) by (nonlinear_arith)
            requires
                v == 2 * q,
                q * q <= a,
        ;
        assert((v * v) * s <= (4 * a) * s) by (nonlinear_arith)
            requires
                v * v <= 4 * a,
                s > 0,
        ;
    } else {
        assert(v * v < 4 * a) by (nonlinear_arith)
            requires
                v == 2 * q + 1,
                a > q * q + q,
        ;
        assert((v * v) * s < (4 * a) * s) by (nonlinear_arith)
            requires
                v * v < 4 * a,
                s > 0,
        ;
    }
    assert(y * STEP + m < INFINITE) by (nonlinear_arith)
        requires
            y <= 250,
            m <= 2 * STEP,
            STEP == 0x80_0000,
            INFINITE == 0x7f80_0000,
    ;
}

impl Scalar {
    /// The square root.
    pub fn sqrt(self) -> (r: Scalar)
        ensures
            r == self.root(),
    {
        proof {
            reveal(Scalar::root);
        }
        let p: u32 = self.get_magnitude();
        if p > INFINITE {
            return Scalar { bits: NAN_BITS };
        }
        if p == 0 {
            return self;
        }
        if self.get_negative() {
            return Scalar { bits: NAN_BITS };
        }
        if p == INFINITE {
            return self;
        }
        let (m, x): (u64, u32) = parts(p);
        let ghost u = units(p as nat);
        // Scale by an even power of two, so that the root has 24 bits.
        let mut a: u64 = m;
        let mut s: u32 = 0;
        proof {
            units_grow(0, p as nat);
            lemma2_to64();
            assert(m > 0) by (nonlinear_arith)
                requires
                    m * pow2(x as nat) > 0,
            ;
            assert(a == m * pow2(0));
        }
        if x % 2 == 0 {
            a = 2 * m;
            s = 1;
            assert(a == m * pow2(1));
        }
        while a < 0x4000_0000_0000
            invariant
                0 < m,
                0 < a < 0x1_0000_0000_0000,
                a == m * pow2(s as nat),
                s <= 48,
                (x + s) % 2 == 1,
                a >= pow2(s as nat),
            decreases 0x1_0000_0000_0000 - a,
        {
            proof {
                power_of_sum(s as nat, 2);
                lemma2_to64();
                lemma2_to64_rest();
                let w = pow2(s as nat);
                assert(m * (w * 4) == 4 * (m * w)) by (nonlinear_arith);
                if s >= 46 {
                    vstd::arithmetic::power2::lemma_pow2_strictly_increases(45, s as nat);
                    assert(pow2(46) <= pow2(s as nat)) by {
                        if s > 46 {
                            vstd::arithmetic::power2::lemma_pow2_strictly_increases(46, s as nat);
                        }
                    }
                    assert(false);
                }
            }
            a = 4 * a;
            s = s + 2;
        }
        let y: u32 = (x + 149 - s) / 2;
        let q: u64 = whole_root(a);
        proof {
            assert(STEP <= q) by (nonlinear_arith)
                requires
                    a >= 0x4000_0000_0000,
                    a < (q + 1) * (q + 1),
                    STEP == 0x80_0000,
            ;
            // u * 2^149 == m * 2^(x + 149) == a * 2^(x + 149 - s).
            power_of_sum(x as nat, 149);
            power_of_sum(s as nat, (2 * y) as nat);
            power_of_sum(y as nat, y as nat);
            assert(x + 149 == s + 2 * y);
            let px = pow2(x as nat);
            let p149 = pow2(149);
            let ps = pow2(s as nat);
            let py = pow2(y as nat);
            assert(u * p149 == a * (py * py)) by (nonlinear_arith)
                requires
                    u == m * px,
                    px * p149 == ps * (py * py),
                    a == m * ps,
            ;
        }
        let m2: u64 = if a - q * q > q {
            q + 1
        } else {
            q
        };
        proof {
            root_rounds(u, a as nat, y as nat, q as nat, m2 as nat);
        }
        let r = Scalar { bits: y * STEP + m2 as u32 };
        proof {
            assert(r.bits < INFINITE);
            assert(r.magnitude() == r.bits && !r.negative());
            root_is(self, r);
        }
        r
    }
}

} // verus!
