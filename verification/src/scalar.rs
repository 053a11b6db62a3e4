//! Single-precision numbers held by their bit pattern.
//!
//! Volumes, times, samples and effect parameters are 32-bit IEEE 754 numbers. How two
//! of them compare can be read off the pattern: the top bit is the sign, and the other
//! 31 bits, taken as an integer, grow with the magnitude. What they add up and multiply
//! to is in [`crate::arithmetic`].

use vstd::prelude::*;
use vstd::arithmetic::power2::pow2;

verus! {

/// Patterns from here on carry a sign.
pub const SIGN: u32 = 0x8000_0000;

/// The magnitude pattern of infinity; larger ones are not numbers.
pub const INFINITE: u32 = 0x7f80_0000;

/// One significand step of an exponent.
pub const STEP: u32 = 0x0080_0000;

/// The pattern of 1.
pub const ONE_BITS: u32 = 0x3f80_0000;

/// A single-precision number, by its bit pattern.
#[derive(Clone, Copy, Debug, PartialEq, Eq, Structural)]
pub struct Scalar {
    pub bits: u32,
}

/// The value of a finite magnitude pattern, counted in units of 2 to the power
/// of -149, the smallest positive number.
pub open spec fn units(magnitude: nat) -> nat {
    let exponent = magnitude / (STEP as nat);
    let fraction = magnitude % (STEP as nat);
    if exponent == 0 {
        fraction
    } else {
        ((STEP + fraction) as nat) * pow2((exponent - 1) as nat)
    }
}

impl Scalar {
    pub open spec fn negative(self) -> bool {
        self.bits >= SIGN
    }

    /// The pattern without its sign.
    pub open spec fn magnitude(self) -> nat {
        (self.bits as nat) % (SIGN as nat)
    }

    pub open spec fn is_nan(self) -> bool {
        self.magnitude() > INFINITE
    }

    pub open spec fn is_finite(self) -> bool {
        self.magnitude() < INFINITE
    }

    /// The place of the number among all numbers: -0 and 0 share one.
    pub open spec fn place(self) -> int {
        if self.negative() {
            -self.magnitude()
        } else {
            self.magnitude() as int
        }
    }

    /// The value of a finite number, in the unit of [`units`].
    pub open spec fn value(self) -> int {
        if self.negative() {
            -units(self.magnitude())
        } else {
            units(self.magnitude()) as int
        }
    }

    /// `self < other`; false where one of them is not a number.
    pub open spec fn lt(self, other: Scalar) -> bool {
        !self.is_nan() && !other.is_nan() && self.place() < other.place()
    }

    /// `self <= other`; false where one of them is not a number.
    pub open spec fn le(self, other: Scalar) -> bool {
        !self.is_nan() && !other.is_nan() && self.place() <= other.place()
    }

    /// The larger of the two; the other one where one is not a number.
    pub open spec fn larger(self, other: Scalar) -> Scalar {
        if self.is_nan() {
            other
        } else if other.is_nan() || !self.lt(other) {
            self
        } else {
            other
        }
    }

    /// The smaller of the two; the other one where one is not a number.
    pub open spec fn smaller(self, other: Scalar) -> Scalar {
        if self.is_nan() {
            other
        } else if other.is_nan() || !other.lt(self) {
            self
        } else {
            other
        }
    }

    /// `self`, or the nearer end of `lo..=hi` where it lies outside.
    pub open spec fn clamped(self, lo: Scalar, hi: Scalar) -> Scalar {
        if self.lt(lo) {
            lo
        } else if hi.lt(self) {
            hi
        } else {
            self
        }
    }

    /// The number 0.
    pub fn zero() -> (r: Scalar)
        ensures
            r == (Scalar { bits: 0 }),
    {
        Scalar { bits: 0 }
    }

    /// The number 1.
    pub fn one() -> (r: Scalar)
        ensures
            r == (Scalar { bits: ONE_BITS }),
    {
        Scalar { bits: ONE_BITS }
    }

    pub(crate) fn get_magnitude(self) -> (r: u32)
        ensures
            r == self.magnitude(),
            r < SIGN,
    {
        self.bits % SIGN
    }

    pub(crate) fn get_negative(self) -> (r: bool)
        ensures
            r == self.negative(),
    {
        self.bits >= SIGN
    }

    /// Whether the pattern is not a number.
    pub fn not_a_number(self) -> (r: bool)
        ensures
            r == self.is_nan(),
    {
        self.get_magnitude() > INFINITE
    }

    fn get_place(self) -> (r: i64)
        ensures
            r == self.place(),
    {
        let m: i64 = self.get_magnitude() as i64;
        if self.get_negative() {
            -m
        } else {
            m
        }
    }

    /// Whether `self < other`.
    pub fn below(self, other: Scalar) -> (r: bool)
        ensures
            r == self.lt(other),
    {
        !self.not_a_number() && !other.not_a_number() && self.get_place() < other.get_place()
    }

    /// Whether `self <= other`.
    pub fn at_most(self, other: Scalar) -> (r: bool)
        ensures
            r == self.le(other),
    {
        !self.not_a_number() && !other.not_a_number() && self.get_place() <= other.get_place()
    }

    /// The larger of the two.
    pub fn max_with(self, other: Scalar) -> (r: Scalar)
        ensures
            r == self.larger(other),
    {
        if self.not_a_number() {
            other
        } else if other.not_a_number() || !self.below(other) {
            self
        } else {
            other
        }
    }

    /// The smaller of the two.
    pub fn min_with(self, other: Scalar) -> (r: Scalar)
        ensures
            r == self.smaller(other),
    {
        if self.not_a_number() {
            other
        } else if other.not_a_number() || !other.below(self) {
            self
        } else {
            other
        }
    }

    /// `self` brought into `lo..=hi`.
    pub fn clamp_to(self, lo: Scalar, hi: Scalar) -> (r: Scalar)
        requires
            lo.le(hi),
        ensures
            r == self.clamped(lo, hi),
    {
        if self.below(lo) {
            lo
        } else if hi.below(self) {
            hi
        } else {
            self
        }
    }
}

/// The smaller and the larger of two numbers are in order, unless neither is a
/// number.
pub proof fn smaller_is_at_most_larger(a: Scalar, b: Scalar)
    requires
        !a.is_nan() || !b.is_nan(),
    ensures
        a.smaller(b).le(a.larger(b)),
{
}

/// A clamped number lies in the range, and clamping it again changes nothing.
pub proof fn clamping_is_idempotent(x: Scalar, lo: Scalar, hi: Scalar)
    requires
        lo.le(hi),
        !x.is_nan(),
    ensures
        lo.le(x.clamped(lo, hi)),
        x.clamped(lo, hi).le(hi),
        x.clamped(lo, hi).clamped(lo, hi) == x.clamped(lo, hi),
{
}

proof fn units_step(p: nat)
    ensures
        units(p) < units(p + 1),
        p >= STEP ==> units(p) == ((STEP + p % (STEP as nat)) as nat) * pow2((p / (STEP as nat)
            - 1) as nat),
{
    let s = STEP as nat;
    let e = p / s;
    let f = p % s;
    assert(p == e * s + f);
    if f + 1 < s {
        assert((p + 1) / s == e && (p + 1) % s == f + 1) by (nonlinear_arith)
            requires
                p == e * s + f,
                f + 1 < s,
                s == 0x80_0000,
        ;
        if e > 0 {
            vstd::arithmetic::power2::lemma_pow2_pos((e - 1) as nat);
            let w = pow2((e - 1) as nat);
            assert((s + f + 1) * w == (s + f) * w + w) by (nonlinear_arith);
        }
    } else {
        assert((p + 1) / s == e + 1 && (p + 1) % s == 0) by (nonlinear_arith)
            requires
                p == e * s + f,
                f + 1 == s,
                s == 0x80_0000,
        ;
        if e == 0 {
            vstd::arithmetic::power2::lemma2_to64();
            assert(s * pow2(0) == s);
        } else {
            vstd::arithmetic::power2::lemma_pow2_pos((e - 1) as nat);
            vstd::arithmetic::power2::lemma_pow2_unfold(e);
            let w = pow2((e - 1) as nat);
            assert(s * (2 * w) == (s + f) * w + w) by (nonlinear_arith)
                requires
                    f + 1 == s,
            ;
            assert(pow2(e) == 2 * w);
        }
    }
}

/// A larger magnitude pattern has the larger value.
pub proof fn units_grow(p: nat, q: nat)
    requires
        p < q,
    ensures
        units(p) < units(q),
    decreases q - p,
{
    units_step(p);
    if p + 1 < q {
        units_grow(p + 1, q);
    }
}

/// Comparing patterns compares the numbers that they stand for.
pub proof fn order_is_numeric(a: Scalar, b: Scalar)
    requires
        a.is_finite(),
        b.is_finite(),
    ensures
        a.lt(b) <==> a.value() < b.value(),
        a.le(b) <==> a.value() <= b.value(),
{
    let p = a.magnitude();
    let q = b.magnitude();
    assert(units(0) == 0);
    if p < q {
        units_grow(p, q);
    }
    if q < p {
        units_grow(q, p);
    }
    if 0 < p {
        units_grow(0, p);
    }
    if 0 < q {
        units_grow(0, q);
    }
}

} // verus!
