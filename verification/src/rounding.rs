//! Single-precision arithmetic by exact integers.
//!
//! An arithmetic operation on single-precision numbers takes the exact result and
//! rounds it to the nearest number, ties to the one with the even pattern. This
//! module states that over integers, and decides with it the two things that the
//! crate needs to know: whether two settings are the same up to what a slider
//! loses on the way (`|v - w| <= 1e-6 * max(|v|, 1)`), and which number a
//! percentage stands for.

use vstd::prelude::*;
use vstd::arithmetic::power2::{lemma2_to64, lemma2_to64_rest, lemma_pow2_adds, lemma_pow2_pos, lemma_pow2_strictly_increases, pow2};

use crate::scalar::{units, Scalar, INFINITE, ONE_BITS, STEP};
use crate::scalar::units_grow;

verus! {

/// The significand of 1e-6 in single precision: 1e-6 is this many units of 2 to
/// the power of -43.
pub const MILLIONTH: u64 = 0x86_37bd;

/// Twice the value half way between a magnitude pattern and the next.
pub open spec fn middle(p: nat) -> nat {
    units(p) + units(p + 1)
}

/// The magnitude `n / d`, in the unit of [`units`], does not lie above the half
/// way mark over `p`; on the mark it goes to the even pattern.
pub open spec fn rounds_down_to(n: nat, d: nat, p: nat) -> bool {
    p >= INFINITE || 2 * n < middle(p) * d || (2 * n == middle(p) * d && p % 2 == 0)
}

/// The magnitude `n / d`, in the unit of [`units`], is nearest to the one with
/// pattern `p`; half way, the even pattern is taken, and beyond the largest
/// finite number the pattern is that of infinity.
pub open spec fn rounds_to(n: nat, d: nat, p: nat) -> bool {
    &&& p <= INFINITE
    &&& rounds_down_to(n, d, p)
    &&& p > 0 ==> !rounds_down_to(n, d, (p - 1) as nat)
}

pub open spec fn distance(a: int, b: int) -> nat {
    if a < b {
        (b - a) as nat
    } else {
        (a - b) as nat
    }
}

/// The larger of the magnitude of `v` and 1.
pub open spec fn scale_of(v: Scalar) -> nat {
    if v.magnitude() < ONE_BITS {
        ONE_BITS as nat
    } else {
        v.magnitude()
    }
}

/// The pattern of `|v - w|`.
pub open spec fn difference_rounds_to(v: Scalar, w: Scalar, p: nat) -> bool {
    rounds_to(distance(v.value(), w.value()), 1, p)
}

/// The pattern of `1e-6 * max(|v|, 1)`.
pub open spec fn allowance_rounds_to(v: Scalar, p: nat) -> bool {
    rounds_to(MILLIONTH as nat * units(scale_of(v)), pow2(43), p)
}

/// `|v - w| <= 1e-6 * max(|v|, 1)` in single-precision arithmetic.
pub open spec fn close(v: Scalar, w: Scalar) -> bool {
    if v.is_nan() || w.is_nan() {
        false
    } else if !v.is_finite() {
        // Infinity less itself is not a number; less anything else it is infinite,
        // and so is the allowance.
        v.place() != w.place()
    } else if !w.is_finite() {
        false
    } else {
        exists|d: nat, t: nat|
            #![trigger difference_rounds_to(v, w, d), allowance_rounds_to(v, t)]
            difference_rounds_to(v, w, d) && allowance_rounds_to(v, t) && d <= t
    }
}

proof fn middle_grows(p: nat, q: nat)
    requires
        p < q,
    ensures
        middle(p) < middle(q),
{
    units_grow(p, q);
    units_grow(p + 1, q + 1);
}

proof fn rounding_is_monotone(n: nat, d: nat, p: nat, q: nat)
    requires
        d > 0,
        p < q,
        rounds_down_to(n, d, p),
    ensures
        rounds_down_to(n, d, q),
{
    if q < INFINITE {
        middle_grows(p, q);
        let a = middle(p);
        let b = middle(q);
        assert(a * d < b * d) by (nonlinear_arith)
            requires
                a < b,
                d > 0,
        ;
    }
}

/// A magnitude rounds to one pattern.
pub proof fn rounding_is_unique(n: nat, d: nat, p: nat, q: nat)
    requires
        d > 0,
        rounds_to(n, d, p),
        rounds_to(n, d, q),
    ensures
        p == q,
{
    if p < q {
        if p < q - 1 {
            rounding_is_monotone(n, d, p, (q - 1) as nat);
        }
    } else if q < p {
        if q < p - 1 {
            rounding_is_monotone(n, d, q, (p - 1) as nat);
        }
    }
}

/// Every magnitude rounds to some pattern, at most `q` if it does not lie above
/// the mark over `q`.
pub proof fn rounding_exists(n: nat, d: nat, q: nat) -> (p: nat)
    requires
        d > 0,
        q <= INFINITE,
        rounds_down_to(n, d, q),
    ensures
        p <= q,
        rounds_to(n, d, p),
    decreases q,
{
    if q > 0 && rounds_down_to(n, d, (q - 1) as nat) {
        rounding_exists(n, d, (q - 1) as nat)
    } else {
        q
    }
}

/// With the allowance known, closeness is one comparison of exact integers.
proof fn close_by_mark(v: Scalar, w: Scalar, t: nat)
    requires
        v.is_finite(),
        w.is_finite(),
        allowance_rounds_to(v, t),
    ensures
        close(v, w) == rounds_down_to(distance(v.value(), w.value()), 1, t),
{
    let n = distance(v.value(), w.value());
    lemma_pow2_pos(43);
    if rounds_down_to(n, 1, t) {
        let d = rounding_exists(n, 1, t);
        assert(difference_rounds_to(v, w, d) && allowance_rounds_to(v, t) && d <= t);
    }
    if close(v, w) {
        let (d, u) = choose|d: nat, u: nat|
            #![trigger difference_rounds_to(v, w, d), allowance_rounds_to(v, u)]
            difference_rounds_to(v, w, d) && allowance_rounds_to(v, u) && d <= u;
        rounding_is_unique(MILLIONTH as nat * units(scale_of(v)), pow2(43), t, u);
        if d < t {
            rounding_is_monotone(n, 1, d, t);
        }
    }
}

// ── Patterns and powers of two ───────────────────────────────────────────────

pub(crate) proof fn power_of_sum(a: nat, b: nat)
    ensures
        pow2(a + b) == pow2(a) * pow2(b),
        pow2(a) > 0,
        pow2(b) > 0,
{
    lemma_pow2_adds(a, b);
    lemma_pow2_pos(a);
    lemma_pow2_pos(b);
}

/// A significand of 24 bits and its exponent, put together as a pattern.
pub(crate) proof fn pattern_units(x: nat, m: nat)
    requires
        STEP <= m <= 2 * STEP,
    ensures
        units((x * STEP + m) as nat) == m * pow2(x),
{
    let s = STEP as nat;
    let p = (x * s + m) as nat;
    let f = (m - s) as nat;
    if f < s {
        assert(p / s == x + 1 && p % s == f) by (nonlinear_arith)
            requires
                p == x * s + s + f,
                f < s,
                s == 0x80_0000,
        ;
    } else {
        assert(p / s == x + 2 && p % s == 0) by (nonlinear_arith)
            requires
                p == x * s + s + s,
                s == 0x80_0000,
        ;
        power_of_sum(x, 1);
        lemma2_to64();
        let e = pow2(x);
        assert(s * (e * 2) == (2 * s) * e) by (nonlinear_arith);
    }
}

/// A magnitude pattern taken apart: its significand and exponent.
pub(crate) fn parts(p: u32) -> (r: (u64, u32))
    requires
        p < INFINITE,
    ensures
        units(p as nat) == r.0 * pow2(r.1 as nat),
        r.0 < 2 * STEP,
        r.1 <= 253,
        p < STEP ==> r.0 == p && r.1 == 0,
        p >= STEP ==> r.0 == STEP + p % STEP && r.1 == p / STEP - 1,
{
    let e: u32 = p / STEP;
    let f: u32 = p % STEP;
    if e == 0 {
        proof {
            lemma2_to64();
            assert(f * pow2(0) == f);
        }
        (f as u64, 0)
    } else {
        ((STEP + f) as u64, e - 1)
    }
}

pub(crate) fn power(k: u32) -> (r: u128)
    requires
        k <= 127,
    ensures
        r == pow2(k as nat),
{
    let mut r: u128 = 1;
    let mut i: u32 = 0;
    proof {
        lemma2_to64();
    }
    while i < k
        invariant
            i <= k <= 127,
            r == pow2(i as nat),
        decreases k - i,
    {
        proof {
            power_of_sum(i as nat, 1);
            power_of_sum(64, 63);
            lemma2_to64();
            lemma2_to64_rest();
            let a = pow2(64);
            let b = pow2(63);
            assert(a * b == 0x8000_0000_0000_0000_0000_0000_0000_0000) by (nonlinear_arith)
                requires
                    a == 0x1_0000_0000_0000_0000,
                    b == 0x8000_0000_0000_0000,
            ;
            if i < 126 {
                lemma_pow2_strictly_increases((i + 1) as nat, 127);
            }
        }
        r = r * 2;
        i = i + 1;
    }
    r
}

// ── The allowance ────────────────────────────────────────────────────────────

/// The product of the significands, cut down to 24 bits and rounded, is the
/// significand of the allowance.
pub open spec fn rounded_product(product: int, h: int) -> int {
    let q = product / h;
    let r = product % h;
    if 2 * r > h || (2 * r == h && q % 2 == 1) {
        q + 1
    } else {
        q
    }
}

proof fn scaled_order(a: int, b: int, e: int)
    by (nonlinear_arith)
    requires
        e > 0,
    ensures
        a * e < b * e <==> a < b,
        a * e == b * e <==> a == b,
{
}

/// Rounding `n / d` to 24 bits: `a / b` is the same quotient counted in units of
/// the last place.
pub(crate) proof fn quotient_rounds(n: nat, d: nat, x: nat, a: nat, b: nat, g: nat, m: nat)
    requires
        g > 0,
        b > 0,
        d > 0,
        x <= 253,
        n == a * g,
        pow2(x) * d == b * g,
        STEP * b <= a < 2 * STEP * b,
        m == rounded_product(a as int, b as int),
    ensures
        STEP <= m <= 2 * STEP,
        rounds_to(n, d, (x * STEP + m) as nat),
        x <= 252 ==> x * STEP + m < INFINITE,
        middle((x * STEP + m) as nat) == (if m < 2 * STEP {
            2 * m + 1
        } else {
            2 * m + 2
        }) * pow2(x),
{
    let q = a as int / b as int;
    let r = a as int % b as int;
    assert(a == q * b + r && 0 <= r < b && STEP <= q < 2 * STEP) by (nonlinear_arith)
        requires
            b > 0,
            q == a as int / b as int,
            r == a as int % b as int,
            STEP * b <= a < 2 * STEP * b,
    ;
    let t = (x * STEP + m) as nat;
    let e = pow2(x);
    lemma_pow2_pos(x);
    // The marks around the pattern.
    pattern_units(x, m);
    if m < 2 * STEP {
        pattern_units(x, m + 1);
        assert(m * e + (m + 1) * e == (2 * m + 1) * e) by (nonlinear_arith);
    } else {
        assert(t == (x + 1) * STEP + STEP);
        pattern_units(x + 1, (STEP + 1) as nat);
        power_of_sum(x, 1);
        lemma2_to64();
        assert(t + 1 == (x + 1) * STEP + (STEP + 1));
        assert((STEP + 1) * (e * 2) == (m + 2) * e) by (nonlinear_arith)
            requires
                m == 2 * STEP,
        ;
        assert(m * e + (m + 2) * e == (2 * m + 2) * e) by (nonlinear_arith);
    }
    let over = middle(t);
    let w: int = if m < 2 * STEP { 2 * m as int + 1 } else { 2 * m as int + 2 };
    assert(over * d == (w * b) * g) by (nonlinear_arith)
        requires
            over == w * e,
            e * d == b * g,
    ;
    assert(2 * n == (2 * a) * g) by (nonlinear_arith)
        requires
            n == a * g,
    ;
    scaled_order(2 * a as int, w * b, g as int);
    assert(w * b >= (2 * m + 1) * b) by (nonlinear_arith)
        requires
            w >= 2 * m + 1,
            b > 0,
    ;
    assert((2 * m + 1) * b == 2 * (m * b) + b) by (nonlinear_arith);
    assert(t % 2 == m % 2) by {
        assert(x * STEP == 2 * (x * 0x40_0000)) by (nonlinear_arith)
            requires
                STEP == 0x80_0000,
        ;
    }
    if m == q {
        assert(m * b == q * b);
    } else {
        assert(m * b == q * b + b) by (nonlinear_arith)
            requires
                m == q + 1,
        ;
    }
    assert(rounds_down_to(n, d, t));
    // And the mark below.
    let below = (t - 1) as nat;
    if m == q {
        units_grow(below, t);
        let under = middle(below);
        let top = 2 * units(t);
        assert(under * d < top * d) by (nonlinear_arith)
            requires
                under < top,
                d > 0,
        ;
        assert(top * d == ((2 * m) * b) * g) by (nonlinear_arith)
            requires
                top == 2 * (m * e),
                e * d == b * g,
        ;
        assert((2 * m) * b == 2 * (q * b)) by (nonlinear_arith)
            requires
                m == q,
        ;
        if (2 * m) * b < 2 * a {
            scaled_order((2 * m) as int * b, 2 * a as int, g as int);
        }
    } else {
        pattern_units(x, q as nat);
        assert(below == x * STEP + q);
        let under = middle(below);
        assert(under == (2 * q + 1) * e) by (nonlinear_arith)
            requires
                under == q * e + m * e,
                m == q + 1,
        ;
        assert(under * d == ((2 * q + 1) * b) * g) by (nonlinear_arith)
            requires
                under == (2 * q + 1) * e,
                e * d == b * g,
        ;
        scaled_order(2 * a as int, (2 * q + 1) * b, g as int);
        assert((2 * q + 1) * b == 2 * (q * b) + b) by (nonlinear_arith);
    }
}

proof fn product_rounds(x: nat, product: nat, hb: nat, m: nat)
    requires
        126 <= x <= 253,
        (hb == 23 && 0x4000_0000_0000 <= product < 0x8000_0000_0000) || (hb == 24
            && 0x8000_0000_0000 <= product < 0x1_0000_0000_0000),
        m == rounded_product(product as int, pow2(hb) as int),
    ensures
        STEP <= m <= 2 * STEP,
        rounds_to(product * pow2(x), pow2(43), ((x + hb - 43) * STEP + m) as nat),
        (x + hb - 43) * STEP + m < INFINITE,
        middle(((x + hb - 43) * STEP + m) as nat) == (if m < 2 * STEP {
            2 * m + 1
        } else {
            2 * m + 2
        }) * pow2((x + hb - 43) as nat),
{
    lemma2_to64();
    let xt = (x + hb - 43) as nat;
    power_of_sum(xt, 43);
    power_of_sum(x, hb);
    assert(pow2(xt) * pow2(43) == pow2(hb) * pow2(x)) by (nonlinear_arith)
        requires
            pow2(x + hb) == pow2(x) * pow2(hb),
            pow2(x + hb) == pow2(xt) * pow2(43),
    ;
    quotient_rounds(product * pow2(x), pow2(43), xt, product, pow2(hb), pow2(x), m);
}

// ── Deciding closeness ───────────────────────────────────────────────────────

/// `|±a ± b|` for two magnitudes.
pub open spec fn gap(a: int, b: int, same_sign: bool) -> int {
    if !same_sign {
        a + b
    } else if a < b {
        b - a
    } else {
        a - b
    }
}

proof fn distance_is_gap(v: Scalar, w: Scalar)
    ensures
        distance(v.value(), w.value()) == gap(
            units(v.magnitude()) as int,
            units(w.magnitude()) as int,
            v.negative() == w.negative(),
        ),
{
}

/// What closeness comes to for a magnitude of at least 1, counted in units of the
/// last place of the allowance.
proof fn mark_of(v: Scalar, w: Scalar, mv: nat, xv: nat, k: nat, m: nat)
    requires
        v.is_finite(),
        w.is_finite(),
        v.magnitude() >= ONE_BITS,
        units(v.magnitude()) == mv * pow2(xv),
        126 <= xv <= 253,
        (k == 20 && 0x4000_0000_0000 <= MILLIONTH * mv < 0x8000_0000_0000) || (k == 19
            && 0x8000_0000_0000 <= MILLIONTH * mv < 0x1_0000_0000_0000),
        m == rounded_product(MILLIONTH * mv, pow2((43 - k) as nat) as int),
    ensures
        STEP <= m <= 2 * STEP,
        close(v, w) == ({
            let apart = 2 * gap(
                units(v.magnitude()) as int,
                units(w.magnitude()) as int,
                v.negative() == w.negative(),
            );
            let mark = (if m < 2 * STEP {
                2 * m as int + 1
            } else {
                2 * m as int + 2
            }) * pow2((xv - k) as nat);
            apart < mark || (apart == mark && m % 2 == 0)
        }),
{
    let hb = (43 - k) as nat;
    let product = MILLIONTH as nat * mv;
    let xt = (xv - k) as nat;
    let t = (xt * STEP + m) as nat;
    product_rounds(xv, product, hb, m);
    let f = pow2(xv);
    assert(MILLIONTH * (mv * f) == product * f) by (nonlinear_arith)
        requires
            product == MILLIONTH * mv,
    ;
    assert(allowance_rounds_to(v, t));
    close_by_mark(v, w, t);
    distance_is_gap(v, w);
    assert(t % 2 == m % 2) by {
        assert(xt * STEP == 2 * (xt * 0x40_0000)) by (nonlinear_arith)
            requires
                STEP == 0x80_0000,
        ;
    }
}

proof fn much_smaller(xv: nat, xw: nat, mw: nat, k: nat)
    requires
        xw + 4 <= xv,
        mw < 0x100_0000,
        4 <= k <= xv,
    ensures
        mw * pow2(xw) <= (0x10_0000 * pow2(k)) * pow2((xv - k) as nat),
{
    let small = pow2(xw);
    let limit = pow2((xv - 4) as nat);
    if xw < xv - 4 {
        lemma_pow2_strictly_increases(xw, (xv - 4) as nat);
    }
    lemma2_to64();
    power_of_sum((xv - 4) as nat, 4);
    power_of_sum((xv - k) as nat, k);
    let grown = pow2(k);
    let e = pow2((xv - k) as nat);
    assert(mw * small <= 0x100_0000 * limit) by (nonlinear_arith)
        requires
            mw < 0x100_0000,
            small <= limit,
    ;
    assert(0x100_0000 * limit == (0x10_0000 * grown) * e) by (nonlinear_arith)
        requires
            limit * 16 == e * grown,
    ;
}

proof fn much_larger(xv: nat, xw: nat, mw: nat, k: nat)
    requires
        xv + 3 <= xw,
        mw >= 0x80_0000,
        k <= xv,
    ensures
        mw * pow2(xw) >= (0x400_0000 * pow2(k)) * pow2((xv - k) as nat),
{
    let large = pow2(xw);
    let limit = pow2(xv + 3);
    if xw > xv + 3 {
        lemma_pow2_strictly_increases(xv + 3, xw);
    }
    lemma2_to64();
    power_of_sum(xv, 3);
    power_of_sum((xv - k) as nat, k);
    let grown = pow2(k);
    let e = pow2((xv - k) as nat);
    assert(mw * large >= 0x80_0000 * limit) by (nonlinear_arith)
        requires
            mw >= 0x80_0000,
            large >= limit,
            limit >= 0,
    ;
    assert(0x80_0000 * limit == (0x400_0000 * grown) * e) by (nonlinear_arith)
        requires
            limit == e * grown * 8,
    ;
}

/// Magnitudes `a * e` and about `b * e` with a gap of more than half the mark.
proof fn beyond_mark(x: int, y: int, a: int, b: int, e: int, mark: int)
    requires
        e > 0,
        2 * (a - b) > mark >= 0,
        x >= a * e,
        y <= b * e,
    ensures
        x > y,
        2 * (x - y) > mark * e,
{
    assert(2 * (a * e - b * e) == (2 * (a - b)) * e) by (nonlinear_arith);
    scaled_order(mark, 2 * (a - b), e);
    assert(mark * e >= 0) by (nonlinear_arith)
        requires
            mark >= 0,
            e > 0,
    ;
}

/// The case of a magnitude of at least 1: the allowance grows with it.
fn close_large(v: Scalar, w: Scalar) -> (r: bool)
    requires
        v.is_finite(),
        w.is_finite(),
        v.magnitude() >= ONE_BITS,
    ensures
        r == close(v, w),
{
    let same: bool = v.get_negative() == w.get_negative();
    let (mv, xv): (u64, u32) = parts(v.get_magnitude());
    let (mw, xw): (u64, u32) = parts(w.get_magnitude());
    assert(MILLIONTH * mv < 0x1_0000_0000_0000 && MILLIONTH * mv >= 0x4000_0000_0000)
        by (nonlinear_arith)
        requires
            MILLIONTH == 0x86_37bd,
            0x80_0000 <= mv < 0x100_0000,
    ;
    let product: u64 = MILLIONTH * mv;
    let (h, k, grown): (u64, u32, u64) = if product < 0x8000_0000_0000 {
        (0x80_0000, 20, 0x10_0000)
    } else {
        (0x100_0000, 19, 0x8_0000)
    };
    let q: u64 = product / h;
    let rest: u64 = product % h;
    assert(q <= 0x8000_0000_0000 && rest < h) by (nonlinear_arith)
        requires
            q == product / h,
            rest == product % h,
            h >= 0x80_0000,
            product < 0x1_0000_0000_0000,
    ;
    let m: u64 = if 2 * rest > h || (2 * rest == h && q % 2 == 1) {
        q + 1
    } else {
        q
    };
    let ghost e = pow2((xv - k) as nat) as int;
    proof {
        lemma2_to64();
        assert(h == pow2((43 - k) as nat));
        assert(grown == pow2(k as nat));
        mark_of(v, w, mv as nat, xv as nat, k as nat, m as nat);
        power_of_sum((xv - k) as nat, k as nat);
        assert(mv * (e * grown) == (mv * grown) * e) by (nonlinear_arith);
    }
    let mark: u64 = if m < 2 * STEP as u64 {
        2 * m + 1
    } else {
        2 * m + 2
    };
    assert(0x80_0000 * grown <= mv * grown <= 0x100_0000 * grown) by (nonlinear_arith)
        requires
            0x80_0000 <= mv < 0x100_0000,
    ;
    let a: u64 = mv * grown;
    if xw + 3 < xv {
        proof {
            much_smaller(xv as nat, xw as nat, mw as nat, k as nat);
            beyond_mark(
                units(v.magnitude()) as int,
                units(w.magnitude()) as int,
                a as int,
                0x10_0000 * grown,
                e,
                mark as int,
            );
        }
        return false;
    }
    if xw > xv + 2 {
        proof {
            much_larger(xv as nat, xw as nat, mw as nat, k as nat);
            beyond_mark(
                units(w.magnitude()) as int,
                units(v.magnitude()) as int,
                0x400_0000 * grown,
                a as int,
                e,
                mark as int,
            );
        }
        return false;
    }
    let shift: u32 = xw + k - xv;
    let wide: u64 = power(shift) as u64;
    proof {
        power_of_sum((xv - k) as nat, shift as nat);
        lemma_pow2_strictly_increases(shift as nat, 23);
        assert(mw * (e * wide) == (mw * wide) * e) by (nonlinear_arith);
        assert(mw * wide < 0x8000_0000_0000) by (nonlinear_arith)
            requires
                mw < 0x100_0000,
                wide <= 0x80_0000,
        ;
    }
    let b: u64 = mw * wide;
    let apart: u64 = if !same {
        a + b
    } else if a < b {
        b - a
    } else {
        a - b
    };
    proof {
        let d = gap(units(v.magnitude()) as int, units(w.magnitude()) as int, same);
        assert(d == apart * e) by {
            scaled_order(a as int, b as int, e);
            assert((a + b) * e == a * e + b * e) by (nonlinear_arith);
            assert((b - a) * e == b * e - a * e) by (nonlinear_arith);
            assert((a - b) * e == a * e - b * e) by (nonlinear_arith);
        }
        assert(2 * d == (2 * apart) * e) by (nonlinear_arith)
            requires
                d == apart * e,
        ;
        scaled_order(2 * apart as int, mark as int, e);
    }
    2 * apart < mark || (2 * apart == mark && m % 2 == 0)
}

/// 2 to the power of 66.
pub const CHUNK: u128 = 0x4_0000_0000_0000_0000;

proof fn chunk_is_a_power()
    ensures
        pow2(66) == CHUNK,
{
    lemma2_to64();
    power_of_sum(64, 2);
}

/// A magnitude below 2, as whole multiples of [`CHUNK`] and a rest.
fn split(m: u64, x: u32) -> (r: (u128, u128))
    requires
        m < 2 * STEP,
        x <= 126,
    ensures
        r.0 * CHUNK + r.1 == m * pow2(x as nat),
        r.1 < CHUNK,
        r.0 < 0x1_0000_0000_0000_0000_0000_0000,
{
    proof {
        chunk_is_a_power();
        lemma2_to64();
        lemma2_to64_rest();
    }
    if x >= 66 {
        let p: u128 = power(x - 66);
        proof {
            power_of_sum((x - 66) as nat, 66);
            if x < 126 {
                lemma_pow2_strictly_increases((x - 66) as nat, 60);
            }
            assert(m * p < 0x1_0000_0000_0000_0000_0000_0000) by (nonlinear_arith)
                requires
                    m < 0x100_0000,
                    p <= 0x1000_0000_0000_0000,
            ;
            assert(m * (p * CHUNK) == (m * p) * CHUNK) by (nonlinear_arith);
        }
        (m as u128 * p, 0)
    } else {
        let p: u128 = power(x);
        proof {
            if x < 65 {
                lemma_pow2_strictly_increases(x as nat, 66);
            }
            lemma_pow2_strictly_increases(x as nat, 66);
            assert(m * p < 0x400_0000_0000_0000_0000_0000_0000) by (nonlinear_arith)
                requires
                    m < 0x100_0000,
                    p <= 0x4_0000_0000_0000_0000,
            ;
        }
        let n: u128 = m as u128 * p;
        (n / CHUNK, n % CHUNK)
    }
}

/// The mark for magnitudes below 1, in multiples of [`CHUNK`].
pub const SMALL_MARK: u128 = 0x10c_6f7b * 0x80_0000_0000;

proof fn whole_multiples(n: int, q: int, r: int, k: int)
    by (nonlinear_arith)
    requires
        n == q * CHUNK + r,
        0 <= r < CHUNK,
    ensures
        n < k * CHUNK <==> q < k,
{
}

/// The case of a magnitude below 1: the allowance is 1e-6.
fn close_small(v: Scalar, w: Scalar) -> (r: bool)
    requires
        v.is_finite(),
        w.is_finite(),
        v.magnitude() < ONE_BITS,
    ensures
        r == close(v, w),
{
    let same: bool = v.get_negative() == w.get_negative();
    let pv: u32 = v.get_magnitude();
    let pw: u32 = w.get_magnitude();
    let (mv, xv): (u64, u32) = parts(pv);
    let (mw, xw): (u64, u32) = parts(pw);
    let ghost d = gap(units(v.magnitude()) as int, units(w.magnitude()) as int, same);
    proof {
        lemma2_to64();
        chunk_is_a_power();
        let f = pow2(126);
        let product = (MILLIONTH * STEP) as nat;
        product_rounds(126, product, 23, MILLIONTH as nat);
        assert(units(ONE_BITS as nat) == STEP * f);
        assert(MILLIONTH * (STEP * f) == product * f) by (nonlinear_arith)
            requires
                product == MILLIONTH * STEP,
        ;
        let t = (106 * STEP + MILLIONTH) as nat;
        assert(allowance_rounds_to(v, t));
        close_by_mark(v, w, t);
        distance_is_gap(v, w);
        lemma2_to64_rest();
        power_of_sum(66, 40);
        assert(middle(t) == 0x10c_6f7b * (CHUNK * 0x100_0000_0000));
        assert(close(v, w) <==> d < SMALL_MARK * CHUNK);
    }
    if pw >= 0x4000_0000 {
        proof {
            units_grow(v.magnitude(), ONE_BITS as nat);
            if pw > 0x4000_0000 {
                units_grow(0x4000_0000, w.magnitude());
            }
            let one = pow2(126);
            power_of_sum(126, 1);
            assert(units(0x4000_0000) == STEP * pow2(127));
            assert(units(ONE_BITS as nat) == STEP * one);
            assert(d >= STEP * one);
            power_of_sum(66, 60);
            assert(STEP * one > SMALL_MARK * CHUNK);
        }
        return false;
    }
    let (qv, rv): (u128, u128) = split(mv, xv);
    let (qw, rw): (u128, u128) = split(mw, xw);
    if !same {
        proof {
            if rv + rw >= CHUNK {
                whole_multiples(d, qv + qw + 1, rv + rw - CHUNK, SMALL_MARK as int);
            } else {
                whole_multiples(d, qv + qw, rv + rw, SMALL_MARK as int);
            }
        }
        if rv + rw >= CHUNK {
            qv + qw + 1 < SMALL_MARK
        } else {
            qv + qw < SMALL_MARK
        }
    } else if pv < pw {
        proof {
            units_grow(v.magnitude(), w.magnitude());
            if rw >= rv {
                whole_multiples(d, qw - qv, rw - rv, SMALL_MARK as int);
            } else {
                whole_multiples(d, qw - qv - 1, rw - rv + CHUNK, SMALL_MARK as int);
            }
        }
        if rw >= rv {
            qw < SMALL_MARK + qv
        } else {
            qw < SMALL_MARK + qv + 1
        }
    } else {
        proof {
            if pw < pv {
                units_grow(w.magnitude(), v.magnitude());
            }
            if rv >= rw {
                whole_multiples(d, qv - qw, rv - rw, SMALL_MARK as int);
            } else {
                whole_multiples(d, qv - qw - 1, rv - rw + CHUNK, SMALL_MARK as int);
            }
        }
        if rv >= rw {
            qv < SMALL_MARK + qw
        } else {
            qv < SMALL_MARK + qw + 1
        }
    }
}

/// Whether `|v - w| <= 1e-6 * max(|v|, 1)` in single-precision arithmetic.
pub fn is_close(v: Scalar, w: Scalar) -> (r: bool)
    ensures
        r == close(v, w),
{
    if v.not_a_number() || w.not_a_number() {
        return false;
    }
    let pv: u32 = v.get_magnitude();
    let pw: u32 = w.get_magnitude();
    if pv == INFINITE {
        return pw != INFINITE || v.get_negative() != w.get_negative();
    }
    if pw == INFINITE {
        return false;
    }
    if pv < ONE_BITS {
        close_small(v, w)
    } else {
        close_large(v, w)
    }
}

/// A finite number is close to itself.
pub proof fn close_to_itself(v: Scalar)
    requires
        v.is_finite(),
    ensures
        close(v, v),
{
    lemma_pow2_pos(43);
    let n = MILLIONTH as nat * units(scale_of(v));
    let t = rounding_exists(n, pow2(43), INFINITE as nat);
    units_grow(0, 1);
    assert(units(0) == 0);
    assert(rounds_down_to(0, 1, 0));
    assert(difference_rounds_to(v, v, 0) && allowance_rounds_to(v, t));
}

// ── Quotients of whole numbers ───────────────────────────────────────────────

/// `p` is the pattern of the whole number `n` in single precision.
pub open spec fn is_whole(n: nat, p: nat) -> bool {
    rounds_to(n * pow2(149), 1, p)
}

/// `r` is `n / d` in single-precision arithmetic, for a small divisor.
pub open spec fn is_quotient(n: nat, d: nat, r: Scalar) -> bool {
    exists|p: nat| #[trigger] is_whole(n, p) && rounds_to(units(p), d, r.bits as nat)
}

/// `r` is `n / 100` in single-precision arithmetic.
pub open spec fn is_percent(n: nat, r: Scalar) -> bool {
    is_quotient(n, 100, r)
}

pub(crate) fn rounded(a: u128, b: u128) -> (m: u32)
    requires
        0 < b <= 0x2000_0000_0000_0000_0000_0000_0000_0000,
        a < 2 * STEP * b,
    ensures
        m == rounded_product(a as int, b as int),
        m <= 2 * STEP,
{
    let q: u128 = a / b;
    let rest: u128 = a % b;
    assert(q < 2 * STEP && rest < b) by (nonlinear_arith)
        requires
            b > 0,
            q == a / b,
            rest == a % b,
            a < 2 * STEP * b,
    ;
    if 2 * rest > b || (2 * rest == b && q % 2 == 1) {
        (q + 1) as u32
    } else {
        q as u32
    }
}

/// The number of bits of `n`.
fn bit_length(n: u64) -> (bits: u32)
    requires
        n > 0,
    ensures
        1 <= bits <= 64,
        n < pow2(bits as nat) <= 2 * n,
{
    let mut bits: u32 = 1;
    let mut top: u128 = 2;
    proof {
        lemma2_to64();
    }
    while top <= n as u128
        invariant
            1 <= bits <= 64,
            top == pow2(bits as nat),
            top <= 2 * n,
            pow2(64) == 0x1_0000_0000_0000_0000,
        decreases 64 - bits,
    {
        proof {
            power_of_sum(bits as nat, 1);
            lemma2_to64();
            if bits >= 64 {
                assert(false);
            }
        }
        top = top * 2;
        bits = bits + 1;
    }
    bits
}

/// The pattern of the whole number `n`.
fn whole(n: u64) -> (p: u32)
    requires
        n > 0,
    ensures
        is_whole(n as nat, p as nat),
        125 * STEP < p < 192 * STEP,
{
    let bits: u32 = bit_length(n);
    let x: u32 = 125 + bits;
    let ghost unit = pow2(149);
    let ghost top = pow2(bits as nat);
    proof {
        lemma2_to64();
    }
    if bits <= 24 {
        let up: u64 = power(24 - bits) as u64;
        let ghost g = pow2(x as nat);
        proof {
            power_of_sum(bits as nat, (24 - bits) as nat);
            power_of_sum(x as nat, (24 - bits) as nat);
            assert(n * (g * up) == (n * up) * g) by (nonlinear_arith);
            assert(STEP <= n * up < 2 * STEP) by (nonlinear_arith)
                requires
                    top * up == 0x100_0000,
                    n < top <= 2 * n,
                    STEP == 0x80_0000,
                    up > 0,
            ;
            let m = n as nat * up as nat;
            assert(rounded_product(m as int, 1) == m);
            quotient_rounds(n as nat * unit, 1, x as nat, m, 1, g, m);
        }
        x * STEP + (n * up) as u32
    } else {
        let down: u128 = power(bits - 24);
        proof {
            power_of_sum(24, (bits - 24) as nat);
            power_of_sum((bits - 24) as nat, 149);
            assert(STEP * down <= n < 2 * STEP * down) by (nonlinear_arith)
                requires
                    top == 0x100_0000 * down,
                    n < top <= 2 * n,
                    STEP == 0x80_0000,
            ;
            lemma2_to64_rest();
            lemma_pow2_strictly_increases((bits - 24) as nat, 48);
        }
        let m: u32 = rounded(n as u128, down);
        proof {
            quotient_rounds(
                n as nat * unit,
                1,
                x as nat,
                n as nat,
                down as nat,
                unit,
                m as nat,
            );
        }
        x * STEP + m
    }
}

/// `n / d` in single-precision arithmetic.
pub fn quotient(n: u64, d: u32) -> (r: Scalar)
    requires
        0 < d < 0x100_0000,
    ensures
        is_quotient(n as nat, d as nat, r),
        r.is_finite(),
{
    if n == 0 {
        proof {
            assert(units(0) == 0);
            units_grow(0, 1);
            assert(0 * pow2(149) == 0);
            assert(middle(0) * d >= 0) by (nonlinear_arith);
            assert(0 < middle(0) * d) by (nonlinear_arith)
                requires
                    middle(0) > 0,
                    d > 0,
            ;
            assert(is_whole(0, 0));
        }
        return Scalar { bits: 0 };
    }
    let p: u32 = whole(n);
    let (m, x): (u64, u32) = parts(p);
    let bits: u32 = bit_length(d as u64);
    proof {
        lemma2_to64();
        if bits > 24 {
            if bits > 25 {
                lemma_pow2_strictly_increases(25, bits as nat);
            }
            assert(false);
        }
        power_of_sum((bits - 1) as nat, 1);
        lemma_pow2_strictly_increases((bits - 1) as nat, 24);
    }
    let half: u64 = power(bits - 1) as u64;
    assert(m * half < 0x1_0000_0000_0000) by (nonlinear_arith)
        requires
            m < 0x100_0000,
            half < 0x100_0000,
    ;
    assert(STEP * d <= m * (2 * half) && m * half < 2 * STEP * d) by (nonlinear_arith)
        requires
            0x80_0000 <= m < 0x100_0000,
            d < 2 * half <= 2 * d,
            STEP == 0x80_0000,
    ;
    let (a, y): (u64, u32) = if 2 * (m * half) < 2 * (STEP as u64 * d as u64) {
        (2 * (m * half), x - bits)
    } else {
        (m * half, x - (bits - 1))
    };
    let ghost g = pow2(y as nat);
    let q: u32 = rounded(a as u128, d as u128);
    proof {
        power_of_sum(y as nat, bits as nat);
        power_of_sum(y as nat, (bits - 1) as nat);
        assert(m * (2 * half) == 2 * (m * half)) by (nonlinear_arith);
        assert(units(p as nat) == a * g) by {
            assert(m * (g * (2 * half)) == (2 * (m * half)) * g) by (nonlinear_arith);
            assert(m * (g * half) == (m * half) * g) by (nonlinear_arith);
        }
        assert(g * d == d * g) by (nonlinear_arith);
        quotient_rounds(units(p as nat), d as nat, y as nat, a as nat, d as nat, g, q as nat);
    }
    Scalar { bits: y * STEP + q }
}

/// `n / 100` in single-precision arithmetic.
pub fn percent(n: u32) -> (r: Scalar)
    ensures
        is_percent(n as nat, r),
{
    quotient(n as u64, 100)
}

// ── Decimal fractions ────────────────────────────────────────────────────────

/// `r` is the number nearest to `n / 1000`.
pub open spec fn is_milli(n: int, r: Scalar) -> bool {
    &&& r.negative() == (n < 0)
    &&& rounds_to(distance(n, 0) * pow2(149), 1000, r.magnitude())
}

/// The number nearest to `n / 1000`.
pub open spec fn milli(n: int) -> Scalar {
    choose|r: Scalar| is_milli(n, r)
}

proof fn milli_is_unique(n: int, r: Scalar)
    requires
        is_milli(n, r),
    ensures
        r == milli(n),
{
    let other = milli(n);
    assert(is_milli(n, other));
    rounding_is_unique(
        distance(n, 0) * pow2(149),
        1000,
        r.magnitude(),
        other.magnitude(),
    );
    assert(r.bits == other.bits);
}

/// The number nearest to `n / 1000`.
pub fn from_milli(n: i32) -> (r: Scalar)
    ensures
        r == milli(n as int),
        r.is_finite(),
{
    if n == 0 {
        let r = Scalar { bits: 0 };
        proof {
            milli_zero();
        }
        return r;
    }
    let size: u64 = if n < 0 {
        (-(n as i64)) as u64
    } else {
        n as u64
    };
    let mut a: u64 = size;
    let mut x: u32 = 149;
    proof {
        lemma2_to64();
        assert(a * pow2(149) == size * pow2(149));
    }
    while a < 1000 * STEP as u64
        invariant
            1 <= a < 2000 * STEP,
            100 <= x <= 149,
            a * pow2(x as nat) == size * pow2(149),
            a >= pow2((149 - x) as nat),
            pow2(1) == 2,
        decreases 2000 * STEP - a,
    {
        proof {
            power_of_sum((x - 1) as nat, 1);
            power_of_sum((149 - x) as nat, 1);
            let f = pow2((x - 1) as nat);
            assert(a * (f * 2) == (a * 2) * f) by (nonlinear_arith);
            if x == 100 {
                lemma2_to64_rest();
                assert(false);
            }
        }
        a = a * 2;
        x = x - 1;
    }
    let m: u32 = rounded(a as u128, 1000);
    proof {
        lemma_pow2_pos(x as nat);
        let g = pow2(x as nat);
        assert(g * 1000 == 1000 * g);
        quotient_rounds(
            size as nat * pow2(149),
            1000,
            x as nat,
            a as nat,
            1000,
            g,
            m as nat,
        );
    }
    let p: u32 = x * STEP + m;
    let r = if n < 0 {
        Scalar { bits: 0x8000_0000 + p }
    } else {
        Scalar { bits: p }
    };
    proof {
        assert(distance(n as int, 0) == size);
        assert(is_milli(n as int, r));
        milli_is_unique(n as int, r);
    }
    r
}

/// A decimal fraction of ordinary size is an ordinary number.
pub proof fn milli_is_finite(n: int)
    requires
        -0x8000_0000 <= n <= 0x7fff_ffff,
    ensures
        is_milli(n, milli(n)),
        milli(n).is_finite(),
{
    let size = distance(n, 0);
    let value = size * pow2(149);
    let q = (254 * STEP) as nat;
    lemma2_to64();
    power_of_sum(149, 32);
    power_of_sum(181, 72);
    let unit = pow2(149);
    let top = pow2(253);
    assert(2 * value <= pow2(181)) by (nonlinear_arith)
        requires
            value == size * unit,
            size <= 0x8000_0000,
            pow2(181) == unit * 0x1_0000_0000,
    ;
    if 181 < 253 {
        lemma_pow2_strictly_increases(181, 253);
    }
    assert(units(q) == STEP * top);
    units_grow(q, q + 1);
    assert(middle(q) * 1000 > 2 * value);
    let p = rounding_exists(value, 1000, q);
    let r = if n < 0 {
        Scalar { bits: (0x8000_0000 + p) as u32 }
    } else {
        Scalar { bits: p as u32 }
    };
    assert(r.magnitude() == p);
    assert(is_milli(n, r));
    milli_is_unique(n, r);
}

/// The decimal fraction 0 is the number 0.
pub proof fn milli_zero()
    ensures
        milli(0) == (Scalar { bits: 0 }),
{
    let r = Scalar { bits: 0 };
    assert(units(0) == 0);
    units_grow(0, 1);
    assert(0 * pow2(149) == 0);
    assert(is_milli(0, r));
    milli_is_unique(0, r);
}

proof fn sizes_grow(a: int, b: int)
    requires
        -0x7fff_ffff <= a <= 0x7fff_ffff,
        -0x7fff_ffff <= b <= 0x7fff_ffff,
        distance(a, 0) <= distance(b, 0),
    ensures
        milli(a).magnitude() <= milli(b).magnitude(),
{
    milli_is_finite(a);
    milli_is_finite(b);
    let unit = pow2(149);
    let x = distance(a, 0) * unit;
    let y = distance(b, 0) * unit;
    assert(x <= y) by (nonlinear_arith)
        requires
            x == distance(a, 0) * unit,
            y == distance(b, 0) * unit,
            distance(a, 0) <= distance(b, 0),
            unit >= 0,
    ;
    let p = milli(a).magnitude();
    let q = milli(b).magnitude();
    assert(rounds_down_to(x, 1000, q));
    let r = rounding_exists(x, 1000, q);
    rounding_is_unique(x, 1000, p, r);
}

/// Decimal fractions keep their order.
pub proof fn milli_grows(a: int, b: int)
    requires
        -0x7fff_ffff <= a <= b <= 0x7fff_ffff,
    ensures
        milli(a).le(milli(b)),
        !milli(a).is_nan(),
        !milli(b).is_nan(),
{
    milli_is_finite(a);
    milli_is_finite(b);
    if a < 0 && b < 0 {
        sizes_grow(b, a);
    } else if a >= 0 {
        sizes_grow(a, b);
    }
}

} // verus!
