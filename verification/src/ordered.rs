//! Rounded arithmetic keeps the order of numbers, and leaves alone what needs no rounding.

use vstd::prelude::*;
use vstd::arithmetic::power2::{
    lemma2_to64, lemma2_to64_rest, lemma_pow2_pos, lemma_pow2_strictly_increases, pow2,
};

use crate::arithmetic::{
    is_nearest, milli_one, nearest_exists, nearest_is_unique, nearest_to, signed, whole,
};
use crate::double::{wide_exponent, wide_significand, Fraction, FULL, WIDE_ONE};
use crate::rounding::{
    distance, middle, milli, milli_is_finite, pattern_units, power_of_sum, rounding_exists, rounding_is_unique,
    rounds_down_to, rounds_to,
};
use crate::scalar::{order_is_numeric, units, units_grow, Scalar, INFINITE, ONE_BITS, STEP};

verus! {

/// The larger of two magnitudes rounds to the larger pattern, or to the same one.
pub proof fn rounding_keeps_order(a: nat, b: nat, c: nat, d: nat, p: nat, q: nat)
    requires
        b > 0,
        d > 0,
        a * d <= c * b,
        rounds_to(a, b, p),
        rounds_to(c, d, q),
    ensures
        p <= q,
{
    if q < INFINITE {
        let m = middle(q);
        assert(rounds_down_to(a, b, q)) by {
            assert(2 * a * d <= 2 * c * b) by (nonlinear_arith)
                requires
                    a * d <= c * b,
            ;
            assert(2 * c * b <= m * d * b) by (nonlinear_arith)
                requires
                    2 * c <= m * d,
                    b > 0,
            ;
            assert(m * d * b == m * b * d) by (nonlinear_arith);
            assert(2 * a <= m * b) by (nonlinear_arith)
                requires
                    2 * a * d <= m * b * d,
                    d > 0,
            ;
            if 2 * a == m * b {
                assert(2 * c == m * d) by (nonlinear_arith)
                    requires
                        2 * a == m * b,
                        2 * a * d <= 2 * c * b,
                        2 * c <= m * d,
                        b > 0,
                        m * d * b == m * b * d,
                ;
            }
        }
        let r = rounding_exists(a, b, q);
        rounding_is_unique(a, b, p, r);
    }
}

/// A magnitude that a pattern stands for rounds to that pattern.
pub proof fn rounding_is_exact(p: nat, d: nat)
    requires
        p < INFINITE,
        d > 0,
    ensures
        rounds_to(units(p) * d, d, p),
{
    let u = units(p);
    units_grow(p, p + 1);
    assert(2 * (u * d) < middle(p) * d) by (nonlinear_arith)
        requires
            2 * u < middle(p),
            d > 0,
    ;
    if p > 0 {
        units_grow((p - 1) as nat, p);
        let m = middle((p - 1) as nat);
        assert(2 * (u * d) > m * d) by (nonlinear_arith)
            requires
                2 * u > m,
                d > 0,
        ;
    }
}

proof fn nearest_is_exact(negative: bool, p: nat, d: nat)
    requires
        p < INFINITE,
        d > 0,
    ensures
        nearest_to(negative, units(p) * d, d) == signed(p, negative),
{
    rounding_is_exact(p, d);
    let r = signed(p, negative);
    assert(r.magnitude() == p && r.negative() == negative);
    nearest_is_unique(negative, units(p) * d, d, r);
}

/// A number is its sign and its magnitude.
pub proof fn sign_and_magnitude(x: Scalar)
    ensures
        signed(x.magnitude(), x.negative()) == x,
{
}

/// Times 1 is the same number.
pub proof fn product_by_one(x: Scalar)
    requires
        !x.is_nan(),
    ensures
        x.product(milli(1000)) == x,
        milli(1000).product(x) == x,
{
    reveal(Scalar::product);
    milli_one();
    lemma_pow2_pos(149);
    sign_and_magnitude(x);
    if x.is_finite() {
        nearest_is_exact(x.negative(), x.magnitude(), pow2(149));
        assert(pow2(149) * units(x.magnitude()) == units(x.magnitude()) * pow2(149))
            by (nonlinear_arith);
    }
}

/// Times 0 is 0, for every finite number.
pub proof fn product_by_zero(x: Scalar, zero: Scalar)
    requires
        x.is_finite(),
        zero.magnitude() == 0,
    ensures
        x.product(zero).magnitude() == 0,
        zero.product(x).magnitude() == 0,
        x.product(zero).negative() == (x.negative() != zero.negative()),
{
    reveal(Scalar::product);
    lemma_pow2_pos(149);
    assert(units(0) == 0);
    let negative = x.negative() != zero.negative();
    nearest_is_exact(negative, 0, pow2(149));
    let u = units(x.magnitude());
    assert(u * 0 == 0 && 0 * u == 0 && 0 * pow2(149) == 0) by (nonlinear_arith);
    nearest_exists(zero.negative() != x.negative(), 0, pow2(149));
    nearest_is_exact(zero.negative() != x.negative(), 0, pow2(149));
}

/// The order of the factors does not matter.
pub proof fn products_commute(a: Scalar, b: Scalar)
    ensures
        a.product(b) == b.product(a),
{
    reveal(Scalar::product);
    let (u, v) = (units(a.magnitude()), units(b.magnitude()));
    assert(u * v == v * u) by (nonlinear_arith);
}

/// The larger of two factors gives the larger product, or the same.
pub proof fn products_keep_order(gain: Scalar, x: Scalar, y: Scalar)
    requires
        gain.is_finite(),
        !gain.negative(),
        x.is_finite(),
        y.is_finite(),
        !x.negative(),
        !y.negative(),
        x.magnitude() <= y.magnitude(),
    ensures
        gain.product(x).le(gain.product(y)),
        !gain.product(x).negative(),
{
    reveal(Scalar::product);
    lemma_pow2_pos(149);
    let g = units(gain.magnitude());
    let (u, v) = (units(x.magnitude()), units(y.magnitude()));
    if x.magnitude() < y.magnitude() {
        units_grow(x.magnitude(), y.magnitude());
    }
    let d = pow2(149);
    nearest_exists(false, g * u, d);
    nearest_exists(false, g * v, d);
    assert((g * u) * d <= (g * v) * d) by (nonlinear_arith)
        requires
            u <= v,
    ;
    rounding_keeps_order(
        g * u,
        d,
        g * v,
        d,
        gain.product(x).magnitude(),
        gain.product(y).magnitude(),
    );
}

/// Whole numbers keep their order, and 0 is 0.
pub proof fn wholes_keep_order(a: nat, b: nat)
    requires
        a <= b <= u64::MAX,
    ensures
        whole(a).magnitude() <= whole(b).magnitude(),
        !whole(a).negative(),
        whole(a).is_finite(),
        whole(b).is_finite(),
        a == 0 <==> whole(a).magnitude() == 0,
{
    let d = pow2(149);
    nearest_exists(false, a * d, 1);
    nearest_exists(false, b * d, 1);
    assert((a * d) * 1 <= (b * d) * 1) by (nonlinear_arith)
        requires
            a <= b,
    ;
    rounding_keeps_order(a * d, 1, b * d, 1, whole(a).magnitude(), whole(b).magnitude());
    whole_is_finite(a);
    whole_is_finite(b);
    lemma_pow2_pos(149);
    assert(units(0) == 0);
    if a == 0 {
        assert(0 * d == 0);
        nearest_is_exact(false, 0, 1);
    } else {
        // The smallest positive number is no larger than any whole number but 0.
        assert(units(1) == 1);
        rounding_is_exact(1, 1);
        assert(1 * 1 <= (a * d) * 1) by (nonlinear_arith)
            requires
                a >= 1,
                d >= 1,
        ;
        rounding_keeps_order(1, 1, a * d, 1, 1, whole(a).magnitude());
    }
}

proof fn whole_is_finite(a: nat)
    requires
        a <= u64::MAX,
    ensures
        whole(a).is_finite(),
{
    lemma2_to64();
    lemma2_to64_rest();
    power_of_sum(149, 64);
    let d = pow2(149);
    // 2 to the power of 64.
    let p = (190 * 0x80_0000 + 0x80_0000) as nat;
    let e = p / 0x80_0000;
    assert(e == 191 && p % 0x80_0000 == 0);
    assert(units(p) == 0x80_0000 * pow2(190));
    power_of_sum(190, 23);
    assert(units(p) == pow2(213)) by (nonlinear_arith)
        requires
            units(p) == 0x80_0000 * pow2(190),
            pow2(213) == pow2(190) * pow2(23),
            pow2(23) == 0x80_0000,
    ;
    assert(a * d <= units(p)) by (nonlinear_arith)
        requires
            a <= u64::MAX,
            units(p) == d * pow2(64),
            pow2(64) == 0x1_0000_0000_0000_0000,
            d >= 0,
    ;
    nearest_exists(false, a * d, 1);
    rounding_is_exact(p, 1);
    assert((a * d) * 1 <= units(p) * 1 * 1);
    rounding_keeps_order(a * d, 1, units(p) * 1, 1, whole(a).magnitude(), p);
}

/// Shares of a whole grow with what they are shares of; none of it is 0, all of it is 1.
pub proof fn shares_keep_order(a: nat, b: nat, all: nat)
    requires
        a <= b <= all <= u64::MAX,
        0 < all,
    ensures
        ({
            let (x, y) = (whole(a).ratio(whole(all)), whole(b).ratio(whole(all)));
            &&& x.is_finite() && y.is_finite() && !x.negative() && !y.negative()
            &&& x.magnitude() <= y.magnitude() <= ONE_BITS
            &&& a == 0 ==> x.magnitude() == 0
            &&& b == all ==> y.magnitude() == ONE_BITS
        }),
{
    reveal(Scalar::ratio);
    wholes_keep_order(a, b);
    wholes_keep_order(b, all);
    wholes_keep_order(all, all);
    lemma_pow2_pos(149);
    let d = pow2(149);
    let (u, v, w) = (
        units(whole(a).magnitude()),
        units(whole(b).magnitude()),
        units(whole(all).magnitude()),
    );
    assert(units(0) == 0);
    units_grow(0, whole(all).magnitude());
    if whole(a).magnitude() < whole(b).magnitude() {
        units_grow(whole(a).magnitude(), whole(b).magnitude());
    }
    if whole(b).magnitude() < whole(all).magnitude() {
        units_grow(whole(b).magnitude(), whole(all).magnitude());
    }
    nearest_exists(false, u * d, w);
    nearest_exists(false, v * d, w);
    let x = whole(a).ratio(whole(all));
    let y = whole(b).ratio(whole(all));
    assert((u * d) * w <= (v * d) * w) by (nonlinear_arith)
        requires
            u <= v,
    ;
    rounding_keeps_order(u * d, w, v * d, w, x.magnitude(), y.magnitude());
    milli_one();
    rounding_is_exact(ONE_BITS as nat, w);
    assert((v * d) * w <= (d * w) * w) by (nonlinear_arith)
        requires
            v <= w,
    ;
    rounding_keeps_order(v * d, w, d * w, w, y.magnitude(), ONE_BITS as nat);
    if a == 0 {
        assert(0 * d == 0 && 0 * w == 0) by (nonlinear_arith);
        nearest_is_exact(false, 0, w);
    }
    if b == all {
        assert(v * d == d * w) by (nonlinear_arith)
            requires
                v == w,
        ;
        rounding_is_unique(v * d, w, y.magnitude(), ONE_BITS as nat);
    }
}

/// A share of nothing is nothing.
pub proof fn nothing_shared(zero: Scalar, all: Scalar)
    requires
        zero.magnitude() == 0,
        all.is_finite(),
        all.magnitude() > 0,
    ensures
        zero.ratio(all).magnitude() == 0,
{
    reveal(Scalar::ratio);
    assert(units(0) == 0);
    units_grow(0, all.magnitude());
    let negative = zero.negative() != all.negative();
    nearest_is_exact(negative, 0, units(all.magnitude()));
    assert(0 * pow2(149) == 0 && 0 * units(all.magnitude()) == 0);
}

/// Two whole numbers of ordinary size have a finite product.
pub proof fn product_of_wholes_is_finite(a: nat, b: nat)
    requires
        a <= u32::MAX,
        b <= u32::MAX,
    ensures
        whole(a).product(whole(b)).is_finite(),
        !whole(a).product(whole(b)).negative(),
{
    reveal(Scalar::product);
    wholes_keep_order(a, a);
    wholes_keep_order(b, b);
    let d = pow2(149);
    lemma_pow2_pos(149);
    lemma2_to64();
    lemma2_to64_rest();
    // Each factor is at most 2 to the power of 32, so the product is at most that of 64.
    let p = (159 * 0x80_0000) as nat;
    assert(p / 0x80_0000 == 159 && p % 0x80_0000 == 0);
    power_of_sum(158, 23);
    power_of_sum(149, 32);
    assert(units(p) == 0x80_0000 * pow2(158));
    assert(units(p) == d * 0x1_0000_0000) by (nonlinear_arith)
        requires
            units(p) == 0x80_0000 * pow2(158),
            pow2(181) == pow2(158) * 0x80_0000,
            pow2(181) == d * 0x1_0000_0000,
    ;
    let q = (191 * 0x80_0000) as nat;
    assert(q / 0x80_0000 == 191 && q % 0x80_0000 == 0);
    power_of_sum(190, 23);
    power_of_sum(149, 64);
    assert(units(q) == 0x80_0000 * pow2(190));
    assert(units(q) == d * 0x1_0000_0000_0000_0000) by (nonlinear_arith)
        requires
            units(q) == 0x80_0000 * pow2(190),
            pow2(213) == pow2(190) * 0x80_0000,
            pow2(213) == d * 0x1_0000_0000_0000_0000,
    ;
    rounding_is_exact(p, 1);
    nearest_exists(false, a * d, 1);
    nearest_exists(false, b * d, 1);
    assert((a * d) * 1 <= (units(p) * 1) * 1) by (nonlinear_arith)
        requires
            a <= u32::MAX,
            units(p) == d * 0x1_0000_0000,
    ;
    assert((b * d) * 1 <= (units(p) * 1) * 1) by (nonlinear_arith)
        requires
            b <= u32::MAX,
            units(p) == d * 0x1_0000_0000,
    ;
    rounding_keeps_order(a * d, 1, units(p) * 1, 1, whole(a).magnitude(), p);
    rounding_keeps_order(b * d, 1, units(p) * 1, 1, whole(b).magnitude(), p);
    let (u, v, w) = (units(whole(a).magnitude()), units(whole(b).magnitude()), units(p));
    if whole(a).magnitude() < p {
        units_grow(whole(a).magnitude(), p);
    }
    if whole(b).magnitude() < p {
        units_grow(whole(b).magnitude(), p);
    }
    assert((u * v) * d <= (units(q) * d) * d) by (nonlinear_arith)
        requires
            u <= w,
            v <= w,
            w == d * 0x1_0000_0000,
            units(q) == d * 0x1_0000_0000_0000_0000,
            u >= 0,
            v >= 0,
            d >= 0,
    ;
    rounding_is_exact(q, d);
    nearest_exists(false, u * v, d);
    rounding_keeps_order(u * v, d, units(q) * d, d, whole(a).product(whole(b)).magnitude(), q);
}

/// 0 and a number add up to that number.
pub proof fn sum_with_zero(x: Scalar)
    requires
        !x.is_nan(),
    ensures
        x.magnitude() > 0 ==> (Scalar { bits: 0 }).sum(x) == x && x.sum(Scalar { bits: 0 }) == x,
        x.magnitude() == 0 ==> (Scalar { bits: 0 }).sum(x).magnitude() == 0,
{
    reveal(Scalar::sum);
    sign_and_magnitude(x);
    assert(units(0) == 0);
    if x.is_finite() && x.magnitude() > 0 {
        units_grow(0, x.magnitude());
        nearest_is_exact(x.negative(), x.magnitude(), 1);
        assert(distance(x.value(), 0) == units(x.magnitude()) * 1);
    }
}

/// A sum is the exact one, rounded.
pub proof fn sum_is_rounded(a: Scalar, b: Scalar)
    requires
        a.is_finite(),
        b.is_finite(),
    ensures
        !a.sum(b).is_nan(),
        rounds_to(distance(a.value() + b.value(), 0), 1, a.sum(b).magnitude()),
        a.value() + b.value() != 0 ==> a.sum(b).negative() == (a.value() + b.value() < 0),
{
    reveal(Scalar::sum);
    let v = a.value() + b.value();
    if v == 0 {
        assert(units(0) == 0);
        rounding_is_exact(0, 1);
        let r = signed(0, a.negative() && b.negative());
        assert(r.magnitude() == 0);
    } else {
        nearest_exists(v < 0, distance(v, 0), 1);
    }
}

/// How far two numbers are apart, rounded, by their exact distance.
pub proof fn difference_is_rounded_distance(a: Scalar, b: Scalar)
    requires
        a.is_finite(),
        b.is_finite(),
    ensures
        rounds_to(
            distance(a.value(), b.value()),
            1,
            a.difference(b).absolute().magnitude(),
        ),
        !a.difference(b).absolute().negative(),
        !a.difference(b).is_nan(),
        !a.difference(b).absolute().is_nan(),
        a.difference(b).absolute().magnitude() == a.difference(b).magnitude(),
{
    sign_changes(b);
    sum_is_rounded(a, b.negated());
    assert(distance(a.value() + b.negated().value(), 0) == distance(a.value(), b.value()));
    let r = a.difference(b);
    assert(r.absolute().magnitude() == r.magnitude());
}

/// The other sign turns the value round.
pub proof fn sign_changes(b: Scalar)
    requires
        b.is_finite(),
    ensures
        b.negated().is_finite(),
        b.negated().value() == -b.value(),
{
    assert(b.negated().magnitude() == b.magnitude());
    assert(units(0) == 0);
}

/// What is nearer by the rounded distance is nearer indeed.
pub proof fn rounded_distances_tell(a: Scalar, b: Scalar, c: Scalar)
    requires
        a.is_finite(),
        b.is_finite(),
        c.is_finite(),
    ensures
        a.difference(b).absolute().lt(a.difference(c).absolute()) ==> distance(
            a.value(),
            b.value(),
        ) < distance(a.value(), c.value()),
{
    difference_is_rounded_distance(a, b);
    difference_is_rounded_distance(a, c);
    let (x, y) = (distance(a.value(), b.value()), distance(a.value(), c.value()));
    if y <= x {
        assert(y * 1 <= x * 1);
        rounding_keeps_order(
            y,
            1,
            x,
            1,
            a.difference(c).absolute().magnitude(),
            a.difference(b).absolute().magnitude(),
        );
    }
}

/// Sums keep the order of what is added.
pub proof fn sums_keep_order(a: Scalar, x: Scalar, y: Scalar)
    requires
        a.is_finite(),
        x.is_finite(),
        y.is_finite(),
        x.le(y),
    ensures
        a.sum(x).le(a.sum(y)),
{
    order_is_numeric(x, y);
    sum_is_rounded(a, x);
    sum_is_rounded(a, y);
    let (v, w) = (a.value() + x.value(), a.value() + y.value());
    let (p, q) = (a.sum(x).magnitude(), a.sum(y).magnitude());
    assert(units(0) == 0);
    rounding_is_exact(0, 1);
    if v == 0 {
        rounding_is_unique(0, 1, 0, p);
    }
    if w == 0 {
        rounding_is_unique(0, 1, 0, q);
    }
    if 0 <= v {
        rounding_keeps_order(distance(v, 0), 1, distance(w, 0), 1, p, q);
    } else if w <= 0 {
        rounding_keeps_order(distance(w, 0), 1, distance(v, 0), 1, q, p);
    }
}

/// A significand of at most 24 bits, at any exponent, has a pattern of its own.
proof fn pattern_of(k: nat, x: nat) -> (p: nat)
    requires
        k < 2 * STEP,
    ensures
        units(p) == k * pow2(x),
    decreases x,
{
    lemma2_to64();
    if k >= STEP {
        pattern_units(x, k);
        (x * STEP + k) as nat
    } else if x == 0 {
        assert(k / (STEP as nat) == 0 && k % (STEP as nat) == k);
        assert(k * pow2(0) == k);
        k
    } else {
        let p = pattern_of(2 * k, (x - 1) as nat);
        power_of_sum((x - 1) as nat, 1);
        let e = pow2((x - 1) as nat);
        assert((2 * k) * e == k * (e * 2)) by (nonlinear_arith);
        p
    }
}

/// The significand and the exponent of a pattern.
proof fn parts_of(p: nat) -> (r: (nat, nat))
    ensures
        units(p) == r.0 * pow2(r.1),
        r.0 < 2 * STEP,
        r.1 > 0 ==> r.0 >= STEP,
        r.1 == (if p < STEP {
            0
        } else {
            p / (STEP as nat) - 1
        }),
{
    lemma2_to64();
    let s = STEP as nat;
    let e = p / s;
    if e == 0 {
        assert(p < s && p % s == p) by (nonlinear_arith)
            requires
                p / s == 0,
                s == 0x80_0000,
                p >= 0,
        ;
        assert(p * pow2(0) == p);
        (p, 0)
    } else {
        assert(p >= s) by (nonlinear_arith)
            requires
                p / s >= 1,
                s == 0x80_0000,
        ;
        ((s + p % s) as nat, (e - 1) as nat)
    }
}

/// Two numbers of which the larger is at most twice the smaller have an exact difference.
pub proof fn close_numbers_have_an_exact_difference(p: nat, q: nat) -> (r: nat)
    requires
        p <= q < INFINITE,
        units(q) <= 2 * units(p),
    ensures
        units(r) == units(q) - units(p),
        r <= p,
{
    let (k, x) = parts_of(p);
    let (l, y) = parts_of(q);
    let s = STEP as nat;
    assert(x <= y) by {
        if p >= s {
            vstd::arithmetic::div_mod::lemma_div_is_ordered(p as int, q as int, s as int);
        }
    }
    power_of_sum(x, (y - x) as nat);
    let (w, z) = (pow2(x) as int, pow2((y - x) as nat) as int);
    lemma_pow2_pos(x);
    if p < q {
        units_grow(p, q);
    }
    let j = l * z - k;
    assert(l * (w * z) == (l * z) * w) by (nonlinear_arith);
    assert(units(q) - units(p) == j * w) by (nonlinear_arith)
        requires
            units(q) == (l * z) * w,
            units(p) == k * w,
            j == l * z - k,
    ;
    assert(0 <= j <= k) by (nonlinear_arith)
        requires
            0 <= j * w <= k * w,
            w > 0,
    ;
    let r = pattern_of(j as nat, x);
    if r > p {
        units_grow(p, r);
    }
    r
}

/// From half of a length on, a place is nearer to the end of it than to its beginning by
/// the rounded distances too.
pub proof fn beyond_the_middle_the_end_is_nearer(at: Scalar, length: Scalar, begin: Scalar)
    requires
        at.is_finite(),
        length.is_finite(),
        begin.magnitude() == 0,
        !at.negative(),
        !length.negative(),
        at.value() <= length.value() < 2 * at.value(),
    ensures
        at.difference(length).absolute().lt(at.difference(begin).absolute()),
{
    assert(units(0) == 0);
    difference_is_rounded_distance(at, length);
    difference_is_rounded_distance(at, begin);
    let (p, q) = (at.magnitude(), length.magnitude());
    if q < p {
        units_grow(q, p);
    }
    rounding_is_exact(p, 1);
    rounding_is_unique(units(p), 1, p, at.difference(begin).absolute().magnitude());
    let r = close_numbers_have_an_exact_difference(p, q);
    rounding_is_exact(r, 1);
    rounding_is_unique(units(r), 1, r, at.difference(length).absolute().magnitude());
    if r == p {
        assert(units(q) == 2 * units(p));
    }
}

/// A fraction that was brought to the range from 0 to 1 is in it in single precision too.
pub proof fn pinned_fractions_are_at_most_one(fraction: Fraction)
    requires
        !fraction.is_nan(),
    ensures
        fraction.pinned().narrowed().magnitude() <= ONE_BITS,
        fraction.pinned().narrowed().negative() ==> fraction.pinned().narrowed().magnitude() == 0,
{
    let f = fraction.pinned();
    let p = f.magnitude();
    assert(p <= WIDE_ONE);
    let (m, x) = (wide_significand(p), wide_exponent(p) + 149);
    let full = FULL as nat;
    lemma2_to64();
    lemma2_to64_rest();
    milli_one();
    rounding_is_exact(ONE_BITS as nat, 1);
    lemma_pow2_pos(149);
    let one = pow2(149);
    assert(full == pow2(52));
    assert(m < 2 * full);
    if x >= 0 {
        assert(p >= full);
        assert(p / full <= 1023) by {
            vstd::arithmetic::div_mod::lemma_div_is_ordered(
                p as int,
                WIDE_ONE as int,
                full as int,
            );
            assert(WIDE_ONE as nat / full == 1023);
        }
        let e = pow2(x as nat);
        if x == 97 {
            assert(p == WIDE_ONE && p % full == 0) by {
                vstd::arithmetic::div_mod::lemma_fundamental_div_mod(p as int, full as int);
            }
            power_of_sum(52, 97);
            assert(m * e == one);
        } else {
            power_of_sum(53, x as nat);
            if 53 + x < 149 {
                lemma_pow2_strictly_increases((53 + x) as nat, 149);
            }
            assert(m * e <= one) by (nonlinear_arith)
                requires
                    m <= pow2(53),
                    pow2(53) * e <= one,
            ;
        }
        let n = m * e;
        nearest_exists(f.negative(), n, 1);
        rounding_keeps_order(n, 1, one * 1, 1, f.narrowed().magnitude(), ONE_BITS as nat);
    } else {
        let d = 1 * pow2((-x) as nat);
        lemma_pow2_pos((-x) as nat);
        lemma_pow2_strictly_increases(53, 149);
        nearest_exists(f.negative(), m, d);
        assert(m * 1 <= (one * 1) * d) by (nonlinear_arith)
            requires
                m <= one,
                d >= 1,
        ;
        rounding_keeps_order(m, d, one * 1, 1, f.narrowed().magnitude(), ONE_BITS as nat);
    }
    if f.negative() {
        assert(p == 0 && m == 0 && x < 0);
        let d = 1 * pow2((-x) as nat);
        rounding_is_exact(0, d);
        assert(units(0) == 0 && 0 * d == 0);
        rounding_is_unique(0, d, 0, f.narrowed().magnitude());
        nearest_exists(true, 0, d);
    } else {
        assert(!f.narrowed().negative());
    }
}

/// A number and nothing add up to that number.
pub proof fn sum_with_nothing(x: Scalar, nothing: Scalar)
    requires
        x.is_finite(),
        nothing.magnitude() == 0,
    ensures
        x.sum(nothing).place() == x.place(),
        x.sum(nothing).is_finite(),
{
    nothing_and(x, nothing);
}

/// Nothing in front of or behind a number changes its place.
pub proof fn nothing_and(x: Scalar, y: Scalar)
    requires
        x.is_finite(),
        y.is_finite(),
        x.magnitude() == 0 || y.magnitude() == 0,
    ensures
        x.sum(y).is_finite(),
        x.magnitude() == 0 ==> x.sum(y).place() == y.place(),
        y.magnitude() == 0 ==> x.sum(y).place() == x.place(),
{
    assert(units(0) == 0);
    sum_is_rounded(x, y);
    let v = x.value() + y.value();
    let p = if x.magnitude() == 0 {
        y.magnitude()
    } else {
        x.magnitude()
    };
    rounding_is_exact(p, 1);
    assert(distance(v, 0) == units(p));
    rounding_is_unique(units(p), 1, p, x.sum(y).magnitude());
    if p > 0 {
        units_grow(0, p);
    }
}

/// A number less nothing is that number.
pub proof fn difference_from_nothing(x: Scalar, nothing: Scalar)
    requires
        x.is_finite(),
        nothing.magnitude() == 0,
    ensures
        x.difference(nothing).place() == x.place(),
        x.difference(nothing).is_finite(),
{
    assert(nothing.negated().magnitude() == 0);
    nothing_and(x, nothing.negated());
}

/// A share of nothing, or of less, is nothing or less.
pub proof fn share_of_nothing_or_less(way: Scalar, all: Scalar)
    requires
        way.is_finite(),
        all.is_finite(),
        way.place() <= 0,
        all.place() > 0,
    ensures
        !way.ratio(all).is_nan(),
        way.ratio(all).place() <= 0,
{
    reveal(Scalar::ratio);
    assert(units(0) == 0);
    units_grow(0, all.magnitude());
    let d = units(all.magnitude());
    if way.magnitude() == 0 {
        nothing_shared(way, all);
    } else {
        nearest_exists(true, units(way.magnitude()) * pow2(149), d);
    }
}

/// A share of all there is, or of more, is at least 1.
pub proof fn share_of_all_or_more(way: Scalar, all: Scalar)
    requires
        way.is_finite(),
        all.is_finite(),
        0 < all.place() <= way.place(),
    ensures
        milli(1000).le(way.ratio(all)),
{
    reveal(Scalar::ratio);
    milli_one();
    assert(units(0) == 0);
    units_grow(0, all.magnitude());
    if all.magnitude() < way.magnitude() {
        units_grow(all.magnitude(), way.magnitude());
    }
    let (u, w, d) = (units(way.magnitude()), units(all.magnitude()), pow2(149));
    nearest_exists(false, u * d, w);
    rounding_is_exact(ONE_BITS as nat, w);
    assert((d * w) * w <= (u * d) * w) by (nonlinear_arith)
        requires
            w <= u,
    ;
    rounding_keeps_order(d * w, w, u * d, w, ONE_BITS as nat, way.ratio(all).magnitude());
}

/// The sign of a difference tells the order of the two numbers.
pub proof fn differences_have_signs(a: Scalar, b: Scalar)
    requires
        a.is_finite(),
        b.is_finite(),
    ensures
        !a.difference(b).is_nan(),
        a.lt(b) <==> a.difference(b).place() < 0,
        b.lt(a) <==> a.difference(b).place() > 0,
{
    order_is_numeric(a, b);
    order_is_numeric(b, a);
    sign_changes(b);
    sum_is_rounded(a, b.negated());
    let v = a.value() - b.value();
    let p = a.difference(b).magnitude();
    assert(units(0) == 0 && units(1) == 1);
    if v == 0 {
        rounding_is_exact(0, 1);
        rounding_is_unique(0, 1, 0, p);
    } else {
        rounding_is_exact(1, 1);
        rounding_keeps_order(1, 1, distance(v, 0), 1, 1, p);
    }
}

/// Differences from one number keep the order of the others.
pub proof fn differences_keep_order(a: Scalar, b: Scalar, from: Scalar)
    requires
        a.is_finite(),
        b.is_finite(),
        from.is_finite(),
        a.le(b),
    ensures
        a.difference(from).le(b.difference(from)),
{
    order_is_numeric(a, b);
    sign_changes(from);
    sum_is_rounded(a, from.negated());
    sum_is_rounded(b, from.negated());
    differences_have_signs(a, from);
    differences_have_signs(b, from);
    order_is_numeric(a, from);
    order_is_numeric(b, from);
    order_is_numeric(from, a);
    order_is_numeric(from, b);
    let (v, w) = (a.value() - from.value(), b.value() - from.value());
    let (p, q) = (a.difference(from).magnitude(), b.difference(from).magnitude());
    if 0 < v {
        rounding_keeps_order(distance(v, 0), 1, distance(w, 0), 1, p, q);
    } else if w < 0 {
        rounding_keeps_order(distance(w, 0), 1, distance(v, 0), 1, q, p);
    }
}

/// A thousandth is more than nothing.
pub proof fn smallest_thousandth()
    ensures
        milli(1).magnitude() > 0,
        !milli(1).negative(),
        milli(1).is_finite(),
{
    milli_is_finite(1);
    let p = milli(1).magnitude();
    lemma2_to64();
    lemma_pow2_strictly_increases(64, 149);
    assert(units(0) == 0 && units(1) == 1);
    let n = distance(1, 0) * pow2(149);
    assert(n == pow2(149)) by (nonlinear_arith)
        requires
            n == distance(1, 0) * pow2(149),
            distance(1, 0) == 1,
    ;
    assert(rounds_to(n, 1000, p));
    assert(middle(0) == 1);
}

/// The share of one of many is less than that of one of few, or the same.
pub proof fn shares_by_more_are_less(x: Scalar, few: Scalar, many: Scalar)
    requires
        x.is_finite(),
        !x.negative(),
        few.is_finite(),
        many.is_finite(),
        0 < few.place() <= many.place(),
    ensures
        x.ratio(many).le(x.ratio(few)),
        !x.ratio(many).negative(),
        !x.ratio(few).negative(),
{
    reveal(Scalar::ratio);
    assert(units(0) == 0);
    units_grow(0, few.magnitude());
    units_grow(0, many.magnitude());
    if few.magnitude() < many.magnitude() {
        units_grow(few.magnitude(), many.magnitude());
    }
    let (n, b, c) = (
        units(x.magnitude()) * pow2(149),
        units(many.magnitude()),
        units(few.magnitude()),
    );
    nearest_exists(false, n, b);
    nearest_exists(false, n, c);
    assert(n * c <= n * b) by (nonlinear_arith)
        requires
            c <= b,
            n >= 0,
    ;
    rounding_keeps_order(n, b, n, c, x.ratio(many).magnitude(), x.ratio(few).magnitude());
}

/// One share of one is all of it.
pub proof fn share_by_one(x: Scalar)
    requires
        x.is_finite(),
    ensures
        x.ratio(milli(1000)) == x,
{
    reveal(Scalar::ratio);
    milli_one();
    lemma_pow2_pos(149);
    sign_and_magnitude(x);
    nearest_is_exact(x.negative(), x.magnitude(), pow2(149));
}

/// The order of the terms does not matter.
pub proof fn sums_commute(a: Scalar, b: Scalar)
    ensures
        a.sum(b) == b.sum(a),
{
    reveal(Scalar::sum);
    sign_and_magnitude(a);
    sign_and_magnitude(b);
}

/// A number that is not negative is what it was when it is added to nothing.
pub proof fn nothing_in_front(x: Scalar)
    requires
        !x.is_nan(),
        !x.negative(),
    ensures
        (Scalar { bits: 0 }).sum(x) == x,
{
    sum_with_zero(x);
    if x.magnitude() == 0 {
        reveal(Scalar::sum);
        sign_and_magnitude(x);
        assert(units(0) == 0);
    }
}

/// A square is not negative.
pub proof fn squares_are_not_negative(x: Scalar)
    requires
        x.is_finite(),
    ensures
        !x.product(x).negative(),
        !x.product(x).is_nan(),
{
    reveal(Scalar::product);
    lemma_pow2_pos(149);
    nearest_exists(false, units(x.magnitude()) * units(x.magnitude()), pow2(149));
}

/// The thousand thousandths of one side mirror those of the other.
pub proof fn one_and_minus_one()
    ensures
        milli(1000).place() == ONE_BITS as int,
        milli(-1000).place() == -(ONE_BITS as int),
        milli(1000).is_finite(),
        milli(-1000).is_finite(),
{
    milli_one();
    milli_is_finite(1000);
    milli_is_finite(-1000);
    rounding_is_unique(
        distance(1000, 0) * pow2(149),
        1000,
        milli(1000).magnitude(),
        milli(-1000).magnitude(),
    );
}

/// A share of nothing, or of more, is nothing or more.
pub proof fn share_of_nothing_or_more(way: Scalar, all: Scalar)
    requires
        way.is_finite(),
        all.is_finite(),
        way.place() >= 0,
        all.place() > 0,
    ensures
        !way.ratio(all).is_nan(),
        way.ratio(all).place() >= 0,
{
    reveal(Scalar::ratio);
    assert(units(0) == 0);
    units_grow(0, all.magnitude());
    let d = units(all.magnitude());
    if way.magnitude() == 0 {
        nothing_shared(way, all);
    } else {
        nearest_exists(false, units(way.magnitude()) * pow2(149), d);
    }
}

/// One more than what is not below minus one is not below nothing.
pub proof fn one_more_is_not_below_nothing(x: Scalar)
    requires
        x.is_finite(),
        milli(-1000).le(x),
    ensures
        milli(1000).sum(x).place() >= 0,
{
    one_and_minus_one();
    sums_keep_order(milli(1000), milli(-1000), x);
    sum_is_rounded(milli(1000), milli(-1000));
    assert(milli(1000).value() + milli(-1000).value() == 0);
    assert(units(0) == 0);
    rounding_is_exact(0, 1);
    rounding_is_unique(0, 1, 0, milli(1000).sum(milli(-1000)).magnitude());
}

} // verus!
