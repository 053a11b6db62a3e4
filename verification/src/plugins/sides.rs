//! The two sides of the sound in the effects, and what of a block each of them hears.

use vstd::prelude::*;
use vstd::arithmetic::div_mod::lemma_fundamental_div_mod_converse;

use super::builtin::bitcrush::{counter_after, quantised, samples_are_held};
use super::builtin::gate::{level_of, squares};
use super::builtin::telephone::{Biquad, HALF_ROOT_BITS};
use super::builtin::{BitcrushPlugin, TelephonePlugin};
use super::run::{rebuilt, treats, Given};
use super::Effect;
use crate::arithmetic::whole;
use crate::ordered::{
    differences_have_signs, nothing_and, nothing_in_front, nothing_shared, one_and_minus_one,
    one_more_is_not_below_nothing, product_by_one, product_by_zero, share_of_nothing_or_less,
    share_of_nothing_or_more, sign_changes, squares_are_not_negative, sums_commute,
    wholes_keep_order,
};
use crate::rounding::{milli, milli_zero};
use crate::scalar::Scalar;

verus! {

/// The two blocks have the same samples on one side.
pub open spec fn same_on_side(a: Seq<Scalar>, b: Seq<Scalar>, side: int) -> bool {
    &&& a.len() == b.len()
    &&& forall|j: int| 0 <= j < a.len() && j % 2 == side ==> #[trigger] a[j] == b[j]
}

/// The block has the same samples on both sides.
pub open spec fn same_on_both(a: Seq<Scalar>) -> bool {
    &&& a.len() % 2 == 0
    &&& forall|f: int| 0 <= f < a.len() as int / 2 ==> #[trigger] a[2 * f] == a[2 * f + 1]
}

proof fn held_on_one_side(
    p: BitcrushPlugin,
    a: Seq<Scalar>,
    b: Seq<Scalar>,
    steps: Scalar,
    side: int,
    f: int,
)
    requires
        0 <= side <= 1,
        same_on_side(a, b, side),
    ensures
        p.held(a, steps, side, f) == p.held(b, steps, side, f),
    decreases f + 1,
{
    if f >= 0 {
        assert((2 * f + side) % 2 == side);
        held_on_one_side(p, a, b, steps, side, f - 1);
    }
}

proof fn heard_on_one_side(f: Biquad, a: Seq<Scalar>, b: Seq<Scalar>, side: int)
    requires
        0 <= side <= 1,
        same_on_side(a, b, side),
    ensures
        side == 0 ==> f.after(a).0 == f.after(b).0,
        side == 1 ==> f.after(a).1 == f.after(b).1,
    decreases a.len(),
{
    if a.len() > 0 {
        let (c, d) = (a.drop_last(), b.drop_last());
        assert forall|j: int| 0 <= j < c.len() && j % 2 == side implies #[trigger] c[j] == d[j] by {
            assert(a[j] == b[j]);
        }
        heard_on_one_side(f, c, d, side);
        if (a.len() - 1) % 2 == side {
            assert(a[a.len() - 1] == b[a.len() - 1]);
        }
    }
}

proof fn output_on_one_side(f: Biquad, a: Seq<Scalar>, b: Seq<Scalar>, side: int, i: int)
    requires
        0 <= side <= 1,
        same_on_side(a, b, side),
        0 <= i < a.len(),
        i % 2 == side,
    ensures
        f.output(a, i) == f.output(b, i),
{
    let (c, d) = (a.take(i + 1), b.take(i + 1));
    assert forall|j: int| 0 <= j < c.len() && j % 2 == side implies #[trigger] c[j] == d[j] by {
        assert(a[j] == b[j]);
    }
    heard_on_one_side(f, c, d, side);
}

/// The two sides do not mix: what an effect makes of one side depends on the samples of
/// that side alone. Only a noise gate listens to both.
pub proof fn sides_are_treated_apart(
    before: Effect,
    afters: (Effect, Effect),
    a: Seq<Scalar>,
    b: Seq<Scalar>,
    outputs: (Seq<Scalar>, Seq<Scalar>),
    rate: u32,
    given: Given,
    side: int,
    i: int,
)
    requires
        !(before is Gate),
        0 <= side <= 1,
        same_on_side(a, b, side),
        treats(before, afters.0, a, outputs.0, rate, given),
        treats(before, afters.1, b, outputs.1, rate, given),
        0 <= i < a.len(),
        i % 2 == side,
    ensures
        outputs.0[i] == outputs.1[i],
{
    assert(a[i] == b[i]);
    assert(outputs.0[i] == outputs.0[i] && outputs.1[i] == outputs.1[i]);
    match before {
        Effect::Bitcrush(p) => {
            let steps = given->power.larger(milli(1000));
            held_on_one_side(p, a, b, steps, side, i / 2);
        },
        Effect::Telephone(p) => {
            let q = rebuilt(p, rate, given);
            let (c, d) = (q.narrowed(a), q.narrowed(b));
            assert forall|j: int| 0 <= j < c.len() && j % 2 == side implies #[trigger] c[j]
                == d[j] by {
                output_on_one_side(q.hp, a, b, side, j);
            }
            output_on_one_side(q.lp, c, d, side, i);
        },
        _ => {},
    }
}

proof fn held_on_both_sides(p: BitcrushPlugin, a: Seq<Scalar>, steps: Scalar, f: int)
    requires
        p.hold.0 == p.hold.1,
        same_on_both(a),
    ensures
        p.held(a, steps, 0, f) == p.held(a, steps, 1, f),
    decreases f + 1,
{
    if f >= 0 {
        if f < a.len() as int / 2 {
            assert(a[2 * f] == a[2 * f + 1]);
        }
        held_on_both_sides(p, a, steps, f - 1);
    }
}

proof fn heard_on_both_sides(f: Biquad, a: Seq<Scalar>)
    requires
        f.left == f.right,
        same_on_both(a),
    ensures
        f.after(a).0 == f.after(a).1,
    decreases a.len(),
{
    if a.len() > 0 {
        let c = a.drop_last().drop_last();
        let n = a.len() as int / 2 - 1;
        assert(a[2 * n] == a[2 * n + 1]);
        assert forall|k: int| 0 <= k < c.len() as int / 2 implies #[trigger] c[2 * k] == c[2 * k
            + 1] by {
            assert(a[2 * k] == a[2 * k + 1]);
        }
        heard_on_both_sides(f, c);
        reveal_with_fuel(Biquad::after, 3);
        assert(a.drop_last().last() == a[2 * n]);
        assert((a.len() - 1) % 2 == 1 && (a.drop_last().len() - 1) % 2 == 0);
    }
}

proof fn output_on_both_sides(f: Biquad, a: Seq<Scalar>, k: int)
    requires
        f.left == f.right,
        same_on_both(a),
        0 <= k < a.len() as int / 2,
    ensures
        f.output(a, 2 * k) == f.output(a, 2 * k + 1),
{
    let (c, d) = (a.take(2 * k + 1), a.take(2 * k + 2));
    assert forall|j: int| 0 <= j < d.len() as int / 2 implies #[trigger] d[2 * j] == d[2 * j
        + 1] by {
        assert(a[2 * j] == a[2 * j + 1]);
    }
    heard_on_both_sides(f, d);
    assert(d.drop_last() =~= c);
    assert((d.len() - 1) % 2 == 1);
    assert((2 * k) % 2 == 0 && (2 * k + 1) % 2 == 1);
}

/// Both sides are treated alike: what comes in the same on both sides goes out the same on
/// both, as long as the effect remembers the same of both.
pub proof fn both_sides_are_treated_alike(
    before: Effect,
    after: Effect,
    a: Seq<Scalar>,
    output: Seq<Scalar>,
    rate: u32,
    given: Given,
    k: int,
)
    requires
        same_on_both(a),
        treats(before, after, a, output, rate, given),
        before matches Effect::Distortion(p) ==> p.enabled ==> same_on_both(given->shapes@)
            && given->shapes@.len() == a.len(),
        before matches Effect::Bitcrush(p) ==> p.hold.0 == p.hold.1,
        before matches Effect::Telephone(p) ==> rebuilt(p, rate, given).hp.left == rebuilt(
            p,
            rate,
            given,
        ).hp.right && rebuilt(p, rate, given).lp.left == rebuilt(p, rate, given).lp.right,
        0 <= k < a.len() as int / 2,
    ensures
        output[2 * k] == output[2 * k + 1],
{
    assert(a[2 * k] == a[2 * k + 1]);
    assert(output[2 * k] == output[2 * k] && output[2 * k + 1] == output[2 * k + 1]);
    assert((2 * k) / 2 == k && (2 * k + 1) / 2 == k);
    assert((2 * k) % 2 == 0 && (2 * k + 1) % 2 == 1);
    match before {
        Effect::Distortion(p) => {
            if p.enabled {
                assert(given->shapes@[2 * k] == given->shapes@[2 * k + 1]);
            }
        },
        Effect::Bitcrush(p) => {
            held_on_both_sides(p, a, given->power.larger(milli(1000)), k);
        },
        Effect::Telephone(p) => {
            let q = rebuilt(p, rate, given);
            let c = q.narrowed(a);
            assert forall|j: int| 0 <= j < c.len() as int / 2 implies #[trigger] c[2 * j] == c[2
                * j + 1] by {
                output_on_both_sides(q.hp, a, j);
            }
            output_on_both_sides(q.lp, c, k);
        },
        _ => {},
    }
}

/// A bitcrusher that begins holds the first frame of every group of frames, as many as it
/// is set to.
pub proof fn the_first_of_a_group_is_held(
    p: BitcrushPlugin,
    samples: Seq<Scalar>,
    steps: Scalar,
    side: int,
    f: int,
)
    requires
        p.counter == 0,
        p.factor() > 0,
        0 <= side <= 1,
        0 <= f,
        2 * f + side < samples.len(),
    ensures
        p.held(samples, steps, side, f) == quantised(
            samples[2 * (f - f % (p.factor() as int)) + side],
            steps,
        ),
    decreases f,
{
    let n = p.factor() as int;
    samples_are_held(f as nat, p.factor());
    if f % n != 0 {
        let (q, r) = (f / n, f % n);
        vstd::arithmetic::div_mod::lemma_fundamental_div_mod(f, n);
        assert(n * q == q * n) by (nonlinear_arith);
        lemma_fundamental_div_mod_converse(f - 1, n, q, r - 1);
        the_first_of_a_group_is_held(p, samples, steps, side, f - 1);
    }
}

/// Each filter of a telephone belongs to one of the two cutoffs: another high cutoff leaves
/// the filter of the low one alone, and the other way round.
pub proof fn each_filter_has_its_cutoff(
    p: TelephonePlugin,
    rate: u32,
    low: (Scalar, Scalar),
    high: (Scalar, Scalar),
    other: (Scalar, Scalar),
)
    ensures
        rebuilt(p, rate, Given::Filters { low, high }).hp == rebuilt(
            p,
            rate,
            Given::Filters { low, high: other },
        ).hp,
        rebuilt(p, rate, Given::Filters { low, high }).lp == rebuilt(
            p,
            rate,
            Given::Filters { low: other, high },
        ).lp,
        rebuilt(p, rate, Given::Filters { low, high }).low_cut == p.low_cut,
        rebuilt(p, rate, Given::Filters { low, high }).high_cut == p.high_cut,
{
}

/// Silence has no level.
pub proof fn silence_has_no_level(samples: Seq<Scalar>)
    requires
        forall|i: int| 0 <= i < samples.len() ==> (#[trigger] samples[i]).magnitude() == 0,
        samples.len() <= u64::MAX,
    ensures
        level_of(samples).magnitude() == 0,
{
    milli_zero();
    if samples.len() > 0 {
        squares_of_silence(samples);
        wholes_keep_order(samples.len(), samples.len());
        nothing_shared(squares(samples), whole(samples.len()));
        reveal(Scalar::root);
    }
}

proof fn squares_of_silence(samples: Seq<Scalar>)
    requires
        forall|i: int| 0 <= i < samples.len() ==> (#[trigger] samples[i]).magnitude() == 0,
    ensures
        squares(samples).magnitude() == 0,
        squares(samples).is_finite(),
    decreases samples.len(),
{
    milli_zero();
    if samples.len() > 0 {
        squares_of_silence(samples.drop_last());
        let x = samples.last();
        assert(samples[samples.len() - 1].magnitude() == 0);
        product_by_zero(x, x);
        nothing_and(squares(samples.drop_last()), x.product(x));
    }
}

/// The level does not depend on the sign of the samples.
pub proof fn signs_have_no_level(a: Seq<Scalar>, b: Seq<Scalar>)
    requires
        a.len() == b.len(),
        forall|i: int|
            0 <= i < a.len() ==> (#[trigger] a[i]).magnitude() == b[i].magnitude() && !a[i].is_nan(),
    ensures
        level_of(a) == level_of(b),
{
    squares_without_signs(a, b);
}

proof fn squares_without_signs(a: Seq<Scalar>, b: Seq<Scalar>)
    requires
        a.len() == b.len(),
        forall|i: int|
            0 <= i < a.len() ==> (#[trigger] a[i]).magnitude() == b[i].magnitude() && !a[i].is_nan(),
    ensures
        squares(a) == squares(b),
    decreases a.len(),
{
    if a.len() > 0 {
        reveal(Scalar::product);
        assert forall|i: int| 0 <= i < a.drop_last().len() implies (
        #[trigger] a.drop_last()[i]).magnitude() == b.drop_last()[i].magnitude() && !a.drop_last()[i].is_nan() by {
            assert(a[i].magnitude() == b[i].magnitude());
        }
        squares_without_signs(a.drop_last(), b.drop_last());
        assert(a[a.len() - 1].magnitude() == b[a.len() - 1].magnitude());
    }
}

/// Both sides count for the level: a frame and its mirror are equally loud.
pub proof fn both_sides_have_a_level(left: Scalar, right: Scalar)
    requires
        left.is_finite(),
        right.is_finite(),
    ensures
        level_of(seq![left, right]) == level_of(seq![right, left]),
{
    let (x, y) = (left.product(left), right.product(right));
    reveal_with_fuel(squares, 3);
    assert(seq![left, right].drop_last() =~= seq![left]);
    assert(seq![right, left].drop_last() =~= seq![right]);
    assert(seq![left].drop_last() =~= Seq::<Scalar>::empty());
    assert(seq![right].drop_last() =~= Seq::<Scalar>::empty());
    milli_zero();
    squares_are_not_negative(left);
    squares_are_not_negative(right);
    nothing_in_front(x);
    nothing_in_front(y);
    sums_commute(x, y);
}

/// The filter of the low cutoff sets a sample against the one before it, so that what does
/// not change is taken away; the filter of the high cutoff adds the two up.
pub proof fn one_filter_differs_and_one_adds(sine: Scalar, cosine: Scalar, highpass: bool)
    requires
        cosine.is_finite(),
        milli(-1000).le(cosine),
        cosine.le(milli(1000)),
        milli(1000).sum(cosine).is_finite(),
        milli(1000).difference(cosine).is_finite(),
        milli(1000).sum(sine.ratio(milli(2000).product(Scalar { bits: HALF_ROOT_BITS }))).is_finite(),
        milli(1000).sum(sine.ratio(milli(2000).product(Scalar { bits: HALF_ROOT_BITS }))).place() > 0,
    ensures
        Biquad::section_for(sine, cosine, true).b1.place() <= 0,
        Biquad::section_for(sine, cosine, false).b1.place() >= 0,
        Biquad::section_for(sine, cosine, highpass).b2 == Biquad::section_for(
            sine,
            cosine,
            highpass,
        ).b0,
        Biquad::section_for(sine, cosine, true).a1 == Biquad::section_for(sine, cosine, false).a1,
        Biquad::section_for(sine, cosine, true).a2 == Biquad::section_for(sine, cosine, false).a2,
{
    let one = milli(1000);
    let a0 = one.sum(sine.ratio(milli(2000).product(Scalar { bits: HALF_ROOT_BITS })));
    one_and_minus_one();
    one_more_is_not_below_nothing(cosine);
    sign_changes(one.sum(cosine));
    share_of_nothing_or_less(one.sum(cosine).negated(), a0);
    differences_have_signs(one, cosine);
    share_of_nothing_or_more(one.difference(cosine), a0);
}

/// Each weight of a filter belongs to its own sample: to the one that comes in or one of
/// the two before it, or, with the other sign, to one of the two that went out before.
pub proof fn each_weight_has_its_sample(
    f: Biquad,
    x: Scalar,
    x1: Scalar,
    x2: Scalar,
    y1: Scalar,
    y2: Scalar,
)
    requires
        x.is_finite(),
        x1.is_finite(),
        x2.is_finite(),
        y1.is_finite(),
        y2.is_finite(),
    ensures
        weighs(f, milli(1000), milli(0), milli(0), milli(0), milli(0)) ==> f.response(
            x,
            x1,
            x2,
            y1,
            y2,
        ).place() == x.place(),
        weighs(f, milli(0), milli(1000), milli(0), milli(0), milli(0)) ==> f.response(
            x,
            x1,
            x2,
            y1,
            y2,
        ).place() == x1.place(),
        weighs(f, milli(0), milli(0), milli(1000), milli(0), milli(0)) ==> f.response(
            x,
            x1,
            x2,
            y1,
            y2,
        ).place() == x2.place(),
        weighs(f, milli(0), milli(0), milli(0), milli(1000), milli(0)) ==> f.response(
            x,
            x1,
            x2,
            y1,
            y2,
        ).place() == -y1.place(),
        weighs(f, milli(0), milli(0), milli(0), milli(0), milli(1000)) ==> f.response(
            x,
            x1,
            x2,
            y1,
            y2,
        ).place() == -y2.place(),
{
    let (p, q, r) = (f.b0.product(x), f.b1.product(x1), f.b2.product(x2));
    let (s, t) = (f.a1.product(y1), f.a2.product(y2));
    reveal(Biquad::response);
    milli_zero();
    let zero = milli(0);
    product_by_one(x);
    product_by_one(x1);
    product_by_one(x2);
    product_by_one(y1);
    product_by_one(y2);
    product_by_zero(x, zero);
    product_by_zero(x1, zero);
    product_by_zero(x2, zero);
    product_by_zero(y1, zero);
    product_by_zero(y2, zero);
    if weighs(f, milli(1000), zero, zero, zero, zero) {
        one_term_is_left(p, q, r, s, t);
    }
    if weighs(f, zero, milli(1000), zero, zero, zero) {
        one_term_is_left(p, q, r, s, t);
    }
    if weighs(f, zero, zero, milli(1000), zero, zero) {
        one_term_is_left(p, q, r, s, t);
    }
    if weighs(f, zero, zero, zero, milli(1000), zero) {
        one_term_is_left(p, q, r, s, t);
    }
    if weighs(f, zero, zero, zero, zero, milli(1000)) {
        one_term_is_left(p, q, r, s, t);
    }
}

proof fn one_term_is_left(p: Scalar, q: Scalar, r: Scalar, s: Scalar, t: Scalar)
    requires
        p.is_finite(),
        q.is_finite(),
        r.is_finite(),
        s.is_finite(),
        t.is_finite(),
        (p.magnitude() == 0 && q.magnitude() == 0) || (p.magnitude() == 0 || q.magnitude() == 0)
            && r.magnitude() == 0,
        (p.magnitude() == 0 && q.magnitude() == 0 && r.magnitude() == 0) || s.magnitude() == 0,
        (p.magnitude() == 0 && q.magnitude() == 0 && r.magnitude() == 0 && s.magnitude() == 0)
            || t.magnitude() == 0,
    ensures
        p.sum(q).sum(r).difference(s).difference(t).place() == p.place() + q.place() + r.place()
            - s.place() - t.place(),
{
    let u = p.sum(q);
    nothing_and(p, q);
    assert(u.place() == p.place() + q.place());
    let v = u.sum(r);
    nothing_and(u, r);
    assert(v.place() == u.place() + r.place());
    sign_changes(s);
    assert(s.negated().place() == -s.place() && s.negated().is_finite());
    nothing_and(v, s.negated());
    let w = v.difference(s);
    assert(w.place() == v.place() - s.place());
    sign_changes(t);
    assert(t.negated().place() == -t.place() && t.negated().is_finite());
    nothing_and(w, t.negated());
}

/// The weights of a filter.
pub open spec fn weighs(
    f: Biquad,
    b0: Scalar,
    b1: Scalar,
    b2: Scalar,
    a1: Scalar,
    a2: Scalar,
) -> bool {
    f.b0 == b0 && f.b1 == b1 && f.b2 == b2 && f.a1 == a1 && f.a2 == a2
}

} // verus!
