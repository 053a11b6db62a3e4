//! What the effects do to the sound, from one block to the next.

use vstd::prelude::*;

use super::builtin::bitcrush::counter_after;
use super::builtin::gate::{duration, level_of};
use super::builtin::telephone::{filters_are_old, Biquad};
use super::builtin::{BitcrushPlugin, NoiseGatePlugin};
use super::run::{answers, rebuilt, treats, Given};
use super::Effect;
use crate::rounding::milli;
use crate::scalar::Scalar;

verus! {

// ── The noise gate ───────────────────────────────────────────────────────────

/// Blocks go through a noise gate one after the other: `gates` holds its state before each
/// block and after the last.
pub open spec fn gate_runs(
    gates: Seq<NoiseGatePlugin>,
    inputs: Seq<Seq<Scalar>>,
    outputs: Seq<Seq<Scalar>>,
    rate: u32,
) -> bool {
    &&& gates.len() == inputs.len() + 1
    &&& outputs.len() == inputs.len()
    &&& forall|k: int|
        0 <= k < inputs.len() ==> treats(
            Effect::Gate(gates[k]),
            Effect::Gate(gates[k + 1]),
            #[trigger] inputs[k],
            outputs[k],
            rate,
            Given::Nothing,
        )
}

/// The frames of all blocks together.
pub open spec fn total_frames(blocks: Seq<Seq<Scalar>>) -> nat
    decreases blocks.len(),
{
    if blocks.len() == 0 {
        0
    } else {
        total_frames(blocks.drop_last()) + blocks.last().len() / 2
    }
}

/// Every block from the second on is loud for a noise gate, or none is.
pub open spec fn then_all(gate: NoiseGatePlugin, inputs: Seq<Seq<Scalar>>, loud: bool) -> bool {
    forall|k: int|
        1 <= k < inputs.len() ==> gate.threshold.le(level_of(#[trigger] inputs[k])) == loud
}

/// A noise gate that runs keeps its settings.
proof fn a_running_gate_keeps_its_settings(
    gates: Seq<NoiseGatePlugin>,
    inputs: Seq<Seq<Scalar>>,
    outputs: Seq<Seq<Scalar>>,
    rate: u32,
    k: int,
)
    requires
        gate_runs(gates, inputs, outputs, rate),
        0 <= k < gates.len(),
    ensures
        gates[k].enabled == gates[0].enabled,
        gates[k].threshold == gates[0].threshold,
        gates[k].attack_ms == gates[0].attack_ms,
        gates[k].release_ms == gates[0].release_ms,
    decreases k,
{
    if k > 0 {
        a_running_gate_keeps_its_settings(gates, inputs, outputs, rate, k - 1);
        let block = inputs[k - 1];
    }
}

/// Only quiet frames in a row close a noise gate. After a loud block, an open gate stays open
/// as long as the quiet blocks that follow are shorter in total than the release, whatever
/// came before the loud block, and it lets every one of them through; from then on it is
/// closed and silent.
pub proof fn only_quiet_in_a_row_closes_the_gate(
    gates: Seq<NoiseGatePlugin>,
    inputs: Seq<Seq<Scalar>>,
    outputs: Seq<Seq<Scalar>>,
    rate: u32,
    k: int,
)
    requires
        gate_runs(gates, inputs, outputs, rate),
        gates[0].enabled,
        gates[0].gate_open,
        1 <= k <= inputs.len(),
        gates[0].threshold.le(level_of(inputs[0])),
        then_all(gates[0], inputs, false),
    ensures
        ({
            let quiet = total_frames(inputs.subrange(1, k));
            let open = quiet == 0 || quiet < duration(gates[0].release_ms, rate);
            &&& gates[k].gate_open == open
            &&& open ==> outputs[k - 1] == inputs[k - 1]
            &&& !open ==> forall|i: int|
                0 <= i < outputs[k - 1].len() ==> #[trigger] outputs[k - 1][i] == (Scalar {
                    bits: 0,
                })
        }),
{
    quiet_run(gates, inputs, outputs, rate, k);
    a_running_gate_keeps_its_settings(gates, inputs, outputs, rate, k - 1);
    let block = inputs[k - 1];
    if gates[k].gate_open {
        assert(outputs[k - 1] =~= inputs[k - 1]);
    }
}

proof fn quiet_run(
    gates: Seq<NoiseGatePlugin>,
    inputs: Seq<Seq<Scalar>>,
    outputs: Seq<Seq<Scalar>>,
    rate: u32,
    k: int,
)
    requires
        gate_runs(gates, inputs, outputs, rate),
        gates[0].enabled,
        gates[0].gate_open,
        1 <= k <= inputs.len(),
        gates[0].threshold.le(level_of(inputs[0])),
        then_all(gates[0], inputs, false),
    ensures
        ({
            let quiet = total_frames(inputs.subrange(1, k));
            &&& gates[k].gate_open == (quiet == 0 || quiet < duration(gates[0].release_ms, rate))
            &&& gates[k].gate_open ==> gates[k].release_counter == quiet
        }),
    decreases k,
{
    a_running_gate_keeps_its_settings(gates, inputs, outputs, rate, k - 1);
    let block = inputs[k - 1];
    if k == 1 {
        assert(inputs.subrange(1, 1) =~= Seq::empty());
    } else {
        quiet_run(gates, inputs, outputs, rate, k - 1);
        assert(inputs.subrange(1, k).drop_last() =~= inputs.subrange(1, k - 1));
        assert(inputs.subrange(1, k).last() == inputs[k - 1]);
    }
}

/// Only loud frames in a row open a noise gate. After a quiet block, a closed gate stays closed
/// and silent as long as the loud blocks that follow are shorter in total than the attack,
/// whatever came before the quiet block; from then on it is open and lets them through.
pub proof fn only_loud_in_a_row_opens_the_gate(
    gates: Seq<NoiseGatePlugin>,
    inputs: Seq<Seq<Scalar>>,
    outputs: Seq<Seq<Scalar>>,
    rate: u32,
    k: int,
)
    requires
        gate_runs(gates, inputs, outputs, rate),
        gates[0].enabled,
        !gates[0].gate_open,
        1 <= k <= inputs.len(),
        !gates[0].threshold.le(level_of(inputs[0])),
        then_all(gates[0], inputs, true),
    ensures
        ({
            let loud = total_frames(inputs.subrange(1, k));
            let open = loud > 0 && loud >= duration(gates[0].attack_ms, rate);
            &&& gates[k].gate_open == open
            &&& open ==> outputs[k - 1] == inputs[k - 1]
            &&& !open ==> forall|i: int|
                0 <= i < outputs[k - 1].len() ==> #[trigger] outputs[k - 1][i] == (Scalar {
                    bits: 0,
                })
        }),
{
    loud_run(gates, inputs, outputs, rate, k);
    a_running_gate_keeps_its_settings(gates, inputs, outputs, rate, k - 1);
    let block = inputs[k - 1];
    if gates[k].gate_open {
        assert(outputs[k - 1] =~= inputs[k - 1]);
    }
}

proof fn loud_run(
    gates: Seq<NoiseGatePlugin>,
    inputs: Seq<Seq<Scalar>>,
    outputs: Seq<Seq<Scalar>>,
    rate: u32,
    k: int,
)
    requires
        gate_runs(gates, inputs, outputs, rate),
        gates[0].enabled,
        !gates[0].gate_open,
        1 <= k <= inputs.len(),
        !gates[0].threshold.le(level_of(inputs[0])),
        then_all(gates[0], inputs, true),
    ensures
        ({
            let loud = total_frames(inputs.subrange(1, k));
            &&& gates[k].gate_open == (loud > 0 && loud >= duration(gates[0].attack_ms, rate))
            &&& !gates[k].gate_open ==> gates[k].attack_counter == loud
        }),
    decreases k,
{
    a_running_gate_keeps_its_settings(gates, inputs, outputs, rate, k - 1);
    let block = inputs[k - 1];
    if k == 1 {
        assert(inputs.subrange(1, 1) =~= Seq::empty());
    } else {
        loud_run(gates, inputs, outputs, rate, k - 1);
        assert(inputs.subrange(1, k).drop_last() =~= inputs.subrange(1, k - 1));
        assert(inputs.subrange(1, k).last() == inputs[k - 1]);
    }
}

// ── From block to block ──────────────────────────────────────────────────────

/// What was calculated for two blocks one after the other is what was calculated for both
/// at once.
pub open spec fn given_in_pieces(whole: Given, first: Given, second: Given) -> bool {
    match whole {
        Given::Shapes { shapes, top } => {
            &&& first matches Given::Shapes { shapes: a, top: t } && second matches Given::Shapes {
                shapes: b,
                top: u,
            } && shapes@ == a@ + b@ && t == top && u == top
        },
        _ => whole == first && (whole is Power ==> second == whole),
    }
}

/// An effect but the noise gate, which goes by the level of a block, does not hear where a
/// block ends and the next begins: two blocks come out as the one that they make together.
pub proof fn blocks_can_be_cut_anywhere(
    before: Effect,
    between: Effect,
    after: Effect,
    at_once: Effect,
    a: Seq<Scalar>,
    b: Seq<Scalar>,
    first: Seq<Scalar>,
    second: Seq<Scalar>,
    whole: Seq<Scalar>,
    rate: u32,
    givens: (Given, Given, Given),
)
    requires
        !(before is Gate),
        a.len() % 2 == 0,
        before matches Effect::Telephone(p) ==> !p.low_cut.is_nan() && !p.high_cut.is_nan(),
        given_in_pieces(givens.0, givens.1, givens.2),
        answers(before, (a + b).len(), rate, givens.0),
        answers(before, a.len(), rate, givens.1),
        answers(between, b.len(), rate, givens.2),
        treats(before, at_once, a + b, whole, rate, givens.0),
        treats(before, between, a, first, rate, givens.1),
        treats(between, after, b, second, rate, givens.2),
    ensures
        whole == first + second,
        after == at_once,
{
    let all = a + b;
    match before {
        Effect::Gain(p) => {
            assert(whole =~= first + second);
        },
        Effect::Gate(_) => {},
        Effect::Distortion(p) => {
            assert(whole =~= first + second);
        },
        Effect::Bitcrush(p) => {
            if p.enabled {
                let steps = givens.0->power.larger(milli(1000));
                let q = between->Bitcrush_0;
                assert((a.len() + 1) as nat / 2 == a.len() as nat / 2);
                bitcrush_in_pieces(p, q, a, b, steps);
                assert forall|i: int| 0 <= i < all.len() implies whole[i] == (first + second)[i] by {
                    if i < a.len() {
                        held_by_the_past(p, a, b, steps, i % 2, i / 2);
                        assert(all[i] == a[i]);
                    } else {
                        let j = i - a.len();
                        assert(j % 2 == i % 2 && j / 2 + a.len() as int / 2 == i / 2);
                        held_in_pieces(p, q, a, b, steps, i % 2, j / 2);
                        assert(all[i] == b[j]);
                        assert(q.blended(b[j], q.held(b, steps, j % 2, j / 2)) == p.blended(
                            all[i],
                            p.held(all, steps, i % 2, i / 2),
                        ));
                    }
                }
                assert(whole =~= first + second);
            } else {
                assert(whole =~= first + second);
            }
        },
        Effect::Telephone(p) => {
            if p.enabled {
                telephone_in_pieces(before, between, after, at_once, a, b, first, second, whole, rate, givens);
            } else {
                assert(whole =~= first + second);
            }
        },
        Effect::Lv2(_) => {
            assert(whole =~= first + second);
        },
    }
}

proof fn counter_in_pieces(start: nat, k: nat, l: nat, factor: nat)
    ensures
        counter_after(counter_after(start, k, factor), l, factor) == counter_after(
            start,
            k + l,
            factor,
        ),
    decreases l,
{
    if l > 0 {
        counter_in_pieces(start, k, (l - 1) as nat, factor);
    }
}

/// What is held while the first of two blocks runs does not depend on the second.
proof fn held_by_the_past(
    p: BitcrushPlugin,
    a: Seq<Scalar>,
    b: Seq<Scalar>,
    steps: Scalar,
    channel: int,
    f: int,
)
    requires
        0 <= channel <= 1,
        f < a.len() as int / 2,
        a.len() % 2 == 0,
    ensures
        p.held(a + b, steps, channel, f) == p.held(a, steps, channel, f),
    decreases f + 1,
{
    if f >= 0 {
        assert(2 * f + channel < a.len());
        assert((a + b)[2 * f + channel] == a[2 * f + channel]);
        held_by_the_past(p, a, b, steps, channel, f - 1);
    }
}

/// `q` is the effect `p` after the block `a`.
spec fn is_after(p: BitcrushPlugin, q: BitcrushPlugin, a: Seq<Scalar>, steps: Scalar) -> bool {
    let frames = a.len() as int / 2;
    &&& q.counter == counter_after(p.counter as nat, frames as nat, p.factor())
    &&& q == (BitcrushPlugin {
        hold: (p.held(a, steps, 0, frames - 1), p.held(a, steps, 1, frames - 1)),
        counter: q.counter,
        ..p
    })
}

proof fn held_in_pieces(
    p: BitcrushPlugin,
    q: BitcrushPlugin,
    a: Seq<Scalar>,
    b: Seq<Scalar>,
    steps: Scalar,
    channel: int,
    f: int,
)
    requires
        0 <= channel <= 1,
        -1 <= f,
        a.len() % 2 == 0,
        is_after(p, q, a, steps),
    ensures
        q.held(b, steps, channel, f) == p.held(a + b, steps, channel, a.len() as int / 2 + f),
    decreases f + 1,
{
    let frames = a.len() as int / 2;
    if f < 0 {
        held_by_the_past(p, a, b, steps, channel, frames - 1);
    } else {
        held_in_pieces(p, q, a, b, steps, channel, f - 1);
        counter_in_pieces(p.counter as nat, frames as nat, f as nat, p.factor());
        assert(q.factor() == p.factor());
        if 2 * f + channel < b.len() {
            assert((a + b)[2 * (frames + f) + channel] == b[2 * f + channel]);
        }
    }
}

proof fn bitcrush_in_pieces(
    p: BitcrushPlugin,
    q: BitcrushPlugin,
    a: Seq<Scalar>,
    b: Seq<Scalar>,
    steps: Scalar,
)
    requires
        a.len() % 2 == 0,
        is_after(p, q, a, steps),
    ensures
        ({
            let (n, m) = ((b.len() + 1) as nat / 2, ((a + b).len() + 1) as nat / 2);
            &&& m == a.len() as nat / 2 + n
            &&& counter_after(q.counter as nat, n, p.factor()) == counter_after(
                p.counter as nat,
                m,
                p.factor(),
            )
            &&& q.held(b, steps, 0, n - 1) == p.held(a + b, steps, 0, m - 1)
            &&& q.held(b, steps, 1, n - 1) == p.held(a + b, steps, 1, m - 1)
        }),
{
    let (n, m) = ((b.len() + 1) as nat / 2, ((a + b).len() + 1) as nat / 2);
    let frames = a.len() as nat / 2;
    counter_in_pieces(p.counter as nat, frames, n, p.factor());
    held_in_pieces(p, q, a, b, steps, 0, n - 1);
    held_in_pieces(p, q, a, b, steps, 1, n - 1);
}

/// The filter `f` after it has heard `a`.
spec fn heard(f: Biquad, a: Seq<Scalar>) -> Biquad {
    Biquad { left: f.after(a).0, right: f.after(a).1, ..f }
}

proof fn filter_in_pieces(f: Biquad, a: Seq<Scalar>, b: Seq<Scalar>)
    requires
        a.len() % 2 == 0,
    ensures
        f.after(a + b) == heard(f, a).after(b),
    decreases b.len(),
{
    let g = heard(f, a);
    if b.len() == 0 {
        assert(a + b =~= a);
    } else {
        filter_in_pieces(f, a, b.drop_last());
        assert((a + b).drop_last() =~= a + b.drop_last());
        assert((a + b).last() == b.last());
        assert(((a + b).len() - 1) % 2 == (b.len() - 1) % 2);
        let (left, right) = g.after(b.drop_last());
        reveal(Biquad::response);
        assert(g.step(left, b.last()) == f.step(left, b.last()));
        assert(g.step(right, b.last()) == f.step(right, b.last()));
    }
}

proof fn output_in_pieces(f: Biquad, a: Seq<Scalar>, b: Seq<Scalar>, i: int)
    requires
        a.len() % 2 == 0,
        0 <= i < a.len() + b.len(),
    ensures
        f.output(a + b, i) == (if i < a.len() {
            f.output(a, i)
        } else {
            heard(f, a).output(b, i - a.len())
        }),
{
    if i < a.len() {
        assert((a + b).take(i + 1) =~= a.take(i + 1));
    } else {
        let j = i - a.len();
        assert((a + b).take(i + 1) =~= a + b.take(j + 1));
        filter_in_pieces(f, a, b.take(j + 1));
        assert(i % 2 == j % 2);
    }
}

proof fn telephone_in_pieces(
    before: Effect,
    between: Effect,
    after: Effect,
    at_once: Effect,
    a: Seq<Scalar>,
    b: Seq<Scalar>,
    first: Seq<Scalar>,
    second: Seq<Scalar>,
    whole: Seq<Scalar>,
    rate: u32,
    givens: (Given, Given, Given),
)
    requires
        before matches Effect::Telephone(p) && p.enabled && !p.low_cut.is_nan()
            && !p.high_cut.is_nan() && (filters_are_old(p, rate) ==> givens.0 is Filters),
        a.len() % 2 == 0,
        rebuilt(before->Telephone_0, rate, givens.0) == rebuilt(
            before->Telephone_0,
            rate,
            givens.1,
        ),
        treats(before, at_once, a + b, whole, rate, givens.0),
        treats(before, between, a, first, rate, givens.1),
        treats(between, after, b, second, rate, givens.2),
    ensures
        whole == first + second,
        after == at_once,
{
    let p = before->Telephone_0;
    let q = rebuilt(p, rate, givens.0);
    let all = a + b;
    let middle = q.narrowed(all);
    let r = between->Telephone_0;
    assert(!filters_are_old(r, rate));
    assert(rebuilt(r, rate, givens.2) == r);
    let (one, two) = (q.narrowed(a), r.narrowed(b));
    assert(r.hp == heard(q.hp, a));
    assert(r.lp == heard(q.lp, one));
    assert forall|i: int| 0 <= i < all.len() implies middle[i] == (one + two)[i] by {
        output_in_pieces(q.hp, a, b, i);
    }
    assert(middle =~= one + two);
    filter_in_pieces(q.hp, a, b);
    filter_in_pieces(q.lp, one, two);
    assert forall|i: int| 0 <= i < all.len() implies whole[i] == (first + second)[i] by {
        output_in_pieces(q.lp, one, two, i);
    }
    assert(whole =~= first + second);
}

} // verus!
