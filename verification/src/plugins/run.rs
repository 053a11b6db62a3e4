//! Sending a block of samples through the chain.
//!
//! Most of what an effect does to a block is arithmetic on single-precision numbers.
//! Sines, powers and hyperbolic tangents are not, and a plugin runs in its host. So an
//! effect first says what it needs to have calculated, and then takes the block together
//! with the results.

use vstd::prelude::*;

use super::host::PluginChain;
use super::Effect;
use crate::audio::engine::cut_off;
use crate::audio::virtual_device::CHANNELS;
use crate::plugins::builtin::bitcrush::counter_after;
use crate::plugins::builtin::gate::{after_block, duration, level_of};
use crate::plugins::builtin::telephone::{angle, angle_of, filters_are_old, Biquad};
use crate::plugins::builtin::{BitcrushPlugin, NoiseGatePlugin, TelephonePlugin};
use crate::rounding::{from_milli, milli};
use crate::scalar::Scalar;

verus! {

/// What has to be calculated for a block before an effect can take it.
pub enum Needs {
    Nothing,
    /// The hyperbolic tangents of these, one for each sample, and of the drive.
    Shapes { driven: Vec<Scalar>, drive: Scalar },
    /// 2 to the power of this.
    Power { exponent: Scalar },
    /// The sines and cosines of the angles of the two cutoffs.
    Filters { low: Scalar, high: Scalar },
    /// The plugin runs on the block.
    Run,
}

/// What was calculated.
pub enum Given {
    Nothing,
    Shapes { shapes: Vec<Scalar>, top: Scalar },
    Power { power: Scalar },
    /// Sine and cosine for each cutoff.
    Filters { low: (Scalar, Scalar), high: (Scalar, Scalar) },
}

/// The needs of an effect for a block.
pub open spec fn is_needed(effect: Effect, samples: Seq<Scalar>, rate: u32, needs: Needs) -> bool {
    match effect {
        Effect::Gain(p) => needs is Nothing,
        Effect::Gate(p) => needs is Nothing,
        Effect::Distortion(p) => if p.enabled {
            &&& needs matches Needs::Shapes { driven, drive }
            &&& driven@ == samples.map_values(|dry: Scalar| dry.product(p.drive))
            &&& drive == p.drive
        } else {
            needs is Nothing
        },
        Effect::Bitcrush(p) => if p.enabled {
            needs matches Needs::Power { exponent } && exponent == p.bits.difference(milli(1000))
        } else {
            needs is Nothing
        },
        Effect::Telephone(p) => if p.enabled && filters_are_old(p, rate) {
            &&& needs matches Needs::Filters { low, high }
            &&& low == angle_of(p.low_cut, rate)
            &&& high == angle_of(p.high_cut, rate)
        } else {
            needs is Nothing
        },
        Effect::Lv2(p) => if p.enabled && p.audio_in > 0 && p.audio_out > 0 {
            needs is Run
        } else {
            needs is Nothing
        },
    }
}

/// What was calculated is what the effect needs for a block of `n` samples.
pub open spec fn answers(effect: Effect, n: nat, rate: u32, given: Given) -> bool {
    match effect {
        Effect::Distortion(p) => p.enabled ==> (given matches Given::Shapes { shapes, .. }
            && shapes@.len() == n),
        Effect::Bitcrush(p) => p.enabled ==> given is Power,
        Effect::Telephone(p) => p.enabled && filters_are_old(p, rate) ==> given is Filters,
        _ => true,
    }
}

/// The effect with filters for its cutoffs and this rate.
pub open spec fn rebuilt(p: TelephonePlugin, rate: u32, given: Given) -> TelephonePlugin {
    match given {
        Given::Filters { low, high } => if p.enabled && filters_are_old(p, rate) {
            p.with_filters(
                Biquad::section_for(low.0, low.1, true),
                Biquad::section_for(high.0, high.1, false),
                rate,
            )
        } else {
            p
        },
        _ => p,
    }
}

/// The effect turns the block `input` into `output`, and itself into `after`. A plugin
/// is left to its host.
pub open spec fn treats(
    before: Effect,
    after: Effect,
    input: Seq<Scalar>,
    output: Seq<Scalar>,
    rate: u32,
    given: Given,
) -> bool {
    &&& output.len() == input.len()
    &&& match before {
        Effect::Gain(p) => {
            &&& after == before
            &&& forall|i: int|
                0 <= i < output.len() ==> #[trigger] output[i] == (if p.idle() {
                    input[i]
                } else {
                    cut_off(input[i].product(p.gain))
                })
        },
        Effect::Gate(p) => {
            &&& after matches Effect::Gate(q)
            &&& q.state() == (if p.enabled {
                after_block(
                    p.state(),
                    p.threshold.le(level_of(input)),
                    input.len() / CHANNELS as nat,
                    duration(p.attack_ms, rate),
                    duration(p.release_ms, rate),
                )
            } else {
                p.state()
            })
            &&& q == (NoiseGatePlugin {
                gate_open: q.gate_open,
                attack_counter: q.attack_counter,
                release_counter: q.release_counter,
                ..p
            })
            &&& forall|i: int|
                0 <= i < output.len() ==> #[trigger] output[i] == (if p.enabled && !q.gate_open {
                    Scalar { bits: 0 }
                } else {
                    input[i]
                })
        },
        Effect::Distortion(p) => {
            &&& after == before
            &&& forall|i: int|
                0 <= i < output.len() ==> #[trigger] output[i] == (if p.enabled {
                    p.blended(input[i], given->shapes@[i], given->top)
                } else {
                    input[i]
                })
        },
        Effect::Bitcrush(p) => if p.enabled {
            let steps = given->power.larger(milli(1000));
            let frames = (input.len() + 1) as nat / 2;
            &&& after matches Effect::Bitcrush(q)
            &&& q.counter == counter_after(p.counter as nat, frames, p.factor())
            &&& q == (BitcrushPlugin {
                hold: (p.held(input, steps, 0, frames - 1), p.held(input, steps, 1, frames - 1)),
                counter: q.counter,
                ..p
            })
            &&& forall|i: int|
                0 <= i < output.len() ==> #[trigger] output[i] == p.crushed(input, steps, i)
        } else {
            after == before && output == input
        },
        Effect::Telephone(p) => if p.enabled {
            let q = rebuilt(p, rate, given);
            let middle = q.narrowed(input);
            &&& after == Effect::Telephone(
                TelephonePlugin {
                    hp: Biquad { left: q.hp.after(input).0, right: q.hp.after(input).1, ..q.hp },
                    lp: Biquad { left: q.lp.after(middle).0, right: q.lp.after(middle).1, ..q.lp },
                    ..q
                },
            )
            &&& forall|i: int|
                0 <= i < output.len() ==> #[trigger] output[i] == cut_off(q.lp.output(middle, i))
        } else {
            after == before && output == input
        },
        Effect::Lv2(p) => after == before && output == input,
    }
}

impl Effect {
    /// What has to be calculated for a block.
    pub fn needs(&self, samples: &Vec<Scalar>, sample_rate: u32) -> (r: Needs)
        ensures
            is_needed(*self, samples@, sample_rate, r),
    {
        match self {
            Effect::Gain(_) => Needs::Nothing,
            Effect::Gate(_) => Needs::Nothing,
            Effect::Distortion(p) => {
                if !p.enabled {
                    return Needs::Nothing;
                }
                let ghost shape = |dry: Scalar| dry.product(p.drive);
                let mut driven: Vec<Scalar> = Vec::new();
                let mut i: usize = 0;
                while i < samples.len()
                    invariant
                        i <= samples@.len(),
                        shape == (|dry: Scalar| dry.product(p.drive)),
                        driven@.len() == i,
                        forall|k: int| 0 <= k < i ==> #[trigger] driven@[k] == shape(samples@[k]),
                    decreases samples@.len() - i,
                {
                    driven.push(p.driven(samples[i]));
                    i = i + 1;
                }
                assert(driven@ =~= samples@.map_values(shape));
                Needs::Shapes { driven, drive: p.drive }
            },
            Effect::Bitcrush(p) => {
                if p.enabled {
                    Needs::Power { exponent: p.bits.minus(from_milli(1000)) }
                } else {
                    Needs::Nothing
                }
            },
            Effect::Telephone(p) => {
                if p.enabled && p.outdated(sample_rate) {
                    Needs::Filters {
                        low: angle(p.low_cut, sample_rate),
                        high: angle(p.high_cut, sample_rate),
                    }
                } else {
                    Needs::Nothing
                }
            },
            Effect::Lv2(p) => {
                if p.is_active() {
                    Needs::Run
                } else {
                    Needs::Nothing
                }
            },
        }
    }

    /// Takes a block.
    pub fn process(&mut self, samples: &mut Vec<Scalar>, sample_rate: u32, given: &Given)
        requires
            answers(*old(self), old(samples)@.len(), sample_rate, *given),
        ensures
            treats(*old(self), *final(self), old(samples)@, final(samples)@, sample_rate, *given),
    {
        match self {
            Effect::Gain(p) => p.process(samples),
            Effect::Gate(p) => p.process(samples, sample_rate),
            Effect::Distortion(p) => {
                match given {
                    Given::Shapes { shapes, top } => {
                        if p.enabled {
                            p.process(samples, shapes, *top);
                        }
                    },
                    _ => {},
                }
            },
            Effect::Bitcrush(p) => {
                match given {
                    Given::Power { power } => p.process(samples, *power),
                    _ => {},
                }
            },
            Effect::Telephone(p) => {
                match given {
                    Given::Filters { low, high } => {
                        if p.enabled && p.outdated(sample_rate) {
                            let hp = Biquad::section(low.0, low.1, true);
                            let lp = Biquad::section(high.0, high.1, false);
                            p.built(hp, lp, sample_rate);
                        }
                    },
                    _ => {},
                }
                p.process(samples);
            },
            Effect::Lv2(_) => {},
        }
    }
}

/// A block goes through the effect at `idx`: that effect treats it, the others stay.
pub open spec fn goes_through(
    before: Seq<Effect>,
    after: Seq<Effect>,
    idx: int,
    input: Seq<Scalar>,
    output: Seq<Scalar>,
    rate: u32,
    given: Given,
) -> bool {
    &&& after == before.update(idx, after[idx])
    &&& treats(before[idx], after[idx], input, output, rate, given)
}

/// A block goes through the plugin at `idx`: its host turns the block into another one of
/// the same length.
pub open spec fn is_hosted(
    before: Seq<Effect>,
    after: Seq<Effect>,
    idx: int,
    input: Seq<Scalar>,
    output: Seq<Scalar>,
) -> bool {
    before[idx] is Lv2 && after == before && output.len() == input.len()
}

impl PluginChain {
    /// What has to be calculated for a block that comes to the effect at `idx`; nothing
    /// if there is no such effect.
    pub fn needs(&self, idx: usize, samples: &Vec<Scalar>, sample_rate: u32) -> (r: Option<Needs>)
        ensures
            match r {
                Some(needs) => idx < self.plugins@.len() && is_needed(
                    self.plugins@[idx as int],
                    samples@,
                    sample_rate,
                    needs,
                ),
                None => idx >= self.plugins@.len(),
            },
    {
        if idx < self.plugins.len() {
            Some(self.plugins[idx].needs(samples, sample_rate))
        } else {
            None
        }
    }

    /// Sends a block through the effect at `idx`.
    pub fn process(
        &mut self,
        idx: usize,
        samples: &mut Vec<Scalar>,
        sample_rate: u32,
        given: &Given,
    )
        requires
            old(self).wf(),
            idx < old(self).plugins@.len(),
            answers(old(self).plugins@[idx as int], old(samples)@.len(), sample_rate, *given),
        ensures
            final(self).wf(),
            goes_through(
                old(self).plugins@,
                final(self).plugins@,
                idx as int,
                old(samples)@,
                final(samples)@,
                sample_rate,
                *given,
            ),
    {
        assert(self.plugins@[idx as int].wf());
        self.plugins[idx].process(samples, sample_rate, given);
        proof {
            let before = old(self).plugins@;
            assert forall|k: int| 0 <= k < self.plugins@.len() implies (
            #[trigger] self.plugins@[k]).wf() by {
                assert(before[k].wf());
            }
        }
    }
}

/// Step `j` of a block through a chain: `chains` and `blocks` hold what there was before
/// each step, and after the last.
pub open spec fn is_step(
    chains: Seq<Seq<Effect>>,
    blocks: Seq<Seq<Scalar>>,
    rate: u32,
    givens: Seq<Given>,
    j: int,
) -> bool {
    goes_through(chains[j], chains[j + 1], j, blocks[j], blocks[j + 1], rate, givens[j])
        || is_hosted(chains[j], chains[j + 1], j, blocks[j], blocks[j + 1])
}

/// The block has gone through all effects of a chain, from the first to the last.
pub open spec fn is_passage(
    chains: Seq<Seq<Effect>>,
    blocks: Seq<Seq<Scalar>>,
    rate: u32,
    givens: Seq<Given>,
) -> bool {
    &&& chains.len() == chains[0].len() + 1
    &&& blocks.len() == chains.len()
    &&& givens.len() == chains[0].len()
    &&& forall|j: int| 0 <= j < chains[0].len() ==> #[trigger] is_step(chains, blocks, rate, givens, j)
}

/// A block on its way through a chain: which effect is next, and all that has happened to
/// the block and to the chain so far.
pub struct Passage {
    pub next: usize,
    pub rate: u32,
    pub chains: Ghost<Seq<Seq<Effect>>>,
    pub blocks: Ghost<Seq<Seq<Scalar>>>,
    pub givens: Ghost<Seq<Given>>,
}

impl Passage {
    /// The block has gone through the effects in front of the next one, and by that the
    /// chain has become `plugins` and the block `samples`.
    pub open spec fn stands_at(&self, plugins: Seq<Effect>, samples: Seq<Scalar>) -> bool {
        &&& self.next <= plugins.len()
        &&& self.chains@.len() == self.next + 1
        &&& self.blocks@.len() == self.next + 1
        &&& self.givens@.len() == self.next
        &&& self.chains@.last() == plugins
        &&& self.blocks@.last() == samples
        &&& self.chains@[0].len() == plugins.len()
        &&& forall|j: int|
            0 <= j < self.next ==> #[trigger] is_step(
                self.chains@,
                self.blocks@,
                self.rate,
                self.givens@,
                j,
            )
    }

    /// The passage goes on by one step from `before`.
    pub open spec fn follows(
        &self,
        before: Passage,
        plugins: Seq<Effect>,
        samples: Seq<Scalar>,
        given: Given,
    ) -> bool {
        &&& self.next == before.next + 1
        &&& self.rate == before.rate
        &&& self.chains@ == before.chains@.push(plugins)
        &&& self.blocks@ == before.blocks@.push(samples)
        &&& self.givens@ == before.givens@.push(given)
    }
}

proof fn steps_stay(before: Passage, after: Passage, plugins: Seq<Effect>, samples: Seq<Scalar>, given: Given)
    requires
        before.stands_at(before.chains@.last(), before.blocks@.last()),
        after.follows(before, plugins, samples, given),
    ensures
        forall|j: int|
            0 <= j < before.next ==> #[trigger] is_step(
                after.chains@,
                after.blocks@,
                after.rate,
                after.givens@,
                j,
            ),
{
    assert forall|j: int| 0 <= j < before.next implies #[trigger] is_step(
        after.chains@,
        after.blocks@,
        after.rate,
        after.givens@,
        j,
    ) by {
        assert(is_step(before.chains@, before.blocks@, before.rate, before.givens@, j));
    }
}

impl PluginChain {
    /// A block comes to the first effect.
    pub fn begin(&self, samples: &Vec<Scalar>, sample_rate: u32) -> (r: Passage)
        ensures
            r.stands_at(self.plugins@, samples@),
            r.next == 0,
            r.rate == sample_rate,
            r.chains@ == seq![self.plugins@],
            r.blocks@ == seq![samples@],
    {
        let ghost chains = seq![self.plugins@];
        let ghost blocks = seq![samples@];
        let ghost givens = Seq::<Given>::empty();
        Passage {
            next: 0,
            rate: sample_rate,
            chains: Ghost(chains),
            blocks: Ghost(blocks),
            givens: Ghost(givens),
        }
    }

    /// Sends the block through the next effect.
    pub fn step(&mut self, passage: &mut Passage, samples: &mut Vec<Scalar>, given: &Given)
        requires
            old(self).wf(),
            old(passage).stands_at(old(self).plugins@, old(samples)@),
            old(passage).next < old(self).plugins@.len(),
            answers(
                old(self).plugins@[old(passage).next as int],
                old(samples)@.len(),
                old(passage).rate,
                *given,
            ),
        ensures
            final(self).wf(),
            final(passage).stands_at(final(self).plugins@, final(samples)@),
            final(passage).follows(
                *old(passage),
                final(self).plugins@,
                final(samples)@,
                *given,
            ),
            goes_through(
                old(self).plugins@,
                final(self).plugins@,
                old(passage).next as int,
                old(samples)@,
                final(samples)@,
                old(passage).rate,
                *given,
            ),
    {
        let idx: usize = passage.next;
        let total: usize = self.plugins.len();
        assert(idx < total);
        let ghost before = *passage;
        self.process(idx, samples, passage.rate, given);
        passage.next = idx + 1;
        proof {
            passage.chains@ = before.chains@.push(self.plugins@);
            passage.blocks@ = before.blocks@.push(samples@);
            passage.givens@ = before.givens@.push(*given);
            steps_stay(before, *passage, self.plugins@, samples@, *given);
            assert(is_step(
                passage.chains@,
                passage.blocks@,
                passage.rate,
                passage.givens@,
                idx as int,
            ));
        }
    }

    /// The host of the next effect, a plugin, has turned the block into `samples`.
    pub fn hosted(&self, passage: &mut Passage, samples: &Vec<Scalar>)
        requires
            old(passage).stands_at(self.plugins@, old(passage).blocks@.last()),
            old(passage).next < self.plugins@.len(),
            self.plugins@[old(passage).next as int] is Lv2,
            samples@.len() == old(passage).blocks@.last().len(),
        ensures
            final(passage).stands_at(self.plugins@, samples@),
            final(passage).follows(*old(passage), self.plugins@, samples@, Given::Nothing),
    {
        let idx: usize = passage.next;
        let total: usize = self.plugins.len();
        assert(idx < total);
        let ghost before = *passage;
        passage.next = idx + 1;
        proof {
            passage.chains@ = before.chains@.push(self.plugins@);
            passage.blocks@ = before.blocks@.push(samples@);
            passage.givens@ = before.givens@.push(Given::Nothing);
            steps_stay(before, *passage, self.plugins@, samples@, Given::Nothing);
            assert(is_step(
                passage.chains@,
                passage.blocks@,
                passage.rate,
                passage.givens@,
                idx as int,
            ));
        }
    }

    /// Whether the block has gone through the whole chain.
    pub fn finished(&self, passage: &Passage, samples: &Vec<Scalar>) -> (r: bool)
        requires
            passage.stands_at(self.plugins@, samples@),
        ensures
            r == (passage.next == self.plugins@.len()),
            r ==> is_passage(passage.chains@, passage.blocks@, passage.rate, passage.givens@),
    {
        passage.next >= self.plugins.len()
    }
}

proof fn effect_waits_its_turn(
    chains: Seq<Seq<Effect>>,
    blocks: Seq<Seq<Scalar>>,
    rate: u32,
    givens: Seq<Given>,
    j: int,
    k: int,
)
    requires
        is_passage(chains, blocks, rate, givens),
        0 <= j < chains.len(),
        0 <= k < chains[0].len(),
    ensures
        chains[j].len() == chains[0].len(),
        blocks[j].len() == blocks[0].len(),
        j <= k ==> chains[j][k] == chains[0][k],
        j > k ==> chains[j][k] == chains[k + 1][k],
    decreases j,
{
    if j > 0 {
        effect_waits_its_turn(chains, blocks, rate, givens, j - 1, k);
        assert(is_step(chains, blocks, rate, givens, j - 1));
    }
}

/// Effects are applied in the order of the chain: each one takes what the one before it
/// made, in the state that it had when the block came, and the last one makes what comes
/// out. The block keeps its length.
pub proof fn effects_are_applied_in_order(
    chains: Seq<Seq<Effect>>,
    blocks: Seq<Seq<Scalar>>,
    rate: u32,
    givens: Seq<Given>,
    k: int,
)
    requires
        is_passage(chains, blocks, rate, givens),
        0 <= k < chains[0].len(),
    ensures
        ({
            let (before, after) = (chains[0][k], chains.last()[k]);
            treats(before, after, blocks[k], blocks[k + 1], rate, givens[k]) || (before is Lv2
                && after == before)
        }),
        chains.last().len() == chains[0].len(),
        blocks.last().len() == blocks[0].len(),
{
    effect_waits_its_turn(chains, blocks, rate, givens, k, k);
    effect_waits_its_turn(chains, blocks, rate, givens, k + 1, k);
    effect_waits_its_turn(chains, blocks, rate, givens, chains.len() - 1, k);
    assert(is_step(chains, blocks, rate, givens, k));
}

/// A noise gate leaves a block as it is or silences all of it. One that is switched off
/// changes nothing, and one that is closed stays closed and silent while the level is
/// below its threshold.
pub proof fn the_gate_is_all_or_nothing(
    p: NoiseGatePlugin,
    after: Effect,
    input: Seq<Scalar>,
    output: Seq<Scalar>,
    rate: u32,
    given: Given,
)
    requires
        treats(Effect::Gate(p), after, input, output, rate, given),
    ensures
        output.len() == input.len(),
        output == input || forall|i: int|
            0 <= i < output.len() ==> #[trigger] output[i] == (Scalar { bits: 0 }),
        !p.enabled ==> output == input,
        p.enabled && !p.gate_open && !p.threshold.le(level_of(input)) ==> {
            &&& after matches Effect::Gate(q) && q.enabled && !q.gate_open
            &&& forall|i: int|
                0 <= i < output.len() ==> #[trigger] output[i] == (Scalar { bits: 0 })
        },
{
    assert(after is Gate);
    if !(p.enabled && !after->Gate_0.gate_open) {
        assert(output =~= input);
    }
}

/// An effect that is switched off leaves the sound as it is, and stays as it is.
pub proof fn switched_off_effects_pass_sound(
    before: Effect,
    after: Effect,
    input: Seq<Scalar>,
    output: Seq<Scalar>,
    rate: u32,
    given: Given,
)
    requires
        !before.enabled(),
        treats(before, after, input, output, rate, given),
    ensures
        output == input,
        after == before,
{
    assert(output =~= input);
}

/// Every effect keeps the length of the block, and whether it is switched on.
pub proof fn effects_keep_length(
    before: Effect,
    after: Effect,
    input: Seq<Scalar>,
    output: Seq<Scalar>,
    rate: u32,
    given: Given,
)
    requires
        treats(before, after, input, output, rate, given),
    ensures
        output.len() == input.len(),
        after.enabled() == before.enabled(),
{
}

/// An effect that is off needs nothing; one that is on is given what its own settings ask
/// for.
pub proof fn effects_ask_for_what_they_use(
    effect: Effect,
    samples: Seq<Scalar>,
    rate: u32,
    needs: Needs,
    i: int,
)
    requires
        is_needed(effect, samples, rate, needs),
    ensures
        effect is Gain || effect is Gate ==> needs is Nothing,
        effect matches Effect::Distortion(p) ==> {
            &&& needs is Nothing <==> !p.enabled
            &&& p.enabled ==> needs is Shapes && needs->drive == p.drive
                && needs->driven@.len() == samples.len()
            &&& p.enabled && 0 <= i < samples.len() ==> needs->driven@[i] == samples[i].product(
                p.drive,
            )
        },
        effect matches Effect::Bitcrush(p) ==> {
            &&& needs is Nothing <==> !p.enabled
            &&& p.enabled ==> needs is Power && needs->exponent == p.bits.difference(milli(1000))
        },
        effect matches Effect::Telephone(p) ==> (!p.enabled ==> needs is Nothing) && (needs is Filters
            ==> needs->low == angle_of(p.low_cut, rate) && needs->high == angle_of(p.high_cut, rate)),
        effect matches Effect::Lv2(p) ==> (needs is Run <==> p.enabled && p.audio_in > 0 && p.audio_out
            > 0),
{
}

} // verus!
