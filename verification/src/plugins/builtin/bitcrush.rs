//! Bitcrusher: fewer bits, and each sample held for some frames.

use vstd::prelude::*;

use crate::arithmetic::whole_part_of_one;
use crate::audio::engine::{cut, cut_off};
use crate::plugins::{params_view, KindView, ParamKind, ParamView, PluginParam};
use crate::rounding::{from_milli, milli, milli_grows};
use crate::scalar::Scalar;
use crate::text::{owned, same_text};

verus! {

/// The settings and the state of the effect.
pub struct BitcrushPlugin {
    pub enabled: bool,
    pub bits: Scalar,
    pub downsample: Scalar,
    pub mix: Scalar,
    /// The samples that are held, left and right.
    pub hold: (Scalar, Scalar),
    /// Frames since they were taken.
    pub counter: u32,
}

impl BitcrushPlugin {
    pub fn new(bits: Scalar, downsample: Scalar, mix: Scalar, enabled: bool) -> (r: Self)
        ensures
            r == (BitcrushPlugin {
                enabled,
                bits: bits.clamped(milli(1000), milli(16_000)),
                downsample: downsample.clamped(milli(1000), milli(50_000)),
                mix: mix.clamped(milli(0), milli(1000)),
                hold: (Scalar { bits: 0 }, Scalar { bits: 0 }),
                counter: 0,
            }),
    {
        proof {
            milli_grows(1000, 16_000);
            milli_grows(1000, 50_000);
            milli_grows(0, 1000);
        }
        BitcrushPlugin {
            enabled,
            bits: bits.clamp_to(from_milli(1000), from_milli(16_000)),
            downsample: downsample.clamp_to(from_milli(1000), from_milli(50_000)),
            mix: mix.clamp_to(from_milli(0), from_milli(1000)),
            hold: (Scalar::zero(), Scalar::zero()),
            counter: 0,
        }
    }

    pub fn name(&self) -> (r: &'static str)
        ensures
            r@ == "Bitcrusher"@,
    {
        "Bitcrusher"
    }

    pub fn id(&self) -> (r: &'static str)
        ensures
            r@ == "bitcrush"@,
    {
        "bitcrush"
    }

    pub fn set_enabled(&mut self, enabled: bool)
        ensures
            *final(self) == (BitcrushPlugin { enabled, ..*old(self) }),
    {
        self.enabled = enabled;
    }

    /// The controls.
    pub open spec fn controls(&self) -> Seq<ParamView> {
        seq![
            ParamView {
                id: "bits"@,
                label: "Bit depth"@,
                min: milli(1000),
                max: milli(16_000),
                default: milli(8000),
                value: self.bits,
                kind: KindView::Integer,
            },
            ParamView {
                id: "downsample"@,
                label: "Downsample"@,
                min: milli(1000),
                max: milli(50_000),
                default: milli(8000),
                value: self.downsample,
                kind: KindView::Integer,
            },
            ParamView {
                id: "mix"@,
                label: "Mix"@,
                min: milli(0),
                max: milli(1000),
                default: milli(1000),
                value: self.mix,
                kind: KindView::Continuous,
            },
        ]
    }

    pub fn params(&self) -> (r: Vec<PluginParam>)
        ensures
            params_view(r@) == self.controls(),
    {
        let mut r: Vec<PluginParam> = Vec::new();
        r.push(
            PluginParam {
                id: owned("bits"),
                label: owned("Bit depth"),
                min: from_milli(1000),
                max: from_milli(16_000),
                default: from_milli(8000),
                value: self.bits,
                kind: ParamKind::Integer,
            },
        );
        r.push(
            PluginParam {
                id: owned("downsample"),
                label: owned("Downsample"),
                min: from_milli(1000),
                max: from_milli(50_000),
                default: from_milli(8000),
                value: self.downsample,
                kind: ParamKind::Integer,
            },
        );
        r.push(
            PluginParam {
                id: owned("mix"),
                label: owned("Mix"),
                min: from_milli(0),
                max: from_milli(1000),
                default: from_milli(1000),
                value: self.mix,
                kind: ParamKind::Continuous,
            },
        );
        assert(params_view(r@) =~= self.controls());
        r
    }

    /// The effect with a control set, within its range. An unknown control is passed over.
    pub open spec fn adjusted(self, id: Seq<char>, value: Scalar) -> Self {
        if id == "bits"@ {
            BitcrushPlugin { bits: value.clamped(milli(1000), milli(16_000)), ..self }
        } else if id == "downsample"@ {
            BitcrushPlugin { downsample: value.clamped(milli(1000), milli(50_000)), ..self }
        } else if id == "mix"@ {
            BitcrushPlugin { mix: value.clamped(milli(0), milli(1000)), ..self }
        } else {
            self
        }
    }

    /// Sets a control, within its range. An unknown control is passed over.
    pub fn set_param(&mut self, id: &str, value: Scalar)
        ensures
            *final(self) == old(self).adjusted(id@, value),
    {
        proof {
            milli_grows(1000, 16_000);
            milli_grows(1000, 50_000);
            milli_grows(0, 1000);
        }
        if same_text(id, "bits") {
            self.bits = value.clamp_to(from_milli(1000), from_milli(16_000));
        } else if same_text(id, "downsample") {
            self.downsample = value.clamp_to(from_milli(1000), from_milli(50_000));
        } else if same_text(id, "mix") {
            self.mix = value.clamp_to(from_milli(0), from_milli(1000));
        }
    }
}

impl Default for BitcrushPlugin {
    fn default() -> (r: Self)
        ensures
            r == (BitcrushPlugin {
                enabled: true,
                bits: milli(8000).clamped(milli(1000), milli(16_000)),
                downsample: milli(8000).clamped(milli(1000), milli(50_000)),
                mix: milli(1000).clamped(milli(0), milli(1000)),
                hold: (Scalar { bits: 0 }, Scalar { bits: 0 }),
                counter: 0,
            }),
    {
        BitcrushPlugin::new(from_milli(8000), from_milli(8000), from_milli(1000), true)
    }
}

// ── Sound ────────────────────────────────────────────────────────────────────

/// The counter after `k` frames.
pub open spec fn counter_after(start: nat, k: nat, factor: nat) -> nat
    decreases k,
{
    if k == 0 {
        start
    } else {
        (counter_after(start, (k - 1) as nat, factor) + 1) % factor
    }
}

/// A sample on a scale of so many steps.
pub open spec fn quantised(s: Scalar, steps: Scalar) -> Scalar {
    s.product(steps).rounded_off().ratio(steps)
}

impl BitcrushPlugin {
    /// Number of frames for which a sample is held.
    pub open spec fn factor(&self) -> nat {
        self.downsample.rounded_off().larger(milli(1000)).whole_times(1, u32::MAX as nat)
    }

    /// The sample that is held on a channel in frame `f`: taken anew when the counter
    /// is at 0, and kept otherwise.
    pub open spec fn held(&self, samples: Seq<Scalar>, steps: Scalar, channel: int, f: int) -> Scalar
        decreases f + 1,
    {
        if f < 0 {
            if channel == 0 {
                self.hold.0
            } else {
                self.hold.1
            }
        } else if counter_after(self.counter as nat, f as nat, self.factor()) == 0 && 2 * f
            + channel < samples.len() {
            quantised(samples[2 * f + channel], steps)
        } else {
            self.held(samples, steps, channel, f - 1)
        }
    }

    /// Dry and wet mixed, cut off at full scale.
    pub open spec fn blended(&self, dry: Scalar, wet: Scalar) -> Scalar {
        cut_off(dry.sum(wet.difference(dry).product(self.mix)))
    }

    /// Sample `i` of the result.
    pub open spec fn crushed(&self, samples: Seq<Scalar>, steps: Scalar, i: int) -> Scalar {
        self.blended(samples[i], self.held(samples, steps, i % 2, i / 2))
    }

    fn blend(&self, dry: Scalar, wet: Scalar) -> (r: Scalar)
        ensures
            r == self.blended(dry, wet),
    {
        cut(dry.plus(wet.minus(dry).times(self.mix)))
    }

    /// Crushes frame `f`.
    fn frame(&mut self, samples: &mut Vec<Scalar>, f: usize, steps: Scalar, factor: u32)
        requires
            2 * f < old(samples)@.len(),
            factor > 0,
        ensures
            *final(self) == (BitcrushPlugin {
                hold: final(self).hold,
                counter: ((old(self).counter + 1) % factor as int) as u32,
                ..*old(self)
            }),
            final(self).counter < factor,
            final(self).hold.0 == (if old(self).counter == 0 {
                quantised(old(samples)@[2 * f], steps)
            } else {
                old(self).hold.0
            }),
            final(self).hold.1 == (if old(self).counter == 0 && 2 * f + 1 < old(samples)@.len() {
                quantised(old(samples)@[2 * f + 1], steps)
            } else {
                old(self).hold.1
            }),
            final(samples)@.len() == old(samples)@.len(),
            forall|i: int|
                0 <= i < final(samples)@.len() && i != 2 * f && i != 2 * f + 1
                    ==> #[trigger] final(samples)@[i] == old(samples)@[i],
            final(samples)@[2 * f] == old(self).blended(old(samples)@[2 * f], final(self).hold.0),
            2 * f + 1 < old(samples)@.len() ==> final(samples)@[2 * f + 1] == old(self).blended(
                old(samples)@[2 * f + 1],
                final(self).hold.1,
            ),
    {
        let total: usize = samples.len();
        let left: usize = 2 * f;
        let stereo: bool = left + 1 < total;
        if self.counter == 0 {
            self.hold.0 = samples[left].times(steps).round().over(steps);
            if stereo {
                self.hold.1 = samples[left + 1].times(steps).round().over(steps);
            }
        }
        self.counter = ((self.counter as u64 + 1) % factor as u64) as u32;
        let first: Scalar = self.blend(samples[left], self.hold.0);
        samples.set(left, first);
        if stereo {
            let second: Scalar = self.blend(samples[left + 1], self.hold.1);
            samples.set(left + 1, second);
        }
    }

    /// Crushes a block. `power` is 2 to the power of one less than the bits.
    pub fn process(&mut self, samples: &mut Vec<Scalar>, power: Scalar)
        ensures
            final(samples)@.len() == old(samples)@.len(),
            !old(self).enabled ==> final(samples)@ == old(samples)@ && *final(self) == *old(self),
            old(self).enabled ==> ({
                let steps = power.larger(milli(1000));
                let frames = (old(samples)@.len() + 1) as nat / 2;
                &&& forall|i: int|
                    0 <= i < final(samples)@.len() ==> #[trigger] final(samples)@[i] == old(
                        self,
                    ).crushed(old(samples)@, steps, i)
                &&& *final(self) == (BitcrushPlugin {
                    hold: (
                        old(self).held(old(samples)@, steps, 0, frames - 1),
                        old(self).held(old(samples)@, steps, 1, frames - 1),
                    ),
                    counter: final(self).counter,
                    ..*old(self)
                })
                &&& final(self).counter == counter_after(
                    old(self).counter as nat,
                    frames,
                    old(self).factor(),
                )
            }),
    {
        if !self.enabled {
            return;
        }
        let steps: Scalar = power.max_with(from_milli(1000));
        let factor: u32 = self.downsample.round().max_with(from_milli(1000)).floor_times(
            1,
            u32::MAX as u64,
        ) as u32;
        proof {
            milli_grows(1000, 1000);
            whole_part_of_one(
                self.downsample.rounded_off().larger(milli(1000)),
                u32::MAX as nat,
            );
        }
        let ghost dry = samples@;
        let ghost start = *self;
        let total: usize = samples.len();
        let frames: usize = total / 2 + total % 2;
        let mut f: usize = 0;
        while f < frames
            invariant
                f <= frames,
                total == dry.len(),
                samples@.len() == total,
                frames == (total + 1) as nat / 2,
                factor == start.factor(),
                factor > 0,
                steps == power.larger(milli(1000)),
                start == *old(self),
                dry == old(samples)@,
                self.counter == counter_after(start.counter as nat, f as nat, start.factor()),
                self.hold.0 == start.held(dry, steps, 0, f - 1),
                self.hold.1 == start.held(dry, steps, 1, f - 1),
                *self == (BitcrushPlugin { hold: self.hold, counter: self.counter, ..start }),
                forall|i: int|
                    0 <= i < 2 * f && i < total ==> #[trigger] samples@[i] == start.crushed(
                        dry,
                        steps,
                        i,
                    ),
                forall|i: int| 2 * f <= i < total ==> #[trigger] samples@[i] == dry[i],
            decreases frames - f,
        {
            let ghost before = samples@;
            proof {
                assert((2 * f) % 2 == 0 && (2 * f) / 2 == f as int);
                assert((2 * f + 1) % 2 == 1 && (2 * f + 1) / 2 == f as int);
            }
            self.frame(samples, f, steps, factor);
            proof {
                assert(before[2 * f] == dry[2 * f]);
                assert(self.hold.0 == start.held(dry, steps, 0, f as int));
                if 2 * f + 1 < total {
                    assert(before[2 * f + 1] == dry[2 * f + 1]);
                }
                assert(self.hold.1 == start.held(dry, steps, 1, f as int));
                assert forall|i: int| 0 <= i < 2 * (f + 1) && i < total implies
                    #[trigger] samples@[i] == start.crushed(dry, steps, i) by {
                    if i < 2 * f {
                        assert(samples@[i] == before[i]);
                    }
                }
            }
            f = f + 1;
        }
    }
}

/// One frame in every `factor` is taken anew: those at multiples of it.
pub proof fn samples_are_held(k: nat, factor: nat)
    requires
        factor > 0,
    ensures
        counter_after(0, k, factor) == k % factor,
    decreases k,
{
    if k > 0 {
        samples_are_held((k - 1) as nat, factor);
        let j = (k - 1) as nat;
        assert((j % factor + 1) % factor == (j + 1) % factor) by (nonlinear_arith)
            requires
                factor > 0,
        ;
    } else {
        assert(0nat % factor == 0) by (nonlinear_arith)
            requires
                factor > 0,
        ;
    }
}

} // verus!
