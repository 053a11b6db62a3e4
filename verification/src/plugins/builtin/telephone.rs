//! Telephone: the voice cut down to the band between two frequencies.

use vstd::prelude::*;

use crate::arithmetic::{from_whole, whole};
use crate::audio::engine::{cut, cut_off};
use crate::plugins::{params_view, KindView, ParamKind, ParamView, PluginParam};
use crate::rounding::{from_milli, milli, milli_grows};
use crate::scalar::Scalar;
use crate::text::{owned, same_text};

verus! {

/// The settings and the state of the effect.
pub struct TelephonePlugin {
    pub enabled: bool,
    pub low_cut: Scalar,
    pub high_cut: Scalar,
    /// Lets through what is above the lower cutoff.
    pub hp: Biquad,
    /// Lets through what is below the upper cutoff.
    pub lp: Biquad,
    /// The cutoffs and the sample rate that the filters were built for.
    pub built_for: (Scalar, Scalar, u32),
}

impl TelephonePlugin {
    pub fn new(low_cut: Scalar, high_cut: Scalar, enabled: bool) -> (r: Self)
        ensures
            r == (TelephonePlugin {
                enabled,
                low_cut: low_cut.clamped(milli(20_000), milli(2_000_000)),
                high_cut: high_cut.clamped(milli(200_000), milli(20_000_000)),
                hp: Biquad::blank(),
                lp: Biquad::blank(),
                built_for: (Scalar { bits: 0 }, Scalar { bits: 0 }, 0),
            }),
    {
        proof {
            milli_grows(20_000, 2_000_000);
            milli_grows(200_000, 20_000_000);
        }
        let zero: Scalar = Scalar::zero();
        let none: Biquad = Biquad {
            b0: zero,
            b1: zero,
            b2: zero,
            a1: zero,
            a2: zero,
            left: no_memory(),
            right: no_memory(),
        };
        TelephonePlugin {
            enabled,
            low_cut: low_cut.clamp_to(from_milli(20_000), from_milli(2_000_000)),
            high_cut: high_cut.clamp_to(from_milli(200_000), from_milli(20_000_000)),
            hp: none,
            lp: none,
            built_for: (zero, zero, 0),
        }
    }

    pub fn name(&self) -> (r: &'static str)
        ensures
            r@ == "Telephone"@,
    {
        "Telephone"
    }

    pub fn id(&self) -> (r: &'static str)
        ensures
            r@ == "telephone"@,
    {
        "telephone"
    }

    pub fn set_enabled(&mut self, enabled: bool)
        ensures
            *final(self) == (TelephonePlugin { enabled, ..*old(self) }),
    {
        self.enabled = enabled;
    }

    /// The controls.
    pub open spec fn controls(&self) -> Seq<ParamView> {
        seq![
            ParamView {
                id: "low_cut"@,
                label: "Low cut (Hz)"@,
                min: milli(20_000),
                max: milli(2_000_000),
                default: milli(300_000),
                value: self.low_cut,
                kind: KindView::Integer,
            },
            ParamView {
                id: "high_cut"@,
                label: "High cut (Hz)"@,
                min: milli(200_000),
                max: milli(20_000_000),
                default: milli(3_400_000),
                value: self.high_cut,
                kind: KindView::Integer,
            },
        ]
    }

    pub fn params(&self) -> (r: Vec<PluginParam>)
        ensures
            params_view(r@) == self.controls(),
    {
        let mut r: Vec<PluginParam> = Vec::new();
        r.push(
            PluginParam {
                id: owned("low_cut"),
                label: owned("Low cut (Hz)"),
                min: from_milli(20_000),
                max: from_milli(2_000_000),
                default: from_milli(300_000),
                value: self.low_cut,
                kind: ParamKind::Integer,
            },
        );
        r.push(
            PluginParam {
                id: owned("high_cut"),
                label: owned("High cut (Hz)"),
                min: from_milli(200_000),
                max: from_milli(20_000_000),
                default: from_milli(3_400_000),
                value: self.high_cut,
                kind: ParamKind::Integer,
            },
        );
        assert(params_view(r@) =~= self.controls());
        r
    }

    /// The effect with a control set, within its range. An unknown control is passed over.
    pub open spec fn adjusted(self, id: Seq<char>, value: Scalar) -> Self {
        if id == "low_cut"@ {
            TelephonePlugin { low_cut: value.clamped(milli(20_000), milli(2_000_000)), ..self }
        } else if id == "high_cut"@ {
            TelephonePlugin { high_cut: value.clamped(milli(200_000), milli(20_000_000)), ..self }
        } else {
            self
        }
    }

    /// Sets a control, within its range. An unknown control is passed over.
    pub fn set_param(&mut self, id: &str, value: Scalar)
        ensures
            *final(self) == old(self).adjusted(id@, value),
    {
        proof {
            milli_grows(20_000, 2_000_000);
            milli_grows(200_000, 20_000_000);
        }
        if same_text(id, "low_cut") {
            self.low_cut = value.clamp_to(from_milli(20_000), from_milli(2_000_000));
        } else if same_text(id, "high_cut") {
            self.high_cut = value.clamp_to(from_milli(200_000), from_milli(20_000_000));
        }
    }
}

impl Default for TelephonePlugin {
    fn default() -> (r: Self)
        ensures
            r == (TelephonePlugin {
                enabled: true,
                low_cut: milli(300_000).clamped(milli(20_000), milli(2_000_000)),
                high_cut: milli(3_400_000).clamped(milli(200_000), milli(20_000_000)),
                hp: Biquad::blank(),
                lp: Biquad::blank(),
                built_for: (Scalar { bits: 0 }, Scalar { bits: 0 }, 0),
            }),
    {
        TelephonePlugin::new(from_milli(300_000), from_milli(3_400_000), true)
    }
}

// ── Filters ──────────────────────────────────────────────────────────────────

/// What a filter remembers of a channel: the last two samples, before and after.
#[derive(Clone, Copy, Debug, PartialEq, Eq, Structural)]
pub struct Memory {
    pub x1: Scalar,
    pub x2: Scalar,
    pub y1: Scalar,
    pub y2: Scalar,
}

/// A filter of second order, on interleaved stereo.
#[derive(Clone, Copy, Debug, PartialEq, Eq, Structural)]
pub struct Biquad {
    pub b0: Scalar,
    pub b1: Scalar,
    pub b2: Scalar,
    pub a1: Scalar,
    pub a2: Scalar,
    pub left: Memory,
    pub right: Memory,
}

/// The pattern of the number nearest to the root of one half.
pub const HALF_ROOT_BITS: u32 = 0x3f35_04f3;

/// The pattern of the number nearest to twice pi.
pub const TURN_BITS: u32 = 0x40c9_0fdb;

/// The pattern of the number nearest to a ten-thousandth.
pub const LOWEST_BITS: u32 = 0x38d1_b717;

/// The angle between two samples at a frequency, kept away from both ends.
pub open spec fn angle_of(freq: Scalar, sample_rate: u32) -> Scalar {
    (Scalar { bits: TURN_BITS }).product(
        freq.ratio(whole(sample_rate as nat)).clamped(
            Scalar { bits: LOWEST_BITS },
            milli(490),
        ),
    )
}

/// The angle between two samples at a frequency.
pub fn angle(freq: Scalar, sample_rate: u32) -> (r: Scalar)
    ensures
        r == angle_of(freq, sample_rate),
{
    let share: Scalar = freq.over(from_whole(sample_rate as u64));
    let lo: Scalar = Scalar { bits: LOWEST_BITS };
    let hi: Scalar = from_milli(490);
    let kept: Scalar = if share.below(lo) {
        lo
    } else if hi.below(share) {
        hi
    } else {
        share
    };
    (Scalar { bits: TURN_BITS }).times(kept)
}

pub open spec fn silent() -> Memory {
    let zero = Scalar { bits: 0 };
    Memory { x1: zero, x2: zero, y1: zero, y2: zero }
}

fn no_memory() -> (r: Memory)
    ensures
        r == silent(),
{
    let zero: Scalar = Scalar::zero();
    Memory { x1: zero, x2: zero, y1: zero, y2: zero }
}

impl Biquad {
    /// A filter that lets nothing through, before the first one is made.
    pub open spec fn blank() -> Biquad {
        let zero = Scalar { bits: 0 };
        Biquad { b0: zero, b1: zero, b2: zero, a1: zero, a2: zero, left: silent(), right: silent() }
    }

    /// The filter without gain in its band, for an angle with the given sine and cosine.
    pub open spec fn section_for(sine: Scalar, cosine: Scalar, highpass: bool) -> Biquad {
        let one = milli(1000);
        let two = milli(2000);
        let alpha = sine.ratio(two.product(Scalar { bits: HALF_ROOT_BITS }));
        let a0 = one.sum(alpha);
        let b1 = if highpass {
            one.sum(cosine).negated()
        } else {
            one.difference(cosine)
        };
        let b0 = if highpass {
            one.sum(cosine).ratio(two)
        } else {
            one.difference(cosine).ratio(two)
        };
        Biquad {
            b0: b0.ratio(a0),
            b1: b1.ratio(a0),
            b2: b0.ratio(a0),
            a1: milli(-2000).product(cosine).ratio(a0),
            a2: one.difference(alpha).ratio(a0),
            left: silent(),
            right: silent(),
        }
    }

    /// A filter for an angle with the given sine and cosine.
    pub fn section(sine: Scalar, cosine: Scalar, highpass: bool) -> (r: Biquad)
        ensures
            r == Biquad::section_for(sine, cosine, highpass),
    {
        let one: Scalar = from_milli(1000);
        let two: Scalar = from_milli(2000);
        let alpha: Scalar = sine.over(two.times(Scalar { bits: HALF_ROOT_BITS }));
        let a0: Scalar = one.plus(alpha);
        let b1: Scalar = if highpass {
            one.plus(cosine).negate()
        } else {
            one.minus(cosine)
        };
        let b0: Scalar = if highpass {
            one.plus(cosine).over(two)
        } else {
            one.minus(cosine).over(two)
        };
        Biquad {
            b0: b0.over(a0),
            b1: b1.over(a0),
            b2: b0.over(a0),
            a1: from_milli(-2000).times(cosine).over(a0),
            a2: one.minus(alpha).over(a0),
            left: no_memory(),
            right: no_memory(),
        }
    }

    /// What becomes of a sample, with the given ones before it.
    #[verifier::opaque]
    pub open spec fn response(
        &self,
        x: Scalar,
        x1: Scalar,
        x2: Scalar,
        y1: Scalar,
        y2: Scalar,
    ) -> Scalar {
        self.b0.product(x).sum(self.b1.product(x1)).sum(self.b2.product(x2)).difference(
            self.a1.product(y1),
        ).difference(self.a2.product(y2))
    }

    /// What a channel remembers after a sample.
    pub open spec fn step(&self, m: Memory, x: Scalar) -> Memory {
        Memory { x1: x, x2: m.x1, y1: self.response(x, m.x1, m.x2, m.y1, m.y2), y2: m.y1 }
    }

    /// What the two channels remember after a block.
    pub open spec fn after(&self, samples: Seq<Scalar>) -> (Memory, Memory)
        decreases samples.len(),
    {
        if samples.len() == 0 {
            (self.left, self.right)
        } else {
            let (left, right) = self.after(samples.drop_last());
            if (samples.len() - 1) % 2 == 0 {
                (self.step(left, samples.last()), right)
            } else {
                (left, self.step(right, samples.last()))
            }
        }
    }

    /// Sample `i` of the result.
    pub open spec fn output(&self, samples: Seq<Scalar>, i: int) -> Scalar {
        let (left, right) = self.after(samples.take(i + 1));
        if i % 2 == 0 {
            left.y1
        } else {
            right.y1
        }
    }

    fn stepped(&self, m: Memory, x: Scalar) -> (r: Memory)
        ensures
            r == self.step(m, x),
    {
        proof {
            reveal(Biquad::response);
        }
        let y: Scalar = self.b0.times(x).plus(self.b1.times(m.x1)).plus(self.b2.times(m.x2)).minus(
            self.a1.times(m.y1),
        ).minus(self.a2.times(m.y2));
        Memory { x1: x, x2: m.x1, y1: y, y2: m.y1 }
    }

    /// Filters a block.
    pub fn process(&mut self, samples: &mut Vec<Scalar>)
        ensures
            *final(self) == (Biquad {
                left: old(self).after(old(samples)@).0,
                right: old(self).after(old(samples)@).1,
                ..*old(self)
            }),
            final(samples)@.len() == old(samples)@.len(),
            forall|i: int|
                0 <= i < final(samples)@.len() ==> #[trigger] final(samples)@[i] == old(
                    self,
                ).output(old(samples)@, i),
    {
        let ghost dry = samples@;
        let ghost start = *self;
        let mut i: usize = 0;
        assert(dry.take(0) =~= Seq::empty());
        while i < samples.len()
            invariant
                i <= samples@.len(),
                samples@.len() == dry.len(),
                dry == old(samples)@,
                start == *old(self),
                *self == (Biquad { left: self.left, right: self.right, ..start }),
                (self.left, self.right) == start.after(dry.take(i as int)),
                forall|k: int| 0 <= k < i ==> #[trigger] samples@[k] == start.output(dry, k),
                forall|k: int| i <= k < dry.len() ==> #[trigger] samples@[k] == dry[k],
            decreases samples@.len() - i,
        {
            let x: Scalar = samples[i];
            proof {
                assert(dry.take(i + 1).drop_last() =~= dry.take(i as int));
                assert(dry.take(i + 1).last() == x);
                assert(dry.take(i + 1).len() == i + 1);
                assert(self.step(self.left, x) == start.step(self.left, x) && self.step(
                    self.right,
                    x,
                ) == start.step(self.right, x)) by {
                    reveal(Biquad::response);
                }
            }
            let y: Scalar;
            if i % 2 == 0 {
                self.left = self.stepped(self.left, x);
                y = self.left.y1;
            } else {
                self.right = self.stepped(self.right, x);
                y = self.right.y1;
            }
            samples.set(i, y);
            i = i + 1;
        }
        assert(dry.take(dry.len() as int) =~= dry);
    }
}

proof fn last_step(f: Biquad, samples: Seq<Scalar>, i: int)
    requires
        1 <= i <= samples.len(),
    ensures
        ({
            let (left, right) = f.after(samples.take(i - 1));
            f.after(samples.take(i)) == (if (i - 1) % 2 == 0 {
                (f.step(left, samples[i - 1]), right)
            } else {
                (left, f.step(right, samples[i - 1]))
            })
        }),
{
    assert(samples.take(i).drop_last() =~= samples.take(i - 1));
    assert(samples.take(i).last() == samples[i - 1]);
    assert(samples.take(i).len() == i);
}

/// What the channels remember just before sample `i`: their last two samples.
proof fn memory_is_recent(f: Biquad, samples: Seq<Scalar>, i: int)
    requires
        4 <= i <= samples.len(),
    ensures
        ({
            let (left, right) = f.after(samples.take(i));
            let m = if i % 2 == 0 {
                left
            } else {
                right
            };
            &&& m.x1 == samples[i - 2]
            &&& m.x2 == samples[i - 4]
            &&& m.y1 == f.output(samples, i - 2)
            &&& m.y2 == f.output(samples, i - 4)
        }),
{
    last_step(f, samples, i);
    last_step(f, samples, i - 1);
    last_step(f, samples, i - 2);
    last_step(f, samples, i - 3);
}

/// Each channel obeys the difference equation of the filter, whatever happens on the
/// other one.
pub proof fn filter_equation(f: Biquad, samples: Seq<Scalar>, i: int)
    requires
        4 <= i < samples.len(),
    ensures
        f.output(samples, i) == f.response(
            samples[i],
            samples[i - 2],
            samples[i - 4],
            f.output(samples, i - 2),
            f.output(samples, i - 4),
        ),
{
    memory_is_recent(f, samples, i);
    last_step(f, samples, i + 1);
}

// ── Sound ────────────────────────────────────────────────────────────────────

/// The two numbers are equal; a zero equals the negative zero, and what is not a
/// number equals nothing.
pub open spec fn equal_numbers(a: Scalar, b: Scalar) -> bool {
    a.le(b) && b.le(a)
}

/// The filters were not built for the present cutoffs and this rate.
pub open spec fn filters_are_old(p: TelephonePlugin, rate: u32) -> bool {
    !(equal_numbers(p.built_for.0, p.low_cut) && equal_numbers(p.built_for.1, p.high_cut)
        && p.built_for.2 == rate)
}

impl TelephonePlugin {
    /// Whether the filters have to be built anew, because a cutoff or the sample rate
    /// has changed since they were.
    pub fn outdated(&self, sample_rate: u32) -> (r: bool)
        ensures
            r == filters_are_old(*self, sample_rate),
    {
        let (low, high, rate): (Scalar, Scalar, u32) = self.built_for;
        !(low.at_most(self.low_cut) && self.low_cut.at_most(low) && high.at_most(self.high_cut)
            && self.high_cut.at_most(high) && rate == sample_rate)
    }

    /// The effect with new filters, built for the cutoffs and the given sample rate.
    pub open spec fn with_filters(self, hp: Biquad, lp: Biquad, rate: u32) -> TelephonePlugin {
        TelephonePlugin { hp, lp, built_for: (self.low_cut, self.high_cut, rate), ..self }
    }

    /// Takes new filters, built for the cutoffs and the given sample rate.
    pub fn built(&mut self, hp: Biquad, lp: Biquad, sample_rate: u32)
        ensures
            *final(self) == old(self).with_filters(hp, lp, sample_rate),
    {
        self.hp = hp;
        self.lp = lp;
        self.built_for = (self.low_cut, self.high_cut, sample_rate);
    }

    /// The block after the first filter.
    pub open spec fn narrowed(&self, samples: Seq<Scalar>) -> Seq<Scalar> {
        Seq::new(samples.len(), |i: int| self.hp.output(samples, i))
    }

    /// Filters a block: above the lower cutoff, below the upper one, cut off at full
    /// scale.
    pub fn process(&mut self, samples: &mut Vec<Scalar>)
        ensures
            final(samples)@.len() == old(samples)@.len(),
            !old(self).enabled ==> final(samples)@ == old(samples)@ && *final(self) == *old(self),
            old(self).enabled ==> ({
                let middle = old(self).narrowed(old(samples)@);
                &&& forall|i: int|
                    0 <= i < final(samples)@.len() ==> #[trigger] final(samples)@[i] == cut_off(
                        old(self).lp.output(middle, i),
                    )
                &&& *final(self) == (TelephonePlugin {
                    hp: Biquad {
                        left: old(self).hp.after(old(samples)@).0,
                        right: old(self).hp.after(old(samples)@).1,
                        ..old(self).hp
                    },
                    lp: Biquad {
                        left: old(self).lp.after(middle).0,
                        right: old(self).lp.after(middle).1,
                        ..old(self).lp
                    },
                    ..*old(self)
                })
            }),
    {
        if !self.enabled {
            return;
        }
        let ghost middle = self.narrowed(samples@);
        self.hp.process(samples);
        assert(samples@ =~= middle);
        self.lp.process(samples);
        let ghost low = samples@;
        let mut i: usize = 0;
        while i < samples.len()
            invariant
                i <= samples@.len(),
                samples@.len() == low.len(),
                forall|k: int| 0 <= k < i ==> #[trigger] samples@[k] == cut_off(low[k]),
                forall|k: int| i <= k < low.len() ==> #[trigger] samples@[k] == low[k],
            decreases samples@.len() - i,
        {
            let y: Scalar = samples[i];
            samples.set(i, cut(y));
            i = i + 1;
        }
    }
}

/// Filters that were just built are good until something changes.
pub proof fn built_filters_are_current(p: TelephonePlugin, hp: Biquad, lp: Biquad, rate: u32)
    requires
        !p.low_cut.is_nan(),
        !p.high_cut.is_nan(),
    ensures
        !filters_are_old(p.with_filters(hp, lp, rate), rate),
{
}

/// Filters serve the rate and the cutoffs that they were built for, and no others.
pub proof fn filters_serve_one_rate(
    p: TelephonePlugin,
    hp: Biquad,
    lp: Biquad,
    rate: u32,
    other: u32,
    low: Scalar,
    high: Scalar,
)
    ensures
        other != rate ==> filters_are_old(p.with_filters(hp, lp, rate), other),
        low.lt(p.low_cut) || p.low_cut.lt(low) ==> filters_are_old(
            TelephonePlugin { low_cut: low, ..p.with_filters(hp, lp, rate) },
            rate,
        ),
        high.lt(p.high_cut) || p.high_cut.lt(high) ==> filters_are_old(
            TelephonePlugin { high_cut: high, ..p.with_filters(hp, lp, rate) },
            rate,
        ),
{
}

} // verus!
