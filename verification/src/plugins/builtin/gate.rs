//! Noise gate: nothing is heard while the level is below a threshold.

use vstd::prelude::*;

use crate::arithmetic::{from_whole, whole};
use crate::audio::time::samples_in;
use crate::audio::virtual_device::CHANNELS;
use crate::plugins::{params_view, KindView, ParamKind, ParamView, PluginParam};
use crate::rounding::{from_milli, milli, milli_grows};
use crate::scalar::Scalar;
use crate::text::{owned, same_text};

verus! {

/// The settings and the state of the effect.
pub struct NoiseGatePlugin {
    pub enabled: bool,
    pub threshold: Scalar,
    pub attack_ms: Scalar,
    pub release_ms: Scalar,
    pub gate_open: bool,
    pub attack_counter: usize,
    pub release_counter: usize,
}

impl NoiseGatePlugin {
    pub fn new(threshold: Scalar, attack_ms: Scalar, release_ms: Scalar, enabled: bool) -> (r: Self)
        ensures
            r == (NoiseGatePlugin {
                enabled,
                threshold: threshold.clamped(milli(0), milli(1000)),
                attack_ms,
                release_ms,
                gate_open: false,
                attack_counter: 0,
                release_counter: 0,
            }),
    {
        proof {
            milli_grows(0, 1000);
        }
        NoiseGatePlugin {
            enabled,
            threshold: threshold.clamp_to(from_milli(0), from_milli(1000)),
            attack_ms,
            release_ms,
            gate_open: false,
            attack_counter: 0,
            release_counter: 0,
        }
    }

    pub fn name(&self) -> (r: &'static str)
        ensures
            r@ == "Noise Gate"@,
    {
        "Noise Gate"
    }

    pub fn id(&self) -> (r: &'static str)
        ensures
            r@ == "gate"@,
    {
        "gate"
    }

    /// Switches the effect on or off. While it is off, sound passes, and it still does
    /// when it is switched on again.
    pub fn set_enabled(&mut self, enabled: bool)
        ensures
            *final(self) == (NoiseGatePlugin {
                enabled,
                gate_open: !enabled || old(self).gate_open,
                ..*old(self)
            }),
    {
        self.enabled = enabled;
        if !enabled {
            self.gate_open = true;
        }
    }

    /// The controls.
    pub open spec fn controls(&self) -> Seq<ParamView> {
        seq![
            ParamView {
                id: "threshold"@,
                label: "Threshold"@,
                min: milli(0),
                max: milli(1000),
                default: milli(20),
                value: self.threshold,
                kind: KindView::Continuous,
            },
            ParamView {
                id: "attack_ms"@,
                label: "Attack (ms)"@,
                min: milli(0),
                max: milli(100_000),
                default: milli(10_000),
                value: self.attack_ms,
                kind: KindView::Continuous,
            },
            ParamView {
                id: "release_ms"@,
                label: "Release (ms)"@,
                min: milli(10_000),
                max: milli(1_000_000),
                default: milli(100_000),
                value: self.release_ms,
                kind: KindView::Continuous,
            },
        ]
    }

    pub fn params(&self) -> (r: Vec<PluginParam>)
        ensures
            params_view(r@) == self.controls(),
    {
        let mut r: Vec<PluginParam> = Vec::new();
        r.push(
            PluginParam {
                id: owned("threshold"),
                label: owned("Threshold"),
                min: from_milli(0),
                max: from_milli(1000),
                default: from_milli(20),
                value: self.threshold,
                kind: ParamKind::Continuous,
            },
        );
        r.push(
            PluginParam {
                id: owned("attack_ms"),
                label: owned("Attack (ms)"),
                min: from_milli(0),
                max: from_milli(100_000),
                default: from_milli(10_000),
                value: self.attack_ms,
                kind: ParamKind::Continuous,
            },
        );
        r.push(
            PluginParam {
                id: owned("release_ms"),
                label: owned("Release (ms)"),
                min: from_milli(10_000),
                max: from_milli(1_000_000),
                default: from_milli(100_000),
                value: self.release_ms,
                kind: ParamKind::Continuous,
            },
        );
        assert(params_view(r@) =~= self.controls());
        r
    }

    /// The effect with a control set, within its range. An unknown control is passed over.
    pub open spec fn adjusted(self, id: Seq<char>, value: Scalar) -> Self {
        if id == "threshold"@ {
            NoiseGatePlugin { threshold: value.clamped(milli(0), milli(1000)), ..self }
        } else if id == "attack_ms"@ {
            NoiseGatePlugin { attack_ms: value.clamped(milli(0), milli(100_000)), ..self }
        } else if id == "release_ms"@ {
            NoiseGatePlugin { release_ms: value.clamped(milli(10_000), milli(1_000_000)), ..self }
        } else {
            self
        }
    }

    /// Sets a control, within its range. An unknown control is passed over.
    pub fn set_param(&mut self, id: &str, value: Scalar)
        ensures
            *final(self) == old(self).adjusted(id@, value),
    {
        proof {
            milli_grows(0, 1000);
            milli_grows(0, 100_000);
            milli_grows(10_000, 1_000_000);
        }
        if same_text(id, "threshold") {
            self.threshold = value.clamp_to(from_milli(0), from_milli(1000));
        } else if same_text(id, "attack_ms") {
            self.attack_ms = value.clamp_to(from_milli(0), from_milli(100_000));
        } else if same_text(id, "release_ms") {
            self.release_ms = value.clamp_to(from_milli(10_000), from_milli(1_000_000));
        }
    }
}

impl Default for NoiseGatePlugin {
    fn default() -> (r: Self)
        ensures
            r == (NoiseGatePlugin {
                enabled: false,
                threshold: milli(20).clamped(milli(0), milli(1000)),
                attack_ms: milli(10_000),
                release_ms: milli(100_000),
                gate_open: false,
                attack_counter: 0,
                release_counter: 0,
            }),
    {
        NoiseGatePlugin::new(from_milli(20), from_milli(10_000), from_milli(100_000), false)
    }
}

// ── Opening and closing ──────────────────────────────────────────────────────

/// Whether sound passes, and for how many frames the opposite has been asked for.
pub struct GateView {
    pub open: bool,
    pub attack: nat,
    pub release: nat,
}

pub open spec fn at_least_one(n: nat) -> nat {
    if n == 0 {
        1
    } else {
        n
    }
}

/// The state after a block of `n` frames. Enough loud frames in a row open a closed
/// gate, enough quiet ones close an open gate.
pub open spec fn after_block(
    s: GateView,
    loud: bool,
    n: nat,
    attack: nat,
    release: nat,
) -> GateView {
    if loud {
        if s.open {
            GateView { open: true, attack: s.attack, release: 0 }
        } else if s.attack + n >= at_least_one(attack) {
            GateView { open: true, attack: 0, release: 0 }
        } else {
            GateView { open: false, attack: s.attack + n, release: 0 }
        }
    } else {
        if !s.open {
            GateView { open: false, attack: 0, release: s.release }
        } else if s.release + n >= at_least_one(release) {
            GateView { open: false, attack: 0, release: 0 }
        } else {
            GateView { open: true, attack: 0, release: s.release + n }
        }
    }
}

impl NoiseGatePlugin {
    pub open spec fn state(&self) -> GateView {
        GateView {
            open: self.gate_open,
            attack: self.attack_counter as nat,
            release: self.release_counter as nat,
        }
    }

    /// Takes a block of `n` frames with the given level in; tells whether to silence
    /// it. `attack` and `release` are the times for opening and closing, in frames.
    pub fn block(&mut self, level: Scalar, n: usize, attack: usize, release: usize) -> (silence:
        bool)
        ensures
            silence == (old(self).enabled && !final(self).gate_open),
            final(self).state() == (if old(self).enabled {
                after_block(
                    old(self).state(),
                    old(self).threshold.le(level),
                    n as nat,
                    attack as nat,
                    release as nat,
                )
            } else {
                old(self).state()
            }),
            final(self).enabled == old(self).enabled,
            final(self).threshold == old(self).threshold,
            final(self).attack_ms == old(self).attack_ms,
            final(self).release_ms == old(self).release_ms,
    {
        if !self.enabled {
            return false;
        }
        if self.threshold.at_most(level) {
            self.release_counter = 0;
            if !self.gate_open {
                self.attack_counter = self.attack_counter.saturating_add(n);
                if self.attack_counter >= attack && self.attack_counter >= 1 {
                    self.gate_open = true;
                    self.attack_counter = 0;
                }
            }
        } else {
            self.attack_counter = 0;
            if self.gate_open {
                self.release_counter = self.release_counter.saturating_add(n);
                if self.release_counter >= release && self.release_counter >= 1 {
                    self.gate_open = false;
                    self.release_counter = 0;
                }
            }
        }
        !self.gate_open
    }
}

/// The state after `k` blocks of `n` frames, all loud or all quiet.
pub open spec fn after_blocks(
    s: GateView,
    loud: bool,
    k: nat,
    n: nat,
    attack: nat,
    release: nat,
) -> GateView
    decreases k,
{
    if k == 0 {
        s
    } else {
        after_block(
            after_blocks(s, loud, (k - 1) as nat, n, attack, release),
            loud,
            n,
            attack,
            release,
        )
    }
}

/// A voice gets through: after loud blocks of as many frames as the attack asks
/// for, sound passes, and it goes on passing.
pub proof fn loud_blocks_open(s: GateView, k: nat, n: nat, attack: nat, release: nat)
    requires
        k * n >= at_least_one(attack),
    ensures
        after_blocks(s, true, k, n, attack, release).open,
    decreases k,
{
    loud_progress(s, k, n, attack, release);
}

proof fn loud_progress(s: GateView, k: nat, n: nat, attack: nat, release: nat)
    ensures
        after_blocks(s, true, k, n, attack, release).open || (after_blocks(
            s,
            true,
            k,
            n,
            attack,
            release,
        ).attack >= k * n && (k > 0 ==> after_blocks(s, true, k, n, attack, release).attack
            < at_least_one(attack))),
    decreases k,
{
    if k > 0 {
        loud_progress(s, (k - 1) as nat, n, attack, release);
        assert(k * n == (k - 1) * n + n) by (nonlinear_arith);
    } else {
        assert(0 * n == 0);
    }
}

/// Silence shuts it out: after quiet blocks of as many frames as the release asks for,
/// nothing passes any more.
pub proof fn quiet_blocks_close(s: GateView, k: nat, n: nat, attack: nat, release: nat)
    requires
        k * n >= at_least_one(release),
    ensures
        !after_blocks(s, false, k, n, attack, release).open,
{
    quiet_progress(s, k, n, attack, release);
}

proof fn quiet_progress(s: GateView, k: nat, n: nat, attack: nat, release: nat)
    ensures
        !after_blocks(s, false, k, n, attack, release).open || (after_blocks(
            s,
            false,
            k,
            n,
            attack,
            release,
        ).release >= k * n && (k > 0 ==> after_blocks(s, false, k, n, attack, release).release
            < at_least_one(release))),
    decreases k,
{
    if k > 0 {
        quiet_progress(s, (k - 1) as nat, n, attack, release);
        assert(k * n == (k - 1) * n + n) by (nonlinear_arith);
    } else {
        assert(0 * n == 0);
    }
}

// ── Sound ────────────────────────────────────────────────────────────────────

/// The sum of the squares.
pub open spec fn squares(samples: Seq<Scalar>) -> Scalar
    decreases samples.len(),
{
    if samples.len() == 0 {
        milli(0)
    } else {
        squares(samples.drop_last()).sum(samples.last().product(samples.last()))
    }
}

/// The level of a block: the root of the mean of the squares; 0 for no samples.
pub open spec fn level_of(samples: Seq<Scalar>) -> Scalar {
    if samples.len() == 0 {
        milli(0)
    } else {
        squares(samples).ratio(whole(samples.len())).root()
    }
}

impl NoiseGatePlugin {
    /// The level of a block.
    pub fn rms(samples: &Vec<Scalar>) -> (r: Scalar)
        ensures
            r == level_of(samples@),
    {
        if samples.len() == 0 {
            return from_milli(0);
        }
        let mut sum: Scalar = from_milli(0);
        let mut i: usize = 0;
        while i < samples.len()
            invariant
                i <= samples@.len(),
                sum == squares(samples@.take(i as int)),
            decreases samples@.len() - i,
        {
            assert(samples@.take(i + 1).drop_last() =~= samples@.take(i as int));
            sum = sum.plus(samples[i].times(samples[i]));
            i = i + 1;
        }
        assert(samples@.take(samples@.len() as int) =~= samples@);
        sum.over(from_whole(samples.len() as u64)).sqrt()
    }
}

/// A time in frames: so many samples of each channel.
pub open spec fn duration(ms: Scalar, sample_rate: u32) -> nat {
    ms.ratio(milli(1_000_000)).product(whole(sample_rate as nat)).whole_times(
        1,
        usize::MAX as nat,
    )
}

impl NoiseGatePlugin {
    /// Passes a block of interleaved stereo samples on or silences it, by its level.
    pub fn process(&mut self, samples: &mut Vec<Scalar>, sample_rate: u32)
        ensures
            final(self).state() == (if old(self).enabled {
                after_block(
                    old(self).state(),
                    old(self).threshold.le(level_of(old(samples)@)),
                    old(samples)@.len() / CHANNELS as nat,
                    duration(old(self).attack_ms, sample_rate),
                    duration(old(self).release_ms, sample_rate),
                )
            } else {
                old(self).state()
            }),
            final(self).enabled == old(self).enabled,
            final(self).threshold == old(self).threshold,
            final(self).attack_ms == old(self).attack_ms,
            final(self).release_ms == old(self).release_ms,
            final(samples)@.len() == old(samples)@.len(),
            forall|i: int|
                0 <= i < final(samples)@.len() ==> #[trigger] final(samples)@[i] == (if old(
                    self,
                ).enabled && !final(self).gate_open {
                    Scalar { bits: 0 }
                } else {
                    old(samples)@[i]
                }),
    {
        let rate: Scalar = from_whole(sample_rate as u64);
        let attack: usize = samples_in(self.attack_ms, rate);
        let release: usize = samples_in(self.release_ms, rate);
        let level: Scalar = NoiseGatePlugin::rms(samples);
        let silence: bool = self.block(level, samples.len() / CHANNELS, attack, release);
        if silence {
            let mut i: usize = 0;
            while i < samples.len()
                invariant
                    i <= samples@.len(),
                    samples@.len() == old(samples)@.len(),
                    forall|k: int| 0 <= k < i ==> #[trigger] samples@[k] == (Scalar { bits: 0 }),
                decreases samples@.len() - i,
            {
                samples.set(i, Scalar::zero());
                i = i + 1;
            }
        }
    }
}

} // verus!
