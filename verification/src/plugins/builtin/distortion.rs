//! Distortion: a waveshaper with dry/wet mix and an output level.

use vstd::prelude::*;

use crate::audio::engine::{cut, cut_off};
use crate::plugins::{params_view, KindView, ParamKind, ParamView, PluginParam};
use crate::rounding::{from_milli, milli, milli_grows};
use crate::scalar::Scalar;
use crate::text::{owned, same_text};

verus! {

/// The settings and the state of the effect.
pub struct DistortionPlugin {
    pub enabled: bool,
    pub drive: Scalar,
    pub mix: Scalar,
    pub level: Scalar,
}

impl DistortionPlugin {
    pub fn new(drive: Scalar, mix: Scalar, level: Scalar, enabled: bool) -> (r: Self)
        ensures
            r == (DistortionPlugin {
                enabled,
                drive: drive.clamped(milli(1000), milli(50_000)),
                mix: mix.clamped(milli(0), milli(1000)),
                level: level.clamped(milli(0), milli(2000)),
            }),
    {
        proof {
            milli_grows(1000, 50_000);
            milli_grows(0, 1000);
            milli_grows(0, 2000);
        }
        DistortionPlugin {
            enabled,
            drive: drive.clamp_to(from_milli(1000), from_milli(50_000)),
            mix: mix.clamp_to(from_milli(0), from_milli(1000)),
            level: level.clamp_to(from_milli(0), from_milli(2000)),
        }
    }

    pub fn name(&self) -> (r: &'static str)
        ensures
            r@ == "Distortion"@,
    {
        "Distortion"
    }

    pub fn id(&self) -> (r: &'static str)
        ensures
            r@ == "distortion"@,
    {
        "distortion"
    }

    pub fn set_enabled(&mut self, enabled: bool)
        ensures
            *final(self) == (DistortionPlugin { enabled, ..*old(self) }),
    {
        self.enabled = enabled;
    }

    /// The controls.
    pub open spec fn controls(&self) -> Seq<ParamView> {
        seq![
            ParamView {
                id: "drive"@,
                label: "Drive"@,
                min: milli(1000),
                max: milli(50_000),
                default: milli(5000),
                value: self.drive,
                kind: KindView::Continuous,
            },
            ParamView {
                id: "mix"@,
                label: "Mix"@,
                min: milli(0),
                max: milli(1000),
                default: milli(1000),
                value: self.mix,
                kind: KindView::Continuous,
            },
            ParamView {
                id: "level"@,
                label: "Output level"@,
                min: milli(0),
                max: milli(2000),
                default: milli(1000),
                value: self.level,
                kind: KindView::Continuous,
            },
        ]
    }

    pub fn params(&self) -> (r: Vec<PluginParam>)
        ensures
            params_view(r@) == self.controls(),
    {
        let mut r: Vec<PluginParam> = Vec::new();
        r.push(
            PluginParam {
                id: owned("drive"),
                label: owned("Drive"),
                min: from_milli(1000),
                max: from_milli(50_000),
                default: from_milli(5000),
                value: self.drive,
                kind: ParamKind::Continuous,
            },
        );
        r.push(
            PluginParam {
                id: owned("mix"),
                label: owned("Mix"),
                min: from_milli(0),
                max: from_milli(1000),
                default: from_milli(1000),
                value: self.mix,
                kind: ParamKind::Continuous,
            },
        );
        r.push(
            PluginParam {
                id: owned("level"),
                label: owned("Output level"),
                min: from_milli(0),
                max: from_milli(2000),
                default: from_milli(1000),
                value: self.level,
                kind: ParamKind::Continuous,
            },
        );
        assert(params_view(r@) =~= self.controls());
        r
    }

    /// The effect with a control set, within its range. An unknown control is passed over.
    pub open spec fn adjusted(self, id: Seq<char>, value: Scalar) -> Self {
        if id == "drive"@ {
            DistortionPlugin { drive: value.clamped(milli(1000), milli(50_000)), ..self }
        } else if id == "mix"@ {
            DistortionPlugin { mix: value.clamped(milli(0), milli(1000)), ..self }
        } else if id == "level"@ {
            DistortionPlugin { level: value.clamped(milli(0), milli(2000)), ..self }
        } else {
            self
        }
    }

    /// Sets a control, within its range. An unknown control is passed over.
    pub fn set_param(&mut self, id: &str, value: Scalar)
        ensures
            *final(self) == old(self).adjusted(id@, value),
    {
        proof {
            milli_grows(1000, 50_000);
            milli_grows(0, 1000);
            milli_grows(0, 2000);
        }
        if same_text(id, "drive") {
            self.drive = value.clamp_to(from_milli(1000), from_milli(50_000));
        } else if same_text(id, "mix") {
            self.mix = value.clamp_to(from_milli(0), from_milli(1000));
        } else if same_text(id, "level") {
            self.level = value.clamp_to(from_milli(0), from_milli(2000));
        }
    }
}

impl Default for DistortionPlugin {
    fn default() -> (r: Self)
        ensures
            r.enabled == true,
            r.drive == milli(5000).clamped(milli(1000), milli(50_000)),
            r.mix == milli(1000).clamped(milli(0), milli(1000)),
            r.level == milli(1000).clamped(milli(0), milli(2000)),
    {
        DistortionPlugin::new(from_milli(5000), from_milli(1000), from_milli(1000), true)
    }
}

// ── Sound ────────────────────────────────────────────────────────────────────

/// The pattern of the number nearest to a millionth.
pub const MILLIONTH_BITS: u32 = 0x3586_37bd;

impl DistortionPlugin {
    /// What goes into the waveshaper for a sample.
    pub fn driven(&self, dry: Scalar) -> (r: Scalar)
        ensures
            r == dry.product(self.drive),
    {
        dry.times(self.drive)
    }

    /// A sample of the result: dry and wet mixed, at the output level, cut off at full
    /// scale. `top` is the shape of the drive itself; it brings a full-scale sample back
    /// to full scale.
    pub open spec fn blended(&self, dry: Scalar, shape: Scalar, top: Scalar) -> Scalar {
        let wet = shape.ratio(top.larger(Scalar { bits: MILLIONTH_BITS }));
        cut_off(dry.sum(wet.difference(dry).product(self.mix)).product(self.level))
    }

    /// Distorts a block. `shapes` holds what the waveshaper made of each driven sample.
    pub fn process(&self, samples: &mut Vec<Scalar>, shapes: &Vec<Scalar>, top: Scalar)
        requires
            shapes@.len() == old(samples)@.len(),
        ensures
            final(samples)@.len() == old(samples)@.len(),
            forall|i: int|
                0 <= i < final(samples)@.len() ==> #[trigger] final(samples)@[i] == (
                if self.enabled {
                    self.blended(old(samples)@[i], shapes@[i], top)
                } else {
                    old(samples)@[i]
                }),
    {
        if !self.enabled {
            return;
        }
        let norm: Scalar = top.max_with(Scalar { bits: MILLIONTH_BITS });
        let mut i: usize = 0;
        while i < samples.len()
            invariant
                i <= samples@.len(),
                norm == top.larger((Scalar { bits: MILLIONTH_BITS })),
                shapes@.len() == samples@.len(),
                samples@.len() == old(samples)@.len(),
                forall|k: int|
                    0 <= k < i ==> #[trigger] samples@[k] == self.blended(
                        old(samples)@[k],
                        shapes@[k],
                        top,
                    ),
                forall|k: int| i <= k < samples@.len() ==> #[trigger] samples@[k] == old(
                    samples,
                )@[k],
            decreases samples@.len() - i,
        {
            let dry: Scalar = samples[i];
            let wet: Scalar = shapes[i].over(norm);
            let mixed: Scalar = dry.plus(wet.minus(dry).times(self.mix)).times(self.level);
            samples.set(i, cut(mixed));
            i = i + 1;
        }
    }
}

} // verus!
