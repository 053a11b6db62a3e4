//! Gain: the microphone made louder or quieter.

use vstd::prelude::*;

use crate::audio::engine::{cut, cut_off};
use crate::plugins::{params_view, KindView, ParamKind, ParamView, PluginParam};
use crate::rounding::{from_milli, milli, milli_grows};
use crate::scalar::Scalar;
use crate::text::{owned, same_text};

verus! {

/// The settings and the state of the effect.
pub struct GainPlugin {
    pub enabled: bool,
    pub gain: Scalar,
}

impl GainPlugin {
    pub fn new(gain: Scalar, enabled: bool) -> (r: Self)
        ensures
            r == (GainPlugin {
                enabled,
                gain: gain.clamped(milli(0), milli(4000)),
            }),
    {
        proof {
            milli_grows(0, 4000);
        }
        GainPlugin {
            enabled,
            gain: gain.clamp_to(from_milli(0), from_milli(4000)),
        }
    }

    pub fn name(&self) -> (r: &'static str)
        ensures
            r@ == "Gain"@,
    {
        "Gain"
    }

    pub fn id(&self) -> (r: &'static str)
        ensures
            r@ == "gain"@,
    {
        "gain"
    }

    pub fn set_enabled(&mut self, enabled: bool)
        ensures
            *final(self) == (GainPlugin { enabled, ..*old(self) }),
    {
        self.enabled = enabled;
    }

    /// The controls.
    pub open spec fn controls(&self) -> Seq<ParamView> {
        seq![
            ParamView {
                id: "gain"@,
                label: "Gain"@,
                min: milli(0),
                max: milli(4000),
                default: milli(1000),
                value: self.gain,
                kind: KindView::Continuous,
            },
        ]
    }

    pub fn params(&self) -> (r: Vec<PluginParam>)
        ensures
            params_view(r@) == self.controls(),
    {
        let mut r: Vec<PluginParam> = Vec::new();
        r.push(
            PluginParam {
                id: owned("gain"),
                label: owned("Gain"),
                min: from_milli(0),
                max: from_milli(4000),
                default: from_milli(1000),
                value: self.gain,
                kind: ParamKind::Continuous,
            },
        );
        assert(params_view(r@) =~= self.controls());
        r
    }

    /// The effect with a control set, within its range. An unknown control is passed over.
    pub open spec fn adjusted(self, id: Seq<char>, value: Scalar) -> Self {
        if id == "gain"@ {
            GainPlugin { gain: value.clamped(milli(0), milli(4000)), ..self }
        } else {
            self
        }
    }

    /// Sets a control, within its range. An unknown control is passed over.
    pub fn set_param(&mut self, id: &str, value: Scalar)
        ensures
            *final(self) == old(self).adjusted(id@, value),
    {
        proof {
            milli_grows(0, 4000);
        }
        if same_text(id, "gain") {
            self.gain = value.clamp_to(from_milli(0), from_milli(4000));
        }
    }
}

impl Default for GainPlugin {
    fn default() -> (r: Self)
        ensures
            r.enabled == true,
            r.gain == milli(1000).clamped(milli(0), milli(4000)),
    {
        GainPlugin::new(from_milli(1000), true)
    }
}

// ── Sound ────────────────────────────────────────────────────────────────────

impl GainPlugin {
    /// Nothing is to be done: the effect is off, or its gain is next to 1.
    pub open spec fn idle(&self) -> bool {
        !self.enabled || self.gain.difference(milli(1000)).absolute().lt(milli(1))
    }

    /// Applies the gain, cut off at full scale.
    pub fn process(&self, samples: &mut Vec<Scalar>)
        ensures
            final(samples)@.len() == old(samples)@.len(),
            forall|i: int|
                0 <= i < final(samples)@.len() ==> #[trigger] final(samples)@[i] == (
                if self.idle() {
                    old(samples)@[i]
                } else {
                    cut_off(old(samples)@[i].product(self.gain))
                }),
    {
        if !self.enabled || self.gain.minus(from_milli(1000)).abs().below(from_milli(1)) {
            return;
        }
        let mut i: usize = 0;
        while i < samples.len()
            invariant
                i <= samples@.len(),
                samples@.len() == old(samples)@.len(),
                forall|k: int|
                    0 <= k < i ==> #[trigger] samples@[k] == cut_off(
                        old(samples)@[k].product(self.gain),
                    ),
                forall|k: int| i <= k < samples@.len() ==> #[trigger] samples@[k] == old(
                    samples,
                )@[k],
            decreases samples@.len() - i,
        {
            let louder: Scalar = samples[i].times(self.gain);
            samples.set(i, cut(louder));
            i = i + 1;
        }
    }
}

} // verus!
