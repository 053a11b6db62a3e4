//! The controls of the effects: what is set is what is shown and heard.

use vstd::prelude::*;

use super::builtin::distortion::MILLIONTH_BITS;
use super::builtin::{BitcrushPlugin, DistortionPlugin, GainPlugin};
use super::host::{adjusts, is_chain_of, loads, with_one_switched};
use super::lv2::Lv2Plugin;
use super::{stands_for, Effect, ParamView};
use crate::arithmetic::milli_one;
use crate::audio::engine::cut_off;
use crate::config::EffectView;
use crate::ordered::{
    difference_is_rounded_distance, differences_have_signs, nothing_and, product_by_one,
    product_by_zero, rounding_is_exact, smallest_thousandth,
};
use crate::rounding::{milli, milli_grows, milli_zero, rounding_is_unique};
use crate::scalar::{units, Scalar};

verus! {

proof fn names_differ()
    ensures
        "threshold"@ != "attack_ms"@,
        "threshold"@ != "release_ms"@,
        "attack_ms"@ != "release_ms"@,
        "drive"@ != "mix"@,
        "drive"@ != "level"@,
        "mix"@ != "level"@,
        "bits"@ != "downsample"@,
        "bits"@ != "mix"@,
        "downsample"@ != "mix"@,
        "low_cut"@ != "high_cut"@,
{
    reveal_strlit("threshold");
    reveal_strlit("attack_ms");
    reveal_strlit("release_ms");
    reveal_strlit("drive");
    reveal_strlit("mix");
    reveal_strlit("level");
    reveal_strlit("bits");
    reveal_strlit("downsample");
    reveal_strlit("low_cut");
    reveal_strlit("high_cut");
    assert("threshold"@[0] != "attack_ms"@[0]);
    assert("threshold"@.len() != "release_ms"@.len());
    assert("attack_ms"@[0] != "release_ms"@[0]);
    assert("drive"@.len() != "mix"@.len());
    assert("drive"@[0] != "level"@[0]);
    assert("mix"@.len() != "level"@.len());
    assert("bits"@.len() != "downsample"@.len());
    assert("bits"@.len() != "mix"@.len());
    assert("downsample"@.len() != "mix"@.len());
    assert("low_cut"@.len() != "high_cut"@.len());
}

/// A control that is set shows the value that it was set to, brought into the range that it
/// shows; every other control stays as it is, and so does the switch of the effect.
pub proof fn a_set_control_shows_its_value(
    before: Effect,
    after: Effect,
    k: int,
    value: Scalar,
    port: Option<(usize, Scalar)>,
)
    requires
        !(before is Lv2),
        0 <= k < before.controls().len(),
        adjusts(before, after, before.controls()[k].id, value, port),
    ensures
        ({
            let control = before.controls()[k];
            after.controls() == before.controls().update(
                k,
                (ParamView { value: value.clamped(control.min, control.max), ..control }),
            )
        }),
        after.enabled() == before.enabled(),
{
    names_differ();
    let control = before.controls()[k];
    assert(after.controls() =~= before.controls().update(
        k,
        (ParamView { value: value.clamped(control.min, control.max), ..control }),
    ));
}

/// A name that no control has sets nothing.
pub proof fn an_unknown_control_sets_nothing(
    before: Effect,
    after: Effect,
    id: Seq<char>,
    value: Scalar,
    port: Option<(usize, Scalar)>,
)
    requires
        !(before is Lv2),
        adjusts(before, after, id, value, port),
        forall|k: int|
            0 <= k < before.controls().len() ==> (#[trigger] before.controls()[k]).id != id,
    ensures
        after == before,
        port is None,
{
    let controls = before.controls();
    match before {
        Effect::Gain(_) => {
            assert(controls[0].id == "gain"@);
        },
        Effect::Gate(_) => {
            assert(controls[0].id == "threshold"@);
            assert(controls[1].id == "attack_ms"@);
            assert(controls[2].id == "release_ms"@);
        },
        Effect::Distortion(_) => {
            assert(controls[0].id == "drive"@);
            assert(controls[1].id == "mix"@);
            assert(controls[2].id == "level"@);
        },
        Effect::Bitcrush(_) => {
            assert(controls[0].id == "bits"@);
            assert(controls[1].id == "downsample"@);
            assert(controls[2].id == "mix"@);
        },
        Effect::Telephone(_) => {
            assert(controls[0].id == "low_cut"@);
            assert(controls[1].id == "high_cut"@);
        },
        Effect::Lv2(_) => {},
    }
}

/// Switching an effect changes its switch, and none of its controls.
pub proof fn switching_keeps_the_controls(effect: Effect, on: bool)
    ensures
        effect.switched(on).enabled() == on,
        effect.switched(on).controls() == effect.controls(),
        effect.switched(!on).switched(on).controls() == effect.controls(),
{
}

/// The effect of a saved entry shows the values that the entry holds, as far as they are in
/// the range of the control; a control that the entry does not name shows its default. It
/// is on where the entry is.
pub proof fn an_entry_comes_back_in_its_controls(entry: EffectView, effect: Effect, k: int)
    requires
        !(effect is Lv2),
        stands_for(entry, None, Some(effect)),
        0 <= k < effect.controls().len(),
    ensures
        effect.enabled() == entry.enabled,
        ({
            let control = effect.controls()[k];
            if entry.params.dom().contains(control.id) {
                let wanted = entry.params[control.id];
                control.min.le(wanted) && wanted.le(control.max) ==> control.value == wanted
            } else {
                control.value == control.default
            }
        }),
{
    milli_grows(0, 1000);
    milli_grows(1000, 4000);
    milli_grows(0, 20);
    milli_grows(20, 1000);
    milli_grows(1000, 5000);
    milli_grows(5000, 50_000);
    milli_grows(1000, 2000);
    milli_grows(1000, 8000);
    milli_grows(8000, 16_000);
    milli_grows(8000, 50_000);
    milli_grows(20_000, 300_000);
    milli_grows(300_000, 2_000_000);
    milli_grows(200_000, 3_400_000);
    milli_grows(3_400_000, 20_000_000);
    ids_differ();
    let control = effect.controls()[k];
}

proof fn ids_differ()
    ensures
        "gain"@ != "gate"@,
        "gain"@ != "distortion"@,
        "gain"@ != "bitcrush"@,
        "gain"@ != "telephone"@,
        "gate"@ != "distortion"@,
        "gate"@ != "bitcrush"@,
        "gate"@ != "telephone"@,
        "distortion"@ != "bitcrush"@,
        "distortion"@ != "telephone"@,
        "bitcrush"@ != "telephone"@,
{
    reveal_strlit("gain");
    reveal_strlit("gate");
    reveal_strlit("distortion");
    reveal_strlit("bitcrush");
    reveal_strlit("telephone");
    assert("gain"@[2] != "gate"@[2]);
    assert("gain"@.len() != "distortion"@.len());
    assert("gain"@.len() != "bitcrush"@.len());
    assert("gain"@.len() != "telephone"@.len());
    assert("gate"@.len() != "distortion"@.len());
    assert("gate"@.len() != "bitcrush"@.len());
    assert("gate"@.len() != "telephone"@.len());
    assert("distortion"@.len() != "bitcrush"@.len());
    assert("distortion"@.len() != "telephone"@.len());
    assert("bitcrush"@.len() != "telephone"@.len());
}

/// With nothing of the effect in the mix, what comes out is what went in, cut off at full
/// scale: with bitcrush, and at its full output level with distortion.
pub proof fn a_mix_of_nothing_is_dry(
    distortion: DistortionPlugin,
    bitcrush: BitcrushPlugin,
    dry: Scalar,
    wet: Scalar,
    shape: Scalar,
    top: Scalar,
)
    requires
        dry.is_finite(),
        wet.is_finite(),
        wet.difference(dry).is_finite(),
        wet == shape.ratio(top.larger(Scalar { bits: MILLIONTH_BITS })),
        bitcrush.mix.magnitude() == 0,
        distortion.mix.magnitude() == 0,
        distortion.level == milli(1000),
    ensures
        bitcrush.blended(dry, wet).place() == cut_off(dry).place(),
        distortion.blended(dry, shape, top).place() == cut_off(dry).place(),
{
    let lead = wet.difference(dry);
    product_by_zero(lead, bitcrush.mix);
    nothing_and(dry, lead.product(bitcrush.mix));
    product_by_zero(lead, distortion.mix);
    nothing_and(dry, lead.product(distortion.mix));
    product_by_one(dry.sum(lead.product(distortion.mix)));
}

/// A gain of 1 changes nothing, and a gain of 0 leaves nothing.
pub proof fn a_gain_of_one_changes_nothing(p: GainPlugin, x: Scalar)
    requires
        x.is_finite(),
        p.enabled,
    ensures
        p.gain == milli(1000) ==> p.idle(),
        p.gain.magnitude() == 0 ==> !p.idle() && cut_off(x.product(p.gain)).magnitude() == 0,
{
    milli_one();
    milli_zero();
    let one = milli(1000);
    if p.gain == one {
        differences_have_signs(one, one);
        smallest_thousandth();
    }
    if p.gain.magnitude() == 0 {
        difference_is_rounded_distance(p.gain, one);
        assert(units(0) == 0);
        rounding_is_exact(one.magnitude(), 1);
        rounding_is_unique(
            units(one.magnitude()),
            1,
            one.magnitude(),
            p.gain.difference(one).absolute().magnitude(),
        );
        milli_grows(1, 1000);
        product_by_zero(x, p.gain);
        milli_grows(-1000, 0);
        milli_grows(0, 1000);
    }
}

/// A noise gate that is switched on again is open, so that nothing is cut off before it has
/// been quiet for long enough.
pub proof fn a_noise_gate_comes_back_open(effect: Effect)
    requires
        effect is Gate,
    ensures
        effect.switched(false).switched(true) is Gate,
        effect.switched(false).switched(true)->Gate_0.gate_open,
        effect.switched(true)->Gate_0.gate_open == effect->Gate_0.gate_open,
{
}

/// Switching one effect of a chain leaves all the others alone.
pub proof fn one_effect_of_a_chain_is_switched(plugins: Seq<Effect>, idx: int, on: bool, k: int)
    requires
        0 <= idx,
        0 <= k < plugins.len(),
    ensures
        with_one_switched(plugins, idx, on).len() == plugins.len(),
        k != idx ==> with_one_switched(plugins, idx, on)[k] == plugins[k],
        k == idx ==> with_one_switched(plugins, idx, on)[k].enabled() == on
            && with_one_switched(plugins, idx, on)[k].controls() == plugins[k].controls(),
{
    switching_keeps_the_controls(plugins[k], on);
}

/// The effects of a chain are those of the entries that can be loaded, in their order; an
/// entry that cannot be loaded is left out.
pub proof fn what_can_be_loaded_is_in_the_chain(
    entries: Seq<EffectView>,
    hosted: Seq<Option<Lv2Plugin>>,
    plugins: Seq<Effect>,
) -> (at: Seq<int>)
    requires
        is_chain_of(entries, hosted, plugins),
        hosted.len() == entries.len(),
    ensures
        at.len() == plugins.len(),
        forall|i: int|
            0 <= i < at.len() ==> 0 <= (#[trigger] at[i]) < entries.len() && stands_for(
                entries[at[i]],
                hosted[at[i]],
                Some(plugins[i]),
            ),
        forall|i: int, j: int| 0 <= i < j < at.len() ==> (#[trigger] at[i]) < (#[trigger] at[j]),
        forall|k: int|
            0 <= k < entries.len() && !stands_for(#[trigger] entries[k], hosted[k], None)
                ==> at.contains(k),
    decreases entries.len(),
{
    if entries.len() == 0 {
        Seq::empty()
    } else {
        let (front, rest) = (entries.drop_last(), hosted.drop_last());
        if loads(entries.last(), hosted.last()) {
            let before = what_can_be_loaded_is_in_the_chain(front, rest, plugins.drop_last());
            let at = before.push(entries.len() - 1);
            assert forall|k: int|
                0 <= k < entries.len() && !stands_for(
                    #[trigger] entries[k],
                    hosted[k],
                    None,
                ) implies at.contains(k) by {
                if k < front.len() {
                    assert(front[k] == entries[k] && rest[k] == hosted[k]);
                    let i = choose|i: int| 0 <= i < before.len() && before[i] == k;
                    assert(at[i] == k);
                } else {
                    assert(at[before.len() as int] == k);
                }
            }
            at
        } else {
            let at = what_can_be_loaded_is_in_the_chain(front, rest, plugins);
            assert forall|k: int|
                0 <= k < entries.len() && !stands_for(
                    #[trigger] entries[k],
                    hosted[k],
                    None,
                ) implies at.contains(k) by {
                assert(front[k] == entries[k] && rest[k] == hosted[k]);
            }
            at
        }
    }
}

/// At a level of nothing a distortion is silent.
pub proof fn a_level_of_nothing_is_silent(
    p: DistortionPlugin,
    dry: Scalar,
    shape: Scalar,
    top: Scalar,
)
    requires
        p.level.magnitude() == 0,
        ({
            let wet = shape.ratio(top.larger(Scalar { bits: MILLIONTH_BITS }));
            dry.sum(wet.difference(dry).product(p.mix)).is_finite()
        }),
    ensures
        p.blended(dry, shape, top).magnitude() == 0,
{
    let wet = shape.ratio(top.larger(Scalar { bits: MILLIONTH_BITS }));
    product_by_zero(dry.sum(wet.difference(dry).product(p.mix)), p.level);
    milli_grows(-1000, 0);
    milli_grows(0, 1000);
    milli_zero();
}

} // verus!
