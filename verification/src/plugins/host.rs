//! The chain of effects on the microphone, applied one after the other.

use vstd::prelude::*;

use super::lv2::{is_control, is_param_of, InstalledPlugin, Lv2Plugin, Port};
use super::presets::{
    bitcrush_table, curated_preset_table, distortion_table, gate_table, group_for, group_is_found,
    provided, provided_rows, telephone_table, values_view, CALF_VOCODER,
};
use super::{
    in_range, is_plugin_for, params_view, plugin_from_entry, stands_for, Effect, ParamKind, ParamView,
    PluginParam,
};
use crate::config::{chain_view, EffectEntry, EffectView};
use crate::plugins::builtin::{
    BitcrushPlugin, DistortionPlugin, GainPlugin, NoiseGatePlugin, TelephonePlugin,
};
use crate::rounding::{milli, milli_grows, milli_is_finite};
use crate::scalar::Scalar;
use crate::search::first_index_holds;

verus! {

/// Effects in the order in which they are applied.
pub struct PluginChain {
    pub plugins: Vec<Effect>,
}

/// An effect comes of the entry.
pub open spec fn loads(entry: EffectView, hosted: Option<Lv2Plugin>) -> bool {
    !stands_for(entry, hosted, None)
}

/// The effects of the entries, in order, without those that cannot be loaded.
pub open spec fn is_chain_of(
    entries: Seq<EffectView>,
    hosted: Seq<Option<Lv2Plugin>>,
    plugins: Seq<Effect>,
) -> bool
    decreases entries.len(),
{
    if entries.len() == 0 {
        plugins.len() == 0
    } else if loads(entries.last(), hosted.last()) {
        &&& plugins.len() > 0
        &&& stands_for(entries.last(), hosted.last(), Some(plugins.last()))
        &&& is_chain_of(entries.drop_last(), hosted.drop_last(), plugins.drop_last())
    } else {
        is_chain_of(entries.drop_last(), hosted.drop_last(), plugins)
    }
}

impl Effect {
    pub open spec fn enabled(&self) -> bool {
        match self {
            Effect::Gain(p) => p.enabled,
            Effect::Gate(p) => p.enabled,
            Effect::Distortion(p) => p.enabled,
            Effect::Bitcrush(p) => p.enabled,
            Effect::Telephone(p) => p.enabled,
            Effect::Lv2(p) => p.enabled,
        }
    }

    pub fn is_enabled(&self) -> (r: bool)
        ensures
            r == self.enabled(),
    {
        match self {
            Effect::Gain(p) => p.enabled,
            Effect::Gate(p) => p.enabled,
            Effect::Distortion(p) => p.enabled,
            Effect::Bitcrush(p) => p.enabled,
            Effect::Telephone(p) => p.enabled,
            Effect::Lv2(p) => p.enabled,
        }
    }

    /// The effect switched on or off. A noise gate that is switched off is left open.
    pub open spec fn switched(self, on: bool) -> Effect {
        match self {
            Effect::Gain(p) => Effect::Gain(GainPlugin { enabled: on, ..p }),
            Effect::Gate(p) => Effect::Gate(
                NoiseGatePlugin { enabled: on, gate_open: p.gate_open || !on, ..p },
            ),
            Effect::Distortion(p) => Effect::Distortion(DistortionPlugin { enabled: on, ..p }),
            Effect::Bitcrush(p) => Effect::Bitcrush(BitcrushPlugin { enabled: on, ..p }),
            Effect::Telephone(p) => Effect::Telephone(TelephonePlugin { enabled: on, ..p }),
            Effect::Lv2(p) => Effect::Lv2(Lv2Plugin { enabled: on, ..p }),
        }
    }

    pub fn set_enabled(&mut self, on: bool)
        ensures
            *final(self) == old(self).switched(on),
    {
        match self {
            Effect::Gain(p) => p.set_enabled(on),
            Effect::Gate(p) => p.set_enabled(on),
            Effect::Distortion(p) => p.set_enabled(on),
            Effect::Bitcrush(p) => p.set_enabled(on),
            Effect::Telephone(p) => p.set_enabled(on),
            Effect::Lv2(p) => p.set_enabled(on),
        }
    }

    /// The controls.
    pub open spec fn controls(&self) -> Seq<ParamView> {
        match self {
            Effect::Gain(p) => p.controls(),
            Effect::Gate(p) => p.controls(),
            Effect::Distortion(p) => p.controls(),
            Effect::Bitcrush(p) => p.controls(),
            Effect::Telephone(p) => p.controls(),
            Effect::Lv2(p) => params_view(p.params@),
        }
    }

    pub fn params(&self) -> (r: Vec<PluginParam>)
        ensures
            params_view(r@) == self.controls(),
    {
        match self {
            Effect::Gain(p) => p.params(),
            Effect::Gate(p) => p.params(),
            Effect::Distortion(p) => p.params(),
            Effect::Bitcrush(p) => p.params(),
            Effect::Telephone(p) => p.params(),
            Effect::Lv2(p) => clone_params(&p.params),
        }
    }
}

fn clone_values(values: &Vec<(String, Scalar)>) -> (r: Vec<(String, Scalar)>)
    ensures
        values_view(r@) == values_view(values@),
{
    let mut r: Vec<(String, Scalar)> = Vec::new();
    let mut i: usize = 0;
    while i < values.len()
        invariant
            i <= values@.len(),
            r@.len() == i,
            forall|k: int|
                0 <= k < i ==> (#[trigger] r@[k]).0@ == values@[k].0@ && r@[k].1 == values@[k].1,
        decreases values@.len() - i,
    {
        r.push((values[i].0.clone(), values[i].1));
        i = i + 1;
    }
    assert(values_view(r@) =~= values_view(values@));
    r
}

fn clone_params(params: &Vec<PluginParam>) -> (r: Vec<PluginParam>)
    ensures
        params_view(r@) == params_view(params@),
{
    let mut r: Vec<PluginParam> = Vec::new();
    let mut i: usize = 0;
    while i < params.len()
        invariant
            i <= params@.len(),
            r@.len() == i,
            forall|k: int| 0 <= k < i ==> (#[trigger] r@[k])@ == params@[k]@,
        decreases params@.len() - i,
    {
        let p: &PluginParam = &params[i];
        let kind: ParamKind = match &p.kind {
            ParamKind::Continuous => ParamKind::Continuous,
            ParamKind::Integer => ParamKind::Integer,
            ParamKind::Toggle => ParamKind::Toggle,
            ParamKind::Enum(points) => ParamKind::Enum(clone_values(points)),
        };
        r.push(
            PluginParam {
                id: p.id.clone(),
                label: p.label.clone(),
                min: p.min,
                max: p.max,
                default: p.default,
                value: p.value,
                kind,
            },
        );
        i = i + 1;
    }
    assert(params_view(r@) =~= params_view(params@));
    r
}

/// `after` is `before` with a control set, within its range. An unknown control is
/// passed over. A plugin is told through `port` which port takes which value.
pub open spec fn adjusts(
    before: Effect,
    after: Effect,
    id: Seq<char>,
    value: Scalar,
    port: Option<(usize, Scalar)>,
) -> bool {
    match before {
        Effect::Gain(p) => after == Effect::Gain(p.adjusted(id, value)) && port is None,
        Effect::Gate(p) => after == Effect::Gate(p.adjusted(id, value)) && port is None,
        Effect::Distortion(p) => after == Effect::Distortion(p.adjusted(id, value)) && port is None,
        Effect::Bitcrush(p) => after == Effect::Bitcrush(p.adjusted(id, value)) && port is None,
        Effect::Telephone(p) => after == Effect::Telephone(p.adjusted(id, value)) && port is None,
        Effect::Lv2(p) => {
            &&& after matches Effect::Lv2(q)
            &&& q == (Lv2Plugin { params: q.params, ..p })
            &&& match p.param_at(id) {
                Some(k) => {
                    let v = in_range(value, p.params@[k].min, p.params@[k].max);
                    &&& port == Some((p.control_ports@[id], v))
                    &&& params_view(q.params@) == params_view(p.params@).update(
                        k,
                        (ParamView { value: v, ..p.params@[k]@ }),
                    )
                },
                None => port is None && q == p,
            }
        },
    }
}

impl Effect {
    pub open spec fn wf(&self) -> bool {
        self matches Effect::Lv2(p) ==> p.wf()
    }

    /// Sets a control, within its range.
    pub fn set_param(&mut self, id: &str, value: Scalar) -> (port: Option<(usize, Scalar)>)
        requires
            old(self).wf(),
        ensures
            final(self).wf(),
            adjusts(*old(self), *final(self), id@, value, port),
    {
        match self {
            Effect::Gain(p) => {
                p.set_param(id, value);
                None
            },
            Effect::Gate(p) => {
                p.set_param(id, value);
                None
            },
            Effect::Distortion(p) => {
                p.set_param(id, value);
                None
            },
            Effect::Bitcrush(p) => {
                p.set_param(id, value);
                None
            },
            Effect::Telephone(p) => {
                p.set_param(id, value);
                None
            },
            Effect::Lv2(p) => p.set_param(id, value),
        }
    }
}

/// The effects of a chain with one of them switched.
pub open spec fn with_one_switched(plugins: Seq<Effect>, idx: int, on: bool) -> Seq<Effect> {
    if idx < plugins.len() {
        plugins.update(idx, plugins[idx].switched(on))
    } else {
        plugins
    }
}

impl PluginChain {
    pub open spec fn wf(&self) -> bool {
        forall|i: int| 0 <= i < self.plugins@.len() ==> (#[trigger] self.plugins@[i]).wf()
    }

    pub fn new() -> (r: Self)
        ensures
            r.wf(),
            r.plugins@.len() == 0,
    {
        PluginChain { plugins: Vec::new() }
    }

    /// The chain for saved entries; those that cannot be loaded are left out. `hosted`
    /// holds, for each entry that names a plugin, the plugin if it could be loaded.
    pub fn from_entries(entries: &Vec<EffectEntry>, hosted: Vec<Option<Lv2Plugin>>) -> (r: Self)
        requires
            hosted@.len() == entries@.len(),
            forall|i: int|
                0 <= i < hosted@.len() ==> ((#[trigger] hosted@[i]) matches Some(p) ==> p.wf()),
        ensures
            r.wf(),
            is_chain_of(chain_view(entries@), hosted@, r.plugins@),
    {
        let ghost all = chain_view(entries@);
        let ghost offered = hosted@;
        let mut rest: Vec<Option<Lv2Plugin>> = hosted;
        let mut plugins: Vec<Effect> = Vec::new();
        let mut i: usize = 0;
        assert(offered.skip(0) =~= offered);
        while i < entries.len()
            invariant
                i <= entries@.len(),
                all == chain_view(entries@),
                offered.len() == all.len(),
                rest@ == offered.skip(i as int),
                forall|k: int|
                    0 <= k < offered.len() ==> ((#[trigger] offered[k]) matches Some(p)
                        ==> p.wf()),
                forall|k: int| 0 <= k < plugins@.len() ==> (#[trigger] plugins@[k]).wf(),
                is_chain_of(all.take(i as int), offered.take(i as int), plugins@),
            decreases entries@.len() - i,
        {
            let ghost before = plugins@;
            let plugin: Option<Lv2Plugin> = rest.remove(0);
            proof {
                assert(rest@ =~= offered.skip(i + 1));
                assert(plugin == offered[i as int]);
                assert(all.take(i + 1).drop_last() =~= all.take(i as int));
                assert(offered.take(i + 1).drop_last() =~= offered.take(i as int));
                assert(all.take(i + 1).last() == entries@[i as int]@);
            }
            match plugin_from_entry(&entries[i], plugin) {
                Some(effect) => {
                    plugins.push(effect);
                    assert(plugins@.drop_last() =~= before);
                },
                None => {},
            }
            i = i + 1;
        }
        assert(all.take(all.len() as int) =~= all);
        assert(offered.take(all.len() as int) =~= offered);
        PluginChain { plugins }
    }

    /// Switches an effect on or off.
    pub fn set_enabled(&mut self, idx: usize, enabled: bool)
        requires
            old(self).wf(),
        ensures
            final(self).wf(),
            final(self).plugins@ == with_one_switched(old(self).plugins@, idx as int, enabled),
    {
        if idx < self.plugins.len() {
            assert(self.plugins@[idx as int].wf());
            self.plugins[idx].set_enabled(enabled);
            proof {
                let before = old(self).plugins@;
                assert forall|k: int| 0 <= k < self.plugins@.len() implies (
                #[trigger] self.plugins@[k]).wf() by {
                    assert(before[k].wf());
                }
            }
        }
    }

    /// Sets a control of an effect; tells which port of a plugin takes which value.
    pub fn set_param(&mut self, idx: usize, id: &str, value: Scalar) -> (port: Option<
        (usize, Scalar),
    >)
        requires
            old(self).wf(),
        ensures
            final(self).wf(),
            final(self).plugins@.len() == old(self).plugins@.len(),
            forall|k: int|
                0 <= k < final(self).plugins@.len() && k != idx ==> #[trigger] final(self).plugins@[k] == old(self).plugins@[k],
            idx < old(self).plugins@.len() ==> adjusts(
                old(self).plugins@[idx as int],
                final(self).plugins@[idx as int],
                id@,
                value,
                port,
            ),
            idx >= old(self).plugins@.len() ==> port is None,
    {
        if idx < self.plugins.len() {
            assert(self.plugins@[idx as int].wf());
            let port: Option<(usize, Scalar)> = self.plugins[idx].set_param(id, value);
            proof {
                let before = old(self).plugins@;
                assert forall|k: int| 0 <= k < self.plugins@.len() implies (
                #[trigger] self.plugins@[k]).wf() by {
                    assert(before[k].wf());
                }
            }
            port
        } else {
            None
        }
    }

    /// The controls of an effect; none if there is no such effect.
    pub fn params_for(&self, idx: usize) -> (r: Vec<PluginParam>)
        ensures
            params_view(r@) == (if idx < self.plugins@.len() {
                self.plugins@[idx as int].controls()
            } else {
                Seq::empty()
            }),
    {
        if idx < self.plugins.len() {
            self.plugins[idx].params()
        } else {
            let none: Vec<PluginParam> = Vec::new();
            assert(params_view(none@) =~= Seq::empty());
            none
        }
    }
}

impl Default for PluginChain {
    fn default() -> (r: Self)
        ensures
            r.wf(),
            r.plugins@.len() == 0,
    {
        PluginChain::new()
    }
}

/// Where every entry can be loaded, the effects stand at the positions of their
/// entries.
pub proof fn loadable_chains_keep_positions(
    entries: Seq<EffectView>,
    hosted: Seq<Option<Lv2Plugin>>,
    plugins: Seq<Effect>,
)
    requires
        is_chain_of(entries, hosted, plugins),
        hosted.len() == entries.len(),
        forall|i: int| 0 <= i < entries.len() ==> loads(#[trigger] entries[i], hosted[i]),
    ensures
        plugins.len() == entries.len(),
        forall|i: int|
            0 <= i < entries.len() ==> stands_for(
                #[trigger] entries[i],
                hosted[i],
                Some(plugins[i]),
            ),
    decreases entries.len(),
{
    if entries.len() > 0 {
        let n = entries.len() - 1;
        assert(loads(entries[n], hosted[n]));
        assert forall|i: int| 0 <= i < n implies loads(
            #[trigger] entries.drop_last()[i],
            hosted.drop_last()[i],
        ) by {
            assert(loads(entries[i], hosted[i]));
        }
        loadable_chains_keep_positions(entries.drop_last(), hosted.drop_last(), plugins.drop_last());
        assert forall|i: int| 0 <= i < entries.len() implies stands_for(
            #[trigger] entries[i],
            hosted[i],
            Some(plugins[i]),
        ) by {
            if i < n {
                assert(entries.drop_last()[i] == entries[i]);
            }
        }
    }
}

/// A control with the given name takes the value as it is.
pub open spec fn takes(controls: Seq<ParamView>, name: Seq<char>, value: Scalar) -> bool {
    exists|c: int|
        0 <= c < controls.len() && (#[trigger] controls[c]).id == name && controls[c].min.smaller(
            controls[c].max,
        ).le(value) && value.le(controls[c].min.larger(controls[c].max))
}

proof fn control_takes(controls: Seq<ParamView>, c: int, lo: int, value: int, hi: int)
    requires
        0 <= c < controls.len(),
        controls[c].min == milli(lo),
        controls[c].max == milli(hi),
        0 <= lo <= value <= hi <= 1_000_000_000,
    ensures
        takes(controls, controls[c].id, milli(value)),
{
    milli_is_finite(lo);
    milli_is_finite(value);
    milli_is_finite(hi);
    milli_grows(lo, value);
    milli_grows(value, hi);
    assert(controls[c].id == controls[c].id);
}

proof fn gain_has_no_presets()
    ensures
        provided("gain"@).len() == 0,
{
    let table = curated_preset_table();
    first_index_holds(table, group_for("gain"@));
    reveal_strlit("gain");
    reveal_strlit("gate");
    reveal_strlit("distortion");
    reveal_strlit("bitcrush");
    reveal_strlit("telephone");
    reveal_strlit("lv2:http://lsp-plug.in/plugins/lv2/compressor_stereo");
    reveal_strlit("lv2:http://breakfastquay.com/rdf/lv2-rubberband#livestereo");
    reveal_strlit("lv2:http://calf.sourceforge.net/plugins/RingModulator");
    reveal_strlit("lv2:http://calf.sourceforge.net/plugins/VintageDelay");
    reveal_strlit("lv2:http://calf.sourceforge.net/plugins/Crusher");
    reveal_strlit("lv2:http://calf.sourceforge.net/plugins/Vocoder");
    assert(table[0].id[2] == 't' && "gain"@[2] == 'i');
    assert("gain"@.len() == 4 && CALF_VOCODER@.len() == 47);
    assert forall|j: int| 0 <= j < table.len() implies (#[trigger] table[j]).id != "gain"@ by {
        if j > 0 {
            assert(table[j].id.len() != 4);
        }
    }
}

/// The presets that the soundboard provides for a built-in effect name controls of the
/// effect, and their values lie in the ranges of these.
pub proof fn provided_presets_fit_their_effect(
    entry: EffectView,
    hosted: Option<Lv2Plugin>,
    effect: Effect,
    i: int,
    k: int,
)
    requires
        stands_for(entry, hosted, Some(effect)),
        !(effect is Lv2),
        0 <= i < provided(entry.id).len(),
        0 <= k < provided(entry.id)[i].values.len(),
    ensures
        takes(
            effect.controls(),
            provided(entry.id)[i].values[k].0,
            provided(entry.id)[i].values[k].1,
        ),
{
    let rows = provided_rows(entry.id);
    let value = rows[i].values[k];
    let controls = effect.controls();
    assert(provided(entry.id)[i].values[k] == (value.0, milli(value.1)));
    match effect {
        Effect::Gain(_) => {
            gain_has_no_presets();
        },
        Effect::Gate(_) => {
            group_is_found(0);
            assert(rows == gate_table());
            assert(rows[i] == gate_table()[0] || rows[i] == gate_table()[1] || rows[i]
                == gate_table()[2]);
            if k == 0 {
                control_takes(controls, 0, 0, value.1, 1000);
            } else if k == 1 {
                control_takes(controls, 1, 0, value.1, 100_000);
            } else {
                control_takes(controls, 2, 10_000, value.1, 1_000_000);
            }
        },
        Effect::Distortion(_) => {
            group_is_found(1);
            assert(rows == distortion_table());
            assert(rows[i] == distortion_table()[0] || rows[i] == distortion_table()[1] || rows[i]
                == distortion_table()[2]);
            if k == 0 {
                control_takes(controls, 0, 1000, value.1, 50_000);
            } else if k == 1 {
                control_takes(controls, 1, 0, value.1, 1000);
            } else {
                control_takes(controls, 2, 0, value.1, 2000);
            }
        },
        Effect::Bitcrush(_) => {
            group_is_found(2);
            assert(rows == bitcrush_table());
            assert(rows[i] == bitcrush_table()[0] || rows[i] == bitcrush_table()[1] || rows[i]
                == bitcrush_table()[2]);
            if k == 0 {
                control_takes(controls, 0, 1000, value.1, 16_000);
            } else if k == 1 {
                control_takes(controls, 1, 1000, value.1, 50_000);
            } else {
                control_takes(controls, 2, 0, value.1, 1000);
            }
        },
        Effect::Telephone(_) => {
            group_is_found(3);
            assert(rows == telephone_table());
            assert(rows[i] == telephone_table()[0] || rows[i] == telephone_table()[1] || rows[i]
                == telephone_table()[2]);
            if k == 0 {
                control_takes(controls, 0, 20_000, value.1, 2_000_000);
            } else {
                control_takes(controls, 1, 200_000, value.1, 20_000_000);
            }
        },
        Effect::Lv2(_) => {},
    }
}

/// A plugin takes, under the symbol of a control port, every value in the range of that
/// port: a preset that names the port and stays in its range is set as it is.
pub proof fn a_control_port_takes_its_range(
    entry: EffectView,
    plugin: InstalledPlugin,
    ports: Seq<Port>,
    p: Lv2Plugin,
    k: int,
    value: Scalar,
)
    requires
        is_plugin_for(entry, plugin, ports, p),
        0 <= k < ports.filter(is_control()).len(),
        ({
            let port = ports.filter(is_control())[k];
            port.low().smaller(port.high()).le(value) && value.le(port.low().larger(port.high()))
        }),
    ensures
        takes(Effect::Lv2(p).controls(), ports.filter(is_control())[k].symbol@, value),
{
    let controls = Effect::Lv2(p).controls();
    assert(controls[k] == p.params@[k]@);
    assert(is_param_of(&ports.filter(is_control())[k], entry.params, p.params@[k]@));
}

} // verus!
