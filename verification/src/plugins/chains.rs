//! Effect chains that ship with the soundboard.
//!
//! Beside the chains that the user saves there are some that are simply there. They
//! are built from the presets of their effects, so that the chain "Podcast" really
//! has the compressor's preset "Podcast". A chain is offered only if every effect in
//! it is available; "Old Radio" needs nothing installed. A chain saved under the
//! same name shadows one of these.

use vstd::prelude::*;

use super::lv2::{has_uri, installed_name, is_lv2, name_for_uri, uri_from_id, uri_of, InstalledPlugin, PluginWorld};
use super::presets::{
    applied, apply_values, curated_preset_table, group_is_found, preset_touches_what_it_names, presets_view, provided,
    provided_presets_are_finite, provided_presets_win, provided_rows, values_view, EffectPreset,
    PresetView, Setting, CALF_VOCODER,
};
use super::{builtin_table, builtins, find_listed, listed_as, Listed};
use crate::config::{
    chain_matches_itself, chain_view, chains_match, clone_chain, same_chain, same_effect, EffectEntry, EffectView,
};
use crate::rounding::{from_milli, milli, milli_is_finite};
use crate::scalar::Scalar;
use crate::search::{filter_positions, first_index, first_index_holds, found_first, found_none};
use crate::text::{owned, same_text};
use crate::text_map::TextMap;

verus! {

/// One effect of a factory chain.
pub struct ChainStep {
    /// Chain identifier of the effect.
    pub id: &'static str,
    /// Preset of the effect to start from, if any.
    pub preset: Option<&'static str>,
    /// Controls set after the preset, in thousandths.
    pub params: Vec<Setting>,
}

pub struct StepView {
    pub id: Seq<char>,
    pub preset: Option<Seq<char>>,
    pub params: Seq<(Seq<char>, int)>,
}

pub open spec fn settings_view(settings: Seq<Setting>) -> Seq<(Seq<char>, int)> {
    Seq::new(settings.len(), |i: int| (settings[i].0@, settings[i].1 as int))
}

impl View for ChainStep {
    type V = StepView;

    open spec fn view(&self) -> StepView {
        StepView {
            id: self.id@,
            preset: match self.preset {
                Some(name) => Some(name@),
                None => None,
            },
            params: settings_view(self.params@),
        }
    }
}

pub open spec fn steps_view(steps: Seq<ChainStep>) -> Seq<StepView> {
    Seq::new(steps.len(), |i: int| steps[i]@)
}

/// A chain that ships with the soundboard.
pub struct FactoryChain {
    pub name: &'static str,
    pub steps: Vec<ChainStep>,
}

pub struct FactoryView {
    pub name: Seq<char>,
    pub steps: Seq<StepView>,
}

impl View for FactoryChain {
    type V = FactoryView;

    open spec fn view(&self) -> FactoryView {
        FactoryView { name: self.name@, steps: steps_view(self.steps@) }
    }
}

pub open spec fn factory_view(chains: Seq<FactoryChain>) -> Seq<FactoryView> {
    Seq::new(chains.len(), |i: int| chains[i]@)
}

/// An effect with a preset.
pub open spec fn step_view(id: Seq<char>, preset: Seq<char>) -> StepView {
    StepView { id, preset: Some(preset), params: Seq::empty() }
}

/// An effect at its default settings.
pub open spec fn plain_view(id: Seq<char>) -> StepView {
    StepView { id, preset: None, params: Seq::empty() }
}

fn step(id: &'static str, preset: &'static str) -> (r: ChainStep)
    ensures
        r@ == step_view(id@, preset@),
{
    let r = ChainStep { id, preset: Some(preset), params: Vec::new() };
    assert(r@.params =~= Seq::empty());
    r
}

fn plain(id: &'static str) -> (r: ChainStep)
    ensures
        r@ == plain_view(id@),
{
    let r = ChainStep { id, preset: None, params: Vec::new() };
    assert(r@.params =~= Seq::empty());
    r
}

fn adjusted(id: &'static str, params: Vec<Setting>) -> (r: ChainStep)
    ensures
        r.id == id,
        r.preset is None,
        r.params == params,
{
    ChainStep { id, preset: None, params }
}

pub const RNNOISE: &'static str = "lv2:https://github.com/werman/noise-suppression-for-voice#stereo";

pub const COMPRESSOR: &'static str = "lv2:http://lsp-plug.in/plugins/lv2/compressor_stereo";

pub const LIMITER: &'static str = "lv2:http://lsp-plug.in/plugins/lv2/limiter_stereo";

pub const PITCH: &'static str = "lv2:http://breakfastquay.com/rdf/lv2-rubberband#livestereo";

pub const RINGMOD: &'static str = "lv2:http://calf.sourceforge.net/plugins/RingModulator";

pub const VOCODER: &'static str = "lv2:http://calf.sourceforge.net/plugins/Vocoder";

pub const DELAY: &'static str = "lv2:http://calf.sourceforge.net/plugins/VintageDelay";

pub const REVERB: &'static str = "lv2:http://calf.sourceforge.net/plugins/Reverb";

/// The chains that ship with the soundboard.
pub open spec fn factory_table() -> Seq<FactoryView> {
    seq![
        FactoryView {
            name: "Podcast"@,
            steps: seq![
                step_view("gate"@, "Quiet room"@),
                plain_view(RNNOISE@),
                step_view(COMPRESSOR@, "Podcast"@),
                plain_view("gain"@),
            ],
        },
        FactoryView {
            name: "Broadcast"@,
            steps: seq![
                plain_view(RNNOISE@),
                step_view(COMPRESSOR@, "Radio DJ"@),
                plain_view(LIMITER@),
                plain_view("gain"@),
            ],
        },
        FactoryView {
            name: "Noisy Room"@,
            steps: seq![
                step_view("gate"@, "Noisy room"@),
                plain_view(RNNOISE@),
                step_view(COMPRESSOR@, "Gentle voice"@),
            ],
        },
        FactoryView {
            name: "Old Radio"@,
            steps: seq![
                step_view("telephone"@, "AM radio"@),
                step_view("bitcrush"@, "Subtle lo-fi"@),
                step_view("distortion"@, "Warm grit"@),
            ],
        },
        FactoryView {
            name: "Robot"@,
            steps: seq![
                step_view(RINGMOD@, "Robot"@),
                plain_view("gain"@),
            ],
        },
        FactoryView {
            name: "Vocoder Robot"@,
            steps: seq![
                step_view(VOCODER@, "Robot (noise carrier)"@),
                plain_view("gain"@),
            ],
        },
        FactoryView {
            name: "Demon"@,
            steps: seq![
                step_view(PITCH@, "Demon (octave down)"@),
                step_view("distortion"@, "Warm grit"@),
            ],
        },
        FactoryView {
            name: "Chipmunk"@,
            steps: seq![
                step_view(PITCH@, "Chipmunk"@),
            ],
        },
        FactoryView {
            name: "Stadium Announcer"@,
            steps: seq![
                step_view(COMPRESSOR@, "Radio DJ"@),
                step_view(DELAY@, "Stadium announcer"@),
                StepView {
                    id: REVERB@,
                    preset: None,
                    params: seq![
                        ("decay_time"@, 3000int),
                        ("room_size"@, 3000int),
                        ("amount"@, 350int),
                    ],
                },
            ],
        },
        FactoryView {
            name: "Cathedral"@,
            steps: seq![
                StepView {
                    id: REVERB@,
                    preset: None,
                    params: seq![
                        ("decay_time"@, 8000int),
                        ("room_size"@, 4000int),
                        ("amount"@, 600int),
                        ("predelay"@, 40_000int),
                        ("hf_damp"@, 4_000_000int),
                    ],
                },
            ],
        },
    ]
}

/// The chains that ship with the soundboard.
pub fn factory() -> (r: Vec<FactoryChain>)
    ensures
        factory_view(r@) == factory_table(),
{
    let r: Vec<FactoryChain> = vec![
        FactoryChain {
            name: "Podcast",
            steps: vec![
                step("gate", "Quiet room"),
                plain(RNNOISE),
                step(COMPRESSOR, "Podcast"),
                plain("gain"),
            ],
        },
        FactoryChain {
            name: "Broadcast",
            steps: vec![
                plain(RNNOISE),
                step(COMPRESSOR, "Radio DJ"),
                plain(LIMITER),
                plain("gain"),
            ],
        },
        FactoryChain {
            name: "Noisy Room",
            steps: vec![
                step("gate", "Noisy room"),
                plain(RNNOISE),
                step(COMPRESSOR, "Gentle voice"),
            ],
        },
        FactoryChain {
            name: "Old Radio",
            steps: vec![
                step("telephone", "AM radio"),
                step("bitcrush", "Subtle lo-fi"),
                step("distortion", "Warm grit"),
            ],
        },
        FactoryChain {
            name: "Robot",
            steps: vec![
                step(RINGMOD, "Robot"),
                plain("gain"),
            ],
        },
        FactoryChain {
            name: "Vocoder Robot",
            steps: vec![
                step(VOCODER, "Robot (noise carrier)"),
                plain("gain"),
            ],
        },
        FactoryChain {
            name: "Demon",
            steps: vec![
                step(PITCH, "Demon (octave down)"),
                step("distortion", "Warm grit"),
            ],
        },
        FactoryChain {
            name: "Chipmunk",
            steps: vec![
                step(PITCH, "Chipmunk"),
            ],
        },
        FactoryChain {
            name: "Stadium Announcer",
            steps: vec![
                step(COMPRESSOR, "Radio DJ"),
                step(DELAY, "Stadium announcer"),
                adjusted(REVERB, vec![("decay_time", 3000), ("room_size", 3000), ("amount", 350)]),
            ],
        },
        FactoryChain {
            name: "Cathedral",
            steps: vec![
                adjusted(REVERB, vec![("decay_time", 8000), ("room_size", 4000), ("amount", 600), ("predelay", 40_000), ("hf_damp", 4_000_000)]),
            ],
        },
    ];
    proof {
        assert(steps_view(r@[0].steps@) =~= factory_table()[0].steps);
        assert(steps_view(r@[1].steps@) =~= factory_table()[1].steps);
        assert(steps_view(r@[2].steps@) =~= factory_table()[2].steps);
        assert(steps_view(r@[3].steps@) =~= factory_table()[3].steps);
        assert(steps_view(r@[4].steps@) =~= factory_table()[4].steps);
        assert(steps_view(r@[5].steps@) =~= factory_table()[5].steps);
        assert(steps_view(r@[6].steps@) =~= factory_table()[6].steps);
        assert(steps_view(r@[7].steps@) =~= factory_table()[7].steps);
        assert(r@[8].steps@[2]@.params =~= factory_table()[8].steps[2].params);
        assert(steps_view(r@[8].steps@) =~= factory_table()[8].steps);
        assert(r@[9].steps@[0]@.params =~= factory_table()[9].steps[0].params);
        assert(steps_view(r@[9].steps@) =~= factory_table()[9].steps);
    }
    assert(factory_view(r@) =~= factory_table());
    r
}

// ── What is offered ──────────────────────────────────────────────────────────

/// The effect can be used on this system: built-in effects always, a plugin if it is
/// installed.
pub open spec fn is_available(plugins: Seq<InstalledPlugin>, id: Seq<char>) -> bool {
    if is_lv2(id) {
        installed_name(plugins, uri_of(id)) is Some
    } else {
        first_index(builtin_table(), listed_as(id)) is Some
    }
}

/// Every effect of the chain can be used.
pub open spec fn can_run(plugins: Seq<InstalledPlugin>) -> spec_fn(FactoryView) -> bool {
    |c: FactoryView|
        forall|i: int|
            0 <= i < c.steps.len() ==> is_available(plugins, (#[trigger] c.steps[i]).id)
}

/// A preset with the given name.
pub open spec fn named(name: Seq<char>) -> spec_fn(PresetView) -> bool {
    |p: PresetView| p.name == name
}

/// The controls that a step starts from: those of its preset, if it names one that
/// there is.
pub open spec fn start_of(step: StepView, presets: Seq<PresetView>) -> Map<Seq<char>, Scalar> {
    match step.preset {
        Some(want) => match first_index(presets, named(want)) {
            Some(i) => applied(Map::empty(), presets[i].values),
            None => Map::empty(),
        },
        None => Map::empty(),
    }
}

/// The values that a step sets itself.
pub open spec fn own_values(step: StepView) -> Seq<(Seq<char>, Scalar)> {
    Seq::new(step.params.len(), |i: int| (step.params[i].0, milli(step.params[i].1)))
}

/// The effect that a step stands for, given the presets of the effect.
pub open spec fn built(step: StepView, presets: Seq<PresetView>) -> EffectView {
    EffectView {
        id: step.id,
        enabled: true,
        params: applied(start_of(step, presets), own_values(step)),
    }
}

/// The chain that a factory chain stands for.
pub open spec fn built_chain(world: &PluginWorld, steps: Seq<StepView>) -> Seq<EffectView> {
    Seq::new(steps.len(), |i: int| built(steps[i], world.presets_of(steps[i].id)))
}

/// A chain and what it is called.
pub struct NamedChain {
    pub name: String,
    pub chain: Vec<EffectEntry>,
}

pub struct NamedView {
    pub name: Seq<char>,
    pub chain: Seq<EffectView>,
}

impl View for NamedChain {
    type V = NamedView;

    open spec fn view(&self) -> NamedView {
        NamedView { name: self.name@, chain: chain_view(self.chain@) }
    }
}

pub open spec fn named_view(chains: Seq<NamedChain>) -> Seq<NamedView> {
    Seq::new(chains.len(), |i: int| chains[i]@)
}

/// The factory chains that this system can run, in the order of the table.
pub open spec fn offered(world: &PluginWorld) -> Seq<NamedView> {
    factory_table().filter(can_run(world.plugins@)).map_values(
        |c: FactoryView| NamedView { name: c.name, chain: built_chain(world, c.steps) },
    )
}

/// Whether an effect can be used on this system.
pub fn available(plugins: &Vec<InstalledPlugin>, id: &str) -> (r: bool)
    ensures
        r == is_available(plugins@, id@),
{
    match uri_from_id(id) {
        Some(uri) => match name_for_uri(plugins, uri.as_str()) {
            Some(_) => true,
            None => false,
        },
        None => {
            let table: Vec<Listed> = builtins();
            match find_listed(&table, id) {
                Some(_) => true,
                None => false,
            }
        },
    }
}

fn find_preset(presets: &Vec<EffectPreset>, want: &str) -> (r: Option<usize>)
    ensures
        match r {
            Some(i) => i < presets@.len() && first_index(presets_view(presets@), named(want@))
                == Some(i as int),
            None => first_index(presets_view(presets@), named(want@)) is None,
        },
{
    let ghost views = presets_view(presets@);
    let ghost p = named(want@);
    let mut i: usize = 0;
    while i < presets.len()
        invariant
            i <= presets@.len(),
            views == presets_view(presets@),
            p == named(want@),
            forall|k: int| 0 <= k < i ==> !p(#[trigger] views[k]),
        decreases presets@.len() - i,
    {
        assert(views[i as int].name == presets@[i as int].name@);
        if same_text(presets[i].name.as_str(), want) {
            proof {
                found_first(views, p, i as int);
            }
            return Some(i);
        }
        i = i + 1;
    }
    proof {
        found_none(views, p);
    }
    None
}

/// Builds the effect of a step from the presets of the effect. A preset that does not
/// exist is passed over: the effect then starts at its own defaults.
pub fn build_entry(step: &ChainStep, presets: &Vec<EffectPreset>) -> (r: EffectEntry)
    ensures
        r@ == built(step@, presets_view(presets@)),
{
    let mut params: TextMap<Scalar> = TextMap::new();
    match step.preset {
        Some(want) => match find_preset(presets, want) {
            Some(i) => {
                apply_values(&mut params, &presets[i].values);
            },
            None => {},
        },
        None => {},
    }
    let mut values: Vec<(String, Scalar)> = Vec::new();
    let mut i: usize = 0;
    while i < step.params.len()
        invariant
            i <= step.params@.len(),
            values@.len() == i,
            forall|k: int|
                0 <= k < i ==> (#[trigger] values@[k]).0@ == step.params@[k].0@ && values@[k].1
                    == milli(step.params@[k].1 as int),
        decreases step.params@.len() - i,
    {
        let (name, value): Setting = step.params[i];
        values.push((owned(name), from_milli(value)));
        i = i + 1;
    }
    assert(values_view(values@) =~= own_values(step@));
    apply_values(&mut params, &values);
    EffectEntry { id: owned(step.id), enabled: true, params }
}

fn all_available(plugins: &Vec<InstalledPlugin>, chain: &FactoryChain) -> (r: bool)
    ensures
        r == can_run(plugins@)(chain@),
{
    let mut i: usize = 0;
    while i < chain.steps.len()
        invariant
            i <= chain.steps@.len(),
            forall|k: int|
                0 <= k < i ==> is_available(plugins@, (#[trigger] chain@.steps[k]).id),
        decreases chain.steps@.len() - i,
    {
        assert(chain@.steps[i as int].id == chain.steps@[i as int].id@);
        if !available(plugins, chain.steps[i].id) {
            return false;
        }
        i = i + 1;
    }
    true
}

fn build_chain(world: &PluginWorld, steps: &Vec<ChainStep>) -> (r: Vec<EffectEntry>)
    ensures
        chain_view(r@) == built_chain(world, steps_view(steps@)),
{
    let mut r: Vec<EffectEntry> = Vec::new();
    let mut i: usize = 0;
    while i < steps.len()
        invariant
            i <= steps@.len(),
            r@.len() == i,
            forall|k: int|
                0 <= k < i ==> (#[trigger] r@[k])@ == built_chain(world, steps_view(steps@))[k],
        decreases steps@.len() - i,
    {
        let presets: Vec<EffectPreset> = world.presets_for(steps[i].id);
        r.push(build_entry(&steps[i], &presets));
        i = i + 1;
    }
    assert(chain_view(r@) =~= built_chain(world, steps_view(steps@)));
    r
}

/// The factory chains that this system can run.
pub fn factory_chains(world: &PluginWorld) -> (r: Vec<NamedChain>)
    ensures
        named_view(r@) == offered(world),
{
    let table: Vec<FactoryChain> = factory();
    let ghost all = factory_view(table@);
    let ghost p = can_run(world.plugins@);
    let ghost build = |c: FactoryView|
        NamedView { name: c.name, chain: built_chain(world, c.steps) };
    let mut r: Vec<NamedChain> = Vec::new();
    let mut i: usize = 0;
    proof {
        reveal(Seq::filter);
        assert(named_view(r@) =~= all.take(0).filter(p).map_values(build));
    }
    while i < table.len()
        invariant
            i <= table@.len(),
            all == factory_view(table@),
            p == can_run(world.plugins@),
            build == (|c: FactoryView|
                NamedView { name: c.name, chain: built_chain(world, c.steps) }),
            named_view(r@) == all.take(i as int).filter(p).map_values(build),
        decreases table@.len() - i,
    {
        let ghost after = all.take(i + 1);
        proof {
            reveal(Seq::filter);
            assert(after.drop_last() =~= all.take(i as int));
            assert(after.last() == table@[i as int]@);
        }
        if all_available(&world.plugins, &table[i]) {
            let ghost before = r@;
            let chain: Vec<EffectEntry> = build_chain(world, &table[i].steps);
            r.push(NamedChain { name: owned(table[i].name), chain });
            proof {
                assert(r@.last()@ == build(table@[i as int]@));
                assert(named_view(r@) =~= named_view(before).push(r@.last()@));
                assert(after.filter(p) == all.take(i as int).filter(p).push(table@[i as int]@));
                assert(after.filter(p).map_values(build) =~= all.take(i as int).filter(
                    p,
                ).map_values(build).push(build(table@[i as int]@)));
            }
        }
        i = i + 1;
    }
    assert(all.take(all.len() as int) =~= all);
    r
}

/// A chain with the given name.
pub open spec fn called(name: Seq<char>) -> spec_fn(NamedView) -> bool {
    |c: NamedView| c.name == name
}

/// A chain that the live one matches.
pub open spec fn matched_by(live: Seq<EffectView>) -> spec_fn(NamedView) -> bool {
    |c: NamedView| same_chain(c.chain, live)
}

/// The chain with the given name among those offered.
pub open spec fn chain_called(chains: Seq<NamedView>, name: Seq<char>) -> Option<Seq<EffectView>> {
    match first_index(chains, called(name)) {
        Some(i) => Some(chains[i].chain),
        None => None,
    }
}

/// The name of the first chain that the live one matches.
pub open spec fn first_match(chains: Seq<NamedView>, live: Seq<EffectView>) -> Option<Seq<char>> {
    match first_index(chains, matched_by(live)) {
        Some(i) => Some(chains[i].name),
        None => None,
    }
}

/// The factory chain with this name, if it is offered.
pub fn factory_chain(chains: &Vec<NamedChain>, name: &str) -> (r: Option<Vec<EffectEntry>>)
    ensures
        (match r {
            Some(chain) => Some(chain_view(chain@)),
            None => None,
        }) == chain_called(named_view(chains@), name@),
{
    let ghost views = named_view(chains@);
    let ghost p = called(name@);
    let mut i: usize = 0;
    while i < chains.len()
        invariant
            i <= chains@.len(),
            views == named_view(chains@),
            p == called(name@),
            forall|k: int| 0 <= k < i ==> !p(#[trigger] views[k]),
        decreases chains@.len() - i,
    {
        assert(views[i as int].name == chains@[i as int].name@);
        if same_text(chains[i].name.as_str(), name) {
            proof {
                found_first(views, p, i as int);
            }
            return Some(clone_chain(&chains[i].chain));
        }
        i = i + 1;
    }
    proof {
        found_none(views, p);
    }
    None
}

/// The factory chain that `chain` currently matches, if any.
pub fn matching_factory(chains: &Vec<NamedChain>, chain: &Vec<EffectEntry>) -> (r: Option<String>)
    ensures
        (match r {
            Some(name) => Some(name@),
            None => None,
        }) == first_match(named_view(chains@), chain_view(chain@)),
{
    let ghost views = named_view(chains@);
    let ghost p = matched_by(chain_view(chain@));
    let mut i: usize = 0;
    while i < chains.len()
        invariant
            i <= chains@.len(),
            views == named_view(chains@),
            p == matched_by(chain_view(chain@)),
            forall|k: int| 0 <= k < i ==> !p(#[trigger] views[k]),
        decreases chains@.len() - i,
    {
        assert(views[i as int].chain == chain_view(chains@[i as int].chain@));
        if chains_match(&chains[i].chain, chain) {
            proof {
                found_first(views, p, i as int);
            }
            return Some(chains[i].name.clone());
        }
        i = i + 1;
    }
    proof {
        found_none(views, p);
    }
    None
}

// ── Laws ─────────────────────────────────────────────────────────────────────

/// The presets that a factory chain names are provided by the soundboard itself, so
/// that it can always be built.
pub proof fn factory_chains_are_buildable(c: int, s: int)
    requires
        0 <= c < factory_table().len(),
        0 <= s < factory_table()[c].steps.len(),
    ensures
        factory_table()[c].steps[s].preset matches Some(want) ==> first_index(
            provided(factory_table()[c].steps[s].id),
            named(want),
        ) is Some,
{
    let step = factory_table()[c].steps[s];
    if let Some(want) = step.preset {
        // The group of the effect, and where the preset stands in it.
        let (k, r): (int, int) = if c == 0 && s == 0 {
            (0, 0)
        } else if c == 0 && s == 2 {
            (4, 1)
        } else if c == 1 && s == 1 {
            (4, 2)
        } else if c == 2 && s == 0 {
            (0, 1)
        } else if c == 2 && s == 2 {
            (4, 0)
        } else if c == 3 && s == 0 {
            (3, 2)
        } else if c == 3 && s == 1 {
            (2, 0)
        } else if c == 3 && s == 2 {
            (1, 0)
        } else if c == 4 && s == 0 {
            (6, 0)
        } else if c == 5 && s == 0 {
            (-1, 0)
        } else if c == 6 && s == 0 {
            (5, 4)
        } else if c == 6 && s == 1 {
            (1, 0)
        } else if c == 7 && s == 0 {
            (5, 2)
        } else if c == 8 && s == 0 {
            (4, 2)
        } else {
            (7, 1)
        };
        let rows = provided(step.id);
        if k == -1 {
            assert(step.id == CALF_VOCODER@);
        } else {
            assert(step.id == curated_preset_table()[k].id);
            group_is_found(k);
            assert(provided_rows(step.id) == curated_preset_table()[k].rows);
        }
        assert(rows[r].name == want);
        first_index_holds(rows, named(want));
    }
}

/// Values of ordinary numbers only.
pub open spec fn finite_values(values: Seq<(Seq<char>, Scalar)>) -> bool {
    forall|i: int| 0 <= i < values.len() ==> (#[trigger] values[i]).1.is_finite()
}

pub open spec fn finite_params(params: Map<Seq<char>, Scalar>) -> bool {
    forall|name: Seq<char>| #[trigger] params.dom().contains(name) ==> params[name].is_finite()
}

proof fn applying_keeps_finite(
    params: Map<Seq<char>, Scalar>,
    values: Seq<(Seq<char>, Scalar)>,
)
    requires
        finite_params(params),
        finite_values(values),
    ensures
        finite_params(applied(params, values)),
    decreases values.len(),
{
    if values.len() > 0 {
        let rest = values.drop_last();
        assert forall|i: int| 0 <= i < rest.len() implies (#[trigger] rest[i]).1.is_finite() by {
            assert(values[i].1.is_finite());
        }
        applying_keeps_finite(params, rest);
        assert(values[values.len() - 1].1.is_finite());
    }
}

/// What a factory chain sets are ordinary numbers, whatever is installed.
proof fn built_steps_are_finite(world: &PluginWorld, c: int, s: int)
    requires
        0 <= c < factory_table().len(),
        0 <= s < factory_table()[c].steps.len(),
    ensures
        finite_params(
            built(
                factory_table()[c].steps[s],
                world.presets_of(factory_table()[c].steps[s].id),
            ).params,
        ),
{
    let step = factory_table()[c].steps[s];
    let presets = world.presets_of(step.id);
    let own = own_values(step);
    assert(finite_values(own)) by {
        assert(step.params.len() == 0 || (c == 8 && s == 2) || (c == 9 && s == 0));
        assert forall|i: int| 0 <= i < own.len() implies (#[trigger] own[i]).1.is_finite() by {
            assert(0 <= step.params[i].1 <= 4_000_000);
            milli_is_finite(step.params[i].1);
        }
    }
    let start = start_of(step, presets);
    assert(finite_params(start)) by {
        if let Some(want) = step.preset {
            factory_chains_are_buildable(c, s);
            let mine = provided(step.id);
            let p = named(want);
            first_index_holds(mine, p);
            let k = first_index(mine, p)->0;
            let shipped = if is_lv2(step.id) {
                world.shipped_by(uri_of(step.id))
            } else {
                Seq::empty()
            };
            provided_presets_win(mine, shipped);
            assert forall|i: int| 0 <= i < mine.len() implies #[trigger] presets[i] == mine[i] by {
                if is_lv2(step.id) {
                    assert(presets.take(mine.len() as int)[i] == mine[i]);
                }
            }
            assert forall|i: int| 0 <= i < k implies !p(#[trigger] presets[i]) by {
                assert(!p(mine[i]));
            }
            found_first(presets, p, k);
            assert forall|i: int| 0 <= i < mine[k].values.len() implies (
            #[trigger] mine[k].values[i]).1.is_finite() by {
                provided_presets_are_finite(step.id, k, i);
            }
            applying_keeps_finite(Map::empty(), mine[k].values);
        }
    }
    applying_keeps_finite(start, own);
}

/// Two factory chains of the same length begin with different effects.
proof fn factory_chains_differ(a: int, b: int)
    requires
        0 <= a < b < factory_table().len(),
        factory_table()[a].steps.len() == factory_table()[b].steps.len(),
    ensures
        factory_table()[a].steps[0].id != factory_table()[b].steps[0].id,
{
    reveal_strlit("gate");
    reveal_strlit("telephone");
    reveal_strlit("lv2:https://github.com/werman/noise-suppression-for-voice#stereo");
    reveal_strlit("lv2:http://lsp-plug.in/plugins/lv2/compressor_stereo");
    reveal_strlit("lv2:http://breakfastquay.com/rdf/lv2-rubberband#livestereo");
    reveal_strlit("lv2:http://calf.sourceforge.net/plugins/RingModulator");
    reveal_strlit("lv2:http://calf.sourceforge.net/plugins/Vocoder");
    reveal_strlit("lv2:http://calf.sourceforge.net/plugins/Reverb");
    let t = factory_table();
    assert(t[0].steps.len() == 4 && t[0].steps[0].id.len() == 4);
    assert(t[1].steps.len() == 4 && t[1].steps[0].id.len() == 64);
    assert(t[2].steps.len() == 3 && t[2].steps[0].id.len() == 4);
    assert(t[3].steps.len() == 3 && t[3].steps[0].id.len() == 9);
    assert(t[4].steps.len() == 2 && t[4].steps[0].id.len() == 53);
    assert(t[5].steps.len() == 2 && t[5].steps[0].id.len() == 47);
    assert(t[6].steps.len() == 2 && t[6].steps[0].id.len() == 58);
    assert(t[7].steps.len() == 1 && t[7].steps[0].id.len() == 58);
    assert(t[8].steps.len() == 3 && t[8].steps[0].id.len() == 52);
    assert(t[9].steps.len() == 1 && t[9].steps[0].id.len() == 46);
}

/// A factory chain that was just loaded is recognised under its name.
pub proof fn built_chains_match_themselves(world: &PluginWorld, i: int)
    requires
        0 <= i < offered(world).len(),
    ensures
        offered(world)[i].chain.len() > 0,
        first_match(offered(world), offered(world)[i].chain) == Some(offered(world)[i].name),
{
    let table = factory_table();
    let run = can_run(world.plugins@);
    let at = filter_positions(table, run);
    let chains = offered(world);
    let c = at[i];
    let live = chains[i].chain;
    assert(live == built_chain(world, table[c].steps));
    assert(table[c].steps.len() > 0);
    assert forall|k: int, name: Seq<char>|
        0 <= k < live.len() && live[k].params.dom().contains(name) implies (
    #[trigger] live[k].params[name]).is_finite() by {
        built_steps_are_finite(world, c, k);
    }
    chain_matches_itself(live);
    let p = matched_by(live);
    assert(p(chains[i]));
    assert forall|j: int| 0 <= j < i implies !p(#[trigger] chains[j]) by {
        let d = at[j];
        assert(at[j] < at[i]);
        assert(chains[j].chain == built_chain(world, table[d].steps));
        if same_chain(chains[j].chain, live) {
            assert(same_effect(chains[j].chain[0], live[0]));
            factory_chains_differ(d, c);
        }
    }
    found_first(chains, p, i);
}

/// "Old Radio" is offered on every system: it is made of built-in effects.
pub proof fn old_radio_is_always_offered(world: &PluginWorld)
    ensures
        first_index(offered(world), called("Old Radio"@)) is Some,
{
    reveal_strlit("lv2:");
    reveal_strlit("telephone");
    reveal_strlit("bitcrush");
    reveal_strlit("distortion");
    let table = factory_table();
    let radio = table[3];
    let run = can_run(world.plugins@);
    let listed = builtin_table();
    assert forall|s: int| 0 <= s < radio.steps.len() implies is_available(
        world.plugins@,
        (#[trigger] radio.steps[s]).id,
    ) by {
        let id = radio.steps[s].id;
        assert(id == "telephone"@ || id == "bitcrush"@ || id == "distortion"@);
        assert(id.take(4)[0] != "lv2:"@[0]);
        let k: int = if s == 0 {
            4
        } else if s == 1 {
            3
        } else {
            2
        };
        assert(listed[k].id@ == id);
        assert(listed_as(id)(listed[k]));
        first_index_holds(listed, listed_as(id));
    }
    let at = filter_positions(table, run);
    assert(run(table[3]));
    assert(at.contains(3));
    let i = choose|i: int| 0 <= i < at.len() && at[i] == 3;
    let chains = offered(world);
    assert(chains[i].name == "Old Radio"@);
    assert(called("Old Radio"@)(chains[i]));
    first_index_holds(chains, called("Old Radio"@));
}

/// An effect of a ready-made chain is on, has the value that the chain itself gives a
/// control, else that of the preset that it starts from, and no other controls.
pub proof fn own_values_come_after_the_preset(
    step: StepView,
    presets: Seq<PresetView>,
    p: int,
    name: Seq<char>,
)
    requires
        step.preset is Some ==> 0 <= p < presets.len() && presets[p].name == step.preset->0 && forall|
            k: int,
        | 0 <= k < p ==> (#[trigger] presets[k]).name != step.preset->0,
    ensures
        built(step, presets).id == step.id,
        built(step, presets).enabled,
        forall|i: int|
            0 <= i < step.params.len() && (#[trigger] step.params[i]).0 == name && (forall|k: int|
                i < k < step.params.len() ==> (#[trigger] step.params[k]).0 != name) ==> built(
                step,
                presets,
            ).params.dom().contains(name) && built(step, presets).params[name] == milli(
                step.params[i].1,
            ),
        step.preset is Some && (forall|i: int|
            0 <= i < step.params.len() ==> (#[trigger] step.params[i]).0 != name) ==> forall|j: int|
            0 <= j < presets[p].values.len() && (#[trigger] presets[p].values[j]).0 == name && (
            forall|k: int| j < k < presets[p].values.len() ==> (#[trigger] presets[p].values[k]).0 != name)
                ==> built(step, presets).params.dom().contains(name) && built(
                step,
                presets,
            ).params[name] == presets[p].values[j].1,
        (forall|i: int| 0 <= i < step.params.len() ==> (#[trigger] step.params[i]).0 != name) && (
        step.preset is Some ==> forall|j: int|
            0 <= j < presets[p].values.len() ==> (#[trigger] presets[p].values[j]).0 != name)
            ==> !built(step, presets).params.dom().contains(name),
{
    let (start, own) = (start_of(step, presets), own_values(step));
    preset_touches_what_it_names(start, own, name);
    assert forall|i: int| 0 <= i < step.params.len() implies (#[trigger] own[i]).0
        == step.params[i].0 by {}
    if step.preset is Some {
        let want = step.preset->0;
        assert forall|k: int| 0 <= k < p implies !named(want)(#[trigger] presets[k]) by {}
        found_first(presets, named(want), p);
        preset_touches_what_it_names(Map::empty(), presets[p].values, name);
    }
    assert forall|i: int|
        0 <= i < step.params.len() && (#[trigger] step.params[i]).0 == name && (forall|k: int|
            i < k < step.params.len() ==> (#[trigger] step.params[k]).0 != name) implies built(
        step,
        presets,
    ).params.dom().contains(name) && built(step, presets).params[name] == milli(
        step.params[i].1,
    ) by {
        assert(own[i].0 == name);
        assert forall|k: int| i < k < own.len() implies (#[trigger] own[k]).0 != name by {
            assert(step.params[k].0 != name);
        }
    }
    if forall|i: int| 0 <= i < step.params.len() ==> (#[trigger] step.params[i]).0 != name {
        assert forall|i: int| 0 <= i < own.len() implies (#[trigger] own[i]).0 != name by {
            assert(step.params[i].0 != name);
        }
    }
}

/// An effect is at hand where it is built in, or where its plugin is installed.
pub proof fn effects_at_hand(plugins: Seq<InstalledPlugin>, id: Seq<char>, k: int)
    ensures
        0 <= k < builtin_table().len() && !is_lv2(id) && builtin_table()[k].id@ == id ==> is_available(
            plugins,
            id,
        ),
        0 <= k < plugins.len() && id == "lv2:"@ + plugins[k].uri@ ==> is_available(plugins, id),
        is_available(plugins, id) ==> (exists|j: int|
            0 <= j < builtin_table().len() && (#[trigger] builtin_table()[j]).id@ == id) || (exists|
            j: int,
        | 0 <= j < plugins.len() && id == "lv2:"@ + (#[trigger] plugins[j]).uri@),
{
    first_index_holds(builtin_table(), listed_as(id));
    first_index_holds(plugins, has_uri(uri_of(id)));
    if 0 <= k < builtin_table().len() && builtin_table()[k].id@ == id {
        assert(listed_as(id)(builtin_table()[k]));
    }
    if 0 <= k < plugins.len() && id == "lv2:"@ + plugins[k].uri@ {
        assert(id.take("lv2:"@.len() as int) =~= "lv2:"@);
        assert(uri_of(id) =~= plugins[k].uri@);
        assert(has_uri(uri_of(id))(plugins[k]));
    }
    if is_available(plugins, id) {
        if is_lv2(id) {
            let j = first_index(plugins, has_uri(uri_of(id)))->0;
            assert(id =~= "lv2:"@ + plugins[j].uri@);
        } else {
            let j = first_index(builtin_table(), listed_as(id))->0;
            assert(builtin_table()[j].id@ == id);
        }
    }
}

/// A ready-made chain is offered exactly where every effect of it is at hand, with all of
/// its effects in their order.
pub proof fn chains_are_offered_where_they_can_run(world: &PluginWorld, c: int)
    requires
        0 <= c < factory_table().len(),
    ensures
        (forall|s: int|
            0 <= s < factory_table()[c].steps.len() ==> is_available(
                world.plugins@,
                (#[trigger] factory_table()[c].steps[s]).id,
            )) ==> exists|i: int|
            0 <= i < offered(world).len() && (#[trigger] offered(world)[i]).name
                == factory_table()[c].name && offered(world)[i].chain.len()
                == factory_table()[c].steps.len() && forall|s: int|
                0 <= s < factory_table()[c].steps.len() ==> (#[trigger] offered(world)[i].chain[s]).id
                    == factory_table()[c].steps[s].id && offered(world)[i].chain[s].enabled,
        forall|i: int|
            0 <= i < offered(world).len() ==> exists|b: int|
                0 <= b < factory_table().len() && (#[trigger] factory_table()[b]).name == (
                #[trigger] offered(world)[i]).name && forall|s: int|
                    0 <= s < factory_table()[b].steps.len() ==> is_available(
                        world.plugins@,
                        (#[trigger] factory_table()[b].steps[s]).id,
                    ),
{
    let (table, keep) = (factory_table(), can_run(world.plugins@));
    let at = filter_positions(table, keep);
    let shown = offered(world);
    assert forall|i: int| 0 <= i < shown.len() implies shown[i].name == table[at[i]].name
        && shown[i].chain == built_chain(world, table[at[i]].steps) && keep(table[at[i]]) by {
        assert(at[i] == at[i]);
    }
    if forall|s: int|
        0 <= s < table[c].steps.len() ==> is_available(
            world.plugins@,
            (#[trigger] table[c].steps[s]).id,
        ) {
        assert(keep(table[c]));
        let i = choose|i: int| 0 <= i < at.len() && at[i] == c;
        assert(shown[i].name == table[c].name);
    }
    assert forall|i: int| 0 <= i < shown.len() implies exists|b: int|
        0 <= b < table.len() && (#[trigger] table[b]).name == (#[trigger] shown[i]).name && forall|
            s: int,
        |
            0 <= s < table[b].steps.len() ==> is_available(
                world.plugins@,
                (#[trigger] table[b].steps[s]).id,
            ) by {
        assert(table[at[i]].name == shown[i].name);
        assert(keep(table[at[i]]));
    }
}

/// A chain is found by its name, and recognised by its effects, the first of several.
pub proof fn chains_are_found(chains: Seq<NamedView>, name: Seq<char>, live: Seq<EffectView>, k: int)
    requires
        0 <= k < chains.len(),
    ensures
        chains[k].name == name && (forall|j: int| 0 <= j < k ==> (#[trigger] chains[j]).name != name)
            ==> chain_called(chains, name) == Some(chains[k].chain),
        same_chain(chains[k].chain, live) && (forall|j: int|
            0 <= j < k ==> !same_chain((#[trigger] chains[j]).chain, live)) ==> first_match(
            chains,
            live,
        ) == Some(chains[k].name),
        (forall|j: int| 0 <= j < chains.len() ==> (#[trigger] chains[j]).name != name)
            ==> chain_called(chains, name) is None,
        (forall|j: int| 0 <= j < chains.len() ==> !same_chain((#[trigger] chains[j]).chain, live))
            ==> first_match(chains, live) is None,
{
    if chains[k].name == name && forall|j: int| 0 <= j < k ==> (#[trigger] chains[j]).name != name {
        found_first(chains, called(name), k);
    }
    if same_chain(chains[k].chain, live) && forall|j: int|
        0 <= j < k ==> !same_chain((#[trigger] chains[j]).chain, live) {
        found_first(chains, matched_by(live), k);
    }
    if forall|j: int| 0 <= j < chains.len() ==> (#[trigger] chains[j]).name != name {
        found_none(chains, called(name));
    }
    if forall|j: int| 0 <= j < chains.len() ==> !same_chain((#[trigger] chains[j]).chain, live) {
        found_none(chains, matched_by(live));
    }
}

} // verus!
