//! Plugins that are installed on the system, and how they are hosted.

use vstd::prelude::*;

use super::presets::{
    all_presets, merged, presets_for, presets_view, provided, values_view, EffectPreset, PresetView,
};
use super::{clamp_between, in_range, params_view, KindView, ParamKind, ParamView, PluginParam};
use crate::order::{
    is_sorted_order, keys_view, sort_order, sorted_order_is_a_permutation, SortKey,
};
use crate::rounding::{from_milli, milli};
use crate::scalar::Scalar;
use crate::search::{filter_positions, first_index, found_first, found_none};
use crate::text::{
    has_prefix, lex_is_total, lex_lt, lowercase, owned, same_text, strip_prefix, to_lowercase,
};
use crate::text_map::TextMap;

verus! {

/// The prefix that marks the chain identifier of a plugin; the rest is its URI.
pub const LV2_ID_PREFIX: &'static str = "lv2:";

/// The largest block that a plugin is run on at once.
pub const MAX_BLOCK: usize = 4096;

/// The chain identifier is that of a plugin.
pub open spec fn is_lv2(id: Seq<char>) -> bool {
    has_prefix(id, LV2_ID_PREFIX@)
}

/// The URI in the chain identifier of a plugin.
pub open spec fn uri_of(id: Seq<char>) -> Seq<char> {
    id.skip(LV2_ID_PREFIX@.len() as int)
}

/// Builds a chain identifier from the URI of a plugin.
pub fn id_for_uri(uri: &str) -> (r: String)
    ensures
        r@ == LV2_ID_PREFIX@ + uri@,
{
    let mut r: String = owned(LV2_ID_PREFIX);
    r.append(uri);
    r
}

/// Extracts the URI from a chain identifier, if it is that of a plugin.
pub fn uri_from_id(id: &str) -> (r: Option<String>)
    ensures
        match r {
            Some(uri) => is_lv2(id@) && uri@ == uri_of(id@),
            None => !is_lv2(id@),
        },
{
    strip_prefix(id, LV2_ID_PREFIX)
}

/// A chain identifier and a URI stand for each other.
pub proof fn identifiers_round_trip(id: Seq<char>, uri: Seq<char>)
    ensures
        is_lv2(LV2_ID_PREFIX@ + uri),
        uri_of(LV2_ID_PREFIX@ + uri) == uri,
        is_lv2(id) ==> LV2_ID_PREFIX@ + uri_of(id) == id,
{
    let made = LV2_ID_PREFIX@ + uri;
    assert(made.take(LV2_ID_PREFIX@.len() as int) =~= LV2_ID_PREFIX@);
    assert(uri_of(made) =~= uri);
    if is_lv2(id) {
        assert(id.take(LV2_ID_PREFIX@.len() as int) + uri_of(id) =~= id);
    }
}

// ── What is installed ────────────────────────────────────────────────────────

/// An installed plugin, as far as it matters for hosting.
pub struct InstalledPlugin {
    pub uri: String,
    pub name: String,
    pub audio_inputs: usize,
    pub audio_outputs: usize,
    pub cv_inputs: usize,
    pub cv_outputs: usize,
    pub instrument: bool,
}

/// A plugin that can be put on the microphone.
pub struct Lv2Info {
    pub uri: String,
    pub name: String,
}

/// It takes audio and gives audio, needs no control voltage and is no instrument.
pub open spec fn is_effect() -> spec_fn(InstalledPlugin) -> bool {
    |p: InstalledPlugin|
        p.audio_inputs >= 1 && p.audio_outputs >= 1 && p.cv_inputs == 0 && p.cv_outputs == 0
            && !p.instrument
}

/// What a plugin is sorted by: its name, whatever the letter case.
pub open spec fn name_keys(plugins: Seq<InstalledPlugin>) -> Seq<(nat, Seq<char>)> {
    Seq::new(plugins.len(), |i: int| (0nat, lowercase(plugins[i].name@)))
}

/// `found` lists the plugins that can act as effects, sorted by name; those with the
/// same name keep their order.
pub open spec fn is_discovery(plugins: Seq<InstalledPlugin>, found: Seq<Lv2Info>) -> bool {
    let effects = plugins.filter(is_effect());
    exists|order: Seq<usize>| #[trigger]
        is_sorted_order(order, name_keys(effects)) && found.len() == order.len() && forall|i: int|
            0 <= i < found.len() ==> (#[trigger] found[i]).uri@ == effects[order[i] as int].uri@
                && found[i].name@ == effects[order[i] as int].name@
}

/// Lists the plugins that can act as audio effects, sorted by display name.
pub fn discover(plugins: &Vec<InstalledPlugin>) -> (r: Vec<Lv2Info>)
    ensures
        is_discovery(plugins@, r@),
{
    let mut kept: Vec<usize> = Vec::new();
    let mut keys: Vec<SortKey> = Vec::new();
    let mut i: usize = 0;
    let ghost mut effects = plugins@.take(0).filter(is_effect());
    proof {
        reveal(Seq::filter);
        assert(name_keys(effects) =~= keys_view(keys@));
    }
    while i < plugins.len()
        invariant
            i <= plugins@.len(),
            effects == plugins@.take(i as int).filter(is_effect()),
            kept@.len() == effects.len(),
            forall|k: int|
                0 <= k < kept@.len() ==> (#[trigger] kept@[k]) < i && plugins@[kept@[k] as int]
                    == effects[k],
            keys_view(keys@) == name_keys(effects),
        decreases plugins@.len() - i,
    {
        let ghost after = plugins@.take(i + 1);
        let ghost before = effects;
        let ghost old_keys = keys@;
        proof {
            reveal(Seq::filter);
            assert(after.drop_last() =~= plugins@.take(i as int));
            assert(after.last() == plugins@[i as int]);
            effects = after.filter(is_effect());
        }
        if plugins[i].audio_inputs >= 1 && plugins[i].audio_outputs >= 1 && plugins[i].cv_inputs
            == 0 && plugins[i].cv_outputs == 0 && !plugins[i].instrument {
            let name: String = to_lowercase(plugins[i].name.as_str());
            keys.push(SortKey::new(0, name.as_str()));
            kept.push(i);
            proof {
                assert(effects == before.push(plugins@[i as int]));
                assert(keys_view(keys@) =~= keys_view(old_keys).push(
                    (0nat, lowercase(plugins@[i as int].name@)),
                ));
                assert(name_keys(effects) =~= name_keys(before).push(
                    (0nat, lowercase(plugins@[i as int].name@)),
                ));
            }
        }
        i = i + 1;
    }
    assert(plugins@.take(plugins@.len() as int) =~= plugins@);
    let order: Vec<usize> = sort_order(&keys);
    let mut r: Vec<Lv2Info> = Vec::new();
    let mut k: usize = 0;
    while k < order.len()
        invariant
            k <= order@.len(),
            r@.len() == k,
            effects == plugins@.filter(is_effect()),
            is_sorted_order(order@, name_keys(effects)),
            kept@.len() == effects.len(),
            forall|k: int|
                0 <= k < kept@.len() ==> (#[trigger] kept@[k]) < plugins@.len()
                    && plugins@[kept@[k] as int] == effects[k],
            forall|j: int|
                0 <= j < k ==> (#[trigger] r@[j]).uri@ == effects[order@[j] as int].uri@
                    && r@[j].name@ == effects[order@[j] as int].name@,
        decreases order@.len() - k,
    {
        let at: usize = order[k];
        assert(at < kept@.len());
        let from: usize = kept[at];
        r.push(Lv2Info { uri: plugins[from].uri.clone(), name: plugins[from].name.clone() });
        k = k + 1;
    }
    assert(is_sorted_order(order@, name_keys(effects)));
    r
}

/// The plugin with the given URI.
pub open spec fn has_uri(uri: Seq<char>) -> spec_fn(InstalledPlugin) -> bool {
    |p: InstalledPlugin| p.uri@ == uri
}

/// The name of an installed plugin.
pub open spec fn installed_name(plugins: Seq<InstalledPlugin>, uri: Seq<char>) -> Option<
    Seq<char>,
> {
    match first_index(plugins, has_uri(uri)) {
        Some(i) => Some(plugins[i].name@),
        None => None,
    }
}

/// Human-readable name for the URI of a plugin, if it is installed.
pub fn name_for_uri(plugins: &Vec<InstalledPlugin>, uri: &str) -> (r: Option<String>)
    ensures
        (match r {
            Some(name) => Some(name@),
            None => None,
        }) == installed_name(plugins@, uri@),
{
    let ghost p = has_uri(uri@);
    let mut i: usize = 0;
    while i < plugins.len()
        invariant
            i <= plugins@.len(),
            p == has_uri(uri@),
            forall|k: int| 0 <= k < i ==> !p(#[trigger] plugins@[k]),
        decreases plugins@.len() - i,
    {
        if same_text(plugins[i].uri.as_str(), uri) {
            proof {
                found_first(plugins@, p, i as int);
            }
            return Some(plugins[i].name.clone());
        }
        i = i + 1;
    }
    proof {
        found_none(plugins@, p);
    }
    None
}

/// What is known of the installed plugins: which there are, and the presets that
/// they ship, as far as they have been read.
pub struct PluginWorld {
    pub plugins: Vec<InstalledPlugin>,
    pub shipped: TextMap<Vec<EffectPreset>>,
}

/// What is known of shipped presets once those of `uri` have been read. Bundles do not
/// change under a running process, so what was read first stays.
pub open spec fn learned(
    shipped: Map<Seq<char>, Vec<EffectPreset>>,
    uri: Seq<char>,
    presets: Vec<EffectPreset>,
) -> Map<Seq<char>, Vec<EffectPreset>> {
    if shipped.dom().contains(uri) {
        shipped
    } else {
        shipped.insert(uri, presets)
    }
}

/// The presets of a plugin are read once: asking again gives the same ones.
pub proof fn presets_are_read_once(
    shipped: Map<Seq<char>, Vec<EffectPreset>>,
    uri: Seq<char>,
    first: Vec<EffectPreset>,
    again: Vec<EffectPreset>,
)
    ensures
        learned(learned(shipped, uri, first), uri, again) == learned(shipped, uri, first),
{
}

impl PluginWorld {
    /// The URI of the plugin behind an effect, if its presets have not been read yet.
    pub fn unread(&self, id: &str) -> (r: Option<String>)
        ensures
            r is Some <==> is_lv2(id@) && !self.shipped@.dom().contains(uri_of(id@)),
            r matches Some(uri) ==> uri@ == uri_of(id@),
    {
        match uri_from_id(id) {
            Some(uri) => match self.shipped.get(uri.as_str()) {
                Some(_) => None,
                None => Some(uri),
            },
            None => None,
        }
    }

    /// Takes in the presets that a plugin ships, unless they are known.
    pub fn learn(&mut self, uri: String, presets: Vec<EffectPreset>)
        ensures
            final(self).shipped@ == learned(old(self).shipped@, uri@, presets),
            final(self).plugins == old(self).plugins,
    {
        if self.shipped.get(uri.as_str()).is_none() {
            self.shipped.insert(uri, presets);
        }
    }

    /// The presets that a plugin ships.
    pub open spec fn shipped_by(&self, uri: Seq<char>) -> Seq<PresetView> {
        if self.shipped@.dom().contains(uri) {
            presets_view(self.shipped@[uri]@)
        } else {
            Seq::empty()
        }
    }

    /// Every preset for an effect.
    pub open spec fn presets_of(&self, id: Seq<char>) -> Seq<PresetView> {
        all_presets(
            id,
            if is_lv2(id) {
                self.shipped_by(uri_of(id))
            } else {
                Seq::empty()
            },
        )
    }

    /// Every preset available for a chain entry.
    pub fn presets_for(&self, id: &str) -> (r: Vec<EffectPreset>)
        ensures
            presets_view(r@) == self.presets_of(id@),
    {
        let none: Vec<EffectPreset> = Vec::new();
        assert(presets_view(none@) =~= Seq::empty());
        match uri_from_id(id) {
            Some(uri) => match self.shipped.get(uri.as_str()) {
                Some(shipped) => presets_for(id, shipped),
                None => presets_for(id, &none),
            },
            None => presets_for(id, &none),
        }
    }
}

// ── Controls of a plugin ─────────────────────────────────────────────────────

/// A choice that a control port offers: its label and value, as far as the plugin
/// states them.
pub struct ScalePoint {
    pub label: Option<String>,
    pub value: Option<Scalar>,
}

/// A port of a plugin.
pub struct Port {
    pub symbol: String,
    pub name: String,
    pub index: usize,
    /// It takes a control value.
    pub control_input: bool,
    pub min: Option<Scalar>,
    pub max: Option<Scalar>,
    pub default: Scalar,
    pub toggled: bool,
    pub enumeration: bool,
    pub integer: bool,
    pub points: Vec<ScalePoint>,
}

impl Port {
    pub open spec fn low(&self) -> Scalar {
        match self.min {
            Some(min) => min,
            None => milli(0),
        }
    }

    pub open spec fn high(&self) -> Scalar {
        match self.max {
            Some(max) => max,
            None => milli(1000),
        }
    }
}

/// The choices that have both a label and a value.
pub open spec fn complete_points(points: Seq<ScalePoint>) -> Seq<(Seq<char>, Scalar)>
    decreases points.len(),
{
    if points.len() == 0 {
        Seq::empty()
    } else {
        let rest = complete_points(points.drop_last());
        match (points.last().label, points.last().value) {
            (Some(label), Some(value)) => rest.push((label@, value)),
            _ => rest,
        }
    }
}

/// Choice `i` comes before choice `j`: it has the smaller value, or none of the two
/// is smaller and it stood first.
pub open spec fn point_before(points: Seq<(Seq<char>, Scalar)>, i: int, j: int) -> bool {
    points[i].1.lt(points[j].1) || (!points[j].1.lt(points[i].1) && i < j)
}

/// `sorted` holds the choices by ascending value; those with the same value keep
/// their order. Where a value is not a number, they stand in any order.
pub open spec fn is_sorted_choice(
    points: Seq<(Seq<char>, Scalar)>,
    sorted: Seq<(Seq<char>, Scalar)>,
) -> bool {
    exists|order: Seq<int>| #[trigger] is_point_order(points, order) && sorted == Seq::new(
        order.len(),
        |i: int| points[order[i]],
    )
}

pub open spec fn is_point_order(points: Seq<(Seq<char>, Scalar)>, order: Seq<int>) -> bool {
    &&& order.len() == points.len()
    &&& forall|i: int| 0 <= i < order.len() ==> 0 <= #[trigger] order[i] < points.len()
    &&& forall|i: int, j: int| 0 <= i < j < order.len() ==> #[trigger] order[i] != #[trigger] order[j]
    &&& no_nan(points) ==> forall|i: int, j: int|
        0 <= i < j < order.len() ==> point_before(points, #[trigger] order[i], #[trigger] order[j])
}

pub open spec fn no_nan(points: Seq<(Seq<char>, Scalar)>) -> bool {
    forall|i: int| 0 <= i < points.len() ==> !(#[trigger] points[i]).1.is_nan()
}

/// The right kind of control for a port: a switch, a dropdown of its choices, whole
/// numbers, or a slider.
pub open spec fn is_kind_of(port: &Port, kind: KindView) -> bool {
    let points = complete_points(port.points@);
    if port.toggled {
        kind is Toggle
    } else if port.enumeration && points.len() > 0 {
        kind matches KindView::Enum(sorted) && is_sorted_choice(points, sorted)
    } else if port.integer {
        kind is Integer
    } else {
        kind is Continuous
    }
}

fn sorted_points(points: &Vec<ScalePoint>) -> (r: Vec<(String, Scalar)>)
    ensures
        is_sorted_choice(complete_points(points@), values_view(r@)),
{
    let mut r: Vec<(String, Scalar)> = Vec::new();
    let ghost mut order: Seq<int> = Seq::empty();
    let ghost mut given: Seq<(Seq<char>, Scalar)> = Seq::empty();
    let mut i: usize = 0;
    proof {
        assert(points@.take(0) =~= Seq::empty());
    }
    while i < points.len()
        invariant
            i <= points@.len(),
            given == complete_points(points@.take(i as int)),
            is_point_order(given, order),
            r@.len() == order.len(),
            forall|k: int|
                0 <= k < r@.len() ==> (#[trigger] r@[k]).0@ == given[order[k]].0 && r@[k].1
                    == given[order[k]].1,
        decreases points@.len() - i,
    {
        let ghost after = points@.take(i + 1);
        proof {
            assert(after.drop_last() =~= points@.take(i as int));
            assert(after.last() == points@[i as int]);
            points_grow(points@, i as int);
            points_grow(points@, i + 1);
        }
        match (&points[i].label, points[i].value) {
            (Some(label), Some(value)) => {
                let ghost next = given.push((label@, value));
                proof {
                    assert(complete_points(after) == next);
                    assert(next[given.len() as int].1 == value);
                    if no_nan(next) {
                        assert forall|k: int| 0 <= k < given.len() implies !(
                        #[trigger] given[k]).1.is_nan() by {
                            assert(next[k] == given[k]);
                        }
                    }
                }
                let mut p: usize = 0;
                while p < r.len() && !value.below(r[p].1)
                    invariant
                        p <= r@.len(),
                        r@.len() == order.len(),
                        is_point_order(given, order),
                        next == given.push((label@, value)),
                        forall|k: int|
                            0 <= k < r@.len() ==> (#[trigger] r@[k]).1 == given[order[k]].1,
                        forall|k: int| 0 <= k < p ==> !value.lt(#[trigger] given[order[k]].1),
                    decreases r@.len() - p,
                {
                    assert(r@[p as int].1 == given[order[p as int]].1);
                    p = p + 1;
                }
                let ghost before = r@;
                let ghost at = given.len() as int;
                let ghost old_order = order;
                r.insert(p, (label.clone(), value));
                proof {
                    order = order.insert(p as int, at);
                    assert forall|a: int| 0 <= a < order.len() implies 0 <= #[trigger] order[a]
                        < next.len() by {
                        if a < p {
                            assert(order[a] == old_order[a]);
                        } else if a > p {
                            assert(order[a] == old_order[a - 1]);
                        }
                    }
                    assert forall|a: int, b: int| 0 <= a < b < order.len() implies #[trigger] order[a]
                        != #[trigger] order[b] by {
                        let a0 = if a < p { a } else { a - 1 };
                        let b0 = if b < p { b } else { b - 1 };
                        if a != p {
                            assert(order[a] == old_order[a0] && old_order[a0] < at);
                        }
                        if b != p {
                            assert(order[b] == old_order[b0] && old_order[b0] < at);
                        }
                    }
                    assert forall|a: int, b: int|
                        no_nan(next) && 0 <= a < b < order.len() implies point_before(
                        next,
                        #[trigger] order[a],
                        #[trigger] order[b],
                    ) by {
                        if b == p {
                            assert(order[a] == old_order[a]);
                            assert(!value.lt(given[old_order[a]].1));
                        } else if a == p {
                            assert(order[b] == old_order[b - 1]);
                            let head = given[old_order[p as int]].1;
                            let tail = given[old_order[b - 1]].1;
                            assert(before[p as int].1 == head);
                            assert(value.lt(head));
                            if b - 1 > p {
                                assert(point_before(given, old_order[p as int], old_order[b - 1]));
                            }
                            assert(!tail.is_nan());
                            assert(value.lt(tail));
                        } else {
                            let a0 = if a < p { a } else { a - 1 };
                            let b0 = if b < p { b } else { b - 1 };
                            assert(order[a] == old_order[a0] && order[b] == old_order[b0]);
                            assert(point_before(given, old_order[a0], old_order[b0]));
                        }
                    }
                    assert forall|k: int| 0 <= k < r@.len() implies (#[trigger] r@[k]).0@
                        == next[order[k]].0 && r@[k].1 == next[order[k]].1 by {
                        if k < p {
                            assert(r@[k] == before[k]);
                            assert(order[k] == old_order[k]);
                        } else if k > p {
                            assert(r@[k] == before[k - 1]);
                            assert(order[k] == old_order[k - 1]);
                        }
                    }
                    given = next;
                }
            },
            _ => {},
        }
        i = i + 1;
    }
    proof {
        assert(points@.take(points@.len() as int) =~= points@);
        assert(values_view(r@) =~= Seq::new(order.len(), |i: int| given[order[i]]));
    }
    r
}

proof fn points_grow(points: Seq<ScalePoint>, n: int)
    requires
        0 <= n <= points.len(),
    ensures
        complete_points(points.take(n)).len() <= complete_points(points).len(),
        forall|k: int|
            0 <= k < complete_points(points.take(n)).len() ==> #[trigger] complete_points(
                points.take(n),
            )[k] == complete_points(points)[k],
    decreases points.len() - n,
{
    if n == points.len() {
        assert(points.take(n) =~= points);
    } else {
        points_grow(points, n + 1);
        let next = points.take(n + 1);
        assert(next.drop_last() =~= points.take(n));
        assert forall|k: int| 0 <= k < complete_points(points.take(n)).len() implies
            #[trigger] complete_points(points.take(n))[k] == complete_points(points)[k] by {
            assert(complete_points(next)[k] == complete_points(points)[k]);
        }
    }
}

fn has_complete_point(points: &Vec<ScalePoint>) -> (r: bool)
    ensures
        r == (complete_points(points@).len() > 0),
{
    let mut i: usize = 0;
    assert(points@.take(0) =~= Seq::empty());
    while i < points.len()
        invariant
            i <= points@.len(),
            complete_points(points@.take(i as int)).len() == 0,
        decreases points@.len() - i,
    {
        proof {
            assert(points@.take(i + 1).drop_last() =~= points@.take(i as int));
            points_grow(points@, i + 1);
        }
        match (&points[i].label, points[i].value) {
            (Some(_), Some(_)) => {
                return true;
            },
            _ => {},
        }
        i = i + 1;
    }
    assert(points@.take(points@.len() as int) =~= points@);
    false
}

/// Chooses the right kind of control for a port.
pub fn classify_port(port: &Port) -> (r: ParamKind)
    ensures
        is_kind_of(port, r@),
{
    if port.toggled {
        return ParamKind::Toggle;
    }
    if port.enumeration && has_complete_point(&port.points) {
        return ParamKind::Enum(sorted_points(&port.points));
    }
    if port.integer {
        return ParamKind::Integer;
    }
    ParamKind::Continuous
}

// ── Hosting a plugin ─────────────────────────────────────────────────────────

/// What the chain knows of a hosted plugin: its controls, the ports behind them, and
/// how much audio goes in and out.
pub struct Lv2Plugin {
    pub id: String,
    pub name: String,
    pub enabled: bool,
    pub params: Vec<PluginParam>,
    /// The port behind each control.
    pub control_ports: TextMap<usize>,
    pub audio_in: usize,
    pub audio_out: usize,
}

/// A port that takes a control value.
pub open spec fn is_control() -> spec_fn(Port) -> bool {
    |p: Port| p.control_input
}

/// The control of a port: with the value that the entry gives it, or else its
/// default, within its range.
pub open spec fn is_param_of(
    port: &Port,
    overrides: Map<Seq<char>, Scalar>,
    param: ParamView,
) -> bool {
    let wanted = if overrides.dom().contains(port.symbol@) {
        overrides[port.symbol@]
    } else {
        port.default
    };
    &&& param.id == port.symbol@
    &&& param.label == port.name@
    &&& param.min == port.low()
    &&& param.max == port.high()
    &&& param.default == port.default
    &&& param.value == in_range(wanted, port.low(), port.high())
    &&& is_kind_of(port, param.kind)
}

/// The port of each symbol; of several with one symbol, the last.
pub open spec fn port_map(controls: Seq<Port>) -> Map<Seq<char>, usize>
    decreases controls.len(),
{
    if controls.len() == 0 {
        Map::empty()
    } else {
        port_map(controls.drop_last()).insert(controls.last().symbol@, controls.last().index)
    }
}

/// The port states at least one end of its range in numbers.
pub open spec fn usable(port: &Port) -> bool {
    !port.low().is_nan() || !port.high().is_nan()
}

impl Lv2Plugin {
    /// Every control has a port and a range.
    pub open spec fn wf(&self) -> bool {
        forall|k: int|
            0 <= k < self.params@.len() ==> self.control_ports@.dom().contains(
                (#[trigger] self.params@[k]).id@,
            ) && (!self.params@[k].min.is_nan() || !self.params@[k].max.is_nan())
    }

    /// Sets a plugin up with the ports that it has. `overrides` gives controls other
    /// values than their defaults.
    pub fn instantiate(
        plugin: &InstalledPlugin,
        ports: &Vec<Port>,
        overrides: &TextMap<Scalar>,
    ) -> (r: Lv2Plugin)
        requires
            forall|i: int|
                0 <= i < ports@.len() && (#[trigger] ports@[i]).control_input ==> usable(
                    &ports@[i],
                ),
        ensures
            r.wf(),
            r.id@ == LV2_ID_PREFIX@ + plugin.uri@,
            r.name@ == plugin.name@,
            r.enabled,
            r.audio_in == plugin.audio_inputs,
            r.audio_out == plugin.audio_outputs,
            r.params@.len() == ports@.filter(is_control()).len(),
            forall|k: int|
                0 <= k < r.params@.len() ==> is_param_of(
                    &ports@.filter(is_control())[k],
                    overrides@,
                    (#[trigger] r.params@[k])@,
                ),
            r.control_ports@ == port_map(ports@.filter(is_control())),
    {
        let mut params: Vec<PluginParam> = Vec::new();
        let mut control_ports: TextMap<usize> = TextMap::new();
        let mut i: usize = 0;
        let ghost mut controls = ports@.take(0).filter(is_control());
        proof {
            reveal(Seq::filter);
        }
        while i < ports.len()
            invariant
                i <= ports@.len(),
                controls == ports@.take(i as int).filter(is_control()),
                params@.len() == controls.len(),
                control_ports@ == port_map(controls),
                forall|i: int|
                    0 <= i < ports@.len() && (#[trigger] ports@[i]).control_input ==> usable(
                        &ports@[i],
                    ),
                forall|k: int|
                    0 <= k < params@.len() ==> is_param_of(
                        &controls[k],
                        overrides@,
                        (#[trigger] params@[k])@,
                    ) && control_ports@.dom().contains(params@[k].id@) && (
                    !params@[k].min.is_nan() || !params@[k].max.is_nan()),
            decreases ports@.len() - i,
        {
            let ghost after = ports@.take(i + 1);
            let ghost before = controls;
            proof {
                reveal(Seq::filter);
                assert(after.drop_last() =~= ports@.take(i as int));
                assert(after.last() == ports@[i as int]);
                controls = after.filter(is_control());
            }
            if ports[i].control_input {
                let port: &Port = &ports[i];
                let min: Scalar = match port.min {
                    Some(min) => min,
                    None => from_milli(0),
                };
                let max: Scalar = match port.max {
                    Some(max) => max,
                    None => from_milli(1000),
                };
                let wanted: Scalar = match overrides.get(port.symbol.as_str()) {
                    Some(value) => *value,
                    None => port.default,
                };
                let value: Scalar = clamp_between(wanted, min, max);
                let kind: ParamKind = classify_port(port);
                params.push(
                    PluginParam {
                        id: port.symbol.clone(),
                        label: port.name.clone(),
                        min,
                        max,
                        default: port.default,
                        value,
                        kind,
                    },
                );
                control_ports.insert(port.symbol.clone(), port.index);
                proof {
                    assert(controls == before.push(ports@[i as int]));
                    assert(controls.drop_last() =~= before);
                }
            }
            i = i + 1;
        }
        assert(ports@.take(ports@.len() as int) =~= ports@);
        Lv2Plugin {
            id: id_for_uri(plugin.uri.as_str()),
            name: plugin.name.clone(),
            enabled: true,
            params,
            control_ports,
            audio_in: plugin.audio_inputs,
            audio_out: plugin.audio_outputs,
        }
    }

    /// The value to give each port before the plugin runs.
    pub fn initial_controls(&self) -> (r: Vec<(usize, Scalar)>)
        requires
            self.wf(),
        ensures
            r@.len() == self.params@.len(),
            forall|k: int|
                0 <= k < r@.len() ==> #[trigger] r@[k] == (
                    self.control_ports@[self.params@[k].id@],
                    self.params@[k].value,
                ),
    {
        let mut r: Vec<(usize, Scalar)> = Vec::new();
        let mut i: usize = 0;
        while i < self.params.len()
            invariant
                i <= self.params@.len(),
                self.wf(),
                r@.len() == i,
                forall|k: int|
                    0 <= k < r@.len() ==> #[trigger] r@[k] == (
                        self.control_ports@[self.params@[k].id@],
                        self.params@[k].value,
                    ),
            decreases self.params@.len() - i,
        {
            match self.control_ports.get(self.params[i].id.as_str()) {
                Some(port) => {
                    r.push((*port, self.params[i].value));
                },
                None => {
                    assert(self.control_ports@.dom().contains(self.params@[i as int].id@));
                },
            }
            i = i + 1;
        }
        r
    }

    /// Position of the control with the given identifier.
    pub open spec fn param_at(&self, id: Seq<char>) -> Option<int> {
        first_index(params_view(self.params@), |p: ParamView| p.id == id)
    }

    /// Sets a control, within its range; tells which port takes which value. An
    /// unknown control is passed over.
    pub fn set_param(&mut self, id: &str, value: Scalar) -> (r: Option<(usize, Scalar)>)
        requires
            old(self).wf(),
        ensures
            final(self).wf(),
            final(self).params@.len() == old(self).params@.len(),
            *final(self) == (Lv2Plugin { params: final(self).params, ..*old(self) }),
            match old(self).param_at(id@) {
                Some(k) => {
                    let before = old(self).params@[k];
                    let v = in_range(value, before.min, before.max);
                    &&& r == Some((old(self).control_ports@[id@], v))
                    &&& params_view(final(self).params@) == params_view(old(self).params@).update(
                        k,
                        (ParamView { value: v, ..before@ }),
                    )
                },
                None => r is None && *final(self) == *old(self),
            },
    {
        let ghost views = params_view(self.params@);
        let ghost p = |p: ParamView| p.id == id@;
        let mut i: usize = 0;
        while i < self.params.len()
            invariant
                i <= self.params@.len(),
                *self == *old(self),
                self.wf(),
                views == params_view(self.params@),
                p == (|p: ParamView| p.id == id@),
                forall|k: int| 0 <= k < i ==> !p(#[trigger] views[k]),
            decreases self.params@.len() - i,
        {
            assert(views[i as int].id == self.params@[i as int].id@);
            if same_text(self.params[i].id.as_str(), id) {
                proof {
                    found_first(views, p, i as int);
                    assert(self.control_ports@.dom().contains(self.params@[i as int].id@));
                }
                let v: Scalar = clamp_between(value, self.params[i].min, self.params[i].max);
                let port: Option<usize> = match self.control_ports.get(id) {
                    Some(port) => Some(*port),
                    None => None,
                };
                self.params[i].value = v;
                proof {
                    let before = old(self).params@[i as int];
                    assert(params_view(self.params@) =~= views.update(
                        i as int,
                        (ParamView { value: v, ..before@ }),
                    ));
                    assert forall|k: int| 0 <= k < self.params@.len() implies
                        self.control_ports@.dom().contains((#[trigger] self.params@[k]).id@) && (
                    !self.params@[k].min.is_nan() || !self.params@[k].max.is_nan()) by {
                        assert(self.params@[k].id == old(self).params@[k].id);
                        assert(self.params@[k].min == old(self).params@[k].min);
                        assert(self.params@[k].max == old(self).params@[k].max);
                    }
                }
                return match port {
                    Some(port) => Some((port, v)),
                    None => None,
                };
            }
            i = i + 1;
        }
        proof {
            found_none(views, p);
        }
        None
    }

    pub fn set_enabled(&mut self, enabled: bool)
        ensures
            *final(self) == (Lv2Plugin { enabled, ..*old(self) }),
    {
        self.enabled = enabled;
    }

    /// Whether the plugin has anything to do.
    pub fn is_active(&self) -> (r: bool)
        ensures
            r == (self.enabled && self.audio_in > 0 && self.audio_out > 0),
    {
        self.enabled && self.audio_in > 0 && self.audio_out > 0
    }
}

// ── Running a plugin on a buffer ─────────────────────────────────────────────

/// The length of the block at `offset` in a buffer of `frames` frames.
pub open spec fn block_len(frames: nat, offset: nat) -> nat {
    if frames - offset < MAX_BLOCK {
        (frames - offset) as nat
    } else {
        MAX_BLOCK as nat
    }
}

/// The length of the next block to run a plugin on.
pub fn next_block(frames: usize, offset: usize) -> (r: usize)
    requires
        offset < frames,
    ensures
        r == block_len(frames as nat, offset as nat),
        0 < r <= MAX_BLOCK,
        offset + r <= frames,
{
    if frames - offset < MAX_BLOCK {
        frames - offset
    } else {
        MAX_BLOCK
    }
}

/// Where the blocks of a buffer begin, from `offset` on.
pub open spec fn block_starts(frames: nat, offset: nat) -> Seq<nat>
    decreases frames - offset,
{
    if offset >= frames {
        Seq::empty()
    } else {
        seq![offset] + block_starts(frames, offset + block_len(frames, offset))
    }
}

/// The blocks cover a buffer without gaps or overlaps: each begins where the one
/// before it ends, the first at the beginning, and the last ends at the end.
pub proof fn blocks_cover_the_buffer(frames: nat, offset: nat)
    requires
        offset < frames,
    ensures
        block_starts(frames, offset).len() > 0,
        block_starts(frames, offset)[0] == offset,
        forall|i: int|
            0 <= i < block_starts(frames, offset).len() - 1 ==> {
                let start = #[trigger] block_starts(frames, offset)[i];
                start + block_len(frames, start) == block_starts(frames, offset)[i + 1]
            },
        ({
            let last = block_starts(frames, offset).last();
            last + block_len(frames, last) == frames
        }),
    decreases frames - offset,
{
    let next = offset + block_len(frames, offset);
    let all = block_starts(frames, offset);
    let rest = block_starts(frames, next);
    assert(all =~= seq![offset] + rest);
    if next < frames {
        blocks_cover_the_buffer(frames, next);
        assert(all.last() == rest.last());
        assert forall|i: int| 0 <= i < all.len() - 1 implies {
            let start = #[trigger] all[i];
            start + block_len(frames, start) == all[i + 1]
        } by {
            if i > 0 {
                assert(all[i] == rest[i - 1]);
                assert(all[i + 1] == rest[i]);
            } else {
                assert(all[1] == rest[0]);
            }
        }
    } else {
        assert(rest =~= Seq::empty());
    }
}

/// What a plugin input is fed with.
#[derive(Clone, Copy, Debug, PartialEq, Eq, Structural)]
pub enum Feed {
    Left,
    Right,
    /// The mean of both channels.
    Both,
}

/// What input `channel` of a plugin with `inputs` audio inputs is fed with.
pub open spec fn feed_for(inputs: int, channel: int) -> Feed {
    if inputs == 1 || channel > 1 {
        Feed::Both
    } else if channel == 0 {
        Feed::Left
    } else {
        Feed::Right
    }
}

/// What input `channel` of a plugin with `inputs` audio inputs is fed with.
pub fn input_feed(inputs: usize, channel: usize) -> (r: Feed)
    ensures
        r == feed_for(inputs as int, channel as int),
{
    if inputs == 1 || channel > 1 {
        Feed::Both
    } else if channel == 0 {
        Feed::Left
    } else {
        Feed::Right
    }
}

/// The outputs that the left and the right channel are taken from.
pub open spec fn taken_from(outputs: int) -> (int, int) {
    (
        0,
        if outputs == 1 {
            0
        } else {
            1
        },
    )
}

/// The outputs that the left and the right channel are taken from.
pub fn output_channels(outputs: usize) -> (r: (usize, usize))
    requires
        outputs > 0,
    ensures
        (r.0 as int, r.1 as int) == taken_from(outputs as int),
        r.0 < outputs,
        r.1 < outputs,
{
    if outputs == 1 {
        (0, 0)
    } else {
        (0, 1)
    }
}

/// What a plugin input gets of a frame.
pub open spec fn fed(feed: Feed, left: Scalar, right: Scalar) -> Scalar {
    match feed {
        Feed::Left => left,
        Feed::Right => right,
        Feed::Both => milli(500).product(left.sum(right)),
    }
}

/// The samples for one input of a plugin: `n` frames of a stereo buffer from the frame
/// `offset` on.
pub open spec fn fed_input(samples: Seq<Scalar>, offset: int, n: nat, feed: Feed) -> Seq<Scalar> {
    Seq::new(n, |f: int| fed(feed, samples[2 * (offset + f)], samples[2 * (offset + f) + 1]))
}

/// The samples for one input of a plugin: `n` frames of a stereo buffer from the frame
/// `offset` on.
pub fn plugin_input(samples: &Vec<Scalar>, offset: usize, n: usize, feed: Feed) -> (r: Vec<Scalar>)
    requires
        2 * (offset + n) <= samples@.len(),
    ensures
        r@ == fed_input(samples@, offset as int, n as nat, feed),
{
    let mut r: Vec<Scalar> = Vec::new();
    let total: usize = samples.len();
    let mut f: usize = 0;
    while f < n
        invariant
            f <= n,
            total == samples@.len(),
            2 * (offset + n) <= total,
            r@.len() == f,
            forall|k: int|
                0 <= k < f ==> #[trigger] r@[k] == fed(
                    feed,
                    samples@[2 * (offset + k)],
                    samples@[2 * (offset + k) + 1],
                ),
        decreases n - f,
    {
        let left: Scalar = samples[2 * (offset + f)];
        let right: Scalar = samples[2 * (offset + f) + 1];
        r.push(
            match feed {
                Feed::Left => left,
                Feed::Right => right,
                Feed::Both => from_milli(500).times(left.plus(right)),
            },
        );
        f = f + 1;
    }
    assert(r@ =~= fed_input(samples@, offset as int, n as nat, feed));
    r
}

/// A stereo buffer into which a plugin gave out `left` and `right`, from the frame
/// `offset` on.
pub open spec fn with_output(
    samples: Seq<Scalar>,
    offset: int,
    left: Seq<Scalar>,
    right: Seq<Scalar>,
) -> Seq<Scalar> {
    Seq::new(
        samples.len(),
        |i: int|
            if 2 * offset <= i < 2 * (offset + left.len()) {
                if i % 2 == 0 {
                    left[i / 2 - offset]
                } else {
                    right[i / 2 - offset]
                }
            } else {
                samples[i]
            },
    )
}

/// Puts what a plugin gave out into a stereo buffer, from the frame `offset` on.
pub fn plugin_output(
    samples: &mut Vec<Scalar>,
    offset: usize,
    left: &Vec<Scalar>,
    right: &Vec<Scalar>,
)
    requires
        left@.len() == right@.len(),
        2 * (offset + left@.len()) <= old(samples)@.len(),
    ensures
        final(samples)@ == with_output(old(samples)@, offset as int, left@, right@),
        final(samples)@.len() == old(samples)@.len(),
{
    let total: usize = samples.len();
    let mut f: usize = 0;
    while f < left.len()
        invariant
            f <= left@.len(),
            left@.len() == right@.len(),
            2 * (offset + left@.len()) <= total,
            samples@.len() == total,
            samples@.len() == old(samples)@.len(),
            forall|i: int|
                0 <= i < samples@.len() ==> #[trigger] samples@[i] == (if 2 * offset <= i < 2 * (
                offset + f) {
                    if i % 2 == 0 {
                        left@[i / 2 - offset]
                    } else {
                        right@[i / 2 - offset]
                    }
                } else {
                    old(samples)@[i]
                }),
        decreases left@.len() - f,
    {
        samples.set(2 * (offset + f), left[f]);
        samples.set(2 * (offset + f) + 1, right[f]);
        f = f + 1;
    }
    assert(samples@ =~= with_output(old(samples)@, offset as int, left@, right@));
}

// ── Laws ─────────────────────────────────────────────────────────────────────

/// A plugin that passes on what it gets changes nothing: the left channel goes in where it
/// comes out, and so does the right one, whatever part of the buffer it runs on.
pub proof fn a_plugin_that_passes_on_changes_nothing(
    samples: Seq<Scalar>,
    offset: int,
    n: nat,
    inputs: int,
    outputs: int,
)
    requires
        0 <= offset,
        2 * (offset + n) <= samples.len(),
        inputs >= 2,
        outputs >= 2,
    ensures
        ({
            let (left, right) = taken_from(outputs);
            with_output(
                samples,
                offset,
                fed_input(samples, offset, n, feed_for(inputs, left)),
                fed_input(samples, offset, n, feed_for(inputs, right)),
            ) == samples
        }),
        taken_from(outputs) == (0int, 1int),
{
    let left = fed_input(samples, offset, n, Feed::Left);
    let right = fed_input(samples, offset, n, Feed::Right);
    let after = with_output(samples, offset, left, right);
    assert forall|i: int| 0 <= i < samples.len() implies after[i] == samples[i] by {
        if 2 * offset <= i < 2 * (offset + n) {
            let f = i / 2 - offset;
            assert(i == 2 * (offset + f) || i == 2 * (offset + f) + 1);
            assert(0 <= f < n);
        }
    }
    assert(after =~= samples);
}

/// A plugin with one input hears both channels, and one with one output is heard on both.
pub proof fn a_mono_plugin_serves_both_channels(
    samples: Seq<Scalar>,
    offset: int,
    n: nat,
    output: Seq<Scalar>,
    f: int,
)
    requires
        0 <= offset,
        2 * (offset + n) <= samples.len(),
        output.len() == n,
        0 <= f < n,
    ensures
        fed_input(samples, offset, n, feed_for(1, 0))[f] == milli(500).product(
            samples[2 * (offset + f)].sum(samples[2 * (offset + f) + 1]),
        ),
        taken_from(1) == (0int, 0int),
        ({
            let after = with_output(samples, offset, output, output);
            after[2 * (offset + f)] == output[f] && after[2 * (offset + f) + 1] == output[f]
        }),
{
    let after = with_output(samples, offset, output, output);
    assert((2 * (offset + f)) / 2 - offset == f && (2 * (offset + f)) % 2 == 0);
    assert((2 * (offset + f) + 1) / 2 - offset == f && (2 * (offset + f) + 1) % 2 == 1);
}

/// What is listed are the plugins that can be put on the microphone, and all of them: those
/// that take sound and give sound, need no control voltage and are no instruments.
pub proof fn every_usable_plugin_is_listed(
    plugins: Seq<InstalledPlugin>,
    found: Seq<Lv2Info>,
    i: int,
)
    requires
        is_discovery(plugins, found),
        plugins.len() <= usize::MAX,
        0 <= i < plugins.len(),
        plugins[i].audio_inputs >= 1,
        plugins[i].audio_outputs >= 1,
        plugins[i].cv_inputs == 0,
        plugins[i].cv_outputs == 0,
        !plugins[i].instrument,
    ensures
        exists|k: int|
            0 <= k < found.len() && (#[trigger] found[k]).uri@ == plugins[i].uri@ && found[k].name@
                == plugins[i].name@,
{
    let effects = plugins.filter(is_effect());
    let order = choose|order: Seq<usize>| #[trigger]
        is_sorted_order(order, name_keys(effects)) && found.len() == order.len() && forall|i: int|
            0 <= i < found.len() ==> (#[trigger] found[i]).uri@ == effects[order[i] as int].uri@
                && found[i].name@ == effects[order[i] as int].name@;
    let at = filter_positions(plugins, is_effect());
    assert(is_effect()(plugins[i]));
    let j = choose|j: int| 0 <= j < at.len() && at[j] == i;
    assert(effects[j] == plugins[i]);
    sorted_order_is_a_permutation(order, name_keys(effects));
    assert(order.contains(j as usize));
    let k = order.index_of(j as usize);
    assert(found[k].uri@ == effects[order[k] as int].uri@);
}

/// Nothing else is listed, and what is listed stands in the order of the names.
pub proof fn only_usable_plugins_are_listed(
    plugins: Seq<InstalledPlugin>,
    found: Seq<Lv2Info>,
    k: int,
)
    requires
        is_discovery(plugins, found),
        0 <= k < found.len(),
    ensures
        exists|i: int|
            #![trigger plugins[i]]
            {
                &&& 0 <= i < plugins.len()
                &&& plugins[i].uri@ == found[k].uri@
                &&& plugins[i].name@ == found[k].name@
                &&& plugins[i].audio_inputs >= 1
                &&& plugins[i].audio_outputs >= 1
                &&& plugins[i].cv_inputs == 0
                &&& plugins[i].cv_outputs == 0
                &&& !plugins[i].instrument
            },
        k + 1 < found.len() ==> !lex_lt(
            lowercase(found[k + 1].name@),
            lowercase(found[k].name@),
        ),
{
    let effects = plugins.filter(is_effect());
    let keys = name_keys(effects);
    let order = choose|order: Seq<usize>| #[trigger]
        is_sorted_order(order, name_keys(effects)) && found.len() == order.len() && forall|i: int|
            0 <= i < found.len() ==> (#[trigger] found[i]).uri@ == effects[order[i] as int].uri@
                && found[i].name@ == effects[order[i] as int].name@;
    let at = filter_positions(plugins, is_effect());
    let j = order[k] as int;
    assert(0 <= j < effects.len());
    assert(effects[j] == plugins[at[j]]);
    assert(is_effect()(effects[j]));
    if k + 1 < found.len() {
        assert(found[k + 1].name@ == effects[order[k + 1] as int].name@);
        assert(found[k].name@ == effects[j].name@);
        lex_is_total(lowercase(found[k].name@), lowercase(found[k + 1].name@));
    }
}

/// Each control is set through the port that it came from, where no two controls share a
/// symbol.
pub proof fn each_control_has_its_own_port(controls: Seq<Port>, k: int)
    requires
        0 <= k < controls.len(),
        forall|i: int, j: int|
            0 <= i < j < controls.len() ==> (#[trigger] controls[i]).symbol@ != (
            #[trigger] controls[j]).symbol@,
    ensures
        port_map(controls).dom().contains(controls[k].symbol@),
        port_map(controls)[controls[k].symbol@] == controls[k].index,
    decreases controls.len(),
{
    let last = controls.len() - 1;
    if k < last {
        let rest = controls.drop_last();
        assert forall|i: int, j: int| 0 <= i < j < rest.len() implies (
        #[trigger] rest[i]).symbol@ != (#[trigger] rest[j]).symbol@ by {
            assert(controls[i].symbol@ != controls[j].symbol@);
        }
        each_control_has_its_own_port(rest, k);
        assert(controls[k].symbol@ != controls[last].symbol@);
    }
}

/// A control begins with the value that the entry gives it, and otherwise with its default,
/// as long as that is in the range of the port.
pub proof fn controls_begin_as_the_entry_says(
    port: Port,
    overrides: Map<Seq<char>, Scalar>,
    param: ParamView,
)
    requires
        is_param_of(&port, overrides, param),
        port.min matches Some(min) && !min.is_nan(),
        port.max matches Some(max) && !max.is_nan(),
        port.min->0.le(port.max->0),
    ensures
        param.id == port.symbol@,
        param.min == port.min->0,
        param.max == port.max->0,
        overrides.dom().contains(port.symbol@) && port.min->0.le(overrides[port.symbol@])
            && overrides[port.symbol@].le(port.max->0) ==> param.value
            == overrides[port.symbol@],
        !overrides.dom().contains(port.symbol@) && port.min->0.le(port.default)
            && port.default.le(port.max->0) ==> param.value == port.default,
        !param.value.is_nan() ==> port.min->0.le(param.value) && param.value.le(port.max->0),
        port.toggled ==> param.kind is Toggle,
        !port.toggled && !port.enumeration && port.integer ==> param.kind is Integer,
        !port.toggled && !port.enumeration && !port.integer ==> param.kind is Continuous,
{
}

/// A dropdown offers every choice that has a label and a value, by ascending value.
pub proof fn a_dropdown_offers_its_choices_in_order(port: Port, kind: KindView, i: int, j: int)
    requires
        is_kind_of(&port, kind),
        kind is Enum,
    ensures
        ({
            let (points, sorted) = (complete_points(port.points@), kind->Enum_0);
            &&& port.enumeration && !port.toggled
            &&& sorted.len() == points.len()
            &&& 0 <= i < points.len() ==> sorted.contains(points[i])
            &&& 0 <= i < j < sorted.len() && no_nan(points) ==> sorted[i].1.le(sorted[j].1)
        }),
{
    let (points, sorted) = (complete_points(port.points@), kind->Enum_0);
    let order = choose|order: Seq<int>| #[trigger]
        is_point_order(points, order) && sorted == Seq::new(
            order.len(),
            |i: int| points[order[i]],
        );
    if 0 <= i < points.len() {
        distinct_positions_are_all(order, points.len() as int, i);
        let k = order.index_of(i);
        assert(sorted[k] == points[i]);
    }
    if 0 <= i < j < sorted.len() && no_nan(points) {
        assert(point_before(points, order[i], order[j]));
        assert(!points[order[i]].1.is_nan() && !points[order[j]].1.is_nan());
    }
}

/// As many different positions as there are leave none out.
proof fn distinct_positions_are_all(order: Seq<int>, n: int, i: int)
    requires
        order.len() == n,
        forall|k: int| 0 <= k < order.len() ==> 0 <= #[trigger] order[k] < n,
        forall|j: int, k: int| 0 <= j < k < order.len() ==> #[trigger] order[j] != #[trigger] order[k],
        0 <= i < n,
    ensures
        order.contains(i),
{
    let all = Set::<int>::new(|x: int| 0 <= x < n);
    vstd::set_lib::lemma_int_range(0, n);
    assert(all =~= vstd::set_lib::set_int_range(0, n));
    assert(order.no_duplicates());
    order.unique_seq_to_set();
    assert(order.to_set().subset_of(all));
    vstd::set_lib::lemma_subset_equality(order.to_set(), all);
    assert(all.contains(i));
}

/// The presets that a plugin ships are offered for that plugin once they are known, behind
/// those that are provided, and for no other.
pub proof fn presets_belong_to_their_plugin(
    before: PluginWorld,
    after: PluginWorld,
    uri: Seq<char>,
    presets: Vec<EffectPreset>,
    id: Seq<char>,
)
    requires
        after.shipped@ == learned(before.shipped@, uri, presets),
    ensures
        id != "lv2:"@ + uri ==> after.presets_of(id) == before.presets_of(id),
        id == "lv2:"@ + uri && !before.shipped@.dom().contains(uri) ==> after.presets_of(id) == merged(
            provided(id),
            presets_view(presets@),
        ),
        !is_lv2(id) ==> after.presets_of(id) == provided(id),
{
    identifiers_round_trip(id, uri);
}

/// A port that is on or off has a switch, whatever else it is; one with choices has a
/// dropdown, one of whole numbers steps, and any other a slider.
pub proof fn ports_have_the_control_that_fits(port: Port, kind: KindView)
    requires
        is_kind_of(&port, kind),
    ensures
        kind is Toggle <==> port.toggled,
        !port.toggled && !port.enumeration ==> !(kind is Enum),
        !port.toggled && port.enumeration && complete_points(port.points@).len() > 0 ==> kind is Enum,
        kind is Integer ==> port.integer,
        !port.toggled && !(kind is Enum) && port.integer ==> kind is Integer,
        !port.toggled && !port.enumeration && !port.integer ==> kind is Continuous,
{
}

/// A choice is offered where it has both a label and a value, and else is left out; the
/// choices keep their order.
pub proof fn choices_have_a_label_and_a_value(points: Seq<ScalePoint>) -> (at: Seq<int>)
    ensures
        at.len() == complete_points(points).len(),
        forall|i: int|
            0 <= i < at.len() ==> 0 <= (#[trigger] at[i]) < points.len() && points[at[i]].label is Some
                && points[at[i]].value is Some && complete_points(points)[i] == (
                points[at[i]].label->0@,
                points[at[i]].value->0,
            ),
        forall|i: int, j: int| 0 <= i < j < at.len() ==> (#[trigger] at[i]) < (#[trigger] at[j]),
        forall|k: int|
            0 <= k < points.len() && (#[trigger] points[k]).label is Some && points[k].value is Some
                ==> at.contains(k),
    decreases points.len(),
{
    if points.len() == 0 {
        Seq::empty()
    } else {
        let front = points.drop_last();
        let before = choices_have_a_label_and_a_value(front);
        let last = points.last();
        let at = if last.label is Some && last.value is Some {
            before.push(points.len() - 1)
        } else {
            before
        };
        assert forall|k: int|
            0 <= k < points.len() && (#[trigger] points[k]).label is Some && points[k].value is Some
            implies at.contains(k) by {
            if k < front.len() {
                assert(front[k] == points[k]);
                let i = choose|i: int| 0 <= i < before.len() && before[i] == k;
                assert(at[i] == k);
            } else {
                assert(at[before.len() as int] == k);
            }
        }
        at
    }
}

/// A plugin with one input hears both sides alike.
pub proof fn one_input_hears_both_sides(left: Scalar, right: Scalar)
    ensures
        fed(Feed::Both, left, right) == fed(Feed::Both, right, left),
        fed(Feed::Left, left, right) == left,
        fed(Feed::Right, left, right) == right,
{
    crate::ordered::sums_commute(left, right);
}

} // verus!
