//! Reading the presets that a plugin ships.
//!
//! The values in a preset come typed, and types are numbers that a map hands out
//! for URIs.

use vstd::prelude::*;

use super::presets::{presets_view, values_view, EffectPreset, PresetView};
use crate::order::{
    is_sorted_order, keys_view, sort_order, sorted_order_is_a_permutation, sorted_order_is_unique, sorts_before, SortKey,
};
use crate::scalar::{Scalar, INFINITE};
use crate::search::filter_positions;
use crate::text::{
    chars_of, lex_is_total, lex_lt, lowercase, owned, position_of, texts_view, to_lowercase,
};

verus! {

// ── Numbers for URIs ─────────────────────────────────────────────────────────

/// Hands out a number for each URI, always the same for the same one.
pub struct UridMap {
    uris: Vec<String>,
}

/// No URI occurs twice.
pub open spec fn distinct(uris: Seq<Seq<char>>) -> bool {
    forall|i: int, j: int| 0 <= i < j < uris.len() ==> #[trigger] uris[i] != #[trigger] uris[j]
}

impl View for UridMap {
    type V = Seq<Seq<char>>;

    closed spec fn view(&self) -> Seq<Seq<char>> {
        texts_view(self.uris@)
    }
}

/// The URIs that have a number once `uri` has one.
pub open spec fn numbered(uris: Seq<Seq<char>>, uri: Seq<char>) -> Seq<Seq<char>> {
    if uris.contains(uri) {
        uris
    } else {
        uris.push(uri)
    }
}

impl UridMap {
    pub fn new() -> (r: Self)
        ensures
            r@ == Seq::<Seq<char>>::empty(),
    {
        let r = UridMap { uris: Vec::new() };
        assert(r@ =~= Seq::<Seq<char>>::empty());
        r
    }

    /// The number of a URI: one more than its position among all that came so far.
    pub fn map(&mut self, uri: &str) -> (r: u32)
        requires
            old(self)@.len() < u32::MAX,
            distinct(old(self)@),
        ensures
            r > 0,
            r <= final(self)@.len(),
            final(self)@[r - 1] == uri@,
            final(self)@ == numbered(old(self)@, uri@),
            distinct(final(self)@),
    {
        match position_of(&self.uris, uri) {
            Some(i) => {
                assert(self@[i as int] == uri@);
                i as u32 + 1
            },
            None => {
                let ghost before = self@;
                assert forall|k: int| 0 <= k < before.len() implies before[k] != uri@ by {
                    assert(self.uris@[k]@ != uri@);
                }
                self.uris.push(owned(uri));
                assert(self@ =~= before.push(uri@));
                self.uris.len() as u32
            },
        }
    }
}

/// A number stands for one URI: two URIs have the same number only if they are the
/// same, and numbers stay as further URIs come.
pub proof fn numbers_are_stable(
    uris: Seq<Seq<char>>,
    uri: Seq<char>,
    i: int,
    j: int,
)
    requires
        distinct(uris),
        0 <= i < uris.len(),
        0 <= j < numbered(uris, uri).len(),
    ensures
        numbered(uris, uri)[i] == uris[i],
        numbered(uris, uri)[i] == numbered(uris, uri)[j] ==> i == j,
{
}

// ── Typed values ─────────────────────────────────────────────────────────────

/// The numbers of the types that presets use.
#[derive(Clone, Copy, Debug, PartialEq, Eq, Structural)]
pub struct Urids {
    pub float: u32,
    pub double: u32,
    pub int: u32,
    pub long: u32,
    pub boolean: u32,
}

/// How a value is stored.
#[derive(Clone, Copy, Debug, PartialEq, Eq, Structural)]
pub enum Stored {
    Float,
    Double,
    Int,
    Long,
}

/// How a value of the given type and size is stored.
pub open spec fn storage(urids: Urids, kind: u32, size: u32) -> Option<Stored> {
    if kind == urids.float && size == 4 {
        Some(Stored::Float)
    } else if kind == urids.double && size == 8 {
        Some(Stored::Double)
    } else if (kind == urids.int || kind == urids.boolean) && size == 4 {
        Some(Stored::Int)
    } else if kind == urids.long && size == 8 {
        Some(Stored::Long)
    } else {
        None
    }
}

/// How to read a value of the given type and size; `None` for one that no control can
/// show, such as a file name.
pub fn stored_as(urids: &Urids, kind: u32, size: u32) -> (r: Option<Stored>)
    ensures
        r == storage(*urids, kind, size),
{
    if kind == urids.float && size == 4 {
        Some(Stored::Float)
    } else if kind == urids.double && size == 8 {
        Some(Stored::Double)
    } else if (kind == urids.int || kind == urids.boolean) && size == 4 {
        Some(Stored::Int)
    } else if kind == urids.long && size == 8 {
        Some(Stored::Long)
    } else {
        None
    }
}

// ── The list ─────────────────────────────────────────────────────────────────

/// The name of a preset: its label, or else its URI.
pub open spec fn named(label: Option<Seq<char>>, uri: Option<Seq<char>>) -> Seq<char> {
    match (label, uri) {
        (Some(label), _) if label.len() > 0 => label,
        (_, Some(uri)) if uri.len() > 0 => uri,
        _ => "Preset"@,
    }
}

/// The name of a preset: its label, or else its URI.
pub fn preset_name(label: Option<&str>, uri: Option<&str>) -> (r: String)
    ensures
        r@ == named(
            match label {
                Some(label) => Some(label@),
                None => None,
            },
            match uri {
                Some(uri) => Some(uri@),
                None => None,
            },
        ),
{
    if let Some(label) = label {
        if !is_blank(label) {
            return owned(label);
        }
    }
    if let Some(uri) = uri {
        if !is_blank(uri) {
            return owned(uri);
        }
    }
    owned("Preset")
}

fn is_blank(text: &str) -> (r: bool)
    ensures
        r == (text@.len() == 0),
{
    chars_of(text).len() == 0
}

/// A value that names a control and is a number.
pub open spec fn is_setting() -> spec_fn((Seq<char>, Scalar)) -> bool {
    |v: (Seq<char>, Scalar)| v.0.len() > 0 && v.1.is_finite()
}

/// A preset with the values that can be set.
pub open spec fn with_settings(p: PresetView) -> PresetView {
    PresetView { name: p.name, values: p.values.filter(is_setting()) }
}

fn settings_of(preset: &EffectPreset) -> (r: EffectPreset)
    ensures
        r@ == with_settings(preset@),
{
    let ghost all = values_view(preset.values@);
    let mut values: Vec<(String, Scalar)> = Vec::new();
    let mut i: usize = 0;
    proof {
        reveal(Seq::filter);
        assert(values_view(values@) =~= all.take(0).filter(is_setting()));
    }
    while i < preset.values.len()
        invariant
            i <= preset.values@.len(),
            all == values_view(preset.values@),
            values_view(values@) == all.take(i as int).filter(is_setting()),
        decreases preset.values@.len() - i,
    {
        let ghost before = values@;
        proof {
            reveal(Seq::filter);
            assert(all.take(i + 1).drop_last() =~= all.take(i as int));
            assert(all.take(i + 1).last() == (
                preset.values@[i as int].0@,
                preset.values@[i as int].1,
            ));
        }
        if !is_blank(preset.values[i].0.as_str()) && preset.values[i].1.get_magnitude() < INFINITE {
            values.push((preset.values[i].0.clone(), preset.values[i].1));
            assert(values_view(values@) =~= values_view(before).push(all[i as int]));
        }
        i = i + 1;
    }
    assert(all.take(all.len() as int) =~= all);
    EffectPreset { name: preset.name.clone(), values }
}

/// A preset that has a name and sets something.
pub open spec fn sets_something() -> spec_fn(PresetView) -> bool {
    |p: PresetView| p.name.len() > 0 && p.values.len() > 0
}

/// What is kept of the presets that were read.
pub open spec fn kept_presets(read: Seq<PresetView>) -> Seq<PresetView> {
    read.map_values(|p: PresetView| with_settings(p)).filter(sets_something())
}

/// What a preset is sorted by: its name, whatever the letter case.
pub open spec fn preset_keys(presets: Seq<PresetView>) -> Seq<(nat, Seq<char>)> {
    Seq::new(presets.len(), |i: int| (0nat, lowercase(presets[i].name)))
}

/// `sorted` holds the presets that have a name and set something, by name; those with
/// the same name keep their order.
pub open spec fn is_shipped_list(read: Seq<PresetView>, sorted: Seq<PresetView>) -> bool {
    let kept = kept_presets(read);
    exists|order: Seq<usize>| #[trigger]
        is_sorted_order(order, preset_keys(kept)) && sorted == Seq::new(
            order.len(),
            |i: int| kept[order[i] as int],
        )
}

/// Puts the presets that were read from a plugin in order.
pub fn shipped_list(read: &Vec<EffectPreset>) -> (r: Vec<EffectPreset>)
    ensures
        is_shipped_list(presets_view(read@), presets_view(r@)),
{
    let ghost part = |p: PresetView| with_settings(p);
    let ghost given = presets_view(read@);
    let mut usable: Vec<EffectPreset> = Vec::new();
    let mut n: usize = 0;
    while n < read.len()
        invariant
            n <= read@.len(),
            given == presets_view(read@),
            part == (|p: PresetView| with_settings(p)),
            usable@.len() == n,
            forall|k: int| 0 <= k < n ==> (#[trigger] usable@[k])@ == part(given[k]),
        decreases read@.len() - n,
    {
        usable.push(settings_of(&read[n]));
        n = n + 1;
    }
    assert(presets_view(usable@) =~= given.map_values(part));
    let read: Vec<EffectPreset> = usable;
    let ghost all = presets_view(read@);
    let mut kept: Vec<usize> = Vec::new();
    let mut keys: Vec<SortKey> = Vec::new();
    let mut i: usize = 0;
    let ghost mut chosen = all.take(0).filter(sets_something());
    proof {
        reveal(Seq::filter);
        assert(preset_keys(chosen) =~= keys_view(keys@));
    }
    while i < read.len()
        invariant
            i <= read@.len(),
            all == presets_view(read@),
            chosen == all.take(i as int).filter(sets_something()),
            kept@.len() == chosen.len(),
            forall|k: int|
                0 <= k < kept@.len() ==> (#[trigger] kept@[k]) < i && read@[kept@[k] as int]@
                    == chosen[k],
            keys_view(keys@) == preset_keys(chosen),
        decreases read@.len() - i,
    {
        let ghost after = all.take(i + 1);
        let ghost before = chosen;
        let ghost old_keys = keys@;
        proof {
            reveal(Seq::filter);
            assert(after.drop_last() =~= all.take(i as int));
            assert(after.last() == read@[i as int]@);
            chosen = after.filter(sets_something());
        }
        if !is_blank(read[i].name.as_str()) && read[i].values.len() > 0 {
            let name: String = to_lowercase(read[i].name.as_str());
            keys.push(SortKey::new(0, name.as_str()));
            kept.push(i);
            proof {
                assert(chosen == before.push(read@[i as int]@));
                assert(keys_view(keys@) =~= keys_view(old_keys).push(
                    (0nat, lowercase(read@[i as int].name@)),
                ));
                assert(preset_keys(chosen) =~= preset_keys(before).push(
                    (0nat, lowercase(read@[i as int].name@)),
                ));
            }
        }
        i = i + 1;
    }
    assert(all.take(all.len() as int) =~= all);
    assert(given.map_values(part) =~= given.map_values(|p: PresetView| with_settings(p)));
    assert(chosen == kept_presets(given));
    let order: Vec<usize> = sort_order(&keys);
    let mut r: Vec<EffectPreset> = Vec::new();
    let mut k: usize = 0;
    while k < order.len()
        invariant
            k <= order@.len(),
            r@.len() == k,
            is_sorted_order(order@, preset_keys(chosen)),
            kept@.len() == chosen.len(),
            forall|k: int|
                0 <= k < kept@.len() ==> (#[trigger] kept@[k]) < read@.len()
                    && read@[kept@[k] as int]@ == chosen[k],
            forall|j: int| 0 <= j < k ==> (#[trigger] r@[j])@ == chosen[order@[j] as int],
        decreases order@.len() - k,
    {
        let at: usize = order[k];
        assert(at < kept@.len());
        r.push(read[kept[at]].clone());
        k = k + 1;
    }
    assert(presets_view(r@) =~= Seq::new(order@.len(), |i: int| chosen[order@[i] as int]));
    assert(is_sorted_order(order@, preset_keys(chosen)));
    r
}

// ── Laws ─────────────────────────────────────────────────────────────────────

/// The presets that a plugin ships come sorted by name, whatever the letter case, and
/// well formed: each has a name and sets something, and what it sets has a name and is a
/// number.
pub proof fn shipped_presets_are_well_formed(
    read: Seq<PresetView>,
    sorted: Seq<PresetView>,
    i: int,
    j: int,
    k: int,
)
    requires
        is_shipped_list(read, sorted),
        0 <= i < sorted.len(),
    ensures
        sorted[i].name.len() > 0,
        sorted[i].values.len() > 0,
        0 <= k < sorted[i].values.len() ==> sorted[i].values[k].0.len() > 0
            && sorted[i].values[k].1.is_finite(),
        i < j < sorted.len() ==> !lex_lt(lowercase(sorted[j].name), lowercase(sorted[i].name)),
{
    let kept = kept_presets(read);
    let all = read.map_values(|p: PresetView| with_settings(p));
    let order = choose|order: Seq<usize>| #[trigger]
        is_sorted_order(order, preset_keys(kept)) && sorted == Seq::new(
            order.len(),
            |i: int| kept[order[i] as int],
        );
    let at = filter_positions(all, sets_something());
    let from = at[order[i] as int];
    assert(sorted[i] == all[from] && sets_something()(all[from]));
    assert(sorted[i] == with_settings(read[from]));
    if 0 <= k < sorted[i].values.len() {
        let places = filter_positions(read[from].values, is_setting());
        assert(is_setting()(read[from].values[places[k]]));
    }
    if i < j < sorted.len() {
        let keys = preset_keys(kept);
        assert(sorts_before(keys, order[i] as int, order[j] as int));
        lex_is_total(lowercase(sorted[i].name), lowercase(sorted[j].name));
    }
}

/// The same presets always give the same list.
pub proof fn shipped_list_is_determined(
    read: Seq<PresetView>,
    a: Seq<PresetView>,
    b: Seq<PresetView>,
)
    requires
        is_shipped_list(read, a),
        is_shipped_list(read, b),
        read.len() <= usize::MAX,
    ensures
        a == b,
{
    let kept = kept_presets(read);
    let all = read.map_values(|p: PresetView| with_settings(p));
    let keys = preset_keys(kept);
    let x = choose|order: Seq<usize>| #[trigger]
        is_sorted_order(order, keys) && a == Seq::new(
            order.len(),
            |i: int| kept[order[i] as int],
        );
    let y = choose|order: Seq<usize>| #[trigger]
        is_sorted_order(order, keys) && b == Seq::new(
            order.len(),
            |i: int| kept[order[i] as int],
        );
    all.lemma_filter_len(sets_something());
    sorted_order_is_unique(x, y, keys);
}

/// Every preset that has a name and sets something is in the list, with all its settings
/// that have a name and a finite value.
pub proof fn every_usable_preset_is_shipped(
    read: Seq<PresetView>,
    sorted: Seq<PresetView>,
    k: int,
    v: int,
) -> (i: int)
    requires
        is_shipped_list(read, sorted),
        read.len() <= usize::MAX,
        0 <= k < read.len(),
        read[k].name.len() > 0,
        0 <= v < read[k].values.len(),
        read[k].values[v].0.len() > 0,
        read[k].values[v].1.is_finite(),
    ensures
        0 <= i < sorted.len(),
        sorted[i].name == read[k].name,
        sorted[i].values.contains(read[k].values[v]),
        sorted[i].values.len() <= read[k].values.len(),
{
    let kept = kept_presets(read);
    let all = read.map_values(|p: PresetView| with_settings(p));
    let order = choose|order: Seq<usize>| #[trigger]
        is_sorted_order(order, preset_keys(kept)) && sorted == Seq::new(
            order.len(),
            |i: int| kept[order[i] as int],
        );
    let places = filter_positions(read[k].values, is_setting());
    assert(is_setting()(read[k].values[v]));
    let w = choose|w: int| 0 <= w < places.len() && places[w] == v;
    assert(with_settings(read[k]).values[w] == read[k].values[v]);
    let at = filter_positions(all, sets_something());
    assert(all[k] == with_settings(read[k]));
    assert(sets_something()(all[k]));
    let p = choose|p: int| 0 <= p < at.len() && at[p] == k;
    assert(kept[p] == all[k]);
    positions_fit(all, sets_something());
    positions_fit(read[k].values, is_setting());
    sorted_order_is_a_permutation(order, preset_keys(kept));
    assert(order.contains(p as usize));
    choose|i: int| 0 <= i < order.len() && order[i] == p as usize
}

proof fn positions_fit<T>(s: Seq<T>, p: spec_fn(T) -> bool)
    ensures
        s.filter(p).len() <= s.len(),
    decreases s.len(),
{
    reveal(Seq::filter);
    if s.len() > 0 {
        positions_fit(s.drop_last(), p);
    }
}

/// A preset goes by its label, else by its address.
pub proof fn labels_come_first(label: Seq<char>, uri: Seq<char>)
    requires
        label.len() > 0,
        uri.len() > 0,
    ensures
        named(Some(label), Some(uri)) == label,
        named(Some(label), None) == label,
        named(None, Some(uri)) == uri,
        named(Some(Seq::empty()), Some(uri)) == uri,
        named(None, None) == "Preset"@,
        named(Some(Seq::empty()), None) == "Preset"@,
{
}

/// A value is read as what it is stored as, and only where it has the size of that.
pub proof fn values_are_read_by_type_and_size(urids: Urids, kind: u32, size: u32)
    requires
        urids.float != urids.double,
        urids.float != urids.int,
        urids.float != urids.long,
        urids.float != urids.boolean,
        urids.double != urids.int,
        urids.double != urids.long,
        urids.double != urids.boolean,
        urids.int != urids.long,
        urids.long != urids.boolean,
    ensures
        storage(urids, urids.float, 4) == Some(Stored::Float),
        storage(urids, urids.double, 8) == Some(Stored::Double),
        storage(urids, urids.int, 4) == Some(Stored::Int),
        storage(urids, urids.boolean, 4) == Some(Stored::Int),
        storage(urids, urids.long, 8) == Some(Stored::Long),
        storage(urids, kind, size) is Some ==> {
            ||| size == 4 && (kind == urids.float || kind == urids.int || kind == urids.boolean)
            ||| size == 8 && (kind == urids.double || kind == urids.long)
        },
{
}

} // verus!
