//! What the soundboard remembers: its settings, the settings of each sound, and
//! the chain of effects on the microphone with its saved presets.

use vstd::prelude::*;

use crate::path::{
    file_name, has_file_name, join, joined, last_segment, name_in_a_folder, plain_name, set_extension,
    with_extension,
};
use crate::rounding::{close, close_to_itself, from_milli, is_close, is_percent, milli, percent};
use crate::scalar::Scalar;
use crate::text::{lex_is_total, lex_is_transitive, lex_lt, owned, same_text, text_before};
use crate::text_map::TextMap;

verus! {

// ── Effects ──────────────────────────────────────────────────────────────────

/// One effect of a chain: which one, whether it is on, and the values that its
/// controls were given.
pub struct EffectEntry {
    pub id: String,
    pub enabled: bool,
    pub params: TextMap<Scalar>,
}

/// What an [`EffectEntry`] stands for.
pub struct EffectView {
    pub id: Seq<char>,
    pub enabled: bool,
    pub params: Map<Seq<char>, Scalar>,
}

impl View for EffectEntry {
    type V = EffectView;

    open spec fn view(&self) -> EffectView {
        EffectView { id: self.id@, enabled: self.enabled, params: self.params@ }
    }
}

impl Clone for EffectEntry {
    fn clone(&self) -> (r: Self)
        ensures
            r@ == self@,
    {
        EffectEntry {
            id: self.id.clone(),
            enabled: self.enabled,
            params: self.params.duplicate(),
        }
    }
}

/// The effects of a chain, in order.
pub open spec fn chain_view(chain: Seq<EffectEntry>) -> Seq<EffectView> {
    Seq::new(chain.len(), |i: int| chain[i]@)
}

/// The same chain once more.
pub fn clone_chain(chain: &Vec<EffectEntry>) -> (r: Vec<EffectEntry>)
    ensures
        chain_view(r@) == chain_view(chain@),
{
    let mut r: Vec<EffectEntry> = Vec::new();
    let mut i: usize = 0;
    while i < chain.len()
        invariant
            i <= chain@.len(),
            chain_view(r@) == chain_view(chain@).take(i as int),
        decreases chain@.len() - i,
    {
        let ghost before = r@;
        let entry = chain[i].clone();
        r.push(entry);
        assert(chain_view(r@) =~= chain_view(before).push(entry@));
        assert(chain_view(chain@).take(i + 1) =~= chain_view(chain@).take(i as int).push(
            chain_view(chain@)[i as int],
        ));
        i = i + 1;
    }
    assert(chain_view(chain@).take(chain@.len() as int) =~= chain_view(chain@));
    r
}

/// Gain with the control set to `gain`.
pub open spec fn gain_view(gain: Scalar, enabled: bool) -> EffectView {
    EffectView { id: "gain"@, enabled, params: Map::empty().insert("gain"@, gain) }
}

/// Gate with its three controls set.
pub open spec fn gate_view(
    threshold: Scalar,
    attack_ms: Scalar,
    release_ms: Scalar,
    enabled: bool,
) -> EffectView {
    EffectView {
        id: "gate"@,
        enabled,
        params: Map::empty().insert("threshold"@, threshold).insert(
            "attack_ms"@,
            attack_ms,
        ).insert("release_ms"@, release_ms),
    }
}

impl EffectEntry {
    pub fn gain(gain: Scalar, enabled: bool) -> (r: Self)
        ensures
            r@ == gain_view(gain, enabled),
    {
        let mut params: TextMap<Scalar> = TextMap::new();
        params.insert(owned("gain"), gain);
        EffectEntry { id: owned("gain"), enabled, params }
    }

    pub fn gate(threshold: Scalar, attack_ms: Scalar, release_ms: Scalar, enabled: bool) -> (r:
        Self)
        ensures
            r@ == gate_view(threshold, attack_ms, release_ms, enabled),
    {
        let mut params: TextMap<Scalar> = TextMap::new();
        params.insert(owned("threshold"), threshold);
        params.insert(owned("attack_ms"), attack_ms);
        params.insert(owned("release_ms"), release_ms);
        EffectEntry { id: owned("gate"), enabled, params }
    }
}

/// Two chain entries are the same effect in the same state, with the same
/// controls set to close values, so that a value that went through a slider and
/// back still counts as the one it came from.
pub open spec fn same_effect(a: EffectView, b: EffectView) -> bool {
    &&& a.id == b.id
    &&& a.enabled == b.enabled
    &&& a.params.dom() == b.params.dom()
    &&& forall|name: Seq<char>| #[trigger]
        a.params.dom().contains(name) ==> close(a.params[name], b.params[name])
}

/// Two chains hold the same effects in the same order, with the same settings.
pub open spec fn same_chain(a: Seq<EffectView>, b: Seq<EffectView>) -> bool {
    &&& a.len() == b.len()
    &&& forall|i: int| 0 <= i < a.len() ==> same_effect(#[trigger] a[i], b[i])
}

/// Whether two chain entries are the same effect with the same settings.
pub fn entries_match(a: &EffectEntry, b: &EffectEntry) -> (r: bool)
    ensures
        r == same_effect(a@, b@),
{
    if !same_text(a.id.as_str(), b.id.as_str()) || a.enabled != b.enabled {
        return false;
    }
    let n: usize = a.params.len();
    if n != b.params.len() {
        return false;
    }
    let mut i: usize = 0;
    while i < n
        invariant
            i <= n,
            n == a.params.keys().len(),
            forall|k: int|
                0 <= k < i ==> b.params@.dom().contains(#[trigger] a.params.keys()[k]) && close(
                    a.params@[a.params.keys()[k]],
                    b.params@[a.params.keys()[k]],
                ),
        decreases n - i,
    {
        let name: &String = a.params.key_at(i);
        let value: Scalar = *a.params.value_at(i);
        match b.params.get(name.as_str()) {
            Some(other) => {
                if !is_close(value, *other) {
                    return false;
                }
            },
            None => {
                return false;
            },
        }
        i = i + 1;
    }
    proof {
        assert forall|name: Seq<char>| #[trigger] a.params@.dom().contains(name) implies b.params@.dom().contains(
            name,
        ) && close(a.params@[name], b.params@[name]) by {
            assert(a.params.keys().contains(name));
        }
        assert(a.params@.dom().subset_of(b.params@.dom()));
        vstd::set_lib::lemma_subset_equality(a.params@.dom(), b.params@.dom());
    }
    true
}

/// Whether two effect chains are the same effects, in the same order, with the
/// same settings.
pub fn chains_match(a: &Vec<EffectEntry>, b: &Vec<EffectEntry>) -> (r: bool)
    ensures
        r == same_chain(chain_view(a@), chain_view(b@)),
{
    if a.len() != b.len() {
        return false;
    }
    let mut i: usize = 0;
    while i < a.len()
        invariant
            i <= a@.len(),
            a@.len() == b@.len(),
            forall|k: int|
                0 <= k < i ==> same_effect(
                    #[trigger] chain_view(a@)[k],
                    chain_view(b@)[k],
                ),
        decreases a@.len() - i,
    {
        if !entries_match(&a[i], &b[i]) {
            assert(!same_effect(chain_view(a@)[i as int], chain_view(b@)[i as int]));
            return false;
        }
        i = i + 1;
    }
    true
}

/// Every value in the chain is an ordinary number.
pub open spec fn finite_chain(chain: Seq<EffectView>) -> bool {
    forall|i: int, name: Seq<char>|
        0 <= i < chain.len() && chain[i].params.dom().contains(name) ==> (
        #[trigger] chain[i].params[name]).is_finite()
}

/// A chain of ordinary numbers matches itself.
pub proof fn chain_matches_itself(chain: Seq<EffectView>)
    requires
        finite_chain(chain),
    ensures
        same_chain(chain, chain),
{
    assert forall|i: int| 0 <= i < chain.len() implies same_effect(#[trigger] chain[i], chain[i]) by {
        assert forall|name: Seq<char>| #[trigger]
            chain[i].params.dom().contains(name) implies close(
            chain[i].params[name],
            chain[i].params[name],
        ) by {
            close_to_itself(chain[i].params[name]);
        }
    }
}

// ── Sounds ───────────────────────────────────────────────────────────────────

/// When a sound's saved start point applies.
#[derive(Clone, Copy, Debug, PartialEq, Eq, Structural, Default)]
pub enum StartMode {
    /// Play from the beginning; the marker is kept but inactive.
    #[default]
    Off,
    /// Every play starts at the marker.
    Every,
    /// Only the next play starts at the marker, then the mode reverts to Off.
    Once,
}

/// Persisted settings of a sound, kept under its file name in [`Config::sounds`].
#[derive(Clone, Copy, Debug, PartialEq, Eq, Structural)]
pub struct SoundSettings {
    /// Linear gain from 0 to 1 (the tile slider, applied to monitor and virtual mic).
    pub volume: Scalar,
    /// Start marker in seconds.
    pub start_secs: Scalar,
    pub start_mode: StartMode,
    /// End trim in seconds; 0 plays to the end.
    pub end_secs: Scalar,
    pub fade_in_ms: Scalar,
    pub fade_out_ms: Scalar,
}

/// The number 0.
pub open spec fn zero() -> Scalar {
    Scalar { bits: 0 }
}

impl SoundSettings {
    /// A sound that plays from beginning to end, without fades.
    pub open spec fn plain(volume: Scalar) -> SoundSettings {
        SoundSettings {
            volume,
            start_secs: zero(),
            start_mode: StartMode::Off,
            end_secs: zero(),
            fade_in_ms: zero(),
            fade_out_ms: zero(),
        }
    }

    /// Where the next play starts, in seconds.
    pub open spec fn next_start(self) -> Scalar {
        match self.start_mode {
            StartMode::Off => zero(),
            StartMode::Every | StartMode::Once => self.start_secs.larger(zero()),
        }
    }

    pub fn with_volume(volume: Scalar) -> (r: Self)
        ensures
            r == SoundSettings::plain(volume),
    {
        SoundSettings {
            volume,
            start_secs: Scalar::zero(),
            start_mode: StartMode::Off,
            end_secs: Scalar::zero(),
            fade_in_ms: Scalar::zero(),
            fade_out_ms: Scalar::zero(),
        }
    }

    /// Effective start offset for the next play, in seconds.
    pub fn effective_start(&self) -> (r: Scalar)
        ensures
            r == self.next_start(),
    {
        match self.start_mode {
            StartMode::Off => Scalar::zero(),
            StartMode::Every | StartMode::Once => self.start_secs.max_with(Scalar::zero()),
        }
    }
}

// ── The configuration ────────────────────────────────────────────────────────

/// Everything that is kept between runs.
pub struct Config {
    pub sounds_folder: String,
    pub move_files_to_folder: bool,
    pub polyphonic: bool,
    /// Volume of sounds without settings of their own, in per cent.
    pub default_volume: u32,
    pub virtual_device_name: String,
    pub virtual_device_enabled: bool,
    /// Monitor playback goes to the system's default output.
    pub monitor_enabled: bool,
    pub monitor_volume: Scalar,
    pub input_device_name: String,
    pub mic_volume: Scalar,
    /// Soundboard level into the virtual mic, to balance sounds against the mic.
    pub soundboard_mic_volume: Scalar,
    /// Settings of sounds, under their file names.
    pub sounds: TextMap<SoundSettings>,
    /// Tile order on the soundboard, as file names; unknown files sort after.
    pub sound_order: Vec<String>,
    /// Named effect chains.
    pub effect_presets: TextMap<Vec<EffectEntry>>,
    /// The effect chain on the mic input.
    pub effects_chain: Vec<EffectEntry>,
}

/// The chains of the presets.
pub open spec fn preset_chains(presets: Map<Seq<char>, Vec<EffectEntry>>) -> Map<
    Seq<char>,
    Seq<EffectView>,
> {
    presets.map_values(|chain: Vec<EffectEntry>| chain_view(chain@))
}

/// Preset `name` matches the chain.
pub open spec fn preset_matches(
    presets: Map<Seq<char>, Seq<EffectView>>,
    chain: Seq<EffectView>,
    name: Seq<char>,
) -> bool {
    presets.dom().contains(name) && same_chain(presets[name], chain)
}

/// `name` is the preset that the chain matches, the first of several by name;
/// `None` if it matches none.
pub open spec fn is_active_preset(
    presets: Map<Seq<char>, Seq<EffectView>>,
    chain: Seq<EffectView>,
    name: Option<Seq<char>>,
) -> bool {
    match name {
        Some(first) => preset_matches(presets, chain, first) && forall|other: Seq<char>| #[trigger]
            preset_matches(presets, chain, other) ==> other == first || lex_lt(first, other),
        None => forall|other: Seq<char>| !preset_matches(presets, chain, other),
    }
}

/// The key of a sound file: its file name, whatever its folder.
pub open spec fn sound_key_of(path: Seq<char>) -> Seq<char> {
    if has_file_name(path) {
        last_segment(path)
    } else {
        Seq::empty()
    }
}

/// `r` are the settings of a first run.
pub open spec fn is_first_run(documents: Option<&str>, home: &str, r: Config) -> bool {
    &&& r.sounds_folder@ == joined(
        match documents {
            Some(dir) => dir@,
            None => joined(home@, "Documents"@),
        },
        "Sounds"@,
    )
    &&& !r.move_files_to_folder
    &&& r.polyphonic
    &&& r.default_volume == 100
    &&& r.virtual_device_name@ == "Resonate Microphone"@
    &&& r.virtual_device_enabled
    &&& r.monitor_enabled
    &&& r.monitor_volume == milli(1000)
    &&& r.input_device_name@ == Seq::<char>::empty()
    &&& r.mic_volume == milli(1000)
    &&& r.soundboard_mic_volume == milli(1000)
    &&& r.sounds@ == Map::<Seq<char>, SoundSettings>::empty()
    &&& r.sound_order@.len() == 0
    &&& r.effect_presets@ == Map::<Seq<char>, Vec<EffectEntry>>::empty()
    &&& chain_view(r.effects_chain@) == seq![
        gate_view(milli(20), milli(10_000), milli(100_000), false),
        gain_view(milli(1000), true),
    ]
}

/// What a new chain begins with: a noise gate, switched off, and gain.
pub fn default_effects_chain() -> (r: Vec<EffectEntry>)
    ensures
        chain_view(r@) == seq![
            gate_view(milli(20), milli(10_000), milli(100_000), false),
            gain_view(milli(1000), true),
        ],
{
    let mut r: Vec<EffectEntry> = Vec::new();
    r.push(
        EffectEntry::gate(from_milli(20), from_milli(10_000), from_milli(100_000), false),
    );
    r.push(EffectEntry::gain(from_milli(1000), true));
    r
}

impl Config {
    /// The settings of a first run. Sounds are kept in the documents folder, or in
    /// `Documents` under `home` if there is none.
    pub fn with_folders(documents: Option<&str>, home: &str) -> (r: Config)
        ensures
            is_first_run(documents, home, r),
    {
        let docs: String = match documents {
            Some(dir) => owned(dir),
            None => join(home, "Documents"),
        };
        Config {
            sounds_folder: join(docs.as_str(), "Sounds"),
            move_files_to_folder: false,
            polyphonic: true,
            default_volume: 100,
            virtual_device_name: owned("Resonate Microphone"),
            virtual_device_enabled: true,
            monitor_enabled: true,
            monitor_volume: from_milli(1000),
            input_device_name: String::new(),
            mic_volume: from_milli(1000),
            soundboard_mic_volume: from_milli(1000),
            sounds: TextMap::new(),
            sound_order: Vec::new(),
            effect_presets: TextMap::new(),
            effects_chain: default_effects_chain(),
        }
    }

    /// Name of the saved preset that the live chain currently matches, if any. It
    /// is derived from the chain and never stored.
    pub fn active_preset(&self) -> (r: Option<String>)
        ensures
            is_active_preset(
                preset_chains(self.effect_presets@),
                chain_view(self.effects_chain@),
                match r {
                    Some(name) => Some(name@),
                    None => None,
                },
            ),
    {
        let n: usize = self.effect_presets.len();
        let ghost presets = preset_chains(self.effect_presets@);
        let ghost chain = chain_view(self.effects_chain@);
        let ghost keys = self.effect_presets.keys();
        let mut best: Option<usize> = None;
        let mut i: usize = 0;
        while i < n
            invariant
                i <= n,
                n == keys.len(),
                keys == self.effect_presets.keys(),
                presets == preset_chains(self.effect_presets@),
                chain == chain_view(self.effects_chain@),
                match best {
                    Some(b) => b < i && preset_matches(presets, chain, keys[b as int]),
                    None => true,
                },
                forall|k: int|
                    0 <= k < i && preset_matches(presets, chain, #[trigger] keys[k]) ==> (best
                        matches Some(b) && (keys[k] == keys[b as int] || lex_lt(
                        keys[b as int],
                        keys[k],
                    ))),
            decreases n - i,
        {
            let candidate: &Vec<EffectEntry> = self.effect_presets.value_at(i);
            assert(presets.dom().contains(keys[i as int]));
            assert(presets[keys[i as int]] == chain_view(candidate@));
            if chains_match(candidate, &self.effects_chain) {
                let better: bool = match best {
                    Some(b) => {
                        proof {
                            lex_is_total(keys[i as int], keys[b as int]);
                        }
                        text_before(
                            self.effect_presets.key_at(i).as_str(),
                            self.effect_presets.key_at(b).as_str(),
                        )
                    },
                    None => true,
                };
                if better {
                    proof {
                        assert forall|k: int|
                            0 <= k < i && preset_matches(
                                presets,
                                chain,
                                #[trigger] keys[k],
                            ) implies keys[k] == keys[i as int] || lex_lt(
                            keys[i as int],
                            keys[k],
                        ) by {
                            let b = best->0 as int;
                            if keys[k] != keys[b] {
                                lex_is_transitive(keys[i as int], keys[b], keys[k]);
                            }
                        }
                    }
                    best = Some(i);
                }
            }
            i = i + 1;
        }
        proof {
            assert forall|other: Seq<char>| #[trigger]
                preset_matches(presets, chain, other) implies (best matches Some(b) && (other
                == keys[b as int] || lex_lt(keys[b as int], other))) by {
                assert(self.effect_presets@.dom().contains(other));
                assert(keys.contains(other));
                let k = choose|k: int| 0 <= k < keys.len() && keys[k] == other;
                assert(preset_matches(presets, chain, keys[k]));
            }
        }
        match best {
            Some(b) => Some(self.effect_presets.key_at(b).clone()),
            None => None,
        }
    }

    /// Key of a sound file among [`Config::sounds`]: its file name.
    pub fn sound_key(path: &str) -> (r: String)
        ensures
            r@ == sound_key_of(path@),
    {
        match file_name(path) {
            Some(name) => name,
            None => String::new(),
        }
    }

    /// Settings of a sound, falling back to plain ones at the default volume.
    pub fn sound_settings(&self, path: &str) -> (r: SoundSettings)
        ensures
            self.sounds@.dom().contains(sound_key_of(path@)) ==> r
                == self.sounds@[sound_key_of(path@)],
            !self.sounds@.dom().contains(sound_key_of(path@)) ==> r == SoundSettings::plain(
                r.volume,
            ) && is_percent(self.default_volume as nat, r.volume),
    {
        let key: String = Config::sound_key(path);
        match self.sounds.get(key.as_str()) {
            Some(settings) => *settings,
            None => SoundSettings::with_volume(percent(self.default_volume)),
        }
    }

    /// Mutable settings of a sound, created from the defaults on first access.
    pub fn sound_settings_mut(&mut self, path: &str) -> (r: &mut SoundSettings)
        ensures
            old(self).sounds@.dom().contains(sound_key_of(path@)) ==> *r == old(
                self,
            ).sounds@[sound_key_of(path@)],
            !old(self).sounds@.dom().contains(sound_key_of(path@)) ==> *r
                == SoundSettings::plain(r.volume) && is_percent(
                old(self).default_volume as nat,
                r.volume,
            ),
            final(self).sounds@ == old(self).sounds@.insert(sound_key_of(path@), *final(r)),
            *final(self) == (Config { sounds: final(self).sounds, ..*old(self) }),
    {
        let key: String = Config::sound_key(path);
        let settings: SoundSettings = self.sound_settings(path);
        let name: String = key.clone();
        self.sounds.insert(name, settings);
        let ghost before = self.sounds@;
        match self.sounds.get_mut(key.as_str()) {
            Some(r) => {
                proof {
                    assert(before.insert(key@, *final(r)) =~= old(self).sounds@.insert(
                        key@,
                        *final(r),
                    ));
                }
                r
            },
            None => vstd::pervasive::unreached(),
        }
    }

    /// Carries settings over when a sound file is renamed.
    pub fn rename_sound_key(&mut self, old_path: &str, new_path: &str)
        ensures
            final(self).sounds@ == carried_over(old(self).sounds@, old_path@, new_path@),
            *final(self) == (Config { sounds: final(self).sounds, ..*old(self) }),
    {
        let before: String = Config::sound_key(old_path);
        match self.sounds.remove(before.as_str()) {
            Some(settings) => {
                self.sounds.insert(Config::sound_key(new_path), settings);
            },
            None => {
                assert(self.sounds@ =~= old(self).sounds@);
            },
        }
    }

    /// Forgets the settings of a sound.
    pub fn remove_sound_settings(&mut self, path: &str)
        ensures
            final(self).sounds@ == old(self).sounds@.remove(sound_key_of(path@)),
            *final(self) == (Config { sounds: final(self).sounds, ..*old(self) }),
    {
        let key: String = Config::sound_key(path);
        let _gone = self.sounds.remove(key.as_str());
    }
}

/// The settings of all sounds after a file was renamed: those of its sound go with it.
pub open spec fn carried_over(
    sounds: Map<Seq<char>, SoundSettings>,
    old_path: Seq<char>,
    new_path: Seq<char>,
) -> Map<Seq<char>, SoundSettings> {
    let before = sound_key_of(old_path);
    if sounds.dom().contains(before) {
        sounds.remove(before).insert(sound_key_of(new_path), sounds[before])
    } else {
        sounds
    }
}

/// There is one active preset at most: it follows from the saved chains and the
/// live one, so it survives a restart and comes back when an edit is undone.
pub proof fn active_preset_is_determined(
    presets: Map<Seq<char>, Seq<EffectView>>,
    chain: Seq<EffectView>,
    a: Option<Seq<char>>,
    b: Option<Seq<char>>,
)
    requires
        is_active_preset(presets, chain, a),
        is_active_preset(presets, chain, b),
    ensures
        a == b,
{
    if let Some(x) = a {
        if let Some(y) = b {
            lex_is_total(x, y);
        }
    }
}

/// A chain that was just loaded from a preset is marked by that preset or by one
/// whose name comes first.
pub proof fn loaded_preset_is_active(
    presets: Map<Seq<char>, Seq<EffectView>>,
    name: Seq<char>,
    active: Option<Seq<char>>,
)
    requires
        presets.dom().contains(name),
        finite_chain(presets[name]),
        is_active_preset(presets, presets[name], active),
    ensures
        active matches Some(first) && (first == name || lex_lt(first, name)),
{
    chain_matches_itself(presets[name]);
    assert(preset_matches(presets, presets[name], name));
}

// ── Reading and keeping the file ─────────────────────────────────────────────

/// What a configuration file says: a field that it leaves out is `None`.
pub struct PartialConfig {
    pub sounds_folder: Option<String>,
    pub move_files_to_folder: Option<bool>,
    pub polyphonic: Option<bool>,
    pub default_volume: Option<u32>,
    pub virtual_device_name: Option<String>,
    pub virtual_device_enabled: Option<bool>,
    pub monitor_enabled: Option<bool>,
    pub monitor_volume: Option<Scalar>,
    pub input_device_name: Option<String>,
    pub mic_volume: Option<Scalar>,
    pub soundboard_mic_volume: Option<Scalar>,
    pub sounds: Option<TextMap<SoundSettings>>,
    pub sound_order: Option<Vec<String>>,
    pub effect_presets: Option<TextMap<Vec<EffectEntry>>>,
    pub effects_chain: Option<Vec<EffectEntry>>,
}

pub open spec fn given_or<T>(given: Option<T>, fallback: T) -> T {
    match given {
        Some(value) => value,
        None => fallback,
    }
}

fn or_else<T>(given: Option<T>, fallback: T) -> (r: T)
    ensures
        r == given_or(given, fallback),
{
    match given {
        Some(value) => value,
        None => fallback,
    }
}

/// What becomes of a sound entry in the file: only its volume must be there.
pub struct PartialSound {
    pub volume: Scalar,
    pub start_secs: Option<Scalar>,
    pub start_mode: Option<StartMode>,
    pub end_secs: Option<Scalar>,
    pub fade_in_ms: Option<Scalar>,
    pub fade_out_ms: Option<Scalar>,
}

impl PartialSound {
    /// The settings that the entry stands for.
    pub open spec fn whole(self) -> SoundSettings {
        SoundSettings {
            volume: self.volume,
            start_secs: given_or(self.start_secs, zero()),
            start_mode: given_or(self.start_mode, StartMode::Off),
            end_secs: given_or(self.end_secs, zero()),
            fade_in_ms: given_or(self.fade_in_ms, zero()),
            fade_out_ms: given_or(self.fade_out_ms, zero()),
        }
    }

    /// The settings that the entry stands for: a field left out is that of a sound
    /// without trim and fades.
    pub fn completed(self) -> (r: SoundSettings)
        ensures
            r == self.whole(),
    {
        SoundSettings {
            volume: self.volume,
            start_secs: or_else(self.start_secs, Scalar::zero()),
            start_mode: or_else(self.start_mode, StartMode::Off),
            end_secs: or_else(self.end_secs, Scalar::zero()),
            fade_in_ms: or_else(self.fade_in_ms, Scalar::zero()),
            fade_out_ms: or_else(self.fade_out_ms, Scalar::zero()),
        }
    }
}

/// The configuration that a file stands for: what the file leaves out is that of
/// `defaults`.
pub open spec fn filled(file: PartialConfig, defaults: Config) -> Config {
    Config {
        sounds_folder: given_or(file.sounds_folder, defaults.sounds_folder),
        move_files_to_folder: given_or(
            file.move_files_to_folder,
            defaults.move_files_to_folder,
        ),
        polyphonic: given_or(file.polyphonic, defaults.polyphonic),
        default_volume: given_or(file.default_volume, defaults.default_volume),
        virtual_device_name: given_or(
            file.virtual_device_name,
            defaults.virtual_device_name,
        ),
        virtual_device_enabled: given_or(
            file.virtual_device_enabled,
            defaults.virtual_device_enabled,
        ),
        monitor_enabled: given_or(file.monitor_enabled, defaults.monitor_enabled),
        monitor_volume: given_or(file.monitor_volume, defaults.monitor_volume),
        input_device_name: given_or(file.input_device_name, defaults.input_device_name),
        mic_volume: given_or(file.mic_volume, defaults.mic_volume),
        soundboard_mic_volume: given_or(
            file.soundboard_mic_volume,
            defaults.soundboard_mic_volume,
        ),
        sounds: given_or(file.sounds, defaults.sounds),
        sound_order: given_or(file.sound_order, defaults.sound_order),
        effect_presets: given_or(file.effect_presets, defaults.effect_presets),
        effects_chain: given_or(file.effects_chain, defaults.effects_chain),
    }
}

/// A file that leaves nothing out.
pub open spec fn complete(c: Config) -> PartialConfig {
    PartialConfig {
        sounds_folder: Some(c.sounds_folder),
        move_files_to_folder: Some(c.move_files_to_folder),
        polyphonic: Some(c.polyphonic),
        default_volume: Some(c.default_volume),
        virtual_device_name: Some(c.virtual_device_name),
        virtual_device_enabled: Some(c.virtual_device_enabled),
        monitor_enabled: Some(c.monitor_enabled),
        monitor_volume: Some(c.monitor_volume),
        input_device_name: Some(c.input_device_name),
        mic_volume: Some(c.mic_volume),
        soundboard_mic_volume: Some(c.soundboard_mic_volume),
        sounds: Some(c.sounds),
        sound_order: Some(c.sound_order),
        effect_presets: Some(c.effect_presets),
        effects_chain: Some(c.effects_chain),
    }
}

/// A file that leaves everything out.
pub open spec fn nothing_given() -> PartialConfig {
    PartialConfig {
        sounds_folder: None,
        move_files_to_folder: None,
        polyphonic: None,
        default_volume: None,
        virtual_device_name: None,
        virtual_device_enabled: None,
        monitor_enabled: None,
        monitor_volume: None,
        input_device_name: None,
        mic_volume: None,
        soundboard_mic_volume: None,
        sounds: None,
        sound_order: None,
        effect_presets: None,
        effects_chain: None,
    }
}

/// A complete file gives back what was written, whatever the defaults are by then; an
/// empty one gives the defaults.
pub proof fn written_configurations_come_back(c: Config, defaults: Config)
    ensures
        filled(complete(c), defaults) == c,
        filled(nothing_given(), defaults) == defaults,
{
}

/// A file with one field missing keeps the rest: only the tile order is that of the
/// defaults if only the tile order was left out, and so for the presets.
pub proof fn a_missing_field_costs_nothing_else(c: Config, defaults: Config)
    ensures
        filled((PartialConfig { sound_order: None, ..complete(c) }), defaults) == (Config {
            sound_order: defaults.sound_order,
            ..c
        }),
        filled((PartialConfig { effect_presets: None, ..complete(c) }), defaults) == (Config {
            effect_presets: defaults.effect_presets,
            ..c
        }),
{
}

impl PartialConfig {
    /// The configuration that the file stands for: each field that it leaves out is
    /// that of `defaults`, and the others are kept.
    pub fn completed(self, defaults: Config) -> (r: Config)
        ensures
            r == filled(self, defaults),
    {
        Config {
            sounds_folder: or_else(self.sounds_folder, defaults.sounds_folder),
            move_files_to_folder: or_else(
                self.move_files_to_folder,
                defaults.move_files_to_folder,
            ),
            polyphonic: or_else(self.polyphonic, defaults.polyphonic),
            default_volume: or_else(self.default_volume, defaults.default_volume),
            virtual_device_name: or_else(self.virtual_device_name, defaults.virtual_device_name),
            virtual_device_enabled: or_else(
                self.virtual_device_enabled,
                defaults.virtual_device_enabled,
            ),
            monitor_enabled: or_else(self.monitor_enabled, defaults.monitor_enabled),
            monitor_volume: or_else(self.monitor_volume, defaults.monitor_volume),
            input_device_name: or_else(self.input_device_name, defaults.input_device_name),
            mic_volume: or_else(self.mic_volume, defaults.mic_volume),
            soundboard_mic_volume: or_else(
                self.soundboard_mic_volume,
                defaults.soundboard_mic_volume,
            ),
            sounds: or_else(self.sounds, defaults.sounds),
            sound_order: or_else(self.sound_order, defaults.sound_order),
            effect_presets: or_else(self.effect_presets, defaults.effect_presets),
            effects_chain: or_else(self.effects_chain, defaults.effects_chain),
        }
    }
}

/// The state in which the configuration file was found.
#[derive(Clone, Copy, Debug, PartialEq, Eq, Structural)]
pub enum FileState {
    Missing,
    /// It is there but cannot be read (permissions, a race).
    Unreadable,
    Valid,
    /// It was read and is not a configuration.
    Invalid,
}

/// What to do about the file before going on.
#[derive(Clone, Copy, Debug, PartialEq, Eq, Structural)]
pub struct LoadPlan {
    /// Take what the file says; otherwise start from the defaults.
    pub use_file: bool,
    /// Move the file aside first, so that nothing in it is lost.
    pub keep_copy: bool,
    /// Write the configuration out.
    pub save: bool,
}

/// How to start from a file in the given state. A file that cannot be read is left
/// alone for the next run; an invalid one is moved aside before it is replaced.
pub open spec fn plan_for(state: FileState) -> LoadPlan {
    LoadPlan {
        use_file: state == FileState::Valid,
        keep_copy: state == FileState::Invalid,
        save: state == FileState::Missing || state == FileState::Invalid,
    }
}

/// How to start from a file in the given state.
pub fn load_plan(state: FileState) -> (r: LoadPlan)
    ensures
        r == plan_for(state),
{
    match state {
        FileState::Missing => LoadPlan { use_file: false, keep_copy: false, save: true },
        FileState::Unreadable => LoadPlan { use_file: false, keep_copy: false, save: false },
        FileState::Valid => LoadPlan { use_file: true, keep_copy: false, save: false },
        FileState::Invalid => LoadPlan { use_file: false, keep_copy: true, save: true },
    }
}

/// A file that holds something is never overwritten with defaults unless it was
/// moved aside.
pub proof fn no_file_is_lost(state: FileState)
    ensures
        state != FileState::Missing && plan_for(state).save ==> plan_for(state).keep_copy,
        state == FileState::Unreadable ==> !plan_for(state).save && !plan_for(state).keep_copy,
{
}

/// Where the configuration is kept under the user's configuration folder.
pub fn config_path(config_dir: &str) -> (r: String)
    ensures
        r@ == joined(joined(config_dir@, "io.github.kilo2071.Resonate"@), "config.json"@),
{
    let dir: String = join(config_dir, "io.github.kilo2071.Resonate");
    join(dir.as_str(), "config.json")
}

/// Where an invalid configuration is moved to.
pub fn backup_path(config_path: &str) -> (r: String)
    ensures
        r@ == with_extension(config_path@, "json.bak"@),
{
    set_extension(config_path, "json.bak")
}

// ── Laws on the settings of sounds ───────────────────────────────────────────

/// The settings of a sound do not depend on the folder that it is in.
pub proof fn settings_follow_the_file_name(dir: Seq<char>, other: Seq<char>, name: Seq<char>)
    requires
        plain_name(name),
    ensures
        sound_key_of(joined(dir, name)) == sound_key_of(joined(other, name)),
        sound_key_of(joined(dir, name)) == name,
{
    name_in_a_folder(dir, name);
    name_in_a_folder(other, name);
}

/// Renaming a sound carries its settings over and touches no other sound.
pub proof fn renaming_keeps_settings(
    sounds: Map<Seq<char>, SoundSettings>,
    old_path: Seq<char>,
    new_path: Seq<char>,
    other: Seq<char>,
)
    requires
        other != sound_key_of(old_path),
        other != sound_key_of(new_path),
    ensures
        ({
            let before = sound_key_of(old_path);
            let key = sound_key_of(new_path);
            let after = carried_over(sounds, old_path, new_path);
            &&& sounds.dom().contains(before) ==> after.dom().contains(key) && after[key]
                == sounds[before]
            &&& before != key ==> !after.dom().contains(before)
            &&& after.dom().contains(other) == sounds.dom().contains(other)
            &&& sounds.dom().contains(other) ==> after[other] == sounds[other]
        }),
{
}

/// An entry for a sound says what it says, and what it leaves out is nothing: no trim and
/// no fade.
pub proof fn what_an_entry_leaves_out_is_nothing(entry: PartialSound)
    ensures
        entry.whole().volume == entry.volume,
        entry.start_secs is Some ==> entry.whole().start_secs == entry.start_secs->0,
        entry.start_secs is None ==> entry.whole().start_secs.bits == 0,
        entry.start_mode is Some ==> entry.whole().start_mode == entry.start_mode->0,
        entry.start_mode is None ==> entry.whole().start_mode == StartMode::Off,
        entry.end_secs is Some ==> entry.whole().end_secs == entry.end_secs->0,
        entry.end_secs is None ==> entry.whole().end_secs.bits == 0,
        entry.fade_in_ms is Some ==> entry.whole().fade_in_ms == entry.fade_in_ms->0,
        entry.fade_in_ms is None ==> entry.whole().fade_in_ms.bits == 0,
        entry.fade_out_ms is Some ==> entry.whole().fade_out_ms == entry.fade_out_ms->0,
        entry.fade_out_ms is None ==> entry.whole().fade_out_ms.bits == 0,
{
}

/// Chains that match have the same effects in the same order, each on or off in both, with
/// the same controls.
pub proof fn matching_chains_have_the_same_effects(
    a: Seq<EffectView>,
    b: Seq<EffectView>,
    i: int,
    name: Seq<char>,
)
    requires
        same_chain(a, b),
        0 <= i < a.len(),
    ensures
        a.len() == b.len(),
        a[i].id == b[i].id,
        a[i].enabled == b[i].enabled,
        a[i].params.dom().contains(name) <==> b[i].params.dom().contains(name),
        a[i].params.dom().contains(name) ==> close(a[i].params[name], b[i].params[name]),
{
    assert(same_effect(a[i], b[i]));
}

/// The entry for an effect holds the values under the names of its controls.
pub proof fn entries_hold_their_values(
    gain: Scalar,
    threshold: Scalar,
    attack_ms: Scalar,
    release_ms: Scalar,
    enabled: bool,
)
    ensures
        gain_view(gain, enabled).id == "gain"@,
        gain_view(gain, enabled).enabled == enabled,
        gain_view(gain, enabled).params["gain"@] == gain,
        gain_view(gain, enabled).params.dom() == Set::empty().insert("gain"@),
        ({
            let entry = gate_view(threshold, attack_ms, release_ms, enabled);
            &&& entry.id == "gate"@
            &&& entry.enabled == enabled
            &&& entry.params["threshold"@] == threshold
            &&& entry.params["attack_ms"@] == attack_ms
            &&& entry.params["release_ms"@] == release_ms
            &&& entry.params.dom() == Set::empty().insert("threshold"@).insert("attack_ms"@).insert(
                "release_ms"@,
            )
        }),
{
    reveal_strlit("threshold");
    reveal_strlit("attack_ms");
    reveal_strlit("release_ms");
    assert("threshold"@[0] == 't' && "attack_ms"@[0] == 'a' && "release_ms"@[0] == 'r');
    assert(gain_view(gain, enabled).params.dom() =~= Set::empty().insert("gain"@));
    assert(gate_view(threshold, attack_ms, release_ms, enabled).params.dom()
        =~= Set::empty().insert("threshold"@).insert("attack_ms"@).insert("release_ms"@));
}

/// A file that can be read is used and left alone; one that makes no sense is kept beside
/// a fresh one; where there is none, one is written.
pub proof fn only_a_good_file_is_used(state: FileState)
    ensures
        plan_for(FileState::Valid).use_file,
        !plan_for(FileState::Valid).save && !plan_for(FileState::Valid).keep_copy,
        plan_for(FileState::Invalid).save && plan_for(FileState::Invalid).keep_copy,
        plan_for(FileState::Missing).save && !plan_for(FileState::Missing).keep_copy,
        state != FileState::Valid ==> !plan_for(state).use_file,
{
}

/// The next play starts at the marker where that is on, and at the beginning otherwise;
/// never before the beginning.
pub proof fn a_play_starts_at_the_marker(s: SoundSettings)
    ensures
        s.start_mode == StartMode::Off ==> s.next_start().bits == 0,
        s.start_mode != StartMode::Off && zero().le(s.start_secs) ==> s.next_start().place()
            == s.start_secs.place(),
        zero().le(s.next_start()),
{
}

/// A first run changes nothing of the sound: every volume is full, the noise gate is off
/// and the gain is 1; nothing is saved yet.
pub proof fn a_first_run_changes_no_sound(documents: Option<&str>, home: &str, r: Config)
    requires
        is_first_run(documents, home, r),
    ensures
        r.monitor_volume == milli(1000),
        r.mic_volume == milli(1000),
        r.soundboard_mic_volume == milli(1000),
        r.default_volume == 100,
        r.polyphonic,
        r.monitor_enabled,
        r.virtual_device_enabled,
        !r.move_files_to_folder,
        r.sounds@.dom() == Set::<Seq<char>>::empty(),
        r.effect_presets@.dom() == Set::<Seq<char>>::empty(),
        chain_view(r.effects_chain@).len() == 2,
        forall|i: int|
            0 <= i < 2 ==> {
                let effect = #[trigger] chain_view(r.effects_chain@)[i];
                effect.id == "gate"@ && !effect.enabled || effect.id == "gain"@
                    && effect.params["gain"@] == milli(1000)
            },
        documents is Some ==> r.sounds_folder@ == joined(documents->0@, "Sounds"@),
        documents is None ==> r.sounds_folder@ == joined(joined(home@, "Documents"@), "Sounds"@),
{
}

} // verus!
