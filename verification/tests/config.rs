use resonate::config::{
    backup_path, chains_match, clone_chain, config_path, default_effects_chain, load_plan, Config,
    EffectEntry, FileState, LoadPlan, PartialConfig, PartialSound, SoundSettings, StartMode,
};
use resonate::scalar::Scalar;
use resonate::text_map::TextMap;

fn s(x: f32) -> Scalar {
    Scalar { bits: x.to_bits() }
}

fn defaults() -> Config {
    Config::with_folders(Some("/home/me/Documents"), "/home/me")
}

fn cfg_with(chain: Vec<EffectEntry>, presets: &[(&str, Vec<EffectEntry>)]) -> Config {
    let mut cfg = defaults();
    cfg.effects_chain = chain;
    for (name, preset) in presets {
        cfg.effect_presets.insert(name.to_string(), clone_chain(preset));
    }
    cfg
}

fn nothing_given() -> PartialConfig {
    PartialConfig {
        sounds_folder: None,
        move_files_to_folder: None,
        polyphonic: None,
        default_volume: None,
        virtual_device_name: None,
        virtual_device_enabled: None,
        monitor_enabled: None,
        monitor_volume: None,
        input_device_name: None,
        mic_volume: None,
        soundboard_mic_volume: None,
        sounds: None,
        sound_order: None,
        effect_presets: None,
        effects_chain: None,
    }
}

#[test]
fn a_config_missing_fields_keeps_the_rest() {
    let json = r#"{"sounds_folder":"/tmp/s","sound_order":["a.wav"]}"#;
    let value: serde_json::Value = serde_json::from_str(json).expect("partial config parses");
    let mut partial = nothing_given();
    partial.sounds_folder = value.get("sounds_folder").and_then(|v| v.as_str()).map(|v| v.to_string());
    partial.sound_order = value.get("sound_order").and_then(|v| v.as_array()).map(|v| {
        v.iter().filter_map(|x| x.as_str()).map(|x| x.to_string()).collect()
    });
    partial.mic_volume = value.get("mic_volume").and_then(|v| v.as_f64()).map(|v| s(v as f32));
    let cfg: Config = partial.completed(defaults());
    assert_eq!(cfg.sound_order, vec!["a.wav".to_string()]);
    assert_eq!(cfg.sounds_folder, "/tmp/s");
    assert_eq!(cfg.mic_volume, s(1.0));
    assert_eq!(cfg.soundboard_mic_volume, s(1.0));
    assert!(!cfg.move_files_to_folder);
    assert!(chains_match(&cfg.effects_chain, &default_effects_chain()));
}

#[test]
fn active_preset_matches_the_loaded_chain() {
    let broadcast = vec![
        EffectEntry::gate(s(0.02), s(10.0), s(100.0), true),
        EffectEntry::gain(s(1.5), true),
    ];
    let cfg = cfg_with(clone_chain(&broadcast), &[("Broadcast", broadcast)]);
    assert_eq!(cfg.active_preset().as_deref(), Some("Broadcast"));
}

#[test]
fn an_edited_chain_matches_nothing() {
    let broadcast = vec![EffectEntry::gain(s(1.5), true)];
    let mut cfg = cfg_with(clone_chain(&broadcast), &[("Broadcast", broadcast)]);
    cfg.effects_chain[0].params.insert("gain".to_string(), s(2.0));
    assert_eq!(cfg.active_preset(), None);
    // It comes back when the edit is undone.
    cfg.effects_chain[0].params.insert("gain".to_string(), s(1.5));
    assert_eq!(cfg.active_preset().as_deref(), Some("Broadcast"));
}

#[test]
fn order_and_enabled_state_are_part_of_the_match() {
    let a = EffectEntry::gain(s(1.0), true);
    let b = EffectEntry::gate(s(0.02), s(10.0), s(100.0), true);
    let cfg = cfg_with(vec![b.clone(), a.clone()], &[("P", vec![a.clone(), b.clone()])]);
    assert_eq!(cfg.active_preset(), None);

    let mut off = a.clone();
    off.enabled = false;
    let cfg = cfg_with(vec![off], &[("P", vec![a])]);
    assert_eq!(cfg.active_preset(), None);
}

#[test]
fn a_value_that_went_through_a_slider_still_matches() {
    let saved = vec![EffectEntry::gain(s(1.1), true)];
    let mut cfg = cfg_with(clone_chain(&saved), &[("P", saved)]);
    let through = (1.1f32 as f64 * 100.0 / 100.0 + 1e-8) as f32;
    cfg.effects_chain[0].params.insert("gain".to_string(), s(through));
    assert_eq!(cfg.active_preset().as_deref(), Some("P"));
    cfg.effects_chain[0].params.insert("gain".to_string(), s(1.10001));
    assert_eq!(cfg.active_preset(), None);
}

#[test]
fn of_several_matching_presets_the_first_by_name_is_active() {
    let chain = vec![EffectEntry::gain(s(2.0), true)];
    let cfg = cfg_with(
        clone_chain(&chain),
        &[("Zulu", clone_chain(&chain)), ("Alpha", clone_chain(&chain)), ("Mike", chain)],
    );
    assert_eq!(cfg.active_preset().as_deref(), Some("Alpha"));
}

#[test]
fn a_missing_control_is_no_match() {
    let mut more = EffectEntry::gain(s(1.0), true);
    more.params.insert("x".to_string(), s(0.0));
    assert!(!chains_match(&vec![more], &vec![EffectEntry::gain(s(1.0), true)]));
    assert!(!chains_match(&Vec::new(), &vec![EffectEntry::gain(s(1.0), true)]));
    assert!(chains_match(&Vec::new(), &Vec::new()));
}

#[test]
fn a_first_run_starts_with_these_settings() {
    let cfg = defaults();
    assert_eq!(cfg.sounds_folder, "/home/me/Documents/Sounds");
    assert_eq!(Config::with_folders(None, "/home/me").sounds_folder, "/home/me/Documents/Sounds");
    assert!(cfg.polyphonic);
    assert_eq!(cfg.default_volume, 100);
    assert_eq!(cfg.virtual_device_name, "Resonate Microphone");
    assert!(cfg.virtual_device_enabled && cfg.monitor_enabled);
    assert_eq!(cfg.monitor_volume, s(1.0));
    assert_eq!(cfg.input_device_name, "");
    assert_eq!(cfg.effects_chain.len(), 2);
    assert_eq!(cfg.effects_chain[0].id, "gate");
    assert!(!cfg.effects_chain[0].enabled);
    assert_eq!(cfg.effects_chain[0].params.get("threshold"), Some(&s(0.02)));
    assert_eq!(cfg.effects_chain[1].params.get("gain"), Some(&s(1.0)));
    assert_eq!(
        config_path("/home/me/.config"),
        "/home/me/.config/io.github.kilo2071.Resonate/config.json"
    );
    assert_eq!(backup_path("/c/config.json"), "/c/config.json.bak");
}

#[test]
fn no_file_is_overwritten_unless_it_was_moved_aside() {
    assert_eq!(
        load_plan(FileState::Missing),
        LoadPlan { use_file: false, keep_copy: false, save: true }
    );
    assert_eq!(
        load_plan(FileState::Unreadable),
        LoadPlan { use_file: false, keep_copy: false, save: false }
    );
    assert_eq!(
        load_plan(FileState::Valid),
        LoadPlan { use_file: true, keep_copy: false, save: false }
    );
    assert_eq!(
        load_plan(FileState::Invalid),
        LoadPlan { use_file: false, keep_copy: true, save: true }
    );
}

#[test]
fn a_sound_entry_needs_only_its_volume() {
    let entry = PartialSound {
        volume: s(0.4),
        start_secs: None,
        start_mode: Some(StartMode::Once),
        end_secs: None,
        fade_in_ms: Some(s(50.0)),
        fade_out_ms: None,
    };
    let settings = entry.completed();
    assert_eq!(settings.volume, s(0.4));
    assert_eq!(settings.start_secs, s(0.0));
    assert_eq!(settings.start_mode, StartMode::Once);
    assert_eq!(settings.fade_in_ms, s(50.0));
    assert_eq!(settings.fade_out_ms, s(0.0));
}

#[test]
fn settings_go_by_the_file_name() {
    let mut cfg = defaults();
    cfg.default_volume = 80;
    assert_eq!(cfg.sound_settings("/a/x.wav"), SoundSettings::with_volume(s(0.8)));
    cfg.sound_settings_mut("/a/x.wav").volume = s(0.3);
    assert_eq!(cfg.sound_settings("/b/x.wav").volume, s(0.3));
    assert_eq!(cfg.sound_settings("/b/y.wav").volume, s(0.8));
    assert_eq!(Config::sound_key("/b/y.wav"), "y.wav");
    assert_eq!(Config::sound_key("/"), "");
    // Settings that exist do not follow the default volume.
    cfg.default_volume = 10;
    assert_eq!(cfg.sound_settings("/a/x.wav").volume, s(0.3));
}

#[test]
fn renaming_carries_settings_over() {
    let mut cfg = defaults();
    cfg.sound_settings_mut("/a/x.wav").volume = s(0.3);
    cfg.sound_settings_mut("/a/other.wav").volume = s(0.6);
    cfg.rename_sound_key("/a/x.wav", "/a/z.wav");
    assert_eq!(cfg.sound_settings("/a/z.wav").volume, s(0.3));
    assert_eq!(cfg.sound_settings("/a/x.wav").volume, s(1.0));
    assert_eq!(cfg.sound_settings("/a/other.wav").volume, s(0.6));
    cfg.rename_sound_key("/a/none.wav", "/a/q.wav");
    assert_eq!(cfg.sounds.len(), 2);
    cfg.remove_sound_settings("/elsewhere/z.wav");
    assert_eq!(cfg.sounds.len(), 1);
}

#[test]
fn the_start_marker_applies_by_its_mode() {
    let mut settings = SoundSettings::with_volume(s(1.0));
    settings.start_secs = s(2.5);
    assert_eq!(settings.effective_start(), s(0.0));
    settings.start_mode = StartMode::Every;
    assert_eq!(settings.effective_start(), s(2.5));
    settings.start_mode = StartMode::Once;
    assert_eq!(settings.effective_start(), s(2.5));
    settings.start_secs = s(-1.0);
    assert_eq!(settings.effective_start(), s(0.0));
    assert_eq!(StartMode::default(), StartMode::Off);
}

#[test]
fn given_fields_are_kept() {
    let mut partial = nothing_given();
    partial.polyphonic = Some(false);
    partial.default_volume = Some(55);
    partial.effects_chain = Some(Vec::new());
    partial.effect_presets = Some(TextMap::new());
    let cfg = partial.completed(defaults());
    assert!(!cfg.polyphonic);
    assert_eq!(cfg.default_volume, 55);
    assert!(cfg.effects_chain.is_empty());
    assert!(cfg.monitor_enabled);
}
