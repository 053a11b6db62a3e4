use resonate::audio::engine::{AudioEngine, PlayParams};
use resonate::config::{chains_match, Config, EffectEntry, SoundSettings, StartMode};
use resonate::plugins::chains::{factory_chains, NamedChain};
use resonate::plugins::lv2::PluginWorld;
use resonate::double::Fraction;
use resonate::scalar::Scalar;
use resonate::text_map::TextMap;
use resonate::ui::soundboard::ResonateSoundboardPage;
use resonate::window::{
    activation, arrange, audio_extension_list, autostart_contents, autostart_path,
    default_entry_for, is_audio_file, move_plan, normalised_volume, place_after_move,
    remove_question, removed_message, rename_prefill, rename_request, rename_target,
    renamed_message, scan, starts_hidden, undo_path, Activation, CloseAction, MovePlan, MoveTry,
    PlayPause, ResonateWindow,
};

fn at(x: f64) -> Fraction {
    Fraction { bits: x.to_bits() }
}

fn s(x: f32) -> Scalar {
    Scalar { bits: x.to_bits() }
}

fn texts(v: &[&str]) -> Vec<String> {
    v.iter().map(|x| x.to_string()).collect()
}

fn window() -> ResonateWindow {
    ResonateWindow {
        config: Config::with_folders(Some("/docs"), "/home/me"),
        page: ResonateSoundboardPage::new(),
        force_quit: false,
        active_preset: None,
    }
}

fn factory() -> Vec<NamedChain> {
    factory_chains(&PluginWorld { plugins: Vec::new(), shipped: TextMap::new() })
}

fn ids(w: &ResonateWindow) -> Vec<String> {
    w.config.effects_chain.iter().map(|e| e.id.clone()).collect()
}

#[test]
fn sound_files_are_known_by_their_extension() {
    for ext in audio_extension_list() {
        assert!(is_audio_file(&format!("/s/x.{ext}")));
        assert!(is_audio_file(&format!("/s/x.{}", ext.to_uppercase())));
    }
    assert!(!is_audio_file("/s/x.txt"));
    assert!(!is_audio_file("/s/wav"));
    assert!(!is_audio_file("/s/.wav"));
}

#[test]
fn a_scan_applies_the_saved_order() {
    let names = texts(&["b.wav", "notes.txt", "a.mp3", "z.ogg", "c.flac"]);
    assert_eq!(scan(&Vec::new(), &names), texts(&["a.mp3", "b.wav", "c.flac", "z.ogg"]));
    assert_eq!(
        scan(&texts(&["z.ogg", "gone.wav", "b.wav"]), &names),
        texts(&["z.ogg", "b.wav", "a.mp3", "c.flac"])
    );
}

#[test]
fn the_order_of_the_tiles_survives_a_restart() {
    let mut w = window();
    for name in ["a.wav", "b.wav", "c.wav"] {
        w.page.add_sound_from_path(&format!("/s/{name}"), s(1.0));
    }
    w.page.move_sound_before("/s/c.wav", "/s/a.wav");
    w.config.sound_order = w.page.current_order();
    let again = scan(&w.config.sound_order, &texts(&["a.wav", "b.wav", "c.wav"]));
    assert_eq!(again, texts(&["c.wav", "a.wav", "b.wav"]));
    assert_eq!(arrange(&w.config.sound_order, &again), again);
}

#[test]
fn added_files_go_to_the_sounds_folder() {
    assert!(matches!(move_plan("/docs/Sounds/x.wav", "/docs/Sounds/"), MovePlan::Stay));
    assert!(matches!(move_plan("/", "/docs"), MovePlan::Stay));
    let plan = move_plan("/tmp/x.wav", "/docs/Sounds");
    assert!(matches!(&plan, MovePlan::Go(dest) if dest == "/docs/Sounds/x.wav"));
    let tried = |folder_made, moved| MoveTry { folder_made, moved };
    let place = |t: &MoveTry| place_after_move("/tmp/x.wav", &plan, t);
    assert_eq!(place(&tried(true, true)), "/docs/Sounds/x.wav");
    assert_eq!(place(&tried(true, false)), "/tmp/x.wav");
    assert_eq!(place(&tried(false, true)), "/tmp/x.wav");
    assert_eq!(place_after_move("/x", &MovePlan::Stay, &tried(true, true)), "/x");
}

#[test]
fn new_sounds_are_brought_to_a_common_level() {
    assert_eq!(normalised_volume(s(0.0)), None);
    assert_eq!(normalised_volume(s(1.0)), Some(s(0.89)));
    assert_eq!(normalised_volume(s(0.5)), Some(s(1.0)));
    assert_eq!(normalised_volume(s(1.78)), Some(s(0.89f32 / 1.78)));
}

#[test]
fn adding_a_sound_keeps_its_volume() {
    let mut w = window();
    assert!(w.add_sound("/s/x.wav"));
    assert_eq!(w.page.sounds[0].volume, s(1.0));
    w.set_volume("/s/y.wav", s(0.25));
    assert!(!w.add_sound("/other/y.wav"));
    assert_eq!((w.page.sounds[1].volume, w.page.sounds[1].number), (s(0.25), 2));
}

#[test]
fn a_rename_keeps_folder_extension_and_settings() {
    assert_eq!(rename_prefill("/s/Horn.wav"), "Horn");
    assert_eq!(rename_prefill("/"), "");
    assert_eq!(rename_request("  Bell ", "Horn").as_deref(), Some("Bell"));
    assert_eq!(rename_request(" Horn ", "Horn"), None);
    assert_eq!(rename_request("   ", "Horn"), None);
    let target = rename_target("/s/Horn.wav", "Bell");
    assert_eq!(target, "/s/Bell.wav");
    assert_eq!(rename_target("/s/noext", "Bell"), "/s/Bell");
    assert_eq!(renamed_message("Bell"), "Renamed to \"Bell\"");
    let mut w = window();
    w.add_sound("/s/Horn.wav");
    w.set_volume("/s/Horn.wav", s(0.3));
    w.rename_sound("/s/Horn.wav", "Bell", &target);
    assert_eq!(w.config.sound_settings("/s/Bell.wav").volume, s(0.3));
    assert_eq!((w.page.sounds[0].name.as_str(), w.page.sounds[0].path.as_str()), ("Bell", "/s/Bell.wav"));
}

#[test]
fn everything_follows_a_renamed_file() {
    let mut w = window();
    let mut e = AudioEngine::new();
    w.add_sound("/s/a.wav");
    w.set_volume("/s/a.wav", s(0.3));
    w.page.select_sound("/s/a.wav", None);
    e.cue("/s/a.wav", "a", None, PlayParams::default());
    // The file could not be renamed.
    assert_eq!(w.do_rename_sound(&mut e, "/s/a.wav", "b", false), None);
    assert_eq!((w.page.sounds[0].path.as_str(), e.queue[0].path.as_str()), ("/s/a.wav", "/s/a.wav"));
    let target = w.do_rename_sound(&mut e, "/s/a.wav", "b", true);
    assert_eq!(target.as_deref(), Some("/s/b.wav"));
    assert_eq!(w.config.sound_settings("/s/b.wav").volume, s(0.3));
    assert_eq!((w.page.sounds[0].name.as_str(), w.page.sounds[0].path.as_str()), ("b", "/s/b.wav"));
    assert_eq!(w.page.selected_path().as_deref(), Some("/s/b.wav"));
    assert_eq!(e.queue[0].path, "/s/b.wav");
}

#[test]
fn settings_are_forgotten_when_a_removal_is_final() {
    let mut w = window();
    w.set_volume("/s/Horn.wav", s(0.3));
    assert!(!w.removal_is_final("/s/Horn.wav", false));
    assert_eq!(w.config.sounds.len(), 1);
    assert!(w.removal_is_final("/s/Horn.wav", true));
    assert_eq!(w.config.sounds.len(), 0);
    assert_eq!(undo_path("/tmp", 1234), "/tmp/resonate_undo_1234");
    assert_eq!(removed_message("Horn"), "Removed \"Horn\"");
    assert_eq!(
        remove_question("Horn"),
        "\"Horn\" will be permanently deleted from your Sounds Folder."
    );
}

#[test]
fn a_once_marker_is_used_up() {
    let mut w = window();
    {
        let settings = w.config.sound_settings_mut("/s/a.wav");
        settings.start_secs = s(2.0);
        settings.start_mode = StartMode::Once;
        settings.fade_in_ms = s(30.0);
    }
    let preview = w.preview_params_for("/s/a.wav", None);
    assert_eq!(preview.start_secs, s(2.0));
    let (params, changed) = w.play_params_for("/s/a.wav", s(0.5));
    assert!(changed);
    assert_eq!((params.start_secs, params.volume, params.fade_in_ms), (s(2.0), s(0.5), s(30.0)));
    let (params, changed) = w.play_params_for("/s/a.wav", s(0.5));
    assert!(!changed);
    assert_eq!(params.start_secs, s(0.0));
    let settings = w.config.sound_settings("/s/a.wav");
    assert_eq!((settings.start_mode, settings.start_secs), (StartMode::Off, s(2.0)));
    assert_eq!(w.take_start_point("/s/a.wav"), (s(0.0), false));
}

#[test]
fn a_scrubbed_start_wins_over_the_marker() {
    let mut w = window();
    w.add_sound("/s/a.wav");
    w.config.sound_settings_mut("/s/a.wav").start_mode = StartMode::Every;
    w.config.sound_settings_mut("/s/a.wav").start_secs = s(1.0);
    w.page.select_sound("/s/a.wav", Some(s(10.0)));
    w.page.scrub(at(0.5), true);
    assert_eq!(w.preview_params_for("/s/a.wav", Some(s(7.0))).start_secs, s(7.0));
    assert_eq!(w.preview_params_for("/s/a.wav", None).start_secs, s(5.0));
    assert_eq!(w.play_params_for("/s/a.wav", s(1.0)).0.start_secs, s(5.0));
    assert_eq!(w.play_params_for("/s/a.wav", s(1.0)).0.start_secs, s(1.0));
}

#[test]
fn the_play_button_starts_the_selected_sound() {
    let mut w = window();
    assert!(matches!(w.play_pause(false), PlayPause::Nothing));
    assert!(!w.play_pause_sensitive(false) && w.play_pause_sensitive(true));
    assert!(w.toggle_lcd_preview(false).is_none());
    w.add_sound("/s/a.wav");
    w.set_volume("/s/a.wav", s(0.4));
    w.page.select_sound("/s/a.wav", None);
    assert!(matches!(w.play_pause(true), PlayPause::Toggle));
    assert!(matches!(w.play_pause(false), PlayPause::Start(p, v) if p == "/s/a.wav" && v == s(0.4)));
    assert!(w.play_pause_sensitive(false));
    assert!(matches!(w.toggle_lcd_preview(true), Some(None)));
    assert!(matches!(w.toggle_lcd_preview(false), Some(Some((p, _))) if p == "/s/a.wav"));
}

#[test]
fn the_editor_saves_at_once() {
    let mut w = window();
    w.add_sound("/s/a.wav");
    let mut settings = SoundSettings::with_volume(s(0.2));
    settings.fade_out_ms = s(70.0);
    w.save_settings("/s/a.wav", settings);
    assert_eq!(w.config.sound_settings("/s/a.wav"), settings);
    assert_eq!(w.page.sounds[0].volume, s(0.2));
}

#[test]
fn effects_are_added_moved_and_removed() {
    let mut w = window();
    assert_eq!(ids(&w), texts(&["gate", "gain"]));
    w.add_effect("distortion");
    w.add_effect("gate");
    assert_eq!(ids(&w), texts(&["gate", "gain", "distortion", "gate"]));
    assert!(w.move_effect(2, true));
    assert_eq!(ids(&w), texts(&["gate", "distortion", "gain", "gate"]));
    assert!(w.move_effect(1, false));
    assert_eq!(ids(&w), texts(&["gate", "gain", "distortion", "gate"]));
    assert!(!w.move_effect(0, true));
    assert!(!w.move_effect(3, false));
    assert!(!w.move_effect(9, true));
    w.remove_effect(0);
    w.remove_effect(9);
    assert_eq!(ids(&w), texts(&["gain", "distortion", "gate"]));
    w.set_effect_enabled(1, false);
    w.set_effect_enabled(9, false);
    assert!(!w.config.effects_chain[1].enabled);
    w.set_effect_param(1, "drive", s(9.0));
    w.set_effect_param(9, "drive", s(9.0));
    assert_eq!(w.config.effects_chain[1].params.get("drive"), Some(&s(9.0)));
    w.apply_effect_preset(1, &vec![("drive".to_string(), s(3.0)), ("mix".to_string(), s(0.5))]);
    w.apply_effect_preset(9, &Vec::new());
    assert_eq!(w.config.effects_chain[1].params.get("drive"), Some(&s(3.0)));
    assert_eq!(w.config.effects_chain[1].params.len(), 2);
}

#[test]
fn new_effects_start_with_their_defaults() {
    assert_eq!(default_entry_for("gain").params.get("gain"), Some(&s(1.0)));
    let gate = default_entry_for("gate");
    assert!(gate.enabled);
    assert_eq!(gate.params.get("release_ms"), Some(&s(100.0)));
    let other = default_entry_for("lv2:http://x");
    assert_eq!((other.id.as_str(), other.enabled, other.params.len()), ("lv2:http://x", true, 0));
}

#[test]
fn saved_presets_stand_in_front_of_shipped_ones() {
    let mut w = window();
    let shipped = factory();
    assert!(w.apply_preset(&shipped, "Old Radio"));
    assert!(w.sync_active_preset(&shipped));
    assert_eq!(w.active_preset.as_deref(), Some("Old Radio"));
    assert!(!w.sync_active_preset(&shipped));
    // An edit takes the mark away, and undoing it brings it back.
    w.set_effect_enabled(0, false);
    assert!(w.sync_active_preset(&shipped));
    assert_eq!(w.active_preset, None);
    w.set_effect_enabled(0, true);
    assert!(w.sync_active_preset(&shipped));
    // A saved chain of the same name wins.
    w.config.effects_chain = vec![EffectEntry::gain(s(3.0), true)];
    w.save_preset("Old Radio");
    w.save_preset("Alpha");
    w.remove_effect(0);
    assert!(w.apply_preset(&shipped, "Old Radio"));
    assert!(chains_match(&w.config.effects_chain, &vec![EffectEntry::gain(s(3.0), true)]));
    assert_eq!(w.current_preset(&shipped).as_deref(), Some("Alpha"));
    let list = w.preset_list(&shipped);
    assert!(!list.contains(&("Old Radio".to_string(), true)));
    let n = list.len();
    assert_eq!(&list[n - 2..], &[("Alpha".to_string(), false), ("Old Radio".to_string(), false)]);
    for (name, _) in &list {
        assert!(w.apply_preset(&shipped, name), "{name}");
    }
    w.delete_preset("Old Radio");
    assert!(w.preset_list(&shipped).contains(&("Old Radio".to_string(), true)));
    assert!(!w.apply_preset(&shipped, "no such preset"));
}

#[test]
fn closing_hides_until_the_user_quits() {
    let mut w = window();
    assert_eq!(w.close_request(), CloseAction::Hide);
    w.do_quit();
    assert_eq!(w.close_request(), CloseAction::Quit);
    assert_eq!(activation(true, true), Activation::Raise);
    assert_eq!(activation(false, true), Activation::Hide);
    assert_eq!(activation(false, false), Activation::Show);
}

#[test]
fn the_session_starts_the_program_hidden() {
    assert_eq!(
        autostart_path("/home/me/.config"),
        "/home/me/.config/autostart/io.github.kilo2071.Resonate.desktop"
    );
    let entry = autostart_contents(Some("/usr/bin/resonate"));
    assert_eq!(
        entry,
        "[Desktop Entry]\n\
         Type=Application\n\
         Name=Resonate\n\
         Comment=Soundboard with a virtual microphone and real-time mic effects\n\
         Exec=/usr/bin/resonate --hidden\n\
         Icon=io.github.kilo2071.Resonate\n\
         Categories=AudioVideo;Audio;\n\
         X-GNOME-Autostart-enabled=true\n"
    );
    assert!(autostart_contents(None).contains("Exec=resonate --hidden\n"));
    assert!(starts_hidden(&texts(&["resonate", "--hidden"])));
    assert!(!starts_hidden(&texts(&["resonate"])));
}
