use resonate::audio::engine::SoundInfo;
use resonate::config::{EffectEntry, SoundSettings, StartMode};
use resonate::plugins::lv2::{id_for_uri, InstalledPlugin};
use resonate::plugins::{curated_lv2, Category, ParamKind, PluginParam};
use resonate::double::{Double, Fraction};
use resonate::scalar::Scalar;
use resonate::text_map::TextMap;
use resonate::ui::effects::{
    available_effects, can_add, display_name, effect_matches, nearest_option, slider,
    switch_active, switch_value,
};
use resonate::ui::lcd::{
    escape_markup, fmt_time, format_playback_markup, time_labels, truncate,
};
use resonate::ui::settings::{device_at, device_list, selected_row};
use resonate::ui::sound_editor::{bucket_at, preview_params, SoundEditor};
use resonate::ui::soundboard;
use resonate::ui::soundboard::{
    play_pause_icon, preview_icon, title, Fill, ResonateSoundboardPage, ScrubAction,
};

fn at(x: f64) -> Fraction {
    Fraction { bits: x.to_bits() }
}

fn s(x: f32) -> Scalar {
    Scalar { bits: x.to_bits() }
}

fn f(x: Scalar) -> f32 {
    f32::from_bits(x.bits)
}

fn info(name: &str, remaining_secs: Option<u32>) -> SoundInfo {
    SoundInfo { name: name.to_string(), fraction: s(0.5), remaining_secs }
}

// ── The panel ────────────────────────────────────────────────────────────────

#[test]
fn times_have_two_digits_each() {
    assert_eq!(fmt_time(0), "00:00");
    assert_eq!(fmt_time(75), "01:15");
    assert_eq!(fmt_time(6000), "100:00");
}

#[test]
fn names_cannot_break_the_markup() {
    assert_eq!(escape_markup("a<b> & c"), "a&lt;b&gt; &amp; c");
    assert_eq!(escape_markup("&lt;"), "&amp;lt;");
    assert!(!escape_markup("<<>>").contains('<'));
}

#[test]
fn long_names_are_cut() {
    assert_eq!(truncate("abcdef", 4), "abc…");
    assert_eq!(truncate("abcd", 4), "abcd");
    assert_eq!(truncate("ab", 0), "…");
    assert_eq!(truncate("ñandúes", 3), "ña…");
}

#[test]
fn an_idle_panel_says_so() {
    assert_eq!(
        format_playback_markup(&Vec::new(), &Vec::new()),
        "<span foreground='#555555'>Nothing playing</span>"
    );
    assert_eq!(time_labels(&Vec::new(), &Vec::new()), ("—:——".to_string(), None));
}

#[test]
fn the_panel_lists_what_plays_and_what_comes_next() {
    let playing = vec![info("Horn <1>", Some(75)), info("Bell", Some(0)), info("Gong", None)];
    let queue: Vec<(String, Option<u32>)> =
        (1..=7).map(|i| (format!("Q{i}"), Some(10))).collect();
    let text = format_playback_markup(&playing, &queue);
    let lines: Vec<&str> = text.split('\n').collect();
    assert_eq!(lines.len(), 3 + 1 + 5 + 1);
    assert_eq!(
        lines[0],
        format!(
            "<span foreground='#57e389'>♪ Horn &lt;1&gt;{}<span font_family='monospace'>-1:15</span></span>",
            " ".repeat(24)
        )
    );
    assert!(lines[1].contains(" —:——") && lines[2].contains(" —:——"));
    assert_eq!(lines[3], format!("<span foreground='#2e2e2e'>{}</span>", "─".repeat(40)));
    assert_eq!(lines[4], "<span foreground='#666666'>⏭ Q1</span>");
    assert_eq!(lines[9], "<span foreground='#555555'>  +2 more…</span>");
    let (total, until) = time_labels(&playing, &queue);
    assert_eq!((total.as_str(), until.as_deref()), ("02:25", Some("01:15")));
    let (total, until) = time_labels(&playing, &Vec::new());
    assert_eq!((total.as_str(), until), ("01:15", None));
}

// ── The soundboard page ──────────────────────────────────────────────────────

fn page(names: &[&str]) -> ResonateSoundboardPage {
    let mut p = ResonateSoundboardPage::new();
    for name in names {
        p.add_sound_from_path(&format!("/s/{name}.wav"), s(0.5));
    }
    p
}

fn order(p: &ResonateSoundboardPage) -> Vec<String> {
    p.current_order()
}

fn numbers(p: &ResonateSoundboardPage) -> Vec<u32> {
    p.sounds.iter().map(|e| e.number).collect()
}

#[test]
fn tiles_are_numbered_in_their_order() {
    let mut p = page(&["a", "b", "c", "d"]);
    assert_eq!(numbers(&p), vec![1, 2, 3, 4]);
    assert!(p.move_sound_before("/s/d.wav", "/s/b.wav"));
    assert_eq!(order(&p), vec!["a.wav", "d.wav", "b.wav", "c.wav"]);
    assert_eq!(numbers(&p), vec![1, 2, 3, 4]);
    assert!(p.move_sound_before("/s/a.wav", "/s/c.wav"));
    assert_eq!(order(&p), vec!["d.wav", "b.wav", "a.wav", "c.wav"]);
    assert!(!p.move_sound_before("/s/a.wav", "/s/a.wav"));
    assert!(!p.move_sound_before("/s/x.wav", "/s/a.wav"));
    assert!(!p.move_sound_before("/s/a.wav", "/s/x.wav"));
    assert_eq!(order(&p), vec!["d.wav", "b.wav", "a.wav", "c.wav"]);
    assert_eq!(p.sound_at_index(2).unwrap(), ("/s/a.wav".to_string(), s(0.5)));
    assert!(p.sound_at_index(4).is_none());
}

#[test]
fn a_removed_sound_takes_its_selection_along() {
    let mut p = page(&["a", "b"]);
    assert_eq!(p.visible_child(), "grid");
    assert!(p.select_sound("/s/a.wav", Some(s(10.0))));
    assert!(!p.select_sound("/s//a.wav", None));
    let gone = p.remove_sound_by_path("/s/a.wav").unwrap();
    assert_eq!((gone.name.as_str(), gone.marked), ("a", true));
    assert_eq!(p.selected_path(), None);
    assert_eq!(numbers(&p), vec![1]);
    assert!(p.remove_sound_by_path("/s/a.wav").is_none());
    p.remove_sound_by_path("/s/b.wav");
    assert_eq!(p.visible_child(), "empty");
}

#[test]
fn renaming_and_volumes_reach_one_tile() {
    let mut p = page(&["a", "b"]);
    p.select_sound("/s/a.wav", None);
    p.rename_sound_by_path("/s/b.wav", "New", "/s/New.wav");
    assert_eq!(p.selected_path().as_deref(), Some("/s/a.wav"));
    assert_eq!((p.sounds[1].name.as_str(), p.sounds[1].path.as_str()), ("New", "/s/New.wav"));
    p.set_tile_volume("/s/New.wav", s(0.75));
    assert_eq!((p.sounds[0].volume, p.sounds[1].volume), (s(0.5), s(0.75)));
    assert_eq!(title("/x/Loud Horn.v2.mp3"), "Loud Horn.v2");
    assert_eq!(title("/"), "Sound");
}

#[test]
fn a_search_shows_what_matches() {
    let mut p = page(&["Air Horn", "Bell", "horn 2"]);
    p.search("HORN");
    let shown: Vec<bool> = p.sounds.iter().map(|e| e.shown).collect();
    assert_eq!(shown, vec![true, false, true]);
    p.search("");
    assert!(p.sounds.iter().all(|e| e.shown));
}

#[test]
fn a_marked_start_holds_for_one_play() {
    let mut p = page(&["a", "b"]);
    assert!(matches!(p.scrub(at(0.5), true), ScrubAction::Ignore));
    p.select_sound("/s/a.wav", Some(s(8.0)));
    assert!(matches!(p.scrub(at(0.25), false), ScrubAction::Mark));
    match p.scrub(at(0.5), true) {
        ScrubAction::Marked(path, secs) => assert_eq!((path.as_str(), secs), ("/s/a.wav", s(4.0))),
        _ => panic!("not marked"),
    }
    assert_eq!(p.marker(), Some(s(0.5)));
    assert_eq!(p.peek_one_shot("/s/b.wav"), None);
    assert_eq!(p.peek_one_shot("/s/a.wav"), Some(s(4.0)));
    assert_eq!(p.consume_one_shot("/s/a.wav"), Some(s(4.0)));
    assert_eq!(p.consume_one_shot("/s/a.wav"), None);
    // Another selection forgets the marker.
    p.scrub(at(0.5), true);
    p.select_sound("/s/b.wav", None);
    assert_eq!(p.peek_one_shot("/s/b.wav"), None);
    assert!(!p.wave_ready("/s/a.wav", s(3.0)));
    assert!(p.wave_ready("/s/b.wav", s(3.0)));
    assert!(p.sounds[1].marked && !p.sounds[0].marked);
}

#[test]
fn a_touch_while_playing_is_a_seek() {
    let mut p = page(&["a"]);
    p.select_sound("/s/a.wav", Some(s(8.0)));
    let (markup, total, until) =
        p.update_playback_display(&vec![info("a", Some(5))], &Vec::new());
    assert!(markup.contains("♪ a"));
    assert_eq!((total.as_str(), until), ("00:05", None));
    assert_eq!(p.fill(), Some(Fill::Played(s(0.5))));
    assert!(matches!(p.scrub(at(0.75), false), ScrubAction::Drag));
    assert_eq!(p.fill(), Some(Fill::Dragged(at(0.75))));
    match p.scrub(at(1.75), true) {
        ScrubAction::Seek(to) => assert_eq!(to, at(1.0)),
        _ => panic!("not a seek"),
    }
    assert_eq!(p.marker(), None);
    p.update_playback_display(&Vec::new(), &Vec::new());
    assert_eq!(p.fill(), None);
}

#[test]
fn the_playhead_of_a_preview_moves() {
    let mut p = page(&["a"]);
    p.select_sound("/s/a.wav", Some(s(8.0)));
    assert!(p.set_preview_pos(Some(s(2.0))));
    assert!(!p.set_preview_pos(Some(s(2.0))));
    assert_eq!(p.playhead(), Some(s(0.25)));
    assert!(p.set_preview_pos(None));
    assert!(!p.set_preview_pos(None));
    assert_eq!(p.playhead(), None);
    assert_eq!(play_pause_icon(true), "media-playback-pause-symbolic");
    assert_eq!(preview_icon(false), "audio-headphones-symbolic");
}

#[test]
fn the_trace_is_drawn_column_by_column() {
    let v: Vec<Scalar> = [0.5f32, -0.25, 0.1, 0.9, -0.8].iter().map(|x| s(*x)).collect();
    assert_eq!(soundboard::column(&v, 0, 2), (s(-0.25), s(0.5)));
    assert_eq!(soundboard::column(&v, 1, 2), (s(-0.8), s(0.9)));
    // More columns than samples.
    assert_eq!(soundboard::column(&v, 0, 100), (s(0.0), s(0.5)));
    assert_eq!(soundboard::column(&v, 99, 100), (s(-0.8), s(0.0)));
}

// ── The editor ───────────────────────────────────────────────────────────────

fn editor(start: f32, end: f32) -> SoundEditor {
    let mut settings = SoundSettings::with_volume(s(0.5));
    settings.start_secs = s(start);
    settings.end_secs = s(end);
    let mut e = SoundEditor::open(settings);
    e.decoded(s(10.0));
    e
}

#[test]
fn a_press_takes_hold_of_the_nearer_marker() {
    let mut e = editor(2.0, 8.0);
    assert!(e.drag(at(0.3), true));
    assert!(!e.dragging_end);
    assert_eq!(e.settings.start_secs, s(3.0));
    assert!(e.drag(at(0.7), true));
    assert!(e.dragging_end);
    assert_eq!(f(e.settings.end_secs), 0.7f32 * 10.0);
    // The drag keeps its marker, which cannot cross the other one.
    assert!(e.drag(at(0.1), false));
    assert_eq!(f(e.settings.end_secs), 3.0f32 + 0.05);
    e.drag(at(0.999), false);
    assert_eq!(e.settings.end_secs, s(0.0));
}

#[test]
fn the_start_marker_stays_in_front_of_the_end() {
    let mut e = editor(2.0, 5.0);
    e.drag(at(0.2), true);
    e.drag(at(0.9), false);
    assert_eq!(f(e.settings.start_secs), 5.0f32 - 0.05);
    let mut open_end = editor(2.0, 0.0);
    open_end.drag(at(0.2), true);
    open_end.drag(at(0.9), false);
    assert_eq!(f(open_end.settings.start_secs), 0.9f32 * 10.0);
}

#[test]
fn nothing_moves_before_the_sound_is_decoded() {
    let mut e = SoundEditor::open(SoundSettings::with_volume(s(1.0)));
    assert!(!e.drag(at(0.5), true));
    assert_eq!(e.times(), None);
    e.decoded(s(4.0));
    assert_eq!(e.times(), Some((s(0.0), s(4.0), s(4.0))));
}

#[test]
fn letting_go_of_the_start_marker_switches_it_on() {
    let mut e = editor(2.0, 8.0);
    assert!(!e.start_active());
    e.drag(at(0.3), true);
    let done = e.commit();
    assert!(done.arm && done.preview.is_none());
    assert_eq!(done.save.start_mode, StartMode::Every);
    assert!(!e.commit().arm);
    // The end marker leaves the switch alone.
    let mut end = editor(2.0, 8.0);
    end.drag(at(0.7), true);
    assert!(!end.commit().arm);
    assert_eq!(end.settings.start_mode, StartMode::Off);
}

#[test]
fn a_running_preview_follows_the_marker() {
    let mut e = editor(2.0, 8.0);
    let params = e.toggle_preview().unwrap();
    assert_eq!((params.start_secs, params.end_secs, params.volume), (s(2.0), s(8.0), s(0.5)));
    e.drag(at(0.3), true);
    assert_eq!(e.commit().preview, Some(preview_params(&e.settings)));
    assert!(e.poll(Some(s(3.0))).redraw);
    assert!(!e.poll(Some(s(3.0))).redraw);
    let end = e.poll(None);
    assert!(end.ended && end.redraw && !e.previewing);
    assert!(!e.poll(None).ended);
    e.toggle_preview();
    assert_eq!(e.toggle_preview(), None);
}

#[test]
fn rows_change_one_setting_each() {
    let mut e = editor(2.0, 8.0);
    assert_eq!(e.set_start_active(true).start_mode, StartMode::Every);
    assert_eq!(e.set_start_active(false).start_mode, StartMode::Off);
    assert_eq!(e.set_fade_in(s(100.0)).fade_in_ms, s(100.0));
    assert_eq!(e.set_fade_out(s(200.0)).fade_out_ms, s(200.0));
    let last = e.set_volume(s(0.9));
    assert_eq!((last.volume, last.fade_in_ms, last.start_secs), (s(0.9), s(100.0), s(2.0)));
    assert_eq!((bucket_at(0, 500), bucket_at(499, 500)), (0, 1021));
}

#[test]
fn a_selection_stays_with_a_renamed_sound() {
    let mut p = page(&["a", "b"]);
    p.select_sound("/s/b.wav", Some(s(8.0)));
    p.scrub(at(0.5), true);
    p.rename_sound_by_path("/s/b.wav", "New", "/s/New.wav");
    assert_eq!(p.selected_path().as_deref(), Some("/s/New.wav"));
    assert_eq!(p.consume_one_shot("/s/New.wav"), Some(s(4.0)));
}

#[test]
fn the_end_marker_snaps_in_double_precision() {
    let snaps = |x: f64| {
        let mut e = editor(2.0, 8.0);
        e.drag(at(0.7), true);
        e.drag(at(x), false);
        e.settings.end_secs == s(0.0)
    };
    assert!(!snaps(0.995));
    assert!(snaps(0.99500001));
    assert!(snaps(2.0));
    assert!(!snaps(-1.0));
}

#[test]
fn markers_are_drawn_where_they_stand() {
    let place = |d: Option<Double>| d.map(|d| d.m as f64 * 2f64.powi(d.x));
    let e = editor(2.3, 8.1);
    let (start, end) = e.marks();
    assert_eq!(place(start), Some(2.3f32 as f64 / 10.0));
    assert_eq!(place(end), Some(8.1f32 as f64 / 10.0));
    assert_eq!(place(editor(2.0, 0.0).marks().1), Some(1.0));
    assert_eq!(place(editor(12.0, 0.0).marks().0), Some(1.0));
    assert_eq!(place(editor(-1.0, 0.0).marks().0), Some(0.0));
    assert_eq!(editor(f32::NAN, 0.0).marks().0, None);
    let mut e = editor(0.0, 0.0);
    assert_eq!(e.playhead_mark(), None);
    e.poll(Some(s(3.0)));
    assert_eq!(place(e.playhead_mark()), Some(0.3f64));
}

// ── Settings ─────────────────────────────────────────────────────────────────

#[test]
fn a_chosen_device_is_selected_again() {
    let names = vec!["Mic".to_string(), "Line".to_string()];
    assert_eq!(device_list(&names), vec!["System Default", "Mic", "Line"]);
    assert_eq!(selected_row(&names, "Line"), 2);
    assert_eq!(selected_row(&names, "gone"), 0);
    assert_eq!(selected_row(&names, ""), 0);
    assert_eq!(device_at(&names, selected_row(&names, "Mic")), "Mic");
    assert_eq!(device_at(&names, 0), "");
    assert_eq!(device_at(&names, 9), "");
}

// ── Effects ──────────────────────────────────────────────────────────────────

fn installed(uri: &str, name: &str) -> InstalledPlugin {
    InstalledPlugin {
        uri: uri.to_string(),
        name: name.to_string(),
        audio_inputs: 2,
        audio_outputs: 2,
        cv_inputs: 0,
        cv_outputs: 0,
        instrument: false,
    }
}

#[test]
fn plugins_are_called_by_their_own_names() {
    let curated = curated_lv2();
    let plugins = vec![installed("http://x", "Plain X"), installed(curated[0].id, "Ugly")];
    assert_eq!(display_name(&plugins, "gate"), "Noise Gate");
    assert_eq!(display_name(&plugins, &id_for_uri(curated[0].id)), "Ugly");
    let absent = id_for_uri(curated[1].id);
    assert_eq!(display_name(&plugins, &absent), absent);
    assert_eq!(display_name(&plugins, "lv2:http://x"), "Plain X");
    assert_eq!(display_name(&plugins, "lv2:http://none"), "lv2:http://none");
    assert_eq!(display_name(&plugins, "odd"), "odd");
}

#[test]
fn the_sheet_offers_what_can_be_used() {
    let curated = curated_lv2();
    let plugins = vec![installed("http://x", "Plain X"), installed(curated[0].id, "Ugly")];
    let offers = available_effects(&plugins);
    assert!(offers.iter().any(|o| o.id == "gain"));
    assert!(offers.iter().any(|o| o.id == id_for_uri(curated[0].id)));
    assert!(!offers.iter().any(|o| o.id == "lv2:http://x"));
    // Voice first, then fun.
    let first_fun = offers.iter().position(|o| o.category == Category::Fun).unwrap();
    assert!(offers[first_fun..].iter().all(|o| o.category == Category::Fun));
    assert!(effect_matches("Noise Gate", "Silence audio", "GATE"));
    assert!(effect_matches("Noise Gate", "Silence audio", "audio"));
    assert!(effect_matches("Noise Gate", "", ""));
    assert!(!effect_matches("Noise Gate", "", "reverb"));
    let chain = vec![EffectEntry { id: "gain".to_string(), enabled: true, params: TextMap::new() }];
    assert!(!can_add(&chain, "gain"));
    assert!(can_add(&chain, "gate"));
}

#[test]
fn controls_are_edited_by_their_ranges() {
    let p = PluginParam {
        id: "x".to_string(),
        label: "X".to_string(),
        min: s(10.0),
        max: s(-5.0),
        default: s(0.0),
        value: s(99.0),
        kind: ParamKind::Continuous,
    };
    let sl = slider(&p, false);
    assert_eq!((sl.lo, sl.hi, sl.value, sl.digits), (s(-5.0), s(10.0), s(10.0), 2));
    assert_eq!(slider(&p, true).digits, 0);
    let wide = PluginParam { max: s(110.0), ..p };
    assert_eq!(slider(&wide, false).digits, 0);
    assert!(switch_active(switch_value(true)));
    assert!(!switch_active(switch_value(false)));
    assert!(!switch_active(s(0.5)));
}

#[test]
fn the_nearest_option_is_selected() {
    let options: Vec<(String, Scalar)> =
        [("a", 0.0f32), ("b", 2.0), ("c", 4.0)].iter().map(|(n, v)| (n.to_string(), s(*v))).collect();
    assert_eq!(nearest_option(&options, s(1.9)), 1);
    assert_eq!(nearest_option(&options, s(3.0)), 1);
    assert_eq!(nearest_option(&options, s(99.0)), 2);
    assert_eq!(nearest_option(&options, s(f32::NAN)), 0);
    assert_eq!(nearest_option(&Vec::new(), s(1.0)), 0);
}
