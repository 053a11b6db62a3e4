use resonate::audio::engine::{
    count_frames, cut, mix_samples, monitor_plan, preview_length, resample_linear, scope_after_mix,
    scope_after_silence, to_pcm, to_stereo, AudioEngine, Envelope, Fade, MixPlan, PlayAction,
    PlayParams, PreviewLength, Segment, ANALYSIS_LEN,
};
use resonate::audio::tick::{TickEvent, TickStage};
use resonate::audio::time::{
    elapsed_samples, fade_length, position_at, samples_for, samples_in, Span,
};
use resonate::double::Fraction;
use resonate::scalar::Scalar;

fn at(x: f64) -> Fraction {
    Fraction { bits: x.to_bits() }
}

fn s(x: f32) -> Scalar {
    Scalar { bits: x.to_bits() }
}

fn f(x: Scalar) -> f32 {
    f32::from_bits(x.bits)
}

fn params(start: f32, end: f32) -> PlayParams {
    PlayParams {
        volume: s(0.5),
        start_secs: s(start),
        end_secs: s(end),
        fade_in_ms: s(0.0),
        fade_out_ms: s(0.0),
    }
}

fn segments(plan: MixPlan) -> Vec<Segment> {
    match plan {
        MixPlan::Mix(segments) => segments,
        _ => panic!("nothing to mix"),
    }
}

#[test]
fn times_become_positions_in_whole_frames() {
    assert_eq!(position_at(s(0.0)), 0);
    assert_eq!(position_at(s(1.0)), 96_000);
    assert_eq!(position_at(s(-2.0)), 0);
    for x in [0.1f32, 0.333, 1.7, 12.34567, 3599.99] {
        assert_eq!(position_at(s(x)), (x as f64 * 96_000.0) as usize / 2 * 2);
    }
    assert_eq!(samples_in(s(50.0), s(88_200.0)), (50.0f32 / 1000.0 * 88_200.0) as usize);
    assert_eq!(samples_for(s(2.5), s(88_200.0)), 220_500);
}

#[test]
fn sounds_pile_up_or_wait_their_turn() {
    let mut e = AudioEngine::new();
    assert_eq!(e.play(), PlayAction::Start);
    e.started("/a.wav", "a", params(0.0, 0.0), None, None);
    assert_eq!(e.play(), PlayAction::Start);
    e.set_polyphonic(false);
    assert_eq!(e.play(), PlayAction::Queue);
    e.cue("/b.wav", "b", Some(3), params(0.0, 0.0));
    e.cue("/c.wav", "c", None, params(0.0, 0.0));
    assert!(e.next_queued().is_none());
    e.retire(&vec![true]);
    assert!(!e.is_anything_playing());
    assert_eq!(e.next_queued().unwrap().name, "b");
    let next = e.skip_queue().unwrap();
    assert_eq!((next.name.as_str(), next.total_secs), ("c", None));
    assert!(e.skip_queue().is_none());
}

#[test]
fn queue_info_lists_what_waits_in_order() {
    let mut e = AudioEngine::new();
    e.cue("/b.wav", "b", Some(3), params(0.0, 0.0));
    e.cue("/c.wav", "c", None, params(0.0, 0.0));
    assert_eq!(e.queue_info(), vec![("b".to_string(), Some(3)), ("c".to_string(), None)]);
    e.stop_all();
    assert!(e.queue_info().is_empty());
}

#[test]
fn a_mix_reads_every_sample_once() {
    let mut e = AudioEngine::new();
    let key = e.started("/a.wav", "a", params(0.0, 0.0), None, Some(10));
    let first = segments(e.mix(6));
    assert_eq!((first[0].key, first[0].from, first[0].count), (key, 0, 6));
    let second = segments(e.mix(6));
    assert_eq!((second[0].from, second[0].count), (6, 4));
    let third = segments(e.mix(6));
    assert_eq!(third[0].count, 0);
    assert!(matches!(e.mix(0), MixPlan::Nothing));
}

#[test]
fn nothing_is_mixed_before_samples_are_there() {
    let mut e = AudioEngine::new();
    assert!(matches!(e.mix(8), MixPlan::Nothing));
    e.started("/a.wav", "a", params(0.0, 0.0), None, None);
    assert!(matches!(e.mix(8), MixPlan::Silence(4)));
    // The position runs on while the decoder works, and starts in step.
    e.advance(100, &vec![None]);
    e.advance(100, &vec![Some(1000)]);
    let part = segments(e.mix(8));
    assert_eq!((part[0].from, part[0].count), (100, 8));
    // Samples that end before the position are silent.
    let mut late = AudioEngine::new();
    late.started("/a.wav", "a", params(0.0, 0.0), None, None);
    late.advance(500, &vec![None]);
    late.advance(0, &vec![Some(20)]);
    assert_eq!(segments(late.mix(8))[0].count, 0);
}

#[test]
fn trims_bound_the_samples() {
    let mut e = AudioEngine::new();
    e.started("/a.wav", "a", params(0.5, 1.0), Some(s(3.0)), Some(288_000));
    let part = segments(e.mix(100_000));
    assert_eq!((part[0].from, part[0].count, part[0].limit), (48_000, 48_000, 96_000));
    assert_eq!(part[0].gain, s(0.5));
    e.set_soundboard_mic_volume(s(0.5));
    e.started("/b.wav", "b", params(0.0, 0.0), None, Some(4));
    assert_eq!(segments(e.mix(4))[1].gain, s(0.25));
}

#[test]
fn mixing_adds_up_and_cuts_off() {
    let a: Vec<Scalar> = [0.5f32, -0.5, 0.9, 0.25].iter().map(|x| s(*x)).collect();
    let b: Vec<Scalar> = [0.25f32, -0.75, 0.9].iter().map(|x| s(*x)).collect();
    let seg = |from: usize, count: usize, limit: usize, gain: f32| Segment {
        key: 0,
        from,
        count,
        gain: s(gain),
        start_pos: 0,
        limit,
        fade_in: 0,
        fade_out: 0,
    };
    let out = mix_samples(5, &vec![seg(0, 4, 4, 1.0), seg(0, 3, 3, 1.0)], &vec![&a, &b]);
    let got: Vec<f32> = out.iter().map(|x| f(*x)).collect();
    assert_eq!(got, vec![0.75, -1.0, 1.0, 0.25, 0.0]);
    assert_eq!(cut(s(-7.0)), s(-1.0));
}

#[test]
fn fades_rise_from_silence_and_fall_to_it() {
    let pcm: Vec<Scalar> = (0..8).map(|_| s(1.0)).collect();
    let seg = Segment {
        key: 0,
        from: 0,
        count: 8,
        gain: s(1.0),
        start_pos: 0,
        limit: 8,
        fade_in: 4,
        fade_out: 2,
    };
    let out = mix_samples(8, &vec![seg], &vec![&pcm]);
    let got: Vec<f32> = out.iter().map(|x| f(*x)).collect();
    assert_eq!(got, vec![0.0, 0.25, 0.5, 0.75, 1.0, 1.0, 1.0, 0.5]);
    assert_eq!(seg.fades(0), (Some(Fade { num: 0, den: 4 }), None));
    assert_eq!(seg.fades(7), (None, Some(Fade { num: 1, den: 2 })));
}

#[test]
fn the_monitor_envelope_shapes_sample_by_sample() {
    let mut e = Envelope::new(s(1.0), s(1.0), Some(s(0.01)), 1000, 2);
    assert_eq!((e.fade_in, e.fade_out, e.total), (2, 2, Some(20)));
    let got: Vec<f32> = (0..21).map(|_| f(e.shape(s(0.5)))).collect();
    assert_eq!(&got[..3], &[0.0, 0.25, 0.5]);
    assert_eq!(&got[17..], &[0.5, 0.5, 0.25, 0.0]);
    let mut open_end = Envelope::new(s(0.0), s(1.0), None, 1000, 2);
    assert_eq!(open_end.shape(s(0.5)), s(0.5));
}

#[test]
fn the_scope_shows_the_newest_samples_in_mono() {
    let mix: Vec<Scalar> = [0.5f32, 0.25, -1.0, 1.0, 0.5].iter().map(|x| s(*x)).collect();
    let scope = scope_after_mix(vec![s(0.125)], &mix);
    let got: Vec<f32> = scope.iter().map(|x| f(*x)).collect();
    assert_eq!(got, vec![0.125, 0.375, 0.0, 0.25]);
    let full = scope_after_silence(scope, ANALYSIS_LEN - 1);
    assert_eq!(full.len(), ANALYSIS_LEN);
    assert_eq!(f(full[0]), 0.25);
    assert_eq!(f(full[1]), 0.0);
}

#[test]
fn progress_is_about_the_window() {
    let mut e = AudioEngine::new();
    e.started("/a.wav", "a", params(2.0, 6.0), Some(s(10.0)), None);
    let info = e.playing_info(&vec![s(1.0)]);
    assert_eq!(info[0].name, "a");
    assert_eq!(info[0].fraction, s(0.25));
    assert_eq!(info[0].remaining_secs, Some(3));
    // The window survives a seek.
    let seek = e.seek_playing(at(0.5)).unwrap();
    assert_eq!((seek.target, seek.path.as_str()), (s(4.0), "/a.wav"));
    e.seeked(seek.target);
    let info = e.playing_info(&vec![s(0.5)]);
    assert_eq!(info[0].fraction, s(0.625));
    assert_eq!(info[0].remaining_secs, Some(1));
    let over = e.playing_info(&vec![s(99.0)]);
    assert_eq!((over[0].fraction, over[0].remaining_secs), (s(1.0), Some(0)));
}

#[test]
fn without_a_known_end_there_is_no_progress() {
    let mut e = AudioEngine::new();
    assert!(e.seek_playing(at(0.5)).is_none());
    e.started("/a.wav", "a", params(2.0, 0.0), None, None);
    let info = e.playing_info(&vec![s(1.0)]);
    assert_eq!((info[0].fraction, info[0].remaining_secs), (s(0.0), None));
    assert!(e.seek_playing(at(0.5)).is_none());
}

#[test]
fn a_seek_has_no_fade_in() {
    let mut e = AudioEngine::new();
    let mut p = params(0.0, 0.0);
    p.fade_in_ms = s(500.0);
    e.started("/a.wav", "a", p, Some(s(8.0)), Some(768_000));
    let seek = e.seek_playing(at(2.0)).unwrap();
    assert_eq!(seek.target, s(8.0));
    assert_eq!(seek.params.fade_in_ms, s(0.0));
    e.seeked(s(1.0));
    let part = segments(e.mix(4));
    assert_eq!((part[0].from, part[0].start_pos, part[0].fade_in), (96_000, 96_000, 0));
}

#[test]
fn volumes_reach_every_instance() {
    let mut e = AudioEngine::new();
    e.started("/s/a.wav", "a", params(0.0, 0.0), None, None);
    e.started("/s/b.wav", "b", params(0.0, 0.0), None, None);
    e.cue("/s//a.wav", "a", None, params(0.0, 0.0));
    e.set_sound_volume("/s/a.wav", s(0.25));
    e.set_monitor_volume(s(0.5));
    assert_eq!(e.monitor_gain(0), s(0.125));
    assert_eq!(e.monitor_gain(1), s(0.25));
    assert_eq!(e.queue[0].params.volume, s(0.25));
    e.set_monitor_enabled(false);
    assert_eq!(e.monitor_gain(0), s(0.0));
    e.stop_sound_by_path("/s/a.wav");
    assert_eq!(e.playing.len(), 1);
    assert_eq!(e.instances("/s/b.wav"), vec![true]);
}

#[test]
fn pausing_stops_what_runs_and_resumes_what_rests() {
    let mut e = AudioEngine::new();
    assert!(!e.is_all_paused(&Vec::new()));
    e.started("/a.wav", "a", params(0.0, 0.0), None, None);
    e.started("/b.wav", "b", params(0.0, 0.0), None, None);
    assert!(!e.toggle_pause(&vec![true, false]));
    assert!(e.toggle_pause(&vec![true, true]));
}

#[test]
fn a_preview_is_heard_on_the_monitor_only() {
    let mut e = AudioEngine::new();
    e.set_monitor_volume(s(0.5));
    e.set_monitor_enabled(false);
    let p = params(2.0, 0.0);
    assert_eq!(e.preview_gain(&p), s(0.25));
    assert_eq!(e.preview_position(false, s(1.0)), None);
    e.preview_started(&p);
    assert_eq!(e.preview_position(false, s(1.5)), Some(s(3.5)));
    assert!(matches!(e.mix(8), MixPlan::Nothing));
    assert_eq!(e.preview_position(true, s(2.0)), None);
    assert_eq!(e.preview_position(false, s(2.0)), None);
    e.preview_started(&p);
    e.stop_preview();
    assert_eq!(e.preview_position(false, s(0.0)), None);
}

#[test]
fn a_monitor_plays_the_trimmed_part() {
    let plan = monitor_plan(&params(1.0, 3.0), s(1.5), Some(s(9.0)));
    assert_eq!((plan.start, plan.take, plan.played), (s(1.5), Some(s(1.5)), Some(s(1.5))));
    let rest = monitor_plan(&params(1.0, 0.0), s(2.0), Some(s(9.0)));
    assert_eq!((rest.take, rest.played), (None, Some(s(7.0))));
    let unknown = monitor_plan(&params(0.0, 0.0), s(0.0), None);
    assert_eq!((unknown.start, unknown.take, unknown.played), (s(0.0), None, None));
    let before = monitor_plan(&params(0.0, 2.0), s(-1.0), None);
    assert_eq!((before.start, before.take), (s(0.0), Some(s(2.0))));
}

#[test]
fn files_become_stereo() {
    assert_eq!(to_stereo(vec![1, 2, 3, 4], 2, 0), vec![1, 2, 3, 4]);
    assert_eq!(to_stereo(vec![1, 2], 1, 0), vec![1, 1, 2, 2]);
    assert_eq!(to_stereo(vec![1, 2, 3, 4, 5, 6, 7], 3, 0), vec![1, 2, 4, 5, 7, 0]);
}

#[test]
fn a_plain_play_is_full_volume_without_trim() {
    let p = PlayParams::default();
    assert_eq!((p.volume, p.start_secs, p.end_secs), (s(1.0), s(0.0), s(0.0)));
}

/// The same in native arithmetic.
fn resample_natively(input: &[f32], src: u32, dst: u32) -> Vec<f32> {
    let ratio = src as f64 / dst as f64;
    let frames = (input.len() / 2) as f64 / ratio;
    let mut out = Vec::new();
    for i in 0..frames.ceil() as usize {
        let pos = i as f64 * ratio;
        let idx = pos as usize;
        let frac = (pos - idx as f64) as f32;
        for ch in 0..2 {
            let a = input.get(idx * 2 + ch).copied().unwrap_or(0.0);
            let b = input.get((idx + 1) * 2 + ch).copied().unwrap_or(0.0);
            out.push(a + (b - a) * frac);
        }
    }
    out
}

#[test]
fn other_rates_are_interpolated() {
    let input: Vec<f32> = (0..401).map(|i| ((i * 7) % 11) as f32 / 11.0 - 0.4).collect();
    let scalars: Vec<Scalar> = input.iter().map(|x| s(*x)).collect();
    for (src, dst) in [(44_100u32, 48_000u32), (96_000, 48_000), (8_000, 48_000), (11_025, 7), (1, 3)]
    {
        let got: Vec<f32> = resample_linear(&scalars, src, dst).into_iter().map(f).collect();
        assert_eq!(got, resample_natively(&input, src, dst));
    }
    assert_eq!(resample_linear(&vec![s(0.5), s(-0.5), s(1.0), s(0.0)], 1, 2).len(), 8);
    assert!(resample_linear(&scalars, 44_100, 0).is_empty());
    assert!(resample_linear(&Vec::new(), 0, 48_000).is_empty());
}

#[test]
fn frames_are_counted_for_the_other_rate() {
    for frames in [1usize, 2, 999, 44_100, 123_456_789, (1 << 53) + 1] {
        for (src, dst) in [(44_100u32, 48_000u32), (48_000, 44_100), (3, 7), (u32::MAX, 1)] {
            let ratio = src as f64 / dst as f64;
            assert_eq!(count_frames(frames, src, dst), (frames as f64 / ratio).ceil() as usize);
        }
    }
    assert_eq!(count_frames(1, 0, 48_000), usize::MAX);
    assert_eq!(count_frames(1, 48_000, 0), 0);
    assert_eq!(count_frames(usize::MAX, 1, u32::MAX), usize::MAX);
}

#[test]
fn files_are_brought_to_the_rate_of_the_mix() {
    let raw: Vec<Scalar> = [0.5f32, -0.25, 0.75].iter().map(|x| s(*x)).collect();
    let stereo = vec![s(0.5), s(0.5), s(-0.25), s(-0.25), s(0.75), s(0.75)];
    assert_eq!(to_pcm(raw.clone(), 1, 48_000), Some(stereo.clone()));
    assert_eq!(to_pcm(raw.clone(), 1, 24_000), Some(resample_linear(&stereo, 24_000, 48_000)));
    assert_eq!(to_pcm(raw.clone(), 1, 24_000).unwrap()[2], s(0.125));
    assert_eq!(to_pcm(raw.clone(), 0, 48_000), None);
    assert_eq!(to_pcm(raw, 2, 0), None);
}

#[test]
fn fades_are_counted_in_samples() {
    for ms in [0.0f32, 0.0625, 0.1, 1.0, 33.3, 250.0, 999.99, 12_345.678, 1e-40, 1e30, f32::MAX] {
        assert_eq!(fade_length(s(ms)), (ms as f64 / 1000.0 * 96_000.0) as usize);
    }
    assert_eq!(fade_length(s(500.0)), 48_000);
    assert_eq!(fade_length(s(-1.0)), 0);
    assert_eq!(fade_length(s(f32::NAN)), 0);
    assert_eq!(fade_length(s(f32::INFINITY)), usize::MAX);
    let mut x: u32 = 1;
    for _ in 0..20_000 {
        x = x.wrapping_mul(1_664_525).wrapping_add(1_013_904_223);
        let ms = f32::from_bits(x);
        assert_eq!(fade_length(s(ms)), (ms as f64 / 1000.0 * 96_000.0) as usize);
    }
}

#[test]
fn the_time_between_two_mixes_is_counted_in_samples() {
    let natively = |secs: u64, nanos: u32| {
        let passed = std::time::Duration::new(secs, nanos).as_secs_f64().min(0.5);
        (passed * 48_000.0).round() as usize * 2
    };
    for nanos in [0u32, 1, 10_416, 10_417, 100_000_000, 100_010_417, 499_999_999, 500_000_000] {
        assert_eq!(elapsed_samples(0, nanos), natively(0, nanos));
    }
    assert_eq!(elapsed_samples(0, 100_000_000), 9_600);
    assert_eq!(elapsed_samples(7, 1), 48_000);
    let mut x: u32 = 7;
    for _ in 0..20_000 {
        x = x.wrapping_mul(1_664_525).wrapping_add(1_013_904_223);
        assert_eq!(elapsed_samples(0, x % 1_000_000_000), natively(0, x % 1_000_000_000));
    }
}

#[test]
fn the_scope_follows_the_tick() {
    let mut e = AudioEngine::new();
    let old = vec![s(0.5)];
    let mix = vec![s(0.5), s(1.0)];
    assert!(e.scope_after(&MixPlan::Nothing, &mix, old.clone()).is_empty());
    e.started("/a.wav", "a", params(0.0, 0.0), None, None);
    assert_eq!(e.scope_after(&MixPlan::Nothing, &mix, old.clone()), old);
    assert_eq!(
        e.scope_after(&MixPlan::Silence(2), &mix, old.clone()),
        vec![s(0.5), s(0.0), s(0.0)]
    );
    assert_eq!(
        e.scope_after(&MixPlan::Mix(Vec::new()), &mix, old.clone()),
        vec![s(0.5), s(0.75)]
    );
}

#[test]
fn short_mixes_add_up_to_a_long_one() {
    let a: Vec<Scalar> = (0..20).map(|i| s(i as f32 / 20.0)).collect();
    let b: Vec<Scalar> = (0..9).map(|i| s(0.7 - i as f32 / 9.0)).collect();
    let playing = || {
        let mut e = AudioEngine::new();
        let mut p = params(0.0, 0.0);
        p.fade_in_ms = s(0.0625);
        p.fade_out_ms = s(0.03125);
        e.started("/a.wav", "a", p, None, Some(20));
        p.fade_in_ms = s(0.03125);
        e.started("/b.wav", "b", p, None, Some(9));
        e
    };
    let mut once = playing();
    let whole = mix_samples(24, &segments(once.mix(24)), &vec![&a, &b]);
    for n in [1usize, 5, 8, 13, 23] {
        let mut twice = playing();
        let mut parts = mix_samples(n, &segments(twice.mix(n)), &vec![&a, &b]);
        parts.extend(mix_samples(24 - n, &segments(twice.mix(24 - n)), &vec![&a, &b]));
        assert_eq!(parts, whole);
    }
    assert!(whole.iter().any(|x| f(*x) != 0.0));
}

#[test]
fn a_renamed_file_is_followed() {
    let mut e = AudioEngine::new();
    e.started("/s/a.wav", "a", params(0.0, 0.0), None, Some(8));
    e.started("/s/c.wav", "c", params(0.0, 0.0), None, None);
    e.cue("/s/a.wav", "a", Some(3), params(0.0, 0.0));
    e.cue("/s/c.wav", "c", None, params(0.0, 0.0));
    e.rename_path("/s/a.wav", "/s/b.wav");
    let playing: Vec<&str> = e.playing.iter().map(|p| p.path.as_str()).collect();
    assert_eq!(playing, vec!["/s/b.wav", "/s/c.wav"]);
    let waiting: Vec<&str> = e.queue.iter().map(|q| q.path.as_str()).collect();
    assert_eq!(waiting, vec!["/s/b.wav", "/s/c.wav"]);
    assert_eq!((e.playing[0].name.as_str(), e.playing[0].pcm_len), ("a", Some(8)));
    assert_eq!((e.queue[0].name.as_str(), e.queue[0].total_secs), ("a", Some(3)));
}

#[test]
fn a_preview_lasts_until_the_trim_or_the_end() {
    let span = |secs: u64, nanos: u32| Span { secs, nanos };
    let p = params(2.0, 6.0);
    assert_eq!(preview_length(&p, span(2, 0), None), PreviewLength::Trimmed(s(4.0)));
    let p = params(2.5, 0.0);
    let rest = |secs: u64, nanos: u32| {
        preview_length(&p, span(2, 500_000_000), Some(span(secs, nanos)))
    };
    assert_eq!(rest(10, 0), PreviewLength::Rest(span(7, 500_000_000)));
    assert_eq!(rest(10, 750_000_000), PreviewLength::Rest(span(8, 250_000_000)));
    assert_eq!(rest(2, 0), PreviewLength::Rest(span(0, 0)));
    assert_eq!(rest(1, 900_000_000), PreviewLength::Rest(span(0, 0)));
    assert_eq!(preview_length(&p, span(2, 500_000_000), None), PreviewLength::Unknown);
}

// ── A tick ───────────────────────────────────────────────────────────────────

#[test]
fn a_tick_starts_what_waits_and_mixes_it() {
    let mut e = AudioEngine::new();
    e.set_polyphonic(false);
    e.started("/old.wav", "old", params(0.0, 0.0), None, Some(10));
    for name in ["bad", "good", "later"] {
        e.cue(&format!("/{name}.wav"), name, Some(7), params(0.0, 0.0));
    }

    // What plays has ended; of what waits, the first cannot be started.
    let stage = e.tick(TickStage::Begin, TickEvent::Ended(vec![true]));
    assert!(matches!(&stage, TickStage::Starting(q) if q.name == "bad"));
    let stage = e.tick(stage, TickEvent::Failed);
    assert!(matches!(&stage, TickStage::Starting(q) if q.name == "good" && q.path == "/good.wav"));
    let stage = e.tick(
        stage,
        TickEvent::Started { file_secs: Some(s(2.0)), pcm_len: Some(192_000) },
    );
    assert!(matches!(stage, TickStage::Measuring));
    assert_eq!(e.playing.len(), 1);
    assert_eq!((e.playing[0].name.as_str(), e.playing[0].key), ("good", 1));

    // A millisecond: 48 frames.
    let stage = e.tick(
        stage,
        TickEvent::Passed { secs: 0, nanos: 1_000_000, ready: vec![None] },
    );
    match &stage {
        TickStage::Mixing { n, plan: MixPlan::Mix(segments) } => {
            assert_eq!(*n, 96);
            assert_eq!((segments.len(), segments[0].key, segments[0].count), (1, 1, 96));
        }
        _ => panic!("nothing to mix"),
    }
    assert_eq!(e.playing[0].pcm_pos, 96);

    let pcm = vec![s(0.5); 192_000];
    let stage = e.tick(stage, TickEvent::Samples { pcm: vec![&pcm], scope: vec![s(0.0)] });
    match &stage {
        TickStage::Showing { mix: Some(mix), scope } => {
            assert_eq!(mix, &vec![s(0.25); 96]);
            let mut shown = vec![s(0.0)];
            shown.extend(vec![s(0.25); 48]);
            assert_eq!(scope, &shown);
        }
        _ => panic!("nothing to show"),
    }

    match e.tick(stage, TickEvent::Played(vec![s(0.5)])) {
        TickStage::Shown { playing, queue } => {
            assert_eq!(playing.len(), 1);
            assert_eq!(playing[0].name, "good");
            assert_eq!(playing[0].fraction, s(0.25));
            assert_eq!(queue, vec![("later".to_string(), Some(7))]);
        }
        _ => panic!("the tick is not over"),
    }
}

#[test]
fn a_tick_leaves_the_queue_alone_while_something_plays() {
    let mut e = AudioEngine::new();
    e.set_polyphonic(false);
    e.started("/a.wav", "a", params(0.0, 0.0), None, None);
    e.cue("/b.wav", "b", None, params(0.0, 0.0));
    let stage = e.tick(TickStage::Begin, TickEvent::Ended(vec![false]));
    assert!(matches!(stage, TickStage::Measuring));
    // The samples are not there yet: the oscilloscope runs on, and nothing is sent.
    let stage = e.tick(stage, TickEvent::Passed { secs: 0, nanos: 1_000_000, ready: vec![None] });
    assert!(matches!(&stage, TickStage::Mixing { n: 96, plan: MixPlan::Silence(48) }));
    assert_eq!(e.playing[0].pcm_pos, 96);
    let stage = e.tick(stage, TickEvent::Samples { pcm: vec![], scope: vec![] });
    assert!(matches!(&stage, TickStage::Showing { mix: None, scope } if scope.len() == 48));
    let stage = e.tick(stage, TickEvent::Played(vec![s(0.0)]));
    assert!(matches!(&stage, TickStage::Shown { queue, .. } if queue.len() == 1));
}

#[test]
fn a_tick_ends_though_nothing_can_be_started() {
    let mut e = AudioEngine::new();
    for name in ["a", "b", "c"] {
        e.cue(name, name, None, params(0.0, 0.0));
    }
    let mut stage = e.tick(TickStage::Begin, TickEvent::Ended(vec![]));
    let mut tried = 0;
    while matches!(stage, TickStage::Starting(_)) {
        stage = e.tick(stage, TickEvent::Failed);
        tried += 1;
    }
    assert_eq!(tried, 3);
    assert!(matches!(stage, TickStage::Measuring));
    let stage = e.tick(stage, TickEvent::Passed { secs: 1, nanos: 0, ready: vec![] });
    assert!(matches!(&stage, TickStage::Mixing { n: 48_000, plan: MixPlan::Nothing }));
    let stage = e.tick(stage, TickEvent::Samples { pcm: vec![], scope: vec![s(0.5)] });
    assert!(matches!(&stage, TickStage::Showing { mix: None, scope } if scope.is_empty()));
    let stage = e.tick(stage, TickEvent::Played(vec![]));
    assert!(
        matches!(&stage, TickStage::Shown { playing, queue } if playing.is_empty() && queue.is_empty())
    );
}
