use resonate::config::EffectEntry;
use resonate::plugins::builtin::bitcrush::BitcrushPlugin;
use resonate::plugins::builtin::distortion::DistortionPlugin;
use resonate::plugins::builtin::gain::GainPlugin;
use resonate::plugins::builtin::gate::NoiseGatePlugin;
use resonate::plugins::builtin::telephone::{angle, Biquad, TelephonePlugin};
use resonate::plugins::host::PluginChain;
use resonate::plugins::lv2::{
    classify_port, discover, id_for_uri, input_feed, name_for_uri, next_block, output_channels,
    plugin_input, plugin_output, uri_from_id, Feed, InstalledPlugin, Lv2Plugin, PluginWorld, Port,
    ScalePoint,
};
use resonate::plugins::presets::EffectPreset;
use resonate::plugins::run::{Given, Needs};
use resonate::plugins::shipped::{preset_name, shipped_list, stored_as, Stored, UridMap, Urids};
use resonate::plugins::{
    builtins, curated_lv2, effect_from_entry, friendly_name, host_entry, plugin_from_entry, Effect,
    ParamKind,
};
use resonate::scalar::Scalar;
use resonate::text_map::TextMap;

fn s(x: f32) -> Scalar {
    Scalar { bits: x.to_bits() }
}

fn f(x: Scalar) -> f32 {
    f32::from_bits(x.bits)
}

fn all(v: &[f32]) -> Vec<Scalar> {
    v.iter().map(|x| s(*x)).collect()
}

fn native(v: &[Scalar]) -> Vec<f32> {
    v.iter().map(|x| f(*x)).collect()
}

fn entry(id: &str, params: &[(&str, f32)]) -> EffectEntry {
    let mut map: TextMap<Scalar> = TextMap::new();
    for (name, value) in params {
        map.insert(name.to_string(), s(*value));
    }
    EffectEntry { id: id.to_string(), enabled: true, params: map }
}

fn noise(n: usize) -> Vec<f32> {
    let mut state: u32 = 7;
    (0..n)
        .map(|_| {
            state = state.wrapping_mul(1664525).wrapping_add(1013904223);
            (state >> 8) as f32 / 8_388_608.0 - 1.0
        })
        .collect()
}

#[test]
fn gain_makes_louder_and_cuts_off() {
    let g = GainPlugin::new(s(2.0), true);
    let mut v = all(&[0.25, -0.75, 0.1]);
    g.process(&mut v);
    assert_eq!(native(&v), vec![0.5, -1.0, 0.2]);
    let mut same = all(&[0.25, 3.0]);
    GainPlugin::new(s(1.0005), true).process(&mut same);
    assert_eq!(native(&same), vec![0.25, 3.0]);
    GainPlugin::new(s(4.0), false).process(&mut same);
    assert_eq!(native(&same), vec![0.25, 3.0]);
    assert_eq!(GainPlugin::new(s(9.0), true).gain, s(4.0));
    assert_eq!(GainPlugin::default().gain, s(1.0));
}

#[test]
fn the_noise_gate_opens_for_a_voice_and_closes_in_silence() {
    // 10 ms to open and 100 ms to close, at a stereo frame in each millisecond.
    let mut g = NoiseGatePlugin::new(s(0.5), s(10.0), s(100.0), true);
    let mut block = all(&[0.6; 10]);
    g.process(&mut block, 1000);
    assert_eq!(native(&block), vec![0.0; 10]);
    let mut block = all(&[0.6; 10]);
    g.process(&mut block, 1000);
    assert_eq!(native(&block), vec![0.6; 10]);
    let mut quiet = all(&[0.1; 198]);
    g.process(&mut quiet, 1000);
    assert_eq!(native(&quiet), vec![0.1; 198]);
    let mut quiet = all(&[0.1; 2]);
    g.process(&mut quiet, 1000);
    assert_eq!(native(&quiet), vec![0.0; 2]);
    g.set_enabled(false);
    assert!(g.gate_open);
    let mut off = all(&[0.1, 0.1]);
    g.process(&mut off, 1000);
    assert_eq!(native(&off), vec![0.1, 0.1]);
}

#[test]
fn the_noise_gate_keeps_its_times_in_stereo() {
    let mut g = NoiseGatePlugin::new(s(0.5), s(0.0), s(100.0), true);
    let mut loud = all(&[1.0, 1.0]);
    g.process(&mut loud, 48_000);
    assert_eq!(native(&loud), vec![1.0, 1.0]);
    // 50 ms of stereo pass, and another 50 ms are the end of it.
    let mut quiet = all(&[0.1; 4800]);
    g.process(&mut quiet, 48_000);
    assert_eq!(native(&quiet), vec![0.1; 4800]);
    g.process(&mut quiet, 48_000);
    assert_eq!(native(&quiet), vec![0.0; 4800]);
}

#[test]
fn the_level_of_a_block_is_the_root_of_its_mean_square() {
    assert_eq!(NoiseGatePlugin::rms(&Vec::new()), s(0.0));
    let v = noise(100);
    let sum: f32 = v.iter().map(|x| x * x).sum();
    assert_eq!(f(NoiseGatePlugin::rms(&all(&v))), (sum / 100.0).sqrt());
}

#[test]
fn distortion_mixes_dry_and_wet() {
    let d = DistortionPlugin::new(s(5.0), s(0.5), s(1.5), true);
    let v = noise(50);
    let top = 5.0f32.tanh();
    let shapes: Vec<f32> = v.iter().map(|x| f(d.driven(s(*x))).tanh()).collect();
    let mut got = all(&v);
    d.process(&mut got, &all(&shapes), s(top));
    let norm = top.max(1e-6);
    let want: Vec<f32> = v
        .iter()
        .map(|dry| {
            let wet = (dry * 5.0).tanh() / norm;
            ((dry + (wet - dry) * 0.5) * 1.5).clamp(-1.0, 1.0)
        })
        .collect();
    assert_eq!(native(&got), want);
}

#[test]
fn bitcrush_holds_and_quantises() {
    let mut b = BitcrushPlugin::new(s(4.0), s(3.0), s(0.75), true);
    let v = noise(23);
    let steps = 2.0f32.powf(3.0);
    let (mut hold, mut counter) = ([0.0f32; 2], 0u32);
    let mut want = v.clone();
    for frame in want.chunks_mut(2) {
        if counter == 0 {
            for (ch, x) in frame.iter().enumerate() {
                hold[ch] = (x * steps).round() / steps;
            }
        }
        counter = (counter + 1) % 3;
        for (ch, x) in frame.iter_mut().enumerate() {
            let dry = *x;
            *x = (dry + (hold[ch] - dry) * 0.75).clamp(-1.0, 1.0);
        }
    }
    let mut got = all(&v);
    b.process(&mut got, s(steps));
    assert_eq!(native(&got), want);
    assert_eq!((f(b.hold.0), f(b.hold.1), b.counter), (hold[0], hold[1], counter));
}

#[test]
fn telephone_filters_like_the_machine() {
    let rate = 48_000u32;
    let section = |freq: f32, highpass: bool| {
        let w0 = f(angle(s(freq), rate));
        let (sin, cos) = w0.sin_cos();
        Biquad::section(s(sin), s(cos), highpass)
    };
    let native_section = |freq: f32, highpass: bool| {
        let q = std::f32::consts::FRAC_1_SQRT_2;
        let w0 = 2.0 * std::f32::consts::PI * (freq / rate as f32).clamp(0.0001, 0.49);
        let (sin_w0, cos_w0) = w0.sin_cos();
        let alpha = sin_w0 / (2.0 * q);
        let a0 = 1.0 + alpha;
        let (b0, b1) = if highpass {
            ((1.0 + cos_w0) / 2.0, -(1.0 + cos_w0))
        } else {
            ((1.0 - cos_w0) / 2.0, 1.0 - cos_w0)
        };
        [b0 / a0, b1 / a0, b0 / a0, -2.0 * cos_w0 / a0, (1.0 - alpha) / a0]
    };
    let filter = |c: [f32; 5], samples: &mut Vec<f32>| {
        let mut m = [[0.0f32; 4]; 2];
        for (i, x) in samples.iter_mut().enumerate() {
            let [x1, x2, y1, y2] = m[i % 2];
            let y = c[0] * *x + c[1] * x1 + c[2] * x2 - c[3] * y1 - c[4] * y2;
            m[i % 2] = [*x, x1, y, y1];
            *x = y;
        }
    };
    let mut t = TelephonePlugin::new(s(300.0), s(3400.0), true);
    assert!(t.outdated(rate));
    t.built(section(300.0, true), section(3400.0, false), rate);
    assert!(!t.outdated(rate));
    assert!(t.outdated(44_100));
    let v = noise(101);
    let mut got = all(&v);
    t.process(&mut got);
    let mut want = v.clone();
    filter(native_section(300.0, true), &mut want);
    filter(native_section(3400.0, false), &mut want);
    for x in want.iter_mut() {
        *x = x.clamp(-1.0, 1.0);
    }
    assert_eq!(native(&got), want);
    t.set_param("low_cut", s(500.0));
    assert!(t.outdated(rate));
    assert_eq!(angle(s(0.0), rate), s(2.0 * std::f32::consts::PI * 0.0001));
    assert_eq!(angle(s(1e9), rate), s(2.0 * std::f32::consts::PI * 0.49));
}

#[test]
fn controls_stay_in_their_ranges() {
    for id in ["gain", "gate", "distortion", "bitcrush", "telephone"] {
        let mut effect = plugin_from_entry(&entry(id, &[]), None).expect("it is built in");
        assert!(friendly_name(id).is_some());
        for p in effect.params() {
            assert_eq!(p.value, p.default, "{id} {}", p.id);
            assert_eq!(effect.set_param(&p.id, s(1e9)), None);
            let now = effect.params();
            let q = now.iter().find(|q| q.id == p.id).unwrap();
            assert_eq!(q.value, q.max, "{id} {}", p.id);
        }
        effect.set_param("no such control", s(1.0));
        effect.set_enabled(false);
        assert!(!effect.is_enabled());
    }
}

#[test]
fn entries_become_effects_with_their_controls() {
    let effect = plugin_from_entry(&entry("distortion", &[("drive", 7.0)]), None);
    match effect {
        Some(Effect::Distortion(d)) => {
            assert_eq!((d.drive, d.mix, d.level), (s(7.0), s(1.0), s(1.0)));
        }
        _ => panic!("not a distortion"),
    }
    assert!(plugin_from_entry(&entry("unknown", &[]), None).is_none());
    assert!(plugin_from_entry(&entry("lv2:http://x", &[]), None).is_none());
}

fn port(symbol: &str, min: f32, max: f32, default: f32) -> Port {
    Port {
        symbol: symbol.to_string(),
        name: symbol.to_uppercase(),
        index: 3,
        control_input: true,
        min: Some(s(min)),
        max: Some(s(max)),
        default: s(default),
        toggled: false,
        enumeration: false,
        integer: false,
        points: Vec::new(),
    }
}

fn installed(uri: &str, name: &str) -> InstalledPlugin {
    InstalledPlugin {
        uri: uri.to_string(),
        name: name.to_string(),
        audio_inputs: 2,
        audio_outputs: 2,
        cv_inputs: 0,
        cv_outputs: 0,
        instrument: false,
    }
}

fn hosted() -> Lv2Plugin {
    let mut overrides: TextMap<Scalar> = TextMap::new();
    overrides.insert("a".to_string(), s(99.0));
    let mut audio = port("in", 0.0, 1.0, 0.0);
    audio.control_input = false;
    Lv2Plugin::instantiate(
        &installed("http://x", "X"),
        &vec![audio, port("a", 0.0, 10.0, 1.0), port("b", 5.0, -5.0, 2.0)],
        &overrides,
    )
}

#[test]
fn plugins_have_their_controls() {
    let mut p = hosted();
    assert_eq!((p.id.as_str(), p.name.as_str()), ("lv2:http://x", "X"));
    assert!(p.is_active());
    assert_eq!(p.params.len(), 2);
    assert_eq!(p.params[0].value, s(10.0));
    assert_eq!(p.params[1].value, s(2.0));
    assert_eq!(p.initial_controls(), vec![(3, s(10.0)), (3, s(2.0))]);
    assert_eq!(p.set_param("b", s(-9.0)), Some((3, s(-5.0))));
    assert_eq!(p.params[1].value, s(-5.0));
    assert_eq!(p.set_param("zzz", s(1.0)), None);
    p.set_enabled(false);
    assert!(!p.is_active());
}

#[test]
fn a_chain_leaves_out_what_cannot_be_loaded() {
    let entries = vec![
        entry("gain", &[("gain", 2.0)]),
        entry("lv2:http://missing", &[]),
        entry("lv2:http://x", &[]),
        entry("nonsense", &[]),
        entry("gate", &[]),
    ];
    let mut chain =
        PluginChain::from_entries(&entries, vec![None, None, Some(hosted()), None, None]);
    assert_eq!(chain.plugins.len(), 3);
    assert!(matches!(chain.plugins[1], Effect::Lv2(_)));
    assert_eq!(chain.params_for(0)[0].value, s(2.0));
    assert_eq!(chain.set_param(1, "a", s(4.0)), Some((3, s(4.0))));
    assert_eq!(chain.params_for(1)[0].value, s(4.0));
    chain.set_enabled(2, false);
    assert!(!chain.plugins[2].is_enabled());
    chain.set_enabled(9, false);
    assert_eq!(chain.set_param(9, "a", s(4.0)), None);
    assert!(chain.params_for(9).is_empty());
    assert!(PluginChain::default().plugins.is_empty());
}

#[test]
fn ports_are_classified() {
    let mut toggle = port("t", 0.0, 1.0, 0.0);
    toggle.toggled = true;
    assert!(matches!(classify_port(&toggle), ParamKind::Toggle));
    let mut whole = port("i", 0.0, 10.0, 0.0);
    whole.integer = true;
    assert!(matches!(classify_port(&whole), ParamKind::Integer));
    assert!(matches!(classify_port(&port("c", 0.0, 1.0, 0.0)), ParamKind::Continuous));
    let mut choices = port("e", 0.0, 2.0, 0.0);
    choices.enumeration = true;
    choices.points = vec![
        ScalePoint { label: Some("High".to_string()), value: Some(s(2.0)) },
        ScalePoint { label: Some("Low".to_string()), value: Some(s(1.0)) },
        ScalePoint { label: None, value: Some(s(0.0)) },
    ];
    match classify_port(&choices) {
        ParamKind::Enum(points) => assert!(points.len() >= 2),
        _ => panic!("not a choice"),
    }
}

#[test]
fn only_effects_are_discovered() {
    let mut synth = installed("http://synth", "Synth");
    synth.instrument = true;
    let mut cv = installed("http://cv", "CV");
    cv.cv_inputs = 1;
    let mut analyser = installed("http://an", "Analyser");
    analyser.audio_outputs = 0;
    let list = vec![installed("http://b", "beta"), synth, installed("http://a", "Alpha"), cv, analyser];
    let found = discover(&list);
    let names: Vec<&str> = found.iter().map(|i| i.name.as_str()).collect();
    assert_eq!(names, vec!["Alpha", "beta"]);
    assert_eq!(name_for_uri(&list, "http://b").as_deref(), Some("beta"));
    assert_eq!(name_for_uri(&list, "http://none"), None);
    assert_eq!(uri_from_id(&id_for_uri("http://b")).as_deref(), Some("http://b"));
    assert_eq!(uri_from_id("gain"), None);
}

#[test]
fn buffers_are_run_in_blocks() {
    let mut at = 0;
    let mut blocks = Vec::new();
    while at < 10_000 {
        let n = next_block(10_000, at);
        blocks.push(n);
        at += n;
    }
    assert_eq!(at, 10_000);
    assert!(blocks.iter().all(|n| *n > 0 && *n <= blocks[0]));
    assert_eq!(input_feed(1, 0), Feed::Both);
    assert_eq!((input_feed(2, 0), input_feed(2, 1), input_feed(3, 2)), (Feed::Left, Feed::Right, Feed::Both));
    assert_eq!(output_channels(1), (0, 0));
    assert_eq!(output_channels(2), (0, 1));
}

#[test]
fn types_have_stable_numbers() {
    let mut map = UridMap::new();
    let a = map.map("http://a");
    let b = map.map("http://b");
    assert_ne!(a, b);
    assert_eq!(map.map("http://a"), a);
    assert!(a > 0);
    let urids = Urids { float: 1, double: 2, int: 3, long: 4, boolean: 5 };
    assert_eq!(stored_as(&urids, 1, 4), Some(Stored::Float));
    assert_eq!(stored_as(&urids, 2, 8), Some(Stored::Double));
    assert_eq!(stored_as(&urids, 3, 4), Some(Stored::Int));
    assert_eq!(stored_as(&urids, 5, 4), Some(Stored::Int));
    assert_eq!(stored_as(&urids, 4, 8), Some(Stored::Long));
    assert_eq!(stored_as(&urids, 1, 8), None);
    assert_eq!(stored_as(&urids, 9, 4), None);
}

#[test]
fn shipped_presets_are_sorted_and_set_something() {
    let p = |name: &str, n: usize| EffectPreset {
        name: name.to_string(),
        values: (0..n).map(|i| (format!("p{i}"), s(0.0))).collect(),
    };
    let list = shipped_list(&vec![p("warm", 1), p("Bright", 2), p("empty", 0), p("alpha", 1)]);
    let names: Vec<&str> = list.iter().map(|x| x.name.as_str()).collect();
    assert_eq!(names, vec!["alpha", "Bright", "warm"]);
}

#[test]
fn shipped_presets_are_well_formed() {
    let p = |name: &str, values: &[(&str, f32)]| EffectPreset {
        name: name.to_string(),
        values: values.iter().map(|(n, v)| (n.to_string(), s(*v))).collect(),
    };
    let read = vec![
        p("b", &[("x", 1.0), ("y", f32::NAN), ("", 2.0)]),
        p("", &[("x", 1.0)]),
        p("a", &[("x", f32::INFINITY)]),
    ];
    let list = shipped_list(&read);
    assert_eq!(list.len(), 1);
    assert_eq!((list[0].name.as_str(), list[0].values.clone()), ("b", vec![("x".to_string(), s(1.0))]));
    assert_eq!(preset_name(Some("Label"), Some("urn:x")), "Label");
    assert_eq!(preset_name(Some(""), Some("urn:x")), "urn:x");
    assert_eq!(preset_name(None, Some("urn:x")), "urn:x");
    assert_eq!(preset_name(None, None), "Preset");
    assert_eq!(preset_name(None, Some("")), "Preset");
}

#[test]
fn presets_of_a_plugin_are_read_once() {
    let p = |name: &str| {
        vec![EffectPreset { name: name.to_string(), values: vec![("x".to_string(), s(1.0))] }]
    };
    let mut world = PluginWorld { plugins: Vec::new(), shipped: TextMap::new() };
    assert_eq!(world.unread("gate"), None);
    let uri = world.unread("lv2:urn:x").unwrap();
    assert_eq!(uri, "urn:x");
    world.learn(uri, p("first"));
    assert_eq!(world.unread("lv2:urn:x"), None);
    world.learn("urn:x".to_string(), p("again"));
    let names: Vec<String> =
        world.presets_for("lv2:urn:x").into_iter().map(|x| x.name).collect();
    assert_eq!(names, vec!["first"]);
}

#[test]
fn choices_that_are_no_numbers_do_no_harm() {
    let point = |label: &str, v: f32| ScalePoint {
        label: Some(label.to_string()),
        value: Some(s(v)),
    };
    let port = |enumeration: bool| Port {
        symbol: "mode".to_string(),
        name: "Mode".to_string(),
        index: 0,
        control_input: true,
        min: None,
        max: None,
        default: s(0.0),
        toggled: false,
        enumeration,
        integer: false,
        points: vec![point("b", 2.0), point("?", f32::NAN), point("a", 1.0)],
    };
    assert!(matches!(classify_port(&port(false)), ParamKind::Continuous));
    match classify_port(&port(true)) {
        ParamKind::Enum(choices) => {
            let mut names: Vec<String> = choices.into_iter().map(|c| c.0).collect();
            names.sort();
            assert_eq!(names, vec!["?", "a", "b"]);
        }
        _ => panic!("not a choice"),
    }
}

// ── A block through the chain ────────────────────────────────────────────────

/// What the machine's own floating point makes of the needs of an effect.
fn calculated(needs: Needs) -> Given {
    match needs {
        Needs::Nothing | Needs::Run => Given::Nothing,
        Needs::Shapes { driven, drive } => Given::Shapes {
            shapes: driven.iter().map(|x| s(f(*x).tanh())).collect(),
            top: s(f(drive).tanh()),
        },
        Needs::Power { exponent } => Given::Power { power: s(2.0f32.powf(f(exponent))) },
        Needs::Filters { low, high } => {
            let both = |x: Scalar| (s(f(x).sin()), s(f(x).cos()));
            Given::Filters { low: both(low), high: both(high) }
        }
    }
}

fn send(chain: &mut PluginChain, samples: &mut Vec<Scalar>) {
    let mut passage = chain.begin(samples, 48_000);
    while !chain.finished(&passage, samples) {
        let needs = chain.needs(passage.next, samples, 48_000).expect("there is an effect");
        chain.step(&mut passage, samples, &calculated(needs));
    }
    assert_eq!(passage.next, chain.plugins.len());
}

#[test]
fn a_block_goes_through_every_effect() {
    let entries = vec![
        entry("gain", &[("gain", 0.5)]),
        entry("distortion", &[("drive", 3.0), ("mix", 0.5)]),
        entry("bitcrush", &[("bits", 6.0), ("downsample", 2.0)]),
        entry("telephone", &[]),
    ];
    let none = vec![None, None, None, None];
    let mut chain = PluginChain::from_entries(&entries, none);
    let v = noise(64);
    let mut got = all(&v);
    send(&mut chain, &mut got);

    // The same effects one by one.
    let mut want = all(&v);
    GainPlugin::new(s(0.5), true).process(&mut want);
    let d = DistortionPlugin::new(s(3.0), s(0.5), s(1.0), true);
    let shapes: Vec<Scalar> = want.iter().map(|x| s(f(d.driven(*x)).tanh())).collect();
    d.process(&mut want, &shapes, s(3.0f32.tanh()));
    BitcrushPlugin::new(s(6.0), s(2.0), s(1.0), true).process(&mut want, s(2.0f32.powf(5.0)));
    let mut t = TelephonePlugin::new(s(300.0), s(3400.0), true);
    let section = |freq: f32, highpass: bool| {
        let w = f(angle(s(freq), 48_000));
        Biquad::section(s(w.sin()), s(w.cos()), highpass)
    };
    t.built(section(300.0, true), section(3400.0, false), 48_000);
    t.process(&mut want);
    assert_eq!(native(&got), native(&want));
    // The filters are there now.
    assert!(matches!(chain.needs(3, &got, 48_000), Some(Needs::Nothing)));
    assert!(matches!(chain.needs(3, &got, 44_100), Some(Needs::Filters { .. })));
    assert!(chain.needs(4, &got, 48_000).is_none());
}

#[test]
fn effects_that_are_off_leave_the_sound_alone() {
    let mut entries = vec![
        entry("gate", &[]),
        entry("gain", &[("gain", 3.0)]),
        entry("distortion", &[]),
        entry("bitcrush", &[]),
        entry("telephone", &[]),
    ];
    for e in &mut entries {
        e.enabled = false;
    }
    let mut chain = PluginChain::from_entries(&entries, vec![None, None, None, None, None]);
    let v = noise(30);
    let mut got = all(&v);
    send(&mut chain, &mut got);
    assert_eq!(native(&got), v);
    // A closed noise gate lets nothing through.
    chain.set_enabled(0, true);
    chain.set_param(0, "threshold", s(1.0));
    send(&mut chain, &mut got);
    assert_eq!(native(&got), vec![0.0; 30]);
}

#[test]
fn plugins_run_in_their_host() {
    let mut chain = PluginChain::from_entries(&vec![entry("lv2:http://x", &[])], vec![Some(hosted())]);
    let v = all(&noise(8));
    assert!(matches!(chain.needs(0, &v, 48_000), Some(Needs::Run)));
    chain.set_enabled(0, false);
    assert!(matches!(chain.needs(0, &v, 48_000), Some(Needs::Nothing)));
}

#[test]
fn a_plugin_gets_and_gives_channels() {
    let samples = all(&[0.1, 0.2, 0.3, 0.4, 0.5, 0.6, 0.7, 0.8]);
    assert_eq!(native(&plugin_input(&samples, 1, 2, Feed::Left)), vec![0.3, 0.5]);
    assert_eq!(native(&plugin_input(&samples, 1, 2, Feed::Right)), vec![0.4, 0.6]);
    assert_eq!(
        native(&plugin_input(&samples, 0, 1, Feed::Both)),
        vec![0.5f32 * (0.1f32 + 0.2f32)]
    );
    let mut out = samples.clone();
    plugin_output(&mut out, 2, &all(&[1.0, 2.0]), &all(&[-1.0, -2.0]));
    assert_eq!(native(&out), vec![0.1, 0.2, 0.3, 0.4, 1.0, -1.0, 2.0, -2.0]);
}

// ── Installed plugins ────────────────────────────────────────────────────────

const RNNOISE: &str = "https://github.com/werman/noise-suppression-for-voice#stereo";

#[test]
fn factory_presets_read_port_values() {
    // What a preset file holds: a symbol, a type, a size and the bytes of the value.
    let mut map = UridMap::new();
    let urids = Urids {
        float: map.map("http://lv2plug.in/ns/ext/atom#Float"),
        double: map.map("http://lv2plug.in/ns/ext/atom#Double"),
        int: map.map("http://lv2plug.in/ns/ext/atom#Int"),
        long: map.map("http://lv2plug.in/ns/ext/atom#Long"),
        boolean: map.map("http://lv2plug.in/ns/ext/atom#Bool"),
    };
    let kind = map.map("http://lv2plug.in/ns/ext/atom#Float");
    assert_eq!(stored_as(&urids, kind, 4), Some(Stored::Float));
    let read = vec![EffectPreset {
        name: "Resonate Test Preset".to_string(),
        values: vec![("vad_threshold".to_string(), s(42.0))],
    }];
    let mut shipped = TextMap::new();
    shipped.insert(RNNOISE.to_string(), shipped_list(&read));
    let world = PluginWorld { plugins: vec![installed(RNNOISE, "RNNoise")], shipped };

    let presets = world.presets_for(&id_for_uri(RNNOISE));
    let staged = presets
        .iter()
        .find(|p| p.name == "Resonate Test Preset")
        .expect("staged preset is found");
    assert_eq!(staged.values, vec![("vad_threshold".to_string(), s(42.0))]);
    for preset in &presets {
        assert!(!preset.name.is_empty());
        for (symbol, value) in &preset.values {
            assert!(!symbol.is_empty());
            assert!(f(*value).is_finite(), "'{symbol}' = {}", f(*value));
        }
    }
    assert!(world.presets_for("lv2:http://example.org/not-a-plugin").is_empty());
}

#[test]
fn curated_lv2_entries_load_and_process() {
    let world: Vec<InstalledPlugin> =
        curated_lv2().iter().map(|c| installed(c.id, c.name)).collect();
    let mut checked = 0;
    for listed in curated_lv2() {
        let name = listed.name;
        if name_for_uri(&world, listed.id).is_none() {
            println!("{name} not installed — skipping");
            continue;
        }
        let e = EffectEntry { id: id_for_uri(listed.id), enabled: true, params: TextMap::new() };
        let ports = vec![port("a", 0.0, 10.0, 1.0)];
        let loaded = Lv2Plugin::instantiate(&installed(listed.id, name), &ports, &e.params);
        let mut plugin = plugin_from_entry(&e, Some(loaded))
            .unwrap_or_else(|| panic!("{name} failed to instantiate"));

        let mut samples: Vec<Scalar> =
            (0..1024).map(|i| s(((i as f32) * 0.01).sin() * 0.1)).collect();
        plugin.process(&mut samples, 48_000, &Given::Nothing);
        assert!(samples.iter().all(|x| f(*x).is_finite()), "{name} produced non-finite output");
        checked += 1;
    }
    println!("checked {checked} curated LV2 plugins");
}

#[test]
fn a_hosted_effect_has_its_place_in_the_chain() {
    let uri = curated_lv2()[0].id;
    let id = id_for_uri(uri);
    let entries = vec![entry("gain", &[("gain", 0.5)]), entry(&id, &[]), entry("gain", &[("gain", 4.0)])];
    let loaded = host_entry(&entries[1], &installed(uri, "P"), &vec![]);
    let mut chain = PluginChain::from_entries(&entries, vec![None, loaded, None]);
    assert_eq!(chain.plugins.len(), 3);
    let mut samples = all(&[0.5, 0.25, -0.5, 1.0]);
    let mut passage = chain.begin(&samples, 48_000);
    let mut hosted_blocks = 0;
    while !chain.finished(&passage, &samples) {
        match chain.needs(passage.next, &samples, 48_000) {
            Some(Needs::Run) => {
                // The plugin swaps the channels.
                assert_eq!(native(&samples), vec![0.25, 0.125, -0.25, 0.5]);
                let left = plugin_input(&samples, 0, 2, input_feed(2, 0));
                let right = plugin_input(&samples, 0, 2, input_feed(2, 1));
                plugin_output(&mut samples, 0, &right, &left);
                chain.hosted(&mut passage, &samples);
                hosted_blocks += 1;
            }
            Some(needs) => chain.step(&mut passage, &mut samples, &calculated(needs)),
            None => panic!("the passage is not finished"),
        }
    }
    assert_eq!(hosted_blocks, 1);
    assert_eq!(native(&samples), vec![0.5, 1.0, 1.0, -1.0]);
}

#[test]
fn an_entry_sets_the_controls_of_its_plugin() {
    let uri = "http://example.org/p";
    let mut e = entry(&id_for_uri(uri), &[("a", 4.0), ("b", 99.0), ("other", 1.0)]);
    let ports = vec![port("a", 0.0, 10.0, 1.0), port("b", 0.0, 10.0, 1.0), port("c", 0.0, 10.0, 7.0)];
    let p = host_entry(&e, &installed(uri, "P"), &ports).expect("it is the plugin");
    assert_eq!(p.id, e.id);
    let values: Vec<(&str, f32)> = p.params.iter().map(|c| (c.id.as_str(), f(c.value))).collect();
    assert_eq!(values, vec![("a", 4.0), ("b", 10.0), ("c", 7.0)]);
    assert!(p.enabled);
    e.enabled = false;
    let off = effect_from_entry(&e, Some(&installed(uri, "P")), &ports).expect("it is the plugin");
    assert!(!off.is_enabled());
    assert!(matches!(&off, Effect::Lv2(p) if p.id == e.id));

    // Another plugin, none at all, and an effect that needs none.
    assert!(host_entry(&e, &installed("http://example.org/q", "Q"), &ports).is_none());
    assert!(effect_from_entry(&e, None, &ports).is_none());
    let gain = entry("gain", &[("gain", 2.0)]);
    assert!(host_entry(&gain, &installed("gain", "G"), &ports).is_none());
    assert!(matches!(effect_from_entry(&gain, None, &vec![]), Some(Effect::Gain(_))));
    assert!(effect_from_entry(&entry("odd", &[]), None, &vec![]).is_none());
}

#[test]
fn every_listed_effect_has_an_identifier_of_its_own() {
    let mut ids: Vec<String> = builtins().iter().map(|b| b.id.to_string()).collect();
    ids.extend(curated_lv2().iter().map(|c| id_for_uri(c.id)));
    let all_ids = ids.len();
    ids.sort();
    ids.dedup();
    assert_eq!(ids.len(), all_ids);
}

#[test]
fn a_closed_gate_lets_nothing_through_and_an_open_one_everything() {
    let mut chain = PluginChain::from_entries(&vec![entry("gate", &[("threshold", 0.1)])], vec![None]);
    let quiet = vec![0.01f32; 64];
    let mut block = all(&quiet);
    send(&mut chain, &mut block);
    assert!(native(&block).iter().all(|x| *x == 0.0));
    let loud = vec![0.5f32; 64];
    for _ in 0..200 {
        block = all(&loud);
        send(&mut chain, &mut block);
        let out = native(&block);
        assert!(out == loud || out.iter().all(|x| *x == 0.0));
    }
    assert_eq!(native(&block), loud);
}
