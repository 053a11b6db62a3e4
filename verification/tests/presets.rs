use resonate::config::EffectEntry;
use resonate::plugins::lv2::{id_for_uri, uri_from_id, InstalledPlugin, Port};
use resonate::plugins::presets::{
    apply_values, curated, curated_presets, presets_for, EffectPreset,
};
use resonate::plugins::{builtins, curated_lv2, effect_from_entry, plugin_from_entry};
use resonate::scalar::Scalar;
use resonate::text_map::TextMap;

fn s(x: f32) -> Scalar {
    Scalar { bits: x.to_bits() }
}

fn f(x: Scalar) -> f32 {
    f32::from_bits(x.bits)
}

fn preset(name: &str, values: &[(&str, f32)]) -> EffectPreset {
    EffectPreset {
        name: name.to_string(),
        values: values.iter().map(|(n, v)| (n.to_string(), s(*v))).collect(),
    }
}

#[test]
fn curated_keys_are_known_effects() {
    for group in curated() {
        let id = group.id;
        let known = builtins().iter().any(|b| b.id == id)
            || uri_from_id(id).is_some_and(|uri| curated_lv2().iter().any(|c| c.id == uri));
        assert!(known, "curated presets for unknown effect '{id}'");
        assert!(!group.rows.is_empty(), "'{id}' has an empty preset list");
        for row in &group.rows {
            assert!(!row.values.is_empty(), "'{id}' preset '{}' sets nothing", row.name);
        }
    }
}

#[test]
fn curated_presets_name_real_params() {
    let ids: Vec<String> = builtins()
        .iter()
        .map(|b| b.id.to_string())
        .chain(curated_lv2().iter().map(|c| id_for_uri(c.id)))
        .collect();

    let mut checked = 0;
    for id in &ids {
        let presets = curated_presets(id);
        if presets.is_empty() {
            continue;
        }
        let entry = EffectEntry { id: id.clone(), enabled: true, params: TextMap::new() };
        let Some(plugin) = plugin_from_entry(&entry, None) else {
            println!("'{id}' not installed — skipping");
            continue;
        };
        let params = plugin.params();
        for preset in &presets {
            for (param, value) in &preset.values {
                let p = params.iter().find(|p| p.id == *param).unwrap_or_else(|| {
                    panic!("'{id}' preset '{}': no param '{param}'", preset.name)
                });
                let (min, max, value) = (f(p.min), f(p.max), f(*value));
                let (lo, hi) = (min.min(max), min.max(max));
                assert!(
                    value >= lo && value <= hi,
                    "'{id}' preset '{}': {param} = {value} outside {lo}..={hi}",
                    preset.name
                );
                checked += 1;
            }
        }
    }
    assert!(checked > 0, "no curated preset could be checked at all");
}

#[test]
fn provided_presets_stand_in_front_of_those_of_the_same_name() {
    let groups = curated();
    let id = groups.iter().find(|g| g.id.starts_with("lv2:")).expect("there is one").id;
    let own = curated_presets(id);
    assert!(!own.is_empty());
    let shipped = vec![
        preset(&own[0].name.to_uppercase(), &[("x", 9.0)]),
        preset("From the plugin", &[("x", 3.0)]),
    ];
    let list = presets_for(id, &shipped);
    assert_eq!(list.len(), own.len() + 1);
    assert_eq!(list[0].name, own[0].name);
    assert_eq!(list.last().unwrap().name, "From the plugin");
}

#[test]
fn an_effect_without_presets_has_those_of_its_plugin() {
    let shipped = vec![preset("A", &[("x", 1.0)])];
    let list = presets_for("lv2:http://example.org/none", &shipped);
    assert_eq!(list.len(), 1);
    assert_eq!(list[0].values[0].0, "x");
    assert!(presets_for("nothing", &Vec::new()).is_empty());
}

#[test]
fn a_preset_touches_what_it_names() {
    let mut params: TextMap<Scalar> = TextMap::new();
    params.insert("drive".to_string(), s(5.0));
    params.insert("mix".to_string(), s(1.0));
    apply_values(
        &mut params,
        &vec![("drive".to_string(), s(7.0)), ("level".to_string(), s(0.5)), ("drive".to_string(), s(8.0))],
    );
    assert_eq!(params.get("drive"), Some(&s(8.0)));
    assert_eq!(params.get("mix"), Some(&s(1.0)));
    assert_eq!(params.get("level"), Some(&s(0.5)));
}

#[test]
fn curated_presets_set_the_controls_of_a_hosted_plugin() {
    let mut checked = 0;
    for listed in curated_lv2() {
        let id = id_for_uri(listed.id);
        let plugin = InstalledPlugin {
            uri: listed.id.to_string(),
            name: listed.name.to_string(),
            audio_inputs: 2,
            audio_outputs: 2,
            cv_inputs: 0,
            cv_outputs: 0,
            instrument: false,
        };
        for preset in curated_presets(&id) {
            // A port for each control that the preset names, and one that it does not.
            let port = |symbol: &str, value: f32| Port {
                symbol: symbol.to_string(),
                name: symbol.to_string(),
                index: 4,
                control_input: true,
                min: Some(s(value - 1.0)),
                max: Some(s(value + 1.0)),
                default: s(value + 0.5),
                toggled: false,
                enumeration: false,
                integer: false,
                points: Vec::new(),
            };
            // A control that is named twice gets the second value.
            let mut wanted: Vec<(String, Scalar)> = Vec::new();
            let mut params: TextMap<Scalar> = TextMap::new();
            for (symbol, value) in &preset.values {
                wanted.retain(|(named, _)| named != symbol);
                wanted.push((symbol.clone(), *value));
                params.insert(symbol.clone(), *value);
            }
            let mut ports = vec![port("not_in_the_preset", 3.0)];
            ports.extend(wanted.iter().map(|(symbol, value)| port(symbol, f(*value))));
            let entry = EffectEntry { id: id.clone(), enabled: true, params };
            let effect = effect_from_entry(&entry, Some(&plugin), &ports).expect("it is hosted");
            let controls = effect.params();
            for (symbol, value) in &wanted {
                let control = controls.iter().find(|c| c.id == *symbol).unwrap_or_else(|| {
                    panic!("'{id}' preset '{}': no param '{symbol}'", preset.name)
                });
                assert_eq!(control.value, *value, "'{id}' preset '{}': {symbol}", preset.name);
                checked += 1;
            }
            assert_eq!(f(controls[0].value), 3.5);
        }
    }
    assert!(checked > 0, "no curated preset is for a plugin");
}
