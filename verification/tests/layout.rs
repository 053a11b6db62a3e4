use resonate::config::EffectEntry;
use resonate::plugins::layout::{fold_params, primary_layouts, primary_params};
use resonate::plugins::lv2::{uri_from_id, InstalledPlugin, Port};
use resonate::plugins::{effect_from_entry, plugin_from_entry};
use resonate::scalar::Scalar;
use resonate::text_map::TextMap;

#[test]
fn primary_params_exist() {
    let mut checked = 0;
    for layout in primary_layouts() {
        let id = layout.id;
        let entry = EffectEntry { id: id.to_string(), enabled: true, params: TextMap::new() };
        let Some(plugin) = plugin_from_entry(&entry, None) else {
            println!("'{id}' not installed — skipping");
            continue;
        };
        let params = plugin.params();
        for want in &layout.primary {
            assert!(params.iter().any(|p| p.id == *want), "'{id}' has no parameter '{want}'");
        }
        assert!(
            params.len() > layout.primary.len(),
            "'{id}' lists every parameter as primary — drop the entry instead"
        );
        checked += 1;
    }
    println!("checked {checked} primary parameter lists");
}

#[test]
fn every_control_is_shown_or_folded_away() {
    let layout = &primary_layouts()[0];
    let mut controls: Vec<String> = vec!["zzz".to_string()];
    controls.push(layout.primary[0].to_string());
    controls.push("yyy".to_string());
    let (shown, rest) = fold_params(layout.id, &controls);
    assert_eq!(shown, vec![1]);
    assert_eq!(rest, vec![0, 2]);
}

#[test]
fn an_effect_without_a_layout_shows_everything() {
    assert!(primary_params("gain").is_none());
    let controls: Vec<String> = vec!["a".to_string(), "b".to_string()];
    let (shown, rest) = fold_params("gain", &controls);
    assert_eq!(shown, vec![0, 1]);
    assert!(rest.is_empty());
}

#[test]
fn the_primary_controls_of_a_hosted_plugin_are_found_and_shown() {
    let mut hosted = 0;
    for layout in primary_layouts() {
        let id = layout.id;
        let Some(uri) = uri_from_id(id) else {
            continue;
        };
        let plugin = InstalledPlugin {
            uri,
            name: "P".to_string(),
            audio_inputs: 2,
            audio_outputs: 2,
            cv_inputs: 0,
            cv_outputs: 0,
            instrument: false,
        };
        // The controls of the layout in reverse, between two others.
        let mut symbols = vec!["first_of_all"];
        symbols.extend(layout.primary.iter().rev());
        symbols.push("last_of_all");
        let ports: Vec<Port> = symbols
            .iter()
            .enumerate()
            .map(|(i, symbol)| Port {
                symbol: symbol.to_string(),
                name: symbol.to_uppercase(),
                index: 3 + i,
                control_input: true,
                min: Some(Scalar { bits: 0f32.to_bits() }),
                max: Some(Scalar { bits: 1f32.to_bits() }),
                default: Scalar { bits: 0.5f32.to_bits() },
                toggled: false,
                enumeration: false,
                integer: false,
                points: Vec::new(),
            })
            .collect();
        let entry = EffectEntry { id: id.to_string(), enabled: true, params: TextMap::new() };
        let effect = effect_from_entry(&entry, Some(&plugin), &ports).expect("it is hosted");
        let params = effect.params();
        assert_eq!(params.len(), layout.primary.len() + 2);
        for want in &layout.primary {
            assert!(params.iter().any(|p| p.id == *want), "'{id}' has no parameter '{want}'");
        }
        let controls: Vec<String> = params.iter().map(|p| p.id.clone()).collect();
        let (shown, rest) = fold_params(id, &controls);
        let shown: Vec<&str> = shown.iter().map(|i| controls[*i].as_str()).collect();
        assert_eq!(shown, layout.primary);
        assert_eq!(rest, vec![0, controls.len() - 1]);
        hosted += 1;
    }
    assert!(hosted > 0, "no layout is for a plugin");
}
