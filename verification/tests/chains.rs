use resonate::plugins::chains::{
    available, build_entry, factory, factory_chain, factory_chains, matching_factory,
};
use resonate::plugins::lv2::{uri_from_id, InstalledPlugin, PluginWorld};
use resonate::plugins::presets::{presets_for, EffectPreset};
use resonate::plugins::{builtins, curated_lv2};
use resonate::text_map::TextMap;

fn bare() -> PluginWorld {
    PluginWorld { plugins: Vec::new(), shipped: TextMap::new() }
}

fn full() -> PluginWorld {
    let plugins = curated_lv2()
        .iter()
        .map(|c| InstalledPlugin {
            uri: c.id.to_string(),
            name: c.name.to_string(),
            audio_inputs: 2,
            audio_outputs: 2,
            cv_inputs: 0,
            cv_outputs: 0,
            instrument: false,
        })
        .collect();
    PluginWorld { plugins, shipped: TextMap::new() }
}

#[test]
fn factory_chains_are_buildable() {
    for world in [bare(), full()] {
        for chain in factory() {
            let name = chain.name;
            assert!(!chain.steps.is_empty(), "factory chain '{name}' is empty");
            for step in &chain.steps {
                let known = builtins().iter().any(|b| b.id == step.id)
                    || uri_from_id(step.id)
                        .is_some_and(|uri| curated_lv2().iter().any(|c| c.id == uri));
                assert!(known, "chain '{name}': '{}' is not a curated effect", step.id);

                if !available(&world.plugins, step.id) {
                    println!("chain '{name}': '{}' not installed — skipping", step.id);
                    continue;
                }
                if let Some(want) = step.preset {
                    let found = world.presets_for(step.id).iter().any(|p| p.name == want);
                    assert!(found, "chain '{name}': '{}' has no preset '{want}'", step.id);
                }
            }
        }
    }
}

#[test]
fn built_chains_match_themselves() {
    for world in [bare(), full()] {
        let chains = factory_chains(&world);
        assert!(
            chains.iter().any(|c| c.name == "Old Radio"),
            "the built-ins-only chain must always be offered"
        );
        for named in &chains {
            assert!(!named.chain.is_empty());
            assert_eq!(
                matching_factory(&chains, &named.chain).as_deref(),
                Some(named.name.as_str())
            );
        }
    }
}

#[test]
fn a_full_system_offers_every_chain() {
    let world = full();
    let chains = factory_chains(&world);
    let names: Vec<&str> = chains.iter().map(|c| c.name.as_str()).collect();
    let all: Vec<&str> = factory().iter().map(|c| c.name).collect();
    assert_eq!(names, all);
    assert!(factory_chains(&bare()).len() < all.len());
}

#[test]
fn a_chain_is_found_by_its_name() {
    let chains = factory_chains(&bare());
    let radio = factory_chain(&chains, "Old Radio").expect("it is offered");
    assert!(radio.iter().all(|e| e.enabled));
    assert!(factory_chain(&chains, "No such chain").is_none());
    assert!(matching_factory(&chains, &Vec::new()).is_none());
}

#[test]
fn a_step_takes_its_preset_and_then_its_own_values() {
    for chain in factory() {
        for step in &chain.steps {
            let presets: Vec<EffectPreset> = presets_for(step.id, &Vec::new());
            let entry = build_entry(step, &presets);
            assert_eq!(entry.id, step.id);
            for (name, milli) in &step.params {
                let value = f32::from_bits(entry.params.get(name).expect("it is set").bits);
                assert_eq!(value, *milli as f32 / 1000.0);
            }
        }
    }
}
