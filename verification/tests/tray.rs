use resonate::tray::{escape_label, MenuItem, PresetMenu, ResonateTray, TrayCmd, APP_ID};

fn tray(presets: &[&str], active: Option<&str>) -> ResonateTray {
    let mut t = ResonateTray::new();
    t.set_presets(presets.iter().map(|p| p.to_string()).collect(), active.map(|a| a.to_string()));
    t
}

fn choice(t: &ResonateTray) -> (usize, Vec<String>) {
    for item in t.menu() {
        if let MenuItem::SubMenu { body: PresetMenu::Choice { selected, options }, .. } = item {
            return (selected, options);
        }
    }
    panic!("no choice");
}

#[test]
fn the_menu_has_five_items() {
    let menu = tray(&["A"], Some("A")).menu();
    assert_eq!(menu.len(), 5);
    match &menu[0] {
        MenuItem::Action { label, icon, cmd } => {
            assert_eq!((label.as_str(), icon.as_str()), ("Show Resonate", APP_ID));
            assert!(matches!(cmd, TrayCmd::Show));
        }
        _ => panic!("not an action"),
    }
    assert!(matches!(&menu[1], MenuItem::Separator));
    match &menu[2] {
        MenuItem::SubMenu { label, .. } => assert_eq!(label, "Effect Preset: A"),
        _ => panic!("not a submenu"),
    }
    match &menu[4] {
        MenuItem::Action { label, cmd, .. } => {
            assert_eq!(label, "Quit");
            assert!(matches!(cmd.clone(), TrayCmd::Quit));
        }
        _ => panic!("not an action"),
    }
}

#[test]
fn the_active_preset_is_marked() {
    let t = tray(&["A", "B_b"], Some("B_b"));
    assert_eq!(choice(&t), (1, vec!["A".to_string(), "B__b".to_string()]));
    assert_eq!(t.active_label(), "B_b");
    assert_eq!(t.tool_tip(), "Effect preset: B_b");
    assert!(matches!(t.pick(0), Some(TrayCmd::LoadPreset(name)) if name == "A"));
    assert!(t.pick(9).is_none());
}

#[test]
fn a_chain_of_its_own_is_custom() {
    let t = tray(&["A", "B"], None);
    assert_eq!(t.active_label(), "Custom");
    let (selected, options) = choice(&t);
    assert_eq!(selected, 0);
    assert_eq!(options[0], "Custom (unsaved)");
    assert!(t.pick(0).is_none());
    assert!(matches!(t.pick(2), Some(TrayCmd::LoadPreset(name)) if name == "B"));
    // One that is not in the list counts as none.
    assert_eq!(tray(&["A"], Some("gone")).active_label(), "Custom");
}

#[test]
fn without_presets_there_is_nothing_to_choose() {
    for item in tray(&[], None).menu() {
        if let MenuItem::SubMenu { body, .. } = item {
            assert!(matches!(body, PresetMenu::Nothing { label } if label == "No presets saved"));
        }
    }
    assert_eq!(escape_label("a_b"), "a__b");
}
