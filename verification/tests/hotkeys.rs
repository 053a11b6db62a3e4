use resonate::hotkeys::{
    activation, in_app_scope, request_path, response, scope_name, scope_wait, sender_token,
    shortcuts, HotkeyAction, HotkeyEvent, Outcome, ScopeWait, TileNumber,
};

#[test]
fn every_shortcut_is_understood() {
    let list = shortcuts();
    assert_eq!(list.len(), 11);
    for shortcut in &list {
        assert!(activation(&shortcut.id).is_some(), "{}", shortcut.id);
        assert!(!shortcut.description.is_empty());
        assert!(!shortcut.preferred_trigger.is_empty());
    }
    assert_eq!(activation("stop-all"), Some(HotkeyEvent::StopAll));
    assert_eq!(activation("digit-7"), Some(HotkeyEvent::Digit(7)));
    assert_eq!(activation("digit-10"), None);
    assert_eq!(activation("digit-"), None);
    assert_eq!(activation("other"), None);
}

#[test]
fn digits_add_up_to_a_tile_number() {
    let mut n = TileNumber::new();
    assert_eq!(n.event(HotkeyEvent::Digit(5)), HotkeyAction::RestartTimer);
    assert_eq!(n.event(HotkeyEvent::Digit(6)), HotkeyAction::RestartTimer);
    assert_eq!(n.commit(), Some(55));
    assert_eq!(n.commit(), None);
    n.event(HotkeyEvent::Digit(0));
    assert_eq!(n.commit(), None);
    n.event(HotkeyEvent::Digit(3));
    assert_eq!(n.event(HotkeyEvent::StopAll), HotkeyAction::StopAll);
    assert_eq!(n.commit(), None);
    for _ in 0..30 {
        n.event(HotkeyEvent::Digit(9));
    }
    assert_eq!(n.commit(), None);
}

#[test]
fn requests_are_answered_at_their_paths() {
    let token = sender_token(":1.234");
    assert_eq!(token, "1_234");
    assert_eq!(
        request_path(&token, "t1"),
        "/org/freedesktop/portal/desktop/request/1_234/t1"
    );
    assert_eq!(response(Some(0), true), Some(Outcome::Granted));
    assert_eq!(response(Some(2), false), Some(Outcome::Denied(2)));
    assert_eq!(response(None, false), None);
    assert_eq!(response(None, true), Some(Outcome::TimedOut));
}

#[test]
fn the_scope_names_the_application() {
    let name = scope_name(42);
    assert_eq!(name, "app-gnome-io.github.kilo2071.Resonate-42.scope");
    assert!(in_app_scope(&name));
    assert!(!in_app_scope("0::/user.slice/session.scope"));
}

#[test]
fn the_scope_is_looked_at_forty_times() {
    let mut looks = 1;
    while scope_wait(looks, false) == ScopeWait::LookAgain {
        looks += 1;
    }
    assert_eq!(looks, 40);
    assert_eq!(scope_wait(looks, false), ScopeWait::GiveUp);
    assert_eq!(scope_wait(looks, true), ScopeWait::Arrived);
    assert_eq!(scope_wait(1, true), ScopeWait::Arrived);
}
