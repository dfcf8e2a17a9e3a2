use clicker_core::listener::{
    handle_hotkey_pressed, handle_hotkey_released, hotkey_listener_step, ClickerCommand,
    HotkeyEvent, ListenerStep, ListenerTick,
};

fn tick(pressed: bool) -> ListenerTick {
    ListenerTick {
        currently_pressed: pressed,
        capture_active: false,
        suppress_until_release: false,
        suppress_until_ms: 0,
        now_ms: 1_000,
    }
}

#[test]
fn press_and_release_are_edges() {
    let s = hotkey_listener_step(false, tick(true));
    assert_eq!(s, ListenerStep { was_pressed: true, clear_release_suppression: false, event: Some(HotkeyEvent::Pressed) });
    let s = hotkey_listener_step(true, tick(true));
    assert_eq!(s.event, None);
    let s = hotkey_listener_step(true, tick(false));
    assert_eq!(s, ListenerStep { was_pressed: false, clear_release_suppression: false, event: Some(HotkeyEvent::Released) });
    let s = hotkey_listener_step(false, tick(false));
    assert_eq!(s.event, None);
}

#[test]
fn capture_silences_and_follows_the_keys() {
    let t = ListenerTick { capture_active: true, ..tick(true) };
    assert_eq!(hotkey_listener_step(false, t), ListenerStep { was_pressed: true, clear_release_suppression: false, event: None });
}

#[test]
fn held_across_registration_until_released() {
    let held = ListenerTick { suppress_until_release: true, ..tick(true) };
    assert_eq!(hotkey_listener_step(false, held), ListenerStep { was_pressed: true, clear_release_suppression: false, event: None });
    let let_go = ListenerTick { suppress_until_release: true, ..tick(false) };
    assert_eq!(hotkey_listener_step(true, let_go), ListenerStep { was_pressed: false, clear_release_suppression: true, event: None });
}

#[test]
fn suppression_time_follows_the_keys_without_events() {
    let early = ListenerTick { suppress_until_ms: 1_250, ..tick(true) };
    assert_eq!(hotkey_listener_step(false, early), ListenerStep { was_pressed: true, clear_release_suppression: false, event: None });
    let at_deadline = ListenerTick { suppress_until_ms: 1_000, ..tick(true) };
    assert_eq!(hotkey_listener_step(false, at_deadline).event, Some(HotkeyEvent::Pressed));
}

#[test]
fn no_two_presses_in_a_row() {
    let mut was = false;
    let mut presses = 0;
    for pressed in [true, true, true, false, true, true] {
        let s = hotkey_listener_step(was, tick(pressed));
        if s.event == Some(HotkeyEvent::Pressed) {
            presses += 1;
        }
        was = s.was_pressed;
    }
    assert_eq!(presses, 2);
}

#[test]
fn toggle_and_hold_modes() {
    assert!(matches!(handle_hotkey_pressed("Toggle"), Some(ClickerCommand::Toggle)));
    assert!(matches!(handle_hotkey_pressed("Hold"), Some(ClickerCommand::Start)));
    assert!(handle_hotkey_pressed("toggle").is_none());
    assert!(handle_hotkey_released("Toggle").is_none());
    match handle_hotkey_released("Hold") {
        Some(ClickerCommand::Stop { reason }) => assert_eq!(reason, "Stopped from hold hotkey"),
        _ => panic!("hold release must stop"),
    }
}

#[test]
fn registration_press_never_fires() {
    // The listener keeps the ignore-until-released flag, as after a
    // registration, and clears it where a step says so.
    let mut was = false;
    let mut suppressed = true;
    let mut events = Vec::new();
    for (pressed, capture) in [(true, false), (false, true), (true, false), (false, false), (true, false)] {
        let t = ListenerTick {
            currently_pressed: pressed,
            capture_active: capture,
            suppress_until_release: suppressed,
            ..tick(pressed)
        };
        let s = hotkey_listener_step(was, t);
        if s.clear_release_suppression {
            suppressed = false;
        }
        was = s.was_pressed;
        events.push(s.event);
    }
    assert_eq!(events, vec![None, None, None, None, Some(HotkeyEvent::Pressed)]);
}
