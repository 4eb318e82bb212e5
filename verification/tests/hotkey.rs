use whispeross::hotkey_logic::{combo_other_vk, key_from_vk, parse_combo, Action, HoldTracker, Key, KeyEvent};

fn names(v: &[&str]) -> Vec<String> {
    v.iter().map(|s| s.to_string()).collect()
}

fn ctrl_win() -> Vec<Key> {
    parse_combo(&names(&["ctrl", "win"])).unwrap()
}

#[test]
fn parse_combo_accepts_and_rejects_per_rules() {
    assert!(parse_combo(&names(&["ctrl", "win"])).is_some());
    assert!(parse_combo(&names(&["ctrl", "alt", "shift"])).is_some());
    assert!(parse_combo(&names(&["ctrl", "space"])).is_some());
    assert!(parse_combo(&names(&["alt", "d"])).is_some());
    // rejected: single key, no modifier, two non-modifiers, unknown name
    assert!(parse_combo(&names(&["ctrl"])).is_none());
    assert!(parse_combo(&names(&["a", "b"])).is_none());
    assert!(parse_combo(&names(&["ctrl", "a", "b"])).is_none());
    assert!(parse_combo(&names(&["ctrl", "banana"])).is_none());
}

#[test]
fn key_names_map_to_expected_keys() {
    assert_eq!(parse_combo(&names(&["ctrl", "space"])).unwrap()[1], Key::Other(0x20));
    assert_eq!(parse_combo(&names(&["win", "d"])).unwrap()[1], Key::Other(0x44));
}

#[test]
fn vk_variants_collapse_to_one_key() {
    assert_eq!(key_from_vk(0x11), Key::Ctrl);
    assert_eq!(key_from_vk(0xA2), Key::Ctrl);
    assert_eq!(key_from_vk(0xA3), Key::Ctrl);
    assert_eq!(key_from_vk(0x5B), Key::Win);
    assert_eq!(key_from_vk(0x5C), Key::Win);
    assert_eq!(key_from_vk(0x12), Key::Alt);
    assert_eq!(key_from_vk(0xA0), Key::Shift);
    assert_eq!(key_from_vk(0x20), Key::Other(0x20));
}

#[test]
fn combo_other_vk_extraction() {
    assert_eq!(combo_other_vk(&ctrl_win()), None);
    let c = parse_combo(&names(&["ctrl", "space"])).unwrap();
    assert_eq!(combo_other_vk(&c), Some(0x20));
}

#[test]
fn default_combo_full_cycle() {
    let mut t = HoldTracker::new(ctrl_win());
    assert_eq!(t.on_event(KeyEvent::Down(Key::Ctrl, 0)), Action::Idle);
    assert_eq!(t.on_event(KeyEvent::Down(Key::Win, 10)), Action::Start);
    assert_eq!(t.on_event(KeyEvent::Up(Key::Ctrl, 400)), Action::Finish { held_ms: 390 });
    // release of the second key after finish: ignored
    assert_eq!(t.on_event(KeyEvent::Up(Key::Win, 450)), Action::Idle);
}

#[test]
fn short_tap_cancels() {
    let mut t = HoldTracker::new(ctrl_win());
    t.on_event(KeyEvent::Down(Key::Win, 0));
    assert_eq!(t.on_event(KeyEvent::Down(Key::Ctrl, 20)), Action::Start);
    assert_eq!(t.on_event(KeyEvent::Up(Key::Ctrl, 100)), Action::Cancel);
}

#[test]
fn key_repeat_does_not_double_start() {
    let mut t = HoldTracker::new(ctrl_win());
    t.on_event(KeyEvent::Down(Key::Ctrl, 0));
    assert_eq!(t.on_event(KeyEvent::Down(Key::Win, 10)), Action::Start);
    assert_eq!(t.on_event(KeyEvent::Down(Key::Ctrl, 50)), Action::Idle);
    assert!(matches!(t.on_event(KeyEvent::Up(Key::Win, 500)), Action::Finish { .. }));
}

#[test]
fn unrelated_keys_do_not_disturb_hold() {
    let mut t = HoldTracker::new(ctrl_win());
    t.on_event(KeyEvent::Down(Key::Ctrl, 0));
    t.on_event(KeyEvent::Down(Key::Win, 10));
    assert_eq!(t.on_event(KeyEvent::Down(Key::Other(0x41), 50)), Action::Idle);
    assert_eq!(t.on_event(KeyEvent::Up(Key::Other(0x41), 90)), Action::Idle);
    assert!(matches!(t.on_event(KeyEvent::Up(Key::Ctrl, 400)), Action::Finish { .. }));
}

#[test]
fn three_key_combo_requires_all_three() {
    let c = parse_combo(&names(&["ctrl", "alt", "space"])).unwrap();
    let mut t = HoldTracker::new(c);
    t.on_event(KeyEvent::Down(Key::Ctrl, 0));
    assert_eq!(t.on_event(KeyEvent::Down(Key::Other(0x20), 5)), Action::Idle);
    assert_eq!(t.on_event(KeyEvent::Down(Key::Alt, 10)), Action::Start);
    assert!(matches!(t.on_event(KeyEvent::Up(Key::Other(0x20), 400)), Action::Finish { .. }));
}

// Own tests.

#[test]
fn hold_of_exactly_the_minimum_finishes() {
    let mut t = HoldTracker::new(ctrl_win());
    t.on_event(KeyEvent::Down(Key::Ctrl, 1000));
    assert_eq!(t.on_event(KeyEvent::Down(Key::Win, 1000)), Action::Start);
    assert_eq!(t.on_event(KeyEvent::Up(Key::Win, 1150)), Action::Finish { held_ms: 150 });
}

#[test]
fn clock_going_backwards_counts_as_a_tap() {
    let mut t = HoldTracker::new(ctrl_win());
    t.on_event(KeyEvent::Down(Key::Ctrl, 500));
    assert_eq!(t.on_event(KeyEvent::Down(Key::Win, 500)), Action::Start);
    assert_eq!(t.on_event(KeyEvent::Up(Key::Win, 100)), Action::Cancel);
}

#[test]
fn take_restarts_after_release_and_press() {
    let mut t = HoldTracker::new(ctrl_win());
    t.on_event(KeyEvent::Down(Key::Ctrl, 0));
    assert_eq!(t.on_event(KeyEvent::Down(Key::Win, 0)), Action::Start);
    assert!(matches!(t.on_event(KeyEvent::Up(Key::Win, 300)), Action::Finish { .. }));
    assert_eq!(t.on_event(KeyEvent::Down(Key::Win, 400)), Action::Start);
}

#[test]
fn key_names_are_case_insensitive_letters_and_digits() {
    assert_eq!(parse_combo(&names(&["ctrl", "Q"])).unwrap()[1], Key::Other(0x51));
    assert_eq!(parse_combo(&names(&["ctrl", "7"])).unwrap()[1], Key::Other(0x37));
    assert!(parse_combo(&names(&["ctrl", "?"])).is_none());
    assert!(parse_combo(&names(&["Ctrl", "win"])).is_none());
}

#[test]
fn the_last_combo_key_pressed_starts_a_take_in_any_order() {
    let combo = parse_combo(&names(&["ctrl", "alt", "shift"])).unwrap();
    let mut t = HoldTracker::new(combo);
    assert_eq!(t.on_event(KeyEvent::Down(Key::Shift, 1)), Action::Idle);
    assert_eq!(t.on_event(KeyEvent::Down(Key::Ctrl, 2)), Action::Idle);
    assert_eq!(t.on_event(KeyEvent::Down(Key::Alt, 3)), Action::Start);
    assert_eq!(t.on_event(KeyEvent::Up(Key::Ctrl, 1_003)), Action::Finish { held_ms: 1_000 });
}
