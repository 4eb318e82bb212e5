use whispeross::hook::{modifier_bit, set_suppression, HookState};
use whispeross::hotkey_logic::{Key, KeyEvent};

#[test]
fn modifier_bits() {
    assert_eq!(modifier_bit(Key::Ctrl), 1);
    assert_eq!(modifier_bit(Key::Win), 2);
    assert_eq!(modifier_bit(Key::Alt), 4);
    assert_eq!(modifier_bit(Key::Shift), 8);
    assert_eq!(modifier_bit(Key::Other(0x20)), 0);
}

#[test]
fn space_is_swallowed_only_while_ctrl_is_held() {
    let mut h = HookState::new();
    set_suppression(&mut h, Some(0x20), &[Key::Ctrl]);
    assert_eq!(h.on_key(0x20, true, 1), (KeyEvent::Down(Key::Other(0x20), 1), false));
    assert_eq!(h.on_key(0xA2, true, 2), (KeyEvent::Down(Key::Ctrl, 2), false));
    assert_eq!(h.on_key(0x20, true, 3), (KeyEvent::Down(Key::Other(0x20), 3), true));
    assert_eq!(h.on_key(0x20, false, 4), (KeyEvent::Up(Key::Other(0x20), 4), true));
    assert_eq!(h.on_key(0xA3, false, 5), (KeyEvent::Up(Key::Ctrl, 5), false));
    assert_eq!(h.on_key(0x20, true, 6).1, false);
}

#[test]
fn nothing_is_swallowed_without_a_regular_key() {
    let mut h = HookState::new();
    set_suppression(&mut h, None, &[Key::Ctrl, Key::Win]);
    assert_eq!(h.required_mods, 3);
    h.on_key(0x11, true, 0);
    h.on_key(0x5B, true, 0);
    assert!(!h.on_key(0x20, true, 0).1);
    assert!(!h.on_key(0x5B, true, 0).1);
}

#[test]
fn modifiers_are_tracked_by_logical_key() {
    let mut h = HookState::new();
    h.on_key(0xA0, true, 0);
    h.on_key(0x12, true, 0);
    assert_eq!(h.mods_down, 8 | 4);
    h.on_key(0xA1, false, 0);
    assert_eq!(h.mods_down, 4);
    h.on_key(0x41, true, 0);
    assert_eq!(h.mods_down, 4);
}
