use kernel::ints::pic::PortWrite;
use kernel::keyboard::{
    apply_change, holds, keyboard_interrupt_handler, keyboard_system, KeyChange, KeyMotion,
    KeyboardState,
};
use pc_keyboard::KeyCode;

fn feed(state: &mut KeyboardState, scancodes: &[u8]) {
    for s in scancodes {
        keyboard_interrupt_handler(state, *s);
    }
    for _ in scancodes {
        keyboard_system(state);
    }
}

#[test]
fn keyboard_starts_with_no_key_down() {
    let state = KeyboardState::new();
    assert!(!state.pressed_any());
    assert!(state.released(KeyCode::A as u8));
    assert!(!state.pressed(KeyCode::A as u8));
    assert!(!state.just_pressed_any());
    assert!(!state.just_released_any());
    assert!(state.scancodes.is_empty());
}

#[test]
fn keyboard_interrupt_keeps_the_scancode_and_acknowledges() {
    let mut state = KeyboardState::new();
    let w = keyboard_interrupt_handler(&mut state, 0x1E);
    assert_eq!(w, vec![PortWrite { port: 0x20, value: 0x20 }]);
    keyboard_interrupt_handler(&mut state, 0x9E);
    assert_eq!(state.scancodes.iter().copied().collect::<Vec<u8>>(), vec![0x1E, 0x9E]);
    assert!(state.keys_down.is_empty());
}

#[test]
fn scancodes_become_keys_that_are_down() {
    let mut state = KeyboardState::new();
    keyboard_interrupt_handler(&mut state, 0x1E);
    keyboard_interrupt_handler(&mut state, 0x39);
    keyboard_system(&mut state);
    assert_eq!(state.keys_down, vec![KeyCode::A as u8]);
    assert!(state.last_keys_down.is_empty());
    assert!(state.pressed(KeyCode::A as u8));
    assert!(state.just_pressed(KeyCode::A as u8));
    assert!(state.just_pressed_any());
    assert_eq!(state.scancodes.len(), 1);
    keyboard_system(&mut state);
    assert_eq!(state.keys_down, vec![KeyCode::A as u8, KeyCode::Spacebar as u8]);
    assert_eq!(state.last_keys_down, vec![KeyCode::A as u8]);
    assert!(!state.just_pressed(KeyCode::A as u8));
    assert!(state.just_pressed(KeyCode::Spacebar as u8));
    keyboard_system(&mut state);
    assert_eq!(state.last_keys_down, state.keys_down);
    assert!(!state.just_pressed_any());
}

#[test]
fn key_that_is_held_is_down_once() {
    let mut state = KeyboardState::new();
    feed(&mut state, &[0x1E, 0x1E, 0x1E]);
    assert_eq!(state.keys_down, vec![KeyCode::A as u8]);
}

#[test]
fn released_key_is_no_longer_down() {
    let mut state = KeyboardState::new();
    feed(&mut state, &[0x1E, 0x39]);
    keyboard_interrupt_handler(&mut state, 0x9E);
    keyboard_system(&mut state);
    assert_eq!(state.keys_down, vec![KeyCode::Spacebar as u8]);
    assert!(state.just_released(KeyCode::A as u8));
    assert!(state.just_released_any());
    assert!(!state.just_released(KeyCode::Spacebar as u8));
    assert!(state.released(KeyCode::A as u8));
    keyboard_system(&mut state);
    assert!(!state.just_released(KeyCode::A as u8));
}

#[test]
fn extended_key_takes_two_scancodes() {
    let mut state = KeyboardState::new();
    keyboard_interrupt_handler(&mut state, 0xE0);
    keyboard_interrupt_handler(&mut state, 0x48);
    keyboard_system(&mut state);
    assert!(state.keys_down.is_empty());
    keyboard_system(&mut state);
    assert_eq!(state.keys_down, vec![KeyCode::ArrowUp as u8]);
    feed(&mut state, &[0xE0, 0xC8]);
    assert!(state.keys_down.is_empty());
}

#[test]
fn changes_are_applied_to_the_keys() {
    let mut keys = vec![3u8, 5, 3, 7];
    assert!(holds(&keys, 5));
    assert!(!holds(&keys, 4));
    apply_change(&mut keys, KeyChange { code: 5, motion: KeyMotion::Down });
    assert_eq!(keys, vec![3, 5, 3, 7]);
    apply_change(&mut keys, KeyChange { code: 9, motion: KeyMotion::Down });
    assert_eq!(keys, vec![3, 5, 3, 7, 9]);
    apply_change(&mut keys, KeyChange { code: 3, motion: KeyMotion::Up });
    assert_eq!(keys, vec![5, 7, 9]);
    apply_change(&mut keys, KeyChange { code: 7, motion: KeyMotion::SingleShot });
    assert_eq!(keys, vec![5, 9]);
    apply_change(&mut keys, KeyChange { code: 1, motion: KeyMotion::Up });
    assert_eq!(keys, vec![5, 9]);
}
