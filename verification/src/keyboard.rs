//! The keys that are held down, kept up to date from the scancodes that
//! the keyboard sends.

use vstd::prelude::*;
use std::collections::VecDeque;
use crate::ints::pic::PortWrite;
use pc_keyboard::{KeyState, ScancodeSet, ScancodeSet1};

verus! {

/// Interrupt line of the keyboard.
pub const KEYBOARD_IRQ: u8 = 1;

/// Port from which a scancode is fetched.
pub const KEYBOARD_DATA: u16 = 0x60;

#[verifier::external_type_specification]
#[verifier::external_body]
pub struct ExScancodeSet1(ScancodeSet1);

/// What happened to a key.
#[derive(Debug, Clone, Copy, PartialEq, Eq, Structural)]
pub enum KeyMotion {
    /// The key went down.
    Down,
    /// The key came up.
    Up,
    /// The key went down and came up in one.
    SingleShot,
}

/// One event of the keyboard: a key, by its number, and what happened to
/// it.
#[derive(Debug, Clone, Copy, PartialEq, Eq, Structural)]
pub struct KeyChange {
    pub code: u8,
    pub motion: KeyMotion,
}

/// A decoder for the first set of scancodes, at the start of a key. Calls
/// `ScancodeSet1::new`.
#[verifier::external_body]
pub(crate) fn new_decoder() -> (k: ScancodeSet1) {
    ScancodeSet1::new()
}

/// Feeds one scancode to the decoder. Calls `ScancodeSet1::advance_state`,
/// which gives an event once the bytes of a key are complete; the event
/// names the key by its number and says what happened to it. Which event
/// comes, if any, depends on the bytes that the decoder was fed before:
/// nothing is claimed of it.
#[verifier::external_body]
pub(crate) fn add_byte(keyboard: &mut ScancodeSet1, byte: u8) -> (r: Option<KeyChange>) {
    match keyboard.advance_state(byte) {
        Ok(Some(event)) => {
            let motion = match event.state {
                KeyState::Down => KeyMotion::Down,
                KeyState::Up => KeyMotion::Up,
                KeyState::SingleShot => KeyMotion::SingleShot,
            };
            Some(KeyChange { code: event.code as u8, motion })
        },
        Ok(None) => None,
        Err(_) => None,
    }
}

/// The first `n` of `keys` without the key `code`.
pub open spec fn without_key(keys: Seq<u8>, code: u8, n: int) -> Seq<u8>
    decreases n,
{
    if n <= 0 {
        Seq::empty()
    } else if keys[n - 1] == code {
        without_key(keys, code, n - 1)
    } else {
        without_key(keys, code, n - 1).push(keys[n - 1])
    }
}

/// The keys that are down after `change`: a key that goes down joins them
/// at the end, unless it is among them; any other event takes the key
/// away.
pub open spec fn keys_after(keys: Seq<u8>, change: KeyChange) -> Seq<u8> {
    if change.motion == KeyMotion::Down {
        if keys.contains(change.code) {
            keys
        } else {
            keys.push(change.code)
        }
    } else {
        without_key(keys, change.code, keys.len() as int)
    }
}

/// Whether `code` is among `keys`.
pub fn holds(keys: &Vec<u8>, code: u8) -> (r: bool)
    ensures
        r == keys@.contains(code),
{
    let mut i: usize = 0;
    while i < keys.len()
        invariant
            i <= keys@.len(),
            forall|j: int| 0 <= j < i ==> keys@[j] != code,
        decreases keys@.len() - i,
    {
        if keys[i] == code {
            return true;
        }
        i = i + 1;
    }
    false
}

/// Brings the keys that are down up to date with `change`.
pub fn apply_change(keys: &mut Vec<u8>, change: KeyChange)
    ensures
        final(keys)@ == keys_after(old(keys)@, change),
{
    match change.motion {
        KeyMotion::Down => {
            if !holds(keys, change.code) {
                keys.push(change.code);
            }
        },
        _ => {
            let mut rest: Vec<u8> = Vec::new();
            let mut i: usize = 0;
            while i < keys.len()
                invariant
                    i <= keys@.len(),
                    *keys == *old(keys),
                    rest@ == without_key(keys@, change.code, i as int),
                decreases keys@.len() - i,
            {
                if keys[i] != change.code {
                    rest.push(keys[i]);
                }
                i = i + 1;
            }
            *keys = rest;
        },
    }
}

/// The keyboard: its decoder, the scancodes that have arrived and are not
/// decoded yet, the keys that are down, and those that were down one step
/// before.
pub struct KeyboardState {
    pub keyboard: ScancodeSet1,
    pub scancodes: VecDeque<u8>,
    pub keys_down: Vec<u8>,
    pub last_keys_down: Vec<u8>,
}

impl KeyboardState {
    /// A keyboard with no key down and no scancode waiting.
    pub fn new() -> (s: KeyboardState)
        ensures
            s.scancodes@.len() == 0,
            s.keys_down@.len() == 0,
            s.last_keys_down@.len() == 0,
    {
        KeyboardState {
            keyboard: new_decoder(),
            scancodes: VecDeque::new(),
            keys_down: Vec::new(),
            last_keys_down: Vec::new(),
        }
    }

    pub fn pressed(&self, key: u8) -> (r: bool)
        ensures
            r == self.keys_down@.contains(key),
    {
        holds(&self.keys_down, key)
    }

    pub fn released(&self, key: u8) -> (r: bool)
        ensures
            r == !self.keys_down@.contains(key),
    {
        !holds(&self.keys_down, key)
    }

    pub fn pressed_any(&self) -> (r: bool)
        ensures
            r == (self.keys_down@.len() > 0),
    {
        self.keys_down.len() > 0
    }

    /// Whether `key` is down and was not one step before.
    pub fn just_pressed(&self, key: u8) -> (r: bool)
        ensures
            r == (self.keys_down@.contains(key) && !self.last_keys_down@.contains(key)),
    {
        holds(&self.keys_down, key) && !holds(&self.last_keys_down, key)
    }

    /// Whether `key` is up and was down one step before.
    pub fn just_released(&self, key: u8) -> (r: bool)
        ensures
            r == (!self.keys_down@.contains(key) && self.last_keys_down@.contains(key)),
    {
        !holds(&self.keys_down, key) && holds(&self.last_keys_down, key)
    }

    /// Whether more keys are down than one step before.
    pub fn just_pressed_any(&self) -> (r: bool)
        ensures
            r == (self.keys_down@.len() > self.last_keys_down@.len()),
    {
        self.keys_down.len() > self.last_keys_down.len()
    }

    /// Whether fewer keys are down than one step before.
    pub fn just_released_any(&self) -> (r: bool)
        ensures
            r == (self.keys_down@.len() < self.last_keys_down@.len()),
    {
        self.keys_down.len() < self.last_keys_down.len()
    }
}

/// The interrupt of the keyboard: keeps the scancode that was fetched and
/// hands back the writes that acknowledge line 1.
pub fn keyboard_interrupt_handler(state: &mut KeyboardState, scancode: u8) -> (w: Vec<PortWrite>)
    ensures
        final(state).scancodes@ == old(state).scancodes@.push(scancode),
        final(state).keys_down == old(state).keys_down,
        final(state).last_keys_down == old(state).last_keys_down,
        w@ == seq![
            PortWrite { port: crate::ints::pic::PIC1_COMMAND, value: crate::ints::pic::PIC_EOI },
        ],
{
    state.scancodes.push_back(scancode);
    crate::ints::pic::send_eoi(KEYBOARD_IRQ)
}

/// One step of the keyboard: the keys that are down are remembered as those
/// of the step before, and the oldest scancode that waits, if there is
/// one, goes to the decoder; where that completes an event, the keys that
/// are down are brought up to date with it.
pub fn keyboard_system(state: &mut KeyboardState)
    ensures
        final(state).last_keys_down@ == old(state).keys_down@,
        final(state).scancodes@ == if old(state).scancodes@.len() > 0 {
            old(state).scancodes@.subrange(1, old(state).scancodes@.len() as int)
        } else {
            old(state).scancodes@
        },
        final(state).keys_down@ == old(state).keys_down@ || (old(state).scancodes@.len() > 0
            && exists|change: KeyChange|
            final(state).keys_down@ == #[trigger] keys_after(old(state).keys_down@, change)),
{
    let mut last: Vec<u8> = Vec::new();
    let mut i: usize = 0;
    while i < state.keys_down.len()
        invariant
            i <= state.keys_down@.len(),
            *state == *old(state),
            last@ == state.keys_down@.subrange(0, i as int),
        decreases state.keys_down@.len() - i,
    {
        last.push(state.keys_down[i]);
        i = i + 1;
    }
    assert(last@ =~= state.keys_down@);
    state.last_keys_down = last;
    match state.scancodes.pop_front() {
        None => {},
        Some(scancode) => {
            match add_byte(&mut state.keyboard, scancode) {
                None => {},
                Some(change) => {
                    apply_change(&mut state.keys_down, change);
                },
            }
        },
    }
}

} // verus!
