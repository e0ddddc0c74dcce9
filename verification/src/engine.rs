//! Engine state that the window loop keeps up to date: which keys are held
//! and which mouse buttons are down.
use crate::events::{key_code, Key, KeyState, MouseButton};
use std::collections::HashMap;
use vstd::prelude::*;

verus! {

broadcast use vstd::std_specs::hash::group_hash_axioms;

/// Width and height, in pixels, of a texture atlas.
pub const TEXTURE_SIZE: u32 = 8192;

/// Whether `key` counts as held in a table of key codes: a key never
/// recorded is not held.
pub open spec fn held_in(table: Map<u32, bool>, key: Key) -> bool {
    table.contains_key(key_code(key)) && table[key_code(key)]
}

/// The last recorded state of each key, by key code.
pub struct KeyStates {
    keys: HashMap<u32, bool>,
}

impl View for KeyStates {
    type V = Map<u32, bool>;

    closed spec fn view(&self) -> Map<u32, bool> {
        self.keys@
    }
}

impl KeyStates {
    /// No key recorded: every key reads as not held.
    pub fn new() -> (r: Self)
        ensures
            r@ == Map::<u32, bool>::empty(),
            forall|k: Key| !held_in(r@, k),
    {
        KeyStates { keys: HashMap::new() }
    }

    /// Whether `key` was last recorded as pressed.
    pub fn key_held(&self, key: Key) -> (held: bool)
        ensures
            held == held_in(self@, key),
    {
        let code = key.code();
        match self.keys.get(&code) {
            Some(pressed) => *pressed,
            None => false,
        }
    }

    /// Records that `key` is now pressed or released.
    pub fn set_key(&mut self, key: Key, pressed: bool)
        ensures
            final(self)@ == old(self)@.insert(key_code(key), pressed),
    {
        let code = key.code();
        self.keys.insert(code, pressed);
    }
}

/// Which of the three main mouse buttons are down.
#[derive(Clone, Copy, Debug, PartialEq, Eq, Structural)]
pub struct MouseButtons {
    pub left: bool,
    pub right: bool,
    pub middle: bool,
}

/// The button state after `button` went to `state`: the left, right and
/// middle buttons follow their events, other buttons change nothing.
pub open spec fn buttons_after(b: MouseButtons, button: MouseButton, state: KeyState) -> MouseButtons {
    let down = state == KeyState::Pressed;
    match button {
        MouseButton::Left => MouseButtons { left: down, ..b },
        MouseButton::Right => MouseButtons { right: down, ..b },
        MouseButton::Middle => MouseButtons { middle: down, ..b },
        _ => b,
    }
}

impl MouseButtons {
    /// All buttons up.
    pub fn new() -> (r: Self)
        ensures
            r == (MouseButtons { left: false, right: false, middle: false }),
    {
        MouseButtons { left: false, right: false, middle: false }
    }

    /// Records that `button` went to `state`.
    pub fn record(&mut self, button: MouseButton, state: KeyState)
        ensures
            *final(self) == buttons_after(*old(self), button, state),
    {
        let down = match state {
            KeyState::Pressed => true,
            KeyState::Released => false,
        };
        match button {
            MouseButton::Left => self.left = down,
            MouseButton::Right => self.right = down,
            MouseButton::Middle => self.middle = down,
            MouseButton::Other(_) => {},
            MouseButton::Back => {},
            MouseButton::Forward => {},
        }
    }
}

/// Recording a key and reading it back gives what was recorded, and leaves
/// every other key as it was.
pub proof fn law_key_read_after_write(table: Map<u32, bool>, key: Key, pressed: bool, other: Key)
    ensures
        held_in(table.insert(key_code(key), pressed), key) == pressed,
        other != key ==> held_in(table.insert(key_code(key), pressed), other) == held_in(
            table,
            other,
        ),
{
    crate::events::lemma_key_code_injective(key, other);
}

/// Recording a button leaves the other two buttons as they were, and the
/// recorded one down exactly when it was pressed.
pub proof fn law_button_read_after_write(b: MouseButtons, button: MouseButton, state: KeyState)
    ensures
        button == MouseButton::Left ==> buttons_after(b, button, state).left == (state
            == KeyState::Pressed),
        button != MouseButton::Left ==> buttons_after(b, button, state).left == b.left,
        button == MouseButton::Right ==> buttons_after(b, button, state).right == (state
            == KeyState::Pressed),
        button != MouseButton::Right ==> buttons_after(b, button, state).right == b.right,
        button == MouseButton::Middle ==> buttons_after(b, button, state).middle == (state
            == KeyState::Pressed),
        button != MouseButton::Middle ==> buttons_after(b, button, state).middle == b.middle,
{
}

} // verus!
