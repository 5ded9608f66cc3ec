//! The keyboard as the game sees it.

use crate::player::{PlayerControls, PlayerKey};
use std::collections::HashMap;
use vstd::prelude::*;

verus! {

/// The scan codes of the keys that steer the player.
pub const MOVE_FORWARD: u32 = 17;

pub const MOVE_LEFT: u32 = 30;

pub const MOVE_BACKWARD: u32 = 31;

pub const MOVE_RIGHT: u32 = 32;

pub const MOVE_UP: u32 = 57;

pub const MOVE_DOWN: u32 = 42;

pub const CONTROL: u32 = 29;

pub const PHYSICS_ENABLE: u32 = 25;

/// Holds the keyboard state.
pub struct KeyboardState {
    /// `true` is pressed, `false` is released
    map: HashMap<u32, bool>,
}

impl KeyboardState {
    /// Whether the key with scan code `keycode` is held down.
    pub closed spec fn pressed_spec(&self, keycode: u32) -> bool {
        self.map@.contains_key(keycode) && self.map@[keycode]
    }

    /// No key is held down.
    pub fn new() -> (r: KeyboardState)
        ensures
            forall|k: u32| !r.pressed_spec(k),
    {
        KeyboardState { map: HashMap::new() }
    }

    pub fn is_key_pressed(&self, keycode: u32) -> (r: bool)
        ensures
            r == self.pressed_spec(keycode),
    {
        match self.map.get(&keycode) {
            Some(pressed) => *pressed,
            None => false,
        }
    }

    /// Notes that the key with scan code `keycode` went down or up.
    pub fn update_key(&mut self, keycode: u32, pressed: bool)
        ensures
            forall|k: u32|
                final(self).pressed_spec(k) == (if k == keycode {
                    pressed
                } else {
                    old(self).pressed_spec(k)
                }),
    {
        self.map.insert(keycode, pressed);
    }

    /// Forgets every key.
    pub fn clear(&mut self)
        ensures
            forall|k: u32| !final(self).pressed_spec(k),
    {
        self.map.clear();
    }

    /// The controls that the keys held down and the mouse button amount to.
    pub fn controls(&self, mouse_pressed: bool) -> (r: PlayerControls)
        ensures
            r.has(PlayerKey::Hit) == mouse_pressed,
            r.has(PlayerKey::Forward) == self.pressed_spec(MOVE_FORWARD),
            r.has(PlayerKey::Left) == self.pressed_spec(MOVE_LEFT),
            r.has(PlayerKey::Backward) == self.pressed_spec(MOVE_BACKWARD),
            r.has(PlayerKey::Right) == self.pressed_spec(MOVE_RIGHT),
            r.has(PlayerKey::Up) == self.pressed_spec(MOVE_UP),
            r.has(PlayerKey::Down) == self.pressed_spec(MOVE_DOWN),
            r.has(PlayerKey::Control) == self.pressed_spec(CONTROL),
            !r.has(PlayerKey::PhysicsEnable),
    {
        let mut mask = PlayerControls::mouse(mouse_pressed);
        if self.is_key_pressed(MOVE_FORWARD) {
            mask.insert(PlayerKey::Forward);
        }
        if self.is_key_pressed(MOVE_LEFT) {
            mask.insert(PlayerKey::Left);
        }
        if self.is_key_pressed(MOVE_BACKWARD) {
            mask.insert(PlayerKey::Backward);
        }
        if self.is_key_pressed(MOVE_RIGHT) {
            mask.insert(PlayerKey::Right);
        }
        if self.is_key_pressed(MOVE_UP) {
            mask.insert(PlayerKey::Up);
        }
        if self.is_key_pressed(MOVE_DOWN) {
            mask.insert(PlayerKey::Down);
        }
        if self.is_key_pressed(CONTROL) {
            mask.insert(PlayerKey::Control);
        }
        mask
    }
}

} // verus!
