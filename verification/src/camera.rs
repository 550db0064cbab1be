//! The free camera's movement keys and the keyboard keys that drive them.
use vstd::prelude::*;

verus! {

/// Which movement keys of the free camera are held.
#[derive(Clone, Copy, PartialEq, Eq, Structural)]
pub struct FreecamKeys {
    pub forward: bool,
    pub backward: bool,
    pub left: bool,
    pub right: bool,
    pub up: bool,
    pub down: bool,
    pub fast: bool,
}

/// The keyboard keys the free camera listens to; every other key is `Other`.
#[derive(Clone, Copy, PartialEq, Eq, Structural, Debug)]
pub enum CameraKey {
    KeyW,
    ArrowUp,
    KeyS,
    ArrowDown,
    KeyA,
    ArrowLeft,
    KeyD,
    ArrowRight,
    Space,
    ShiftLeft,
    ShiftRight,
    ControlLeft,
    ControlRight,
    Other,
}

impl FreecamKeys {
    /// No key held.
    pub fn new() -> (k: Self)
        ensures
            !k.forward && !k.backward && !k.left && !k.right && !k.up && !k.down && !k.fast,
    {
        FreecamKeys {
            forward: false,
            backward: false,
            left: false,
            right: false,
            up: false,
            down: false,
            fast: false,
        }
    }

    /// Records that `key` went down (`pressed`) or up (see `after_key`).
    pub fn handle_key(&mut self, key: CameraKey, pressed: bool)
        ensures
            *final(self) == after_key(*old(self), key, pressed),
    {
        match key {
            CameraKey::KeyW | CameraKey::ArrowUp => self.forward = pressed,
            CameraKey::KeyS | CameraKey::ArrowDown => self.backward = pressed,
            CameraKey::KeyA | CameraKey::ArrowLeft => self.left = pressed,
            CameraKey::KeyD | CameraKey::ArrowRight => self.right = pressed,
            CameraKey::Space => self.up = pressed,
            CameraKey::ShiftLeft | CameraKey::ShiftRight => self.down = pressed,
            CameraKey::ControlLeft | CameraKey::ControlRight => self.fast = pressed,
            CameraKey::Other => {},
        }
    }
}

/// The held keys after `key` went down (`pressed`) or up: W and the up arrow move
/// forward, S and the down arrow back, A and the left arrow left, D and the right arrow
/// right, space up, either shift down, and either control key makes the camera fast;
/// any other key changes nothing.
pub open spec fn after_key(k: FreecamKeys, key: CameraKey, pressed: bool) -> FreecamKeys {
    match key {
        CameraKey::KeyW | CameraKey::ArrowUp => FreecamKeys { forward: pressed, ..k },
        CameraKey::KeyS | CameraKey::ArrowDown => FreecamKeys { backward: pressed, ..k },
        CameraKey::KeyA | CameraKey::ArrowLeft => FreecamKeys { left: pressed, ..k },
        CameraKey::KeyD | CameraKey::ArrowRight => FreecamKeys { right: pressed, ..k },
        CameraKey::Space => FreecamKeys { up: pressed, ..k },
        CameraKey::ShiftLeft | CameraKey::ShiftRight => FreecamKeys { down: pressed, ..k },
        CameraKey::ControlLeft | CameraKey::ControlRight => FreecamKeys { fast: pressed, ..k },
        CameraKey::Other => k,
    }
}

/// Only the last event of a key counts: a press then a release leaves what the release
/// alone leaves, and when the key's motion was not held before, the keys are as they
/// were.
pub proof fn lemma_press_release_restores(k: FreecamKeys, key: CameraKey)
    ensures
        after_key(after_key(k, key, true), key, false) == after_key(k, key, false),
        after_key(after_key(k, key, false), key, true) == after_key(k, key, true),
        !k.forward && !k.backward && !k.left && !k.right && !k.up && !k.down && !k.fast
            ==> after_key(after_key(k, key, true), key, false) == k,
{
}

} // verus!
