use vstd::prelude::*;

verus! {

/// The keys that steer the player; every other key is `Other`.
#[derive(Clone, Copy, Debug, PartialEq, Eq, Structural)]
pub enum MovementKey {
    W,
    A,
    S,
    D,
    Space,
    Other,
}

/// Which movement keys are held down.
#[derive(Clone, Copy, Debug, PartialEq, Eq, Structural)]
pub struct PlayerInput {
    pub w: bool,
    pub a: bool,
    pub s: bool,
    pub d: bool,
    pub space: bool,
}

impl Default for PlayerInput {
    fn default() -> (input: Self)
        ensures
            !input.w && !input.a && !input.s && !input.d && !input.space,
    {
        PlayerInput { w: false, a: false, s: false, d: false, space: false }
    }
}

impl PlayerInput {
    /// Records that `key` was pressed (`pressed`) or released: the key's flag takes
    /// the new state, every other flag stays; other keys change nothing.
    pub fn handle_input(&mut self, key: MovementKey, pressed: bool)
        ensures
            final(self).w == if key == MovementKey::W { pressed } else { old(self).w },
            final(self).a == if key == MovementKey::A { pressed } else { old(self).a },
            final(self).s == if key == MovementKey::S { pressed } else { old(self).s },
            final(self).d == if key == MovementKey::D { pressed } else { old(self).d },
            final(self).space == if key == MovementKey::Space { pressed } else { old(self).space },
    {
        match key {
            MovementKey::W => {
                self.w = pressed;
            },
            MovementKey::S => {
                self.s = pressed;
            },
            MovementKey::A => {
                self.a = pressed;
            },
            MovementKey::D => {
                self.d = pressed;
            },
            MovementKey::Space => {
                self.space = pressed;
            },
            MovementKey::Other => {},
        }
    }
}

} // verus!
