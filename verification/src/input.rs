use vstd::prelude::*;

verus! {

/// Whether a key went down or came back up.
#[derive(Debug, PartialEq, Eq, Structural)]
pub enum MyKeyStatus {
    Pressed,
    Released,
}

/// Event raised when the game asks to quit.
#[derive(Debug)]
pub struct GameWantsExitEvent {}

impl Default for GameWantsExitEvent {
    fn default() -> (r: GameWantsExitEvent) {
        GameWantsExitEvent {}
    }
}

/// Which movement keys are currently held down.
#[derive(Debug, PartialEq, Eq, Structural)]
pub struct KeyboardState {
    pub a: bool,
    pub d: bool,
    pub w: bool,
    pub s: bool,
    pub q: bool,
    pub e: bool,
    pub z: bool,
    pub x: bool,
    pub c: bool,
    pub cmd: bool,
}

impl KeyboardState {
    /// The state with no key held.
    pub open spec fn spec_released() -> KeyboardState {
        KeyboardState {
            a: false,
            d: false,
            w: false,
            s: false,
            q: false,
            e: false,
            z: false,
            x: false,
            c: false,
            cmd: false,
        }
    }
}

impl Default for KeyboardState {
    fn default() -> (r: KeyboardState)
        ensures
            r == KeyboardState::spec_released(),
    {
        KeyboardState {
            a: false,
            d: false,
            w: false,
            s: false,
            q: false,
            e: false,
            z: false,
            x: false,
            c: false,
            cmd: false,
        }
    }
}

} // verus!
