use vstd::prelude::*;

verus! {

/// A sink for the game's sound effects; the audio backend implements it.
pub trait Sounds {
    fn play(&mut self);
}

/// A `Sounds` implementation that stays silent.
pub struct NoSounds {}

impl NoSounds {
    pub fn new() -> (r: NoSounds) {
        NoSounds {}
    }
}

impl Sounds for NoSounds {
    fn play(&mut self) {
    }
}

} // verus!
