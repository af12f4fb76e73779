use vstd::prelude::*;

verus! {

/// What the camera-control keys currently steer.
#[derive(Debug, Copy, Clone, PartialEq, Eq, Structural)]
pub enum Mode {
    MoveCameraPos,
    MoveCameraFront,
    MoveCameraUp,
}

impl Mode {
    /// The mode that follows `m` in the fixed cycle.
    pub open spec fn spec_next(m: Mode) -> Mode {
        match m {
            Mode::MoveCameraUp => Mode::MoveCameraPos,
            Mode::MoveCameraPos => Mode::MoveCameraFront,
            Mode::MoveCameraFront => Mode::MoveCameraUp,
        }
    }

    /// Cycle to the next camera-control mode.
    pub fn next(&self) -> (r: Mode)
        ensures
            r == Mode::spec_next(*self),
    {
        match self {
            Mode::MoveCameraUp => Mode::MoveCameraPos,
            Mode::MoveCameraPos => Mode::MoveCameraFront,
            Mode::MoveCameraFront => Mode::MoveCameraUp,
        }
    }
}

} // verus!
