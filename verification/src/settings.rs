use vstd::prelude::*;

verus! {

/// Feature toggles for the world's optional parts.
#[derive(Debug, Clone, Copy, PartialEq, Eq, Structural)]
pub struct Settings {
    pub sky_enabled: bool,
    pub box_enabled: bool,
    pub triangle_enabled: bool,
    pub letters_enabled: bool,
    pub dog_enabled: bool,
    pub lap_enabled: bool,
}

} // verus!
