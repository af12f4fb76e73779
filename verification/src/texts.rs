use vstd::prelude::*;

verus! {

/// The placement of one rendered text inside the shared texture atlas:
/// its top-left and bottom-right corners, in pixels.
#[derive(Debug, Clone, Copy)]
pub struct ImageInfo {
    pub min: (u32, u32),
    pub max: (u32, u32),
}

} // verus!
