use vstd::prelude::*;

verus! {

/// A grid position with a sample value.
#[derive(Debug, Clone, Copy, PartialEq, Eq, Structural)]
pub struct Pixel {
    pub x: u32,
    pub y: u32,
    pub value: i32,
}

} // verus!
