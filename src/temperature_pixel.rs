use vstd::prelude::*;

verus! {

/// A sample of the temperature grid with its position: column `x`, row `y`,
/// and its value in thousandths of a degree Celsius.
#[derive(Debug, Clone, Copy, PartialEq, Eq, Structural)]
pub struct TemperaturPixel {
    pub x: u32,
    pub y: u32,
    pub value: i32,
}

} // verus!
