use vstd::prelude::*;

verus! {

/// A color that the terminal reported.
#[derive(Debug, Clone, Copy, PartialEq, Eq, Structural)]
pub enum Color {
    Rgb { r: u8, g: u8, b: u8 },
}

} // verus!
