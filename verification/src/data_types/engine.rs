use crate::data_types::number::Float;
use vstd::prelude::*;

verus! {

/// A colour with red, green, blue and alpha channels.
#[derive(Clone, Copy, Debug, PartialEq, Eq, Structural)]
pub struct Color {
    pub r: Float,
    pub g: Float,
    pub b: Float,
    pub a: Float,
}

impl Color {
    /// The colour with the given channels.
    pub fn new(r: Float, g: Float, b: Float, a: Float) -> (color: Self)
        ensures
            color.r == r,
            color.g == g,
            color.b == b,
            color.a == a,
    {
        Self { r, g, b, a }
    }
}

/// A key of the keyboard, by the number that the game engine gives it.
#[derive(Clone, Copy, Debug, PartialEq, Eq, Structural)]
pub struct KeyCode {
    pub code: u32,
}

/// A mesh that the game engine has built. The engine keeps the mesh; the
/// world keeps the number under which the engine's owner finds it again.
#[derive(Clone, Copy, Debug, PartialEq, Eq, Structural)]
pub struct Mesh {
    pub handle: u64,
}

/// A piece of laid-out text that the game engine has built, by its handle.
#[derive(Clone, Copy, Debug, PartialEq, Eq, Structural)]
pub struct Text {
    pub handle: u64,
}

/// Decoded sound data that the game engine holds, by its handle.
#[derive(Clone, Copy, Debug, PartialEq, Eq, Structural)]
pub struct SoundData {
    pub handle: u64,
}

} // verus!
