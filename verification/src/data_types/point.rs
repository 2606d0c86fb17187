use crate::data_types::number::Float;
use vstd::prelude::*;

verus! {

/// A point of the plane, or a vector from the origin to it.
#[derive(Clone, Copy, Debug, PartialEq, Eq, Structural)]
pub struct Point {
    pub x: Float,
    pub y: Float,
}

impl Point {
    /// The point with the given coordinates.
    pub fn new(x: Float, y: Float) -> (point: Self)
        ensures
            point.x == x,
            point.y == y,
    {
        Self { x, y }
    }

    /// The coordinates as an array, `x` first.
    pub fn to_array(&self) -> (coordinates: [Float; 2])
        ensures
            coordinates@ == seq![self.x, self.y],
    {
        let coordinates = [self.x, self.y];
        assert(coordinates@ =~= seq![self.x, self.y]);
        coordinates
    }

    /// The vector turned a quarter turn to the left: `(y, -x)`.
    pub fn to_perpendicular_left(&self) -> (point: Self)
        ensures
            point.x == self.y,
            point.y.bits == self.x.bits ^ 0x8000_0000u32,
    {
        Self::new(self.y, self.x.negated())
    }

    /// The vector turned a quarter turn to the right: `(-y, x)`.
    pub fn to_perpendicular_right(&self) -> (point: Self)
        ensures
            point.x.bits == self.y.bits ^ 0x8000_0000u32,
            point.y == self.x,
    {
        Self::new(self.y.negated(), self.x)
    }
}

impl Default for Point {
    /// The origin.
    fn default() -> (point: Self)
        ensures
            point.x.bits == 0,
            point.y.bits == 0,
    {
        Point { x: Float { bits: 0 }, y: Float { bits: 0 } }
    }
}

} // verus!
