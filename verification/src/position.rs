use vstd::prelude::*;

verus! {

/// A block position in the world, on the integer grid.
#[derive(Debug, Clone, Copy, PartialEq, Eq, Structural)]
pub struct Position {
    pub x: i32,
    pub y: i32,
    pub z: i32,
}

/// Whether `place` can be held in a `Position`.
pub open spec fn place_fits(place: (int, int, int)) -> bool {
    &&& i32::MIN <= place.0 <= i32::MAX
    &&& i32::MIN <= place.1 <= i32::MAX
    &&& i32::MIN <= place.2 <= i32::MAX
}

impl Position {
    /// This position as three integers.
    pub open spec fn place(&self) -> (int, int, int) {
        (self.x as int, self.y as int, self.z as int)
    }

    /// The position `(x, y, z)`.
    pub fn new(x: i32, y: i32, z: i32) -> (p: Position)
        ensures
            p == (Position { x, y, z }),
    {
        Position { x, y, z }
    }
}

impl Default for Position {
    /// The world's zero point.
    fn default() -> (p: Position)
        ensures
            p == (Position { x: 0, y: 0, z: 0 }),
    {
        Position { x: 0, y: 0, z: 0 }
    }
}

} // verus!
