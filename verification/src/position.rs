//! Grid positions: integer pairs with component-wise addition and
//! subtraction. `x` grows to the right, `y` grows downward.

use vstd::prelude::*;

verus! {

/// A cell coordinate on (or off) the board: `(x, y)`.
#[derive(Debug, Clone, Copy, PartialEq, Eq, Structural, Hash, PartialOrd, Ord)]
pub struct Position(pub i32, pub i32);

impl Position {
    /// Component-wise sum of two positions.
    pub fn plus(self, other: Position) -> (r: Position)
        requires
            i32::MIN <= self.0 + other.0 <= i32::MAX,
            i32::MIN <= self.1 + other.1 <= i32::MAX,
        ensures
            r.0 == self.0 + other.0,
            r.1 == self.1 + other.1,
    {
        Position(self.0 + other.0, self.1 + other.1)
    }

    /// Component-wise difference of two positions.
    pub fn minus(self, other: Position) -> (r: Position)
        requires
            i32::MIN <= self.0 - other.0 <= i32::MAX,
            i32::MIN <= self.1 - other.1 <= i32::MAX,
        ensures
            r.0 == self.0 - other.0,
            r.1 == self.1 - other.1,
    {
        Position(self.0 - other.0, self.1 - other.1)
    }
}

} // verus!
