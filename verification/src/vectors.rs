use vstd::prelude::*;

verus! {

/// A 2D integer grid coordinate.
#[derive(Clone, Copy, PartialEq, Eq, Structural, Debug, Hash)]
pub struct Vector2I {
    pub x: i32,
    pub y: i32,
}

/// Mathematical absolute value.
pub open spec fn abs_int(i: int) -> int {
    if i < 0 { -i } else { i }
}

impl Vector2I {
    /// Manhattan (taxicab) distance between two grid cells.
    pub open spec fn spec_manhattan(self, other: Vector2I) -> int {
        abs_int(self.x - other.x) + abs_int(self.y - other.y)
    }

    pub fn new(x: i32, y: i32) -> (v: Vector2I)
        ensures
            v.x == x,
            v.y == y,
    {
        Vector2I { x, y }
    }

    /// Component-wise sum; the caller must rule overflow out.
    pub fn plus(self, other: Vector2I) -> (r: Vector2I)
        requires
            i32::MIN <= self.x + other.x <= i32::MAX,
            i32::MIN <= self.y + other.y <= i32::MAX,
        ensures
            r.x == self.x + other.x,
            r.y == self.y + other.y,
    {
        Vector2I { x: self.x + other.x, y: self.y + other.y }
    }

    /// Manhattan distance, widened so that no input can overflow.
    pub fn manhattan(self, other: Vector2I) -> (d: i64)
        ensures
            d == self.spec_manhattan(other),
    {
        let dx: i64 = (self.x as i64) - (other.x as i64);
        let dy: i64 = (self.y as i64) - (other.y as i64);
        let adx: i64 = if dx < 0 { -dx } else { dx };
        let ady: i64 = if dy < 0 { -dy } else { dy };
        adx + ady
    }
}

} // verus!
