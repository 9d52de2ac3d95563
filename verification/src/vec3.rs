//! Integer 3-vectors: the coordinate type of the subdivision engine.

use vstd::prelude::*;

verus! {

/// Greatest coordinate magnitude the engine accepts. Keeping every
/// coordinate within this bound keeps each squared distance, and the
/// products of squared distances that cell classification compares,
/// inside `i128`.
pub const WORLD_BOUND: i64 = 0x1000_0000;

/// Squared Euclidean distance between two points, as an unbounded integer.
pub open spec fn dist_sq(a: V3, b: V3) -> int {
    (a.x - b.x) * (a.x - b.x) + (a.y - b.y) * (a.y - b.y) + (a.z - b.z) * (a.z - b.z)
}

/// A point or extent in 3-dimensional integer space.
#[derive(Clone, Copy, PartialEq, Eq, Structural, Debug)]
pub struct V3 {
    pub x: i64,
    pub y: i64,
    pub z: i64,
}

impl V3 {
    /// All coordinates within the world bound.
    pub open spec fn in_world(self) -> bool {
        &&& -WORLD_BOUND <= self.x <= WORLD_BOUND
        &&& -WORLD_BOUND <= self.y <= WORLD_BOUND
        &&& -WORLD_BOUND <= self.z <= WORLD_BOUND
    }

    /// All coordinates non-negative: the shape of an extent.
    pub open spec fn non_negative(self) -> bool {
        0 <= self.x && 0 <= self.y && 0 <= self.z
    }

    /// Squared Euclidean norm, as an unbounded integer.
    pub open spec fn norm_sq(self) -> int {
        self.x * self.x + self.y * self.y + self.z * self.z
    }

    /// Mathematical component-wise sum.
    pub open spec fn spec_add(self, other: V3) -> (int, int, int) {
        (self.x + other.x, self.y + other.y, self.z + other.z)
    }

    pub fn new(x: i64, y: i64, z: i64) -> (r: V3)
        ensures
            r == (V3 { x, y, z }),
    {
        V3 { x, y, z }
    }

    pub fn add(self, other: V3) -> (r: V3)
        requires
            i64::MIN <= self.x + other.x <= i64::MAX,
            i64::MIN <= self.y + other.y <= i64::MAX,
            i64::MIN <= self.z + other.z <= i64::MAX,
        ensures
            r.x == self.x + other.x,
            r.y == self.y + other.y,
            r.z == self.z + other.z,
    {
        V3 { x: self.x + other.x, y: self.y + other.y, z: self.z + other.z }
    }

    pub fn sub(self, other: V3) -> (r: V3)
        requires
            i64::MIN <= self.x - other.x <= i64::MAX,
            i64::MIN <= self.y - other.y <= i64::MAX,
            i64::MIN <= self.z - other.z <= i64::MAX,
        ensures
            r.x == self.x - other.x,
            r.y == self.y - other.y,
            r.z == self.z - other.z,
    {
        V3 { x: self.x - other.x, y: self.y - other.y, z: self.z - other.z }
    }

    /// Component-wise halving of a non-negative extent.
    pub fn half(self) -> (r: V3)
        requires
            self.non_negative(),
        ensures
            r.x == self.x / 2,
            r.y == self.y / 2,
            r.z == self.z / 2,
            r.non_negative(),
    {
        V3 { x: self.x / 2, y: self.y / 2, z: self.z / 2 }
    }
}

} // verus!
