//! Axis-aligned boxes in 3-dimensional integer space.

use crate::vec3::V3;
use vstd::prelude::*;

verus! {

/// An axis-aligned box given by its two extreme corners.
#[derive(Clone, Copy, PartialEq, Eq, Structural, Debug)]
pub struct Range {
    pub smaller_corner: V3,
    pub greater_corner: V3,
}

impl Range {
    /// Each coordinate of the smaller corner at or below the matching
    /// coordinate of the greater one. Degenerate (zero-extent) boxes are
    /// legal; they contain no point.
    pub open spec fn wf(self) -> bool {
        &&& self.smaller_corner.x <= self.greater_corner.x
        &&& self.smaller_corner.y <= self.greater_corner.y
        &&& self.smaller_corner.z <= self.greater_corner.z
    }

    /// Strict containment on every axis: boundary points are outside.
    pub open spec fn spec_contain(self, p: V3) -> bool {
        &&& self.smaller_corner.x < p.x < self.greater_corner.x
        &&& self.smaller_corner.y < p.y < self.greater_corner.y
        &&& self.smaller_corner.z < p.z < self.greater_corner.z
    }

    pub fn new(smaller_corner: V3, greater_corner: V3) -> (r: Range)
        ensures
            r == (Range { smaller_corner, greater_corner }),
    {
        Range { smaller_corner, greater_corner }
    }

    /// Whether the box contains a point, with strict inequality on both
    /// bounds of every axis.
    pub fn contain(&self, p: V3) -> (r: bool)
        ensures
            r == self.spec_contain(p),
    {
        let x_good = self.smaller_corner.x < p.x && p.x < self.greater_corner.x;
        let y_good = self.smaller_corner.y < p.y && p.y < self.greater_corner.y;
        let z_good = self.smaller_corner.z < p.z && p.z < self.greater_corner.z;
        x_good && y_good && z_good
    }

    /// Whether the cut of two boxes has strictly positive extent on every
    /// axis: per axis, the greater of the lower bounds stays below the
    /// smaller of the upper bounds.
    pub open spec fn overlap_positive(self, other: Range) -> bool {
        &&& (if self.smaller_corner.x >= other.smaller_corner.x {
            self.smaller_corner.x
        } else {
            other.smaller_corner.x
        }) < (if self.greater_corner.x <= other.greater_corner.x {
            self.greater_corner.x
        } else {
            other.greater_corner.x
        })
        &&& (if self.smaller_corner.y >= other.smaller_corner.y {
            self.smaller_corner.y
        } else {
            other.smaller_corner.y
        }) < (if self.greater_corner.y <= other.greater_corner.y {
            self.greater_corner.y
        } else {
            other.greater_corner.y
        })
        &&& (if self.smaller_corner.z >= other.smaller_corner.z {
            self.smaller_corner.z
        } else {
            other.smaller_corner.z
        }) < (if self.greater_corner.z <= other.greater_corner.z {
            self.greater_corner.z
        } else {
            other.greater_corner.z
        })
    }

    /// The common part of two boxes: per axis the greater of the lower
    /// bounds and the smaller of the upper bounds. A box comes back exactly
    /// when that cut has strictly positive extent on every axis, so a
    /// returned box is never degenerate, and a point lies in it exactly
    /// when it lies in both boxes.
    pub fn intersection(&self, other: &Range) -> (r: Option<Range>)
        ensures
            r is Some <==> self.overlap_positive(*other),
            match r {
                Some(range) => {
                    &&& range.smaller_corner.x == if self.smaller_corner.x >= other.smaller_corner.x
                        { self.smaller_corner.x } else { other.smaller_corner.x }
                    &&& range.smaller_corner.y == if self.smaller_corner.y >= other.smaller_corner.y
                        { self.smaller_corner.y } else { other.smaller_corner.y }
                    &&& range.smaller_corner.z == if self.smaller_corner.z >= other.smaller_corner.z
                        { self.smaller_corner.z } else { other.smaller_corner.z }
                    &&& range.greater_corner.x == if self.greater_corner.x <= other.greater_corner.x
                        { self.greater_corner.x } else { other.greater_corner.x }
                    &&& range.greater_corner.y == if self.greater_corner.y <= other.greater_corner.y
                        { self.greater_corner.y } else { other.greater_corner.y }
                    &&& range.greater_corner.z == if self.greater_corner.z <= other.greater_corner.z
                        { self.greater_corner.z } else { other.greater_corner.z }
                    &&& range.smaller_corner.x < range.greater_corner.x
                    &&& range.smaller_corner.y < range.greater_corner.y
                    &&& range.smaller_corner.z < range.greater_corner.z
                    &&& forall|p: V3| range.spec_contain(p) <==> self.spec_contain(p)
                        && other.spec_contain(p)
                },
                None => forall|p: V3| !(self.spec_contain(p) && other.spec_contain(p)),
            },
    {
        let s_x = if self.smaller_corner.x >= other.smaller_corner.x {
            self.smaller_corner.x
        } else {
            other.smaller_corner.x
        };
        let s_y = if self.smaller_corner.y >= other.smaller_corner.y {
            self.smaller_corner.y
        } else {
            other.smaller_corner.y
        };
        let s_z = if self.smaller_corner.z >= other.smaller_corner.z {
            self.smaller_corner.z
        } else {
            other.smaller_corner.z
        };
        let g_x = if self.greater_corner.x <= other.greater_corner.x {
            self.greater_corner.x
        } else {
            other.greater_corner.x
        };
        let g_y = if self.greater_corner.y <= other.greater_corner.y {
            self.greater_corner.y
        } else {
            other.greater_corner.y
        };
        let g_z = if self.greater_corner.z <= other.greater_corner.z {
            self.greater_corner.z
        } else {
            other.greater_corner.z
        };
        if s_x < g_x && s_y < g_y && s_z < g_z {
            Some(
                Range {
                    smaller_corner: V3 { x: s_x, y: s_y, z: s_z },
                    greater_corner: V3 { x: g_x, y: g_y, z: g_z },
                },
            )
        } else {
            None
        }
    }

    /// The extent of the box: greater corner minus smaller corner.
    pub fn diagonal(&self) -> (r: V3)
        requires
            self.smaller_corner.in_world(),
            self.greater_corner.in_world(),
        ensures
            r.x == self.greater_corner.x - self.smaller_corner.x,
            r.y == self.greater_corner.y - self.smaller_corner.y,
            r.z == self.greater_corner.z - self.smaller_corner.z,
    {
        self.greater_corner.sub(self.smaller_corner)
    }
}

} // verus!
