//! Corner selectors: the bijection between a tuple of one boolean per axis
//! ("is this child on the upper half of the axis") and the integer index of
//! a child in a node's fixed family of 8 (octree) or 4 (quadtree) children.

use vstd::prelude::*;

verus! {

/// Index of one of the 8 children of an octree node.
#[derive(Clone, Copy, PartialEq, Eq, Structural, Debug)]
pub struct CubeCorner(pub usize);

/// The integer index that a tuple of per-axis booleans selects.
pub open spec fn cube_index_of(bx: bool, by: bool, bz: bool) -> int {
    (if bx { 1int } else { 0int }) + (if by { 2int } else { 0int }) + (if bz { 4int } else { 0int })
}

impl CubeCorner {
    pub open spec fn wf(self) -> bool {
        self.0 < 8
    }

    /// Boolean of axis 0 encoded in this index.
    pub open spec fn bit_x(self) -> bool {
        self.0 % 2 == 1
    }

    /// Boolean of axis 1 encoded in this index.
    pub open spec fn bit_y(self) -> bool {
        (self.0 / 2) % 2 == 1
    }

    /// Boolean of axis 2 encoded in this index.
    pub open spec fn bit_z(self) -> bool {
        (self.0 / 4) % 2 == 1
    }

    /// The tuple of per-axis booleans encoded in this index.
    pub fn bools(self) -> (r: [bool; 3])
        ensures
            r@ == seq![self.bit_x(), self.bit_y(), self.bit_z()],
    {
        let r = [self.0 % 2 == 1, (self.0 / 2) % 2 == 1, (self.0 / 4) % 2 == 1];
        proof {
            assert(r@ =~= seq![self.bit_x(), self.bit_y(), self.bit_z()]);
        }
        r
    }

    /// The index that a tuple of per-axis booleans selects.
    pub fn from_bools(b: [bool; 3]) -> (r: CubeCorner)
        ensures
            r.0 == cube_index_of(b@[0], b@[1], b@[2]),
            r.wf(),
    {
        let i: usize = (if b[0] { 1 } else { 0 }) + (if b[1] { 2 } else { 0 }) + (if b[2] {
            4
        } else {
            0
        });
        CubeCorner(i)
    }
}

/// Corner bijection, one direction: decoding the index built from a boolean
/// tuple gives the tuple back, for every one of the 8 tuples.
pub proof fn lemma_cube_corner_from_bools_roundtrip(bx: bool, by: bool, bz: bool)
    ensures
        CubeCorner(cube_index_of(bx, by, bz) as usize).bit_x() == bx,
        CubeCorner(cube_index_of(bx, by, bz) as usize).bit_y() == by,
        CubeCorner(cube_index_of(bx, by, bz) as usize).bit_z() == bz,
{
}

/// Corner bijection, other direction: re-encoding the decoded boolean tuple
/// gives the index back, for every one of the 8 indices.
pub proof fn lemma_cube_corner_to_bools_roundtrip(c: CubeCorner)
    requires
        c.wf(),
    ensures
        cube_index_of(c.bit_x(), c.bit_y(), c.bit_z()) == c.0,
{
}

/// Index of one of the 4 children of a quadtree node.
#[derive(Clone, Copy, PartialEq, Eq, Structural, Debug)]
pub struct SquareCorner(pub usize);

/// The integer index that a pair of per-axis booleans selects.
pub open spec fn square_index_of(bx: bool, by: bool) -> int {
    (if bx { 1int } else { 0int }) + (if by { 2int } else { 0int })
}

impl SquareCorner {
    pub open spec fn wf(self) -> bool {
        self.0 < 4
    }

    /// Boolean of axis 0 encoded in this index.
    pub open spec fn bit_x(self) -> bool {
        self.0 % 2 == 1
    }

    /// Boolean of axis 1 encoded in this index.
    pub open spec fn bit_y(self) -> bool {
        (self.0 / 2) % 2 == 1
    }

    /// The pair of per-axis booleans encoded in this index.
    pub fn bools(self) -> (r: [bool; 2])
        ensures
            r@ == seq![self.bit_x(), self.bit_y()],
    {
        let r = [self.0 % 2 == 1, (self.0 / 2) % 2 == 1];
        proof {
            assert(r@ =~= seq![self.bit_x(), self.bit_y()]);
        }
        r
    }

    /// The index that a pair of per-axis booleans selects.
    pub fn from_bools(b: [bool; 2]) -> (r: SquareCorner)
        ensures
            r.0 == square_index_of(b@[0], b@[1]),
            r.wf(),
    {
        let i: usize = (if b[0] { 1 } else { 0 }) + (if b[1] { 2 } else { 0 });
        SquareCorner(i)
    }
}

/// Corner bijection for the 4-child form, one direction.
pub proof fn lemma_square_corner_from_bools_roundtrip(bx: bool, by: bool)
    ensures
        SquareCorner(square_index_of(bx, by) as usize).bit_x() == bx,
        SquareCorner(square_index_of(bx, by) as usize).bit_y() == by,
{
}

/// Corner bijection for the 4-child form, other direction.
pub proof fn lemma_square_corner_to_bools_roundtrip(c: SquareCorner)
    requires
        c.wf(),
    ensures
        square_index_of(c.bit_x(), c.bit_y()) == c.0,
{
}

} // verus!
