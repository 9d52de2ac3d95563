//! The octree region classifier: a recursive 8-way partition of a box that
//! classifies every sub-cube as completely outside a shape, completely
//! inside it, or a boundary leaf, and that supports pointwise Boolean
//! composition of two classifications with automatic collapsing of uniform
//! subtrees.

use crate::arith::lemma_mul_bound;
use crate::range::Range;
use crate::shape::{in_ball, Shape, ShapeClass, Sphere};
use crate::vec3::{V3, WORLD_BOUND};
use vstd::prelude::*;

verus! {

/// Which side of the shape's surface a region lies on.
#[derive(Clone, Copy, PartialEq, Eq, Structural, Debug)]
pub enum NodeState {
    Inside,
    Outside,
}

impl NodeState {
    /// The other side.
    pub open spec fn spec_opposite(self) -> NodeState {
        match self {
            NodeState::Inside => NodeState::Outside,
            NodeState::Outside => NodeState::Inside,
        }
    }

    /// The other side.
    pub fn opposite(self) -> (r: NodeState)
        ensures
            r == self.spec_opposite(),
    {
        match self {
            NodeState::Inside => NodeState::Outside,
            NodeState::Outside => NodeState::Inside,
        }
    }
}

impl Default for NodeState {
    fn default() -> (r: NodeState)
        ensures
            r == NodeState::Outside,
    {
        NodeState::Outside
    }
}

/// A node of the classifier: a whole sub-cube on one side of the surface,
/// a boundary leaf carrying its id, or eight children.
#[derive(PartialEq, Eq, Debug)]
pub enum Node {
    Completely(NodeState),
    Boundary(u32),
    Sub(Box<Children>),
}

/// The eight children of a subdivided node, one per corner index: child
/// `k` sits at the corner whose per-axis booleans are the bits of `k`.
#[derive(PartialEq, Eq, Debug)]
pub struct Children {
    pub c0: Node,
    pub c1: Node,
    pub c2: Node,
    pub c3: Node,
    pub c4: Node,
    pub c5: Node,
    pub c6: Node,
    pub c7: Node,
}

/// All eight children are the same terminal state.
pub open spec fn uniform(ch: Children) -> bool {
    &&& ch.c0 matches Node::Completely(s)
    &&& ch.c1 == Node::Completely(s)
    &&& ch.c2 == Node::Completely(s)
    &&& ch.c3 == Node::Completely(s)
    &&& ch.c4 == Node::Completely(s)
    &&& ch.c5 == Node::Completely(s)
    &&& ch.c6 == Node::Completely(s)
    &&& ch.c7 == Node::Completely(s)
}

/// Replace a family of eight children that agree on one terminal state by
/// that state; keep the subdivision otherwise.
pub open spec fn collapse_spec(ch: Children) -> Node {
    if uniform(ch) {
        ch.c0
    } else {
        Node::Sub(Box::new(ch))
    }
}

impl Node {
    /// The terminal state of a node, if it has one.
    pub open spec fn spec_get_state(self) -> Option<NodeState> {
        match self {
            Node::Completely(s) => Some(s),
            _ => None,
        }
    }

    /// The terminal state of a node, if it has one.
    pub fn get_state(&self) -> (r: Option<NodeState>)
        ensures
            r == self.spec_get_state(),
    {
        match self {
            Node::Completely(s) => Some(*s),
            _ => None,
        }
    }

    /// No subdivided node anywhere in the tree has all eight children in
    /// the same terminal state.
    pub open spec fn collapsed(self) -> bool
        decreases self,
    {
        match self {
            Node::Sub(ch) => {
                &&& !uniform(*ch)
                &&& ch.c0.collapsed()
                &&& ch.c1.collapsed()
                &&& ch.c2.collapsed()
                &&& ch.c3.collapsed()
                &&& ch.c4.collapsed()
                &&& ch.c5.collapsed()
                &&& ch.c6.collapsed()
                &&& ch.c7.collapsed()
            },
            _ => true,
        }
    }
}

/// Equality of two classifications: same structure and same terminal
/// states everywhere, with boundary leaves agreeing as boundary leaves
/// whatever their ids.
pub open spec fn same_class(a: Node, b: Node) -> bool
    decreases a,
{
    match (a, b) {
        (Node::Completely(x), Node::Completely(y)) => x == y,
        (Node::Boundary(_), Node::Boundary(_)) => true,
        (Node::Sub(ca), Node::Sub(cb)) => {
            &&& same_class(ca.c0, cb.c0)
            &&& same_class(ca.c1, cb.c1)
            &&& same_class(ca.c2, cb.c2)
            &&& same_class(ca.c3, cb.c3)
            &&& same_class(ca.c4, cb.c4)
            &&& same_class(ca.c5, cb.c5)
            &&& same_class(ca.c6, cb.c6)
            &&& same_class(ca.c7, cb.c7)
        },
        _ => false,
    }
}

/// Pointwise union of two classifications of one cube: a point is inside
/// the union when it is inside either operand. An `Outside` operand gives
/// the other tree, an `Inside` operand wins, a boundary leaf stands for
/// the surface and wins over subdivisions, and two subdivisions combine
/// child by child and then collapse if uniform.
pub open spec fn union_spec(a: Node, b: Node) -> Node
    decreases a, b,
{
    match (a, b) {
        (Node::Sub(ca), Node::Sub(cb)) => collapse_spec(
            Children {
                c0: union_spec(ca.c0, cb.c0),
                c1: union_spec(ca.c1, cb.c1),
                c2: union_spec(ca.c2, cb.c2),
                c3: union_spec(ca.c3, cb.c3),
                c4: union_spec(ca.c4, cb.c4),
                c5: union_spec(ca.c5, cb.c5),
                c6: union_spec(ca.c6, cb.c6),
                c7: union_spec(ca.c7, cb.c7),
            },
        ),
        (Node::Completely(NodeState::Outside), _) => b,
        (_, Node::Completely(NodeState::Outside)) => a,
        (Node::Completely(NodeState::Inside), _) => Node::Completely(NodeState::Inside),
        (_, Node::Completely(NodeState::Inside)) => Node::Completely(NodeState::Inside),
        (Node::Boundary(i), _) => Node::Boundary(i),
        (_, Node::Boundary(i)) => Node::Boundary(i),
    }
}

/// Pointwise intersection, the mirror of `union_spec`: an `Inside`
/// operand gives the other tree and an `Outside` operand wins.
pub open spec fn inter_spec(a: Node, b: Node) -> Node
    decreases a, b,
{
    match (a, b) {
        (Node::Sub(ca), Node::Sub(cb)) => collapse_spec(
            Children {
                c0: inter_spec(ca.c0, cb.c0),
                c1: inter_spec(ca.c1, cb.c1),
                c2: inter_spec(ca.c2, cb.c2),
                c3: inter_spec(ca.c3, cb.c3),
                c4: inter_spec(ca.c4, cb.c4),
                c5: inter_spec(ca.c5, cb.c5),
                c6: inter_spec(ca.c6, cb.c6),
                c7: inter_spec(ca.c7, cb.c7),
            },
        ),
        (Node::Completely(NodeState::Inside), _) => b,
        (_, Node::Completely(NodeState::Inside)) => a,
        (Node::Completely(NodeState::Outside), _) => Node::Completely(NodeState::Outside),
        (_, Node::Completely(NodeState::Outside)) => Node::Completely(NodeState::Outside),
        (Node::Boundary(i), _) => Node::Boundary(i),
        (_, Node::Boundary(i)) => Node::Boundary(i),
    }
}

/// Pointwise complement: terminal states swap sides, boundary leaves keep
/// their approximation unchanged, subdivisions recurse.
pub open spec fn not_spec(a: Node) -> Node
    decreases a,
{
    match a {
        Node::Sub(ch) => Node::Sub(
            Box::new(
                Children {
                    c0: not_spec(ch.c0),
                    c1: not_spec(ch.c1),
                    c2: not_spec(ch.c2),
                    c3: not_spec(ch.c3),
                    c4: not_spec(ch.c4),
                    c5: not_spec(ch.c5),
                    c6: not_spec(ch.c6),
                    c7: not_spec(ch.c7),
                },
            ),
        ),
        Node::Completely(s) => Node::Completely(s.spec_opposite()),
        Node::Boundary(i) => Node::Boundary(i),
    }
}

impl Node {
    /// Collapse a freshly combined family of children.
    fn collapse(ch: Children) -> (r: Node)
        ensures
            r == collapse_spec(ch),
    {
        let is_uniform: bool = match (
            &ch.c0,
            &ch.c1,
            &ch.c2,
            &ch.c3,
            &ch.c4,
            &ch.c5,
            &ch.c6,
            &ch.c7,
        ) {
            (
                Node::Completely(s0),
                Node::Completely(s1),
                Node::Completely(s2),
                Node::Completely(s3),
                Node::Completely(s4),
                Node::Completely(s5),
                Node::Completely(s6),
                Node::Completely(s7),
            ) => {
                let same = *s1 == *s0 && *s2 == *s0 && *s3 == *s0 && *s4 == *s0 && *s5 == *s0 && *s6
                    == *s0 && *s7 == *s0;
                same
            },
            _ => false,
        };
        if is_uniform {
            ch.c0
        } else {
            Node::Sub(Box::new(ch))
        }
    }

    /// Union of two classifications of the same cube.
    pub fn union(a: Node, b: Node) -> (r: Node)
        ensures
            r == union_spec(a, b),
        decreases a, b,
    {
        match (a, b) {
            (Node::Sub(ca), Node::Sub(cb)) => {
                let ca = *ca;
                let cb = *cb;
                Node::collapse(
                    Children {
                        c0: Node::union(ca.c0, cb.c0),
                        c1: Node::union(ca.c1, cb.c1),
                        c2: Node::union(ca.c2, cb.c2),
                        c3: Node::union(ca.c3, cb.c3),
                        c4: Node::union(ca.c4, cb.c4),
                        c5: Node::union(ca.c5, cb.c5),
                        c6: Node::union(ca.c6, cb.c6),
                        c7: Node::union(ca.c7, cb.c7),
                    },
                )
            },
            (Node::Completely(NodeState::Outside), b2) => b2,
            (a2, Node::Completely(NodeState::Outside)) => a2,
            (Node::Completely(NodeState::Inside), _) => Node::Completely(NodeState::Inside),
            (_, Node::Completely(NodeState::Inside)) => Node::Completely(NodeState::Inside),
            (Node::Boundary(i), _) => Node::Boundary(i),
            (_, Node::Boundary(i)) => Node::Boundary(i),
        }
    }

    /// Intersection of two classifications of the same cube.
    pub fn inter(a: Node, b: Node) -> (r: Node)
        ensures
            r == inter_spec(a, b),
        decreases a, b,
    {
        match (a, b) {
            (Node::Sub(ca), Node::Sub(cb)) => {
                let ca = *ca;
                let cb = *cb;
                Node::collapse(
                    Children {
                        c0: Node::inter(ca.c0, cb.c0),
                        c1: Node::inter(ca.c1, cb.c1),
                        c2: Node::inter(ca.c2, cb.c2),
                        c3: Node::inter(ca.c3, cb.c3),
                        c4: Node::inter(ca.c4, cb.c4),
                        c5: Node::inter(ca.c5, cb.c5),
                        c6: Node::inter(ca.c6, cb.c6),
                        c7: Node::inter(ca.c7, cb.c7),
                    },
                )
            },
            (Node::Completely(NodeState::Inside), b2) => b2,
            (a2, Node::Completely(NodeState::Inside)) => a2,
            (Node::Completely(NodeState::Outside), _) => Node::Completely(NodeState::Outside),
            (_, Node::Completely(NodeState::Outside)) => Node::Completely(NodeState::Outside),
            (Node::Boundary(i), _) => Node::Boundary(i),
            (_, Node::Boundary(i)) => Node::Boundary(i),
        }
    }

    /// Complement of a classification.
    pub fn not(self) -> (r: Node)
        ensures
            r == not_spec(self),
        decreases self,
    {
        match self {
            Node::Sub(ch) => {
                let ch = *ch;
                Node::Sub(
                    Box::new(
                        Children {
                            c0: ch.c0.not(),
                            c1: ch.c1.not(),
                            c2: ch.c2.not(),
                            c3: ch.c3.not(),
                            c4: ch.c4.not(),
                            c5: ch.c5.not(),
                            c6: ch.c6.not(),
                            c7: ch.c7.not(),
                        },
                    ),
                )
            },
            Node::Completely(s) => Node::Completely(s.opposite()),
            Node::Boundary(i) => Node::Boundary(i),
        }
    }
}

/// Eighth powers: how many boundary leaves a tree of a given depth can at
/// most hold.
pub open spec fn pow8(d: nat) -> nat
    decreases d,
{
    if d == 0 {
        1
    } else {
        8 * pow8((d - 1) as nat)
    }
}

/// A cube given by its smaller corner and half-extent, with every corner
/// inside the world bound.
pub open spec fn cube_wf(corner: V3, half: V3) -> bool {
    &&& corner.in_world()
    &&& half.in_world()
    &&& half.non_negative()
    &&& corner.x + 2 * half.x <= WORLD_BOUND
    &&& corner.y + 2 * half.y <= WORLD_BOUND
    &&& corner.z + 2 * half.z <= WORLD_BOUND
}

/// The half-extent can be halved exactly `depth` more times: every level
/// of the subdivision then tiles its parent cube exactly.
pub open spec fn tiles(half: V3, depth: nat) -> bool
    decreases depth,
{
    if depth == 0 {
        true
    } else {
        &&& half.x % 2 == 0
        &&& half.y % 2 == 0
        &&& half.z % 2 == 0
        &&& tiles(half_extent(half), (depth - 1) as nat)
    }
}

/// The half-extent one level down.
pub open spec fn half_extent(half: V3) -> V3 {
    V3 { x: (half.x / 2) as i64, y: (half.y / 2) as i64, z: (half.z / 2) as i64 }
}

/// The smaller corner of the child at corner index `i` of the cube at
/// `corner` with half-extent `half`.
pub open spec fn child_corner(corner: V3, half: V3, i: int) -> V3 {
    V3 {
        x: (corner.x + if i % 2 == 1 {
            half.x as int
        } else {
            0int
        }) as i64,
        y: (corner.y + if (i / 2) % 2 == 1 {
            half.y as int
        } else {
            0int
        }) as i64,
        z: (corner.z + if (i / 4) % 2 == 1 {
            half.z as int
        } else {
            0int
        }) as i64,
    }
}

/// The center of the cube at `corner` with half-extent `half`.
pub open spec fn cube_center(corner: V3, half: V3) -> V3 {
    V3 {
        x: (corner.x + half.x) as i64,
        y: (corner.y + half.y) as i64,
        z: (corner.z + half.z) as i64,
    }
}

/// Closed membership in the cube at `corner` with half-extent `half`.
pub open spec fn in_cube(corner: V3, half: V3, p: V3) -> bool {
    &&& corner.x <= p.x <= corner.x + 2 * half.x
    &&& corner.y <= p.y <= corner.y + 2 * half.y
    &&& corner.z <= p.z <= corner.z + 2 * half.z
}

/// The corner of the child selected by one boolean per axis: the given
/// corner, moved by the half-extent on each axis whose boolean is set.
pub fn sub_corner(corner_pos: V3, half_size: V3, corner: [bool; 3]) -> (r: V3)
    requires
        corner_pos.in_world(),
        half_size.in_world(),
    ensures
        r.x == corner_pos.x + if corner@[0] {
            half_size.x as int
        } else {
            0int
        },
        r.y == corner_pos.y + if corner@[1] {
            half_size.y as int
        } else {
            0int
        },
        r.z == corner_pos.z + if corner@[2] {
            half_size.z as int
        } else {
            0int
        },
{
    V3 {
        x: if corner[0] {
            corner_pos.x + half_size.x
        } else {
            corner_pos.x
        },
        y: if corner[1] {
            corner_pos.y + half_size.y
        } else {
            corner_pos.y
        },
        z: if corner[2] {
            corner_pos.z + half_size.z
        } else {
            corner_pos.z
        },
    }
}

/// Every point of a cube lies in the closed ball around the cube's center
/// whose radius is the norm of the half-extent.
pub proof fn lemma_cube_in_ball(corner: V3, half: V3, center: V3, p: V3)
    requires
        half.non_negative(),
        center.x == corner.x + half.x,
        center.y == corner.y + half.y,
        center.z == corner.z + half.z,
        in_cube(corner, half, p),
    ensures
        in_ball(center, half, p),
{
    lemma_mul_bound(p.x - center.x, p.x - center.x, half.x as int, half.x as int);
    lemma_mul_bound(p.y - center.y, p.y - center.y, half.y as int, half.y as int);
    lemma_mul_bound(p.z - center.z, p.z - center.z, half.z as int, half.z as int);
}

/// When the half-extent is even, the eight children tile the parent: every
/// point of the parent cube lies in some child cube.
pub proof fn lemma_cube_split(corner: V3, half: V3, p: V3) -> (i: int)
    requires
        half.non_negative(),
        half.x % 2 == 0,
        half.y % 2 == 0,
        half.z % 2 == 0,
        in_cube(corner, half, p),
    ensures
        0 <= i < 8,
        in_cube(child_corner(corner, half, i), half_extent(half), p),
{
    let bx = p.x > corner.x + half.x;
    let by = p.y > corner.y + half.y;
    let bz = p.z > corner.z + half.z;
    let i = (if bx {
        1int
    } else {
        0int
    }) + (if by {
        2int
    } else {
        0int
    }) + (if bz {
        4int
    } else {
        0int
    });
    assert(i % 2 == 1 <==> bx);
    assert((i / 2) % 2 == 1 <==> by);
    assert((i / 4) % 2 == 1 <==> bz);
    i
}

/// Soundness of a classification with respect to a shape: every point of
/// a cube classified `Outside` lies outside the shape, every point of a
/// cube classified `Inside` lies inside it. Boundary leaves promise
/// nothing.
pub open spec fn region_sound<S: Shape>(shape: S, n: Node, corner: V3, half: V3) -> bool
    decreases n,
{
    match n {
        Node::Completely(NodeState::Outside) => forall|p: V3|
            #[trigger] in_cube(corner, half, p) ==> !shape.inside(p),
        Node::Completely(NodeState::Inside) => forall|p: V3|
            #[trigger] in_cube(corner, half, p) ==> shape.inside(p),
        Node::Boundary(_) => true,
        Node::Sub(ch) => {
            &&& region_sound(shape, ch.c0, child_corner(corner, half, 0), half_extent(half))
            &&& region_sound(shape, ch.c1, child_corner(corner, half, 1), half_extent(half))
            &&& region_sound(shape, ch.c2, child_corner(corner, half, 2), half_extent(half))
            &&& region_sound(shape, ch.c3, child_corner(corner, half, 3), half_extent(half))
            &&& region_sound(shape, ch.c4, child_corner(corner, half, 4), half_extent(half))
            &&& region_sound(shape, ch.c5, child_corner(corner, half, 5), half_extent(half))
            &&& region_sound(shape, ch.c6, child_corner(corner, half, 6), half_extent(half))
            &&& region_sound(shape, ch.c7, child_corner(corner, half, 7), half_extent(half))
        },
    }
}

/// Structural agreement with the depth budget: a subdivision only where
/// depth remains, a boundary leaf only where it has run out.
pub open spec fn well_depthed(n: Node, depth: nat) -> bool
    decreases n,
{
    match n {
        Node::Completely(_) => true,
        Node::Boundary(_) => depth == 0,
        Node::Sub(ch) => {
            &&& depth > 0
            &&& well_depthed(ch.c0, (depth - 1) as nat)
            &&& well_depthed(ch.c1, (depth - 1) as nat)
            &&& well_depthed(ch.c2, (depth - 1) as nat)
            &&& well_depthed(ch.c3, (depth - 1) as nat)
            &&& well_depthed(ch.c4, (depth - 1) as nat)
            &&& well_depthed(ch.c5, (depth - 1) as nat)
            &&& well_depthed(ch.c6, (depth - 1) as nat)
            &&& well_depthed(ch.c7, (depth - 1) as nat)
        },
    }
}

/// The run of `n` consecutive ids starting at `start`.
pub open spec fn id_run(start: int, n: nat) -> Seq<u32> {
    Seq::new(n, |k: int| (start + k) as u32)
}

/// Two adjacent runs of consecutive ids concatenate to one run.
pub proof fn lemma_id_run_concat(start: int, n: nat, m: nat)
    ensures
        id_run(start, n) + id_run(start + n, m) == id_run(start, n + m),
{
    assert(id_run(start, n) + id_run(start + n, m) =~= id_run(start, n + m));
}

/// The ids of the boundary leaves of a tree, in traversal order.
pub open spec fn boundary_ids(n: Node) -> Seq<u32>
    decreases n,
{
    match n {
        Node::Completely(_) => seq![],
        Node::Boundary(i) => seq![i],
        Node::Sub(ch) => boundary_ids(ch.c0) + boundary_ids(ch.c1) + boundary_ids(ch.c2)
            + boundary_ids(ch.c3) + boundary_ids(ch.c4) + boundary_ids(ch.c5) + boundary_ids(
            ch.c6,
        ) + boundary_ids(ch.c7),
    }
}

/// A family of eight sound children whose common terminal state covers
/// the whole parent cube, when the children tile it.
proof fn lemma_collapse_sound<S: Shape>(shape: S, ch: Children, corner: V3, half: V3)
    requires
        half.non_negative(),
        half.x % 2 == 0,
        half.y % 2 == 0,
        half.z % 2 == 0,
        uniform(ch),
        region_sound(shape, ch.c0, child_corner(corner, half, 0), half_extent(half)),
        region_sound(shape, ch.c1, child_corner(corner, half, 1), half_extent(half)),
        region_sound(shape, ch.c2, child_corner(corner, half, 2), half_extent(half)),
        region_sound(shape, ch.c3, child_corner(corner, half, 3), half_extent(half)),
        region_sound(shape, ch.c4, child_corner(corner, half, 4), half_extent(half)),
        region_sound(shape, ch.c5, child_corner(corner, half, 5), half_extent(half)),
        region_sound(shape, ch.c6, child_corner(corner, half, 6), half_extent(half)),
        region_sound(shape, ch.c7, child_corner(corner, half, 7), half_extent(half)),
    ensures
        region_sound(shape, collapse_spec(ch), corner, half),
{
    let s = ch.c0->Completely_0;
    assert(collapse_spec(ch) == Node::Completely(s));
    if s is Outside {
        assert forall|p: V3| #[trigger] in_cube(corner, half, p) implies !shape.inside(p) by {
            let i = lemma_cube_split(corner, half, p);
            let cc = child_corner(corner, half, i);
            let h2 = half_extent(half);
            if i == 0 {
                assert(region_sound(shape, ch.c0, cc, h2));
            } else if i == 1 {
                assert(region_sound(shape, ch.c1, cc, h2));
            } else if i == 2 {
                assert(region_sound(shape, ch.c2, cc, h2));
            } else if i == 3 {
                assert(region_sound(shape, ch.c3, cc, h2));
            } else if i == 4 {
                assert(region_sound(shape, ch.c4, cc, h2));
            } else if i == 5 {
                assert(region_sound(shape, ch.c5, cc, h2));
            } else if i == 6 {
                assert(region_sound(shape, ch.c6, cc, h2));
            } else {
                assert(region_sound(shape, ch.c7, cc, h2));
            }
        }
    } else {
        assert forall|p: V3| #[trigger] in_cube(corner, half, p) implies shape.inside(p) by {
            let i = lemma_cube_split(corner, half, p);
            let cc = child_corner(corner, half, i);
            let h2 = half_extent(half);
            if i == 0 {
                assert(region_sound(shape, ch.c0, cc, h2));
            } else if i == 1 {
                assert(region_sound(shape, ch.c1, cc, h2));
            } else if i == 2 {
                assert(region_sound(shape, ch.c2, cc, h2));
            } else if i == 3 {
                assert(region_sound(shape, ch.c3, cc, h2));
            } else if i == 4 {
                assert(region_sound(shape, ch.c4, cc, h2));
            } else if i == 5 {
                assert(region_sound(shape, ch.c5, cc, h2));
            } else if i == 6 {
                assert(region_sound(shape, ch.c6, cc, h2));
            } else {
                assert(region_sound(shape, ch.c7, cc, h2));
            }
        }
    }
}

impl Node {
    /// Build the classification of the cube at `corner` with half-extent
    /// `half`, with `depth` further levels allowed. The closed ball around
    /// the cube's center is classified first: away from the surface the
    /// cell terminates at once whatever depth remains, and a distance
    /// exactly equal to the half-diagonal counts as away. At the surface
    /// the cell subdivides while depth remains; when it runs out the cell
    /// becomes a boundary leaf with the next fresh id. A subdivision whose
    /// eight children agree on one terminal state collapses to that state,
    /// so the returned tree is always collapsed. The returned counter is
    /// the first id still unused; the tree's boundary ids are exactly the
    /// run from `next_id` up to it, in traversal order.
    #[verifier::rlimit(60)]
    pub fn approximate<S: Shape>(
        shape: &S,
        corner: V3,
        half: V3,
        depth: u8,
        next_id: u32,
    ) -> (r: (Node, u32))
        requires
            shape.sh_wf(),
            cube_wf(corner, half),
            tiles(half, depth as nat),
            next_id + pow8(depth as nat) <= u32::MAX,
        ensures
            region_sound(*shape, r.0, corner, half),
            r.0.collapsed(),
            well_depthed(r.0, depth as nat),
            shape.classify_spec(cube_center(corner, half), half) is Outside ==> r.0
                == Node::Completely(NodeState::Outside),
            shape.classify_spec(cube_center(corner, half), half) is Inside ==> r.0
                == Node::Completely(NodeState::Inside),
            boundary_ids(r.0).len() <= pow8(depth as nat),
            r.1 == next_id + boundary_ids(r.0).len(),
            boundary_ids(r.0) == id_run(next_id as int, boundary_ids(r.0).len()),
        decreases depth,
    {
        let center = corner.add(half);
        let class = shape.classify(center, half);
        match class {
            ShapeClass::Outside => {
                proof {
                    assert forall|p: V3| #[trigger] in_cube(corner, half, p) implies !shape.inside(
                        p,
                    ) by {
                        lemma_cube_in_ball(corner, half, center, p);
                    }
                    assert(boundary_ids(Node::Completely(NodeState::Outside)) =~= id_run(
                        next_id as int,
                        0,
                    ));
                }
                (Node::Completely(NodeState::Outside), next_id)
            },
            ShapeClass::Inside => {
                proof {
                    assert forall|p: V3| #[trigger] in_cube(corner, half, p) implies shape.inside(
                        p,
                    ) by {
                        lemma_cube_in_ball(corner, half, center, p);
                    }
                    assert(boundary_ids(Node::Completely(NodeState::Inside)) =~= id_run(
                        next_id as int,
                        0,
                    ));
                }
                (Node::Completely(NodeState::Inside), next_id)
            },
            ShapeClass::Straddle => {
                if depth == 0 {
                    proof {
                        assert(boundary_ids(Node::Boundary(next_id)) =~= id_run(next_id as int, 1));
                    }
                    (Node::Boundary(next_id), next_id + 1)
                } else {
                    let h2 = half.half();
                    proof {
                        assert(h2 == half_extent(half));
                        assert(tiles(h2, (depth - 1) as nat));
                        assert(pow8(depth as nat) == 8 * pow8((depth - 1) as nat));
                    }
                    let cc0 = sub_corner(corner, half, [false, false, false]);
                    let cc1 = sub_corner(corner, half, [true, false, false]);
                    let cc2 = sub_corner(corner, half, [false, true, false]);
                    let cc3 = sub_corner(corner, half, [true, true, false]);
                    let cc4 = sub_corner(corner, half, [false, false, true]);
                    let cc5 = sub_corner(corner, half, [true, false, true]);
                    let cc6 = sub_corner(corner, half, [false, true, true]);
                    let cc7 = sub_corner(corner, half, [true, true, true]);
                    proof {
                        assert(cc0 == child_corner(corner, half, 0));
                        assert(cc1 == child_corner(corner, half, 1));
                        assert(cc2 == child_corner(corner, half, 2));
                        assert(cc3 == child_corner(corner, half, 3));
                        assert(cc4 == child_corner(corner, half, 4));
                        assert(cc5 == child_corner(corner, half, 5));
                        assert(cc6 == child_corner(corner, half, 6));
                        assert(cc7 == child_corner(corner, half, 7));
                        assert(cube_wf(cc0, h2) && cube_wf(cc1, h2) && cube_wf(cc2, h2) && cube_wf(
                            cc3,
                            h2,
                        ) && cube_wf(cc4, h2) && cube_wf(cc5, h2) && cube_wf(cc6, h2) && cube_wf(
                            cc7,
                            h2,
                        ));
                    }
                    let (n0, id1) = Node::approximate(shape, cc0, h2, depth - 1, next_id);
                    let (n1, id2) = Node::approximate(shape, cc1, h2, depth - 1, id1);
                    let (n2, id3) = Node::approximate(shape, cc2, h2, depth - 1, id2);
                    let (n3, id4) = Node::approximate(shape, cc3, h2, depth - 1, id3);
                    let (n4, id5) = Node::approximate(shape, cc4, h2, depth - 1, id4);
                    let (n5, id6) = Node::approximate(shape, cc5, h2, depth - 1, id5);
                    let (n6, id7) = Node::approximate(shape, cc6, h2, depth - 1, id6);
                    let (n7, id8) = Node::approximate(shape, cc7, h2, depth - 1, id7);
                    let ghost s0 = boundary_ids(n0);
                    let ghost s1 = boundary_ids(n1);
                    let ghost s2 = boundary_ids(n2);
                    let ghost s3 = boundary_ids(n3);
                    let ghost s4 = boundary_ids(n4);
                    let ghost s5 = boundary_ids(n5);
                    let ghost s6 = boundary_ids(n6);
                    let ghost s7 = boundary_ids(n7);
                    let ch = Children { c0: n0, c1: n1, c2: n2, c3: n3, c4: n4, c5: n5, c6: n6, c7: n7 };
                    let node = Node::collapse(ch);
                    proof {
                        let start = next_id as int;
                        lemma_id_run_concat(start, s0.len(), s1.len());
                        lemma_id_run_concat(start, s0.len() + s1.len(), s2.len());
                        lemma_id_run_concat(start, s0.len() + s1.len() + s2.len(), s3.len());
                        lemma_id_run_concat(
                            start,
                            s0.len() + s1.len() + s2.len() + s3.len(),
                            s4.len(),
                        );
                        lemma_id_run_concat(
                            start,
                            s0.len() + s1.len() + s2.len() + s3.len() + s4.len(),
                            s5.len(),
                        );
                        lemma_id_run_concat(
                            start,
                            s0.len() + s1.len() + s2.len() + s3.len() + s4.len() + s5.len(),
                            s6.len(),
                        );
                        lemma_id_run_concat(
                            start,
                            s0.len() + s1.len() + s2.len() + s3.len() + s4.len() + s5.len()
                                + s6.len(),
                            s7.len(),
                        );
                        let all = s0 + s1 + s2 + s3 + s4 + s5 + s6 + s7;
                        assert(all == id_run(start, all.len()));
                        if uniform(ch) {
                            lemma_collapse_sound(*shape, ch, corner, half);
                            assert(s0 =~= Seq::<u32>::empty());
                            assert(s1 =~= Seq::<u32>::empty());
                            assert(s2 =~= Seq::<u32>::empty());
                            assert(s3 =~= Seq::<u32>::empty());
                            assert(s4 =~= Seq::<u32>::empty());
                            assert(s5 =~= Seq::<u32>::empty());
                            assert(s6 =~= Seq::<u32>::empty());
                            assert(s7 =~= Seq::<u32>::empty());
                            assert(boundary_ids(node) =~= id_run(start, 0));
                        } else {
                            assert(node == Node::Sub(Box::new(ch)));
                            assert(boundary_ids(node) == all);
                        }
                    }
                    (node, id8)
                }
            },
        }
    }
}

/// The eight complemented children.
pub open spec fn not_children(ch: Children) -> Children {
    Children {
        c0: not_spec(ch.c0),
        c1: not_spec(ch.c1),
        c2: not_spec(ch.c2),
        c3: not_spec(ch.c3),
        c4: not_spec(ch.c4),
        c5: not_spec(ch.c5),
        c6: not_spec(ch.c6),
        c7: not_spec(ch.c7),
    }
}

/// No leaf of the tree is a cube completely outside: the classification
/// covers its whole range with inside cubes and boundary leaves.
pub open spec fn no_outside_leaf(n: Node) -> bool
    decreases n,
{
    match n {
        Node::Completely(s) => s is Inside,
        Node::Boundary(_) => true,
        Node::Sub(ch) => {
            &&& no_outside_leaf(ch.c0)
            &&& no_outside_leaf(ch.c1)
            &&& no_outside_leaf(ch.c2)
            &&& no_outside_leaf(ch.c3)
            &&& no_outside_leaf(ch.c4)
            &&& no_outside_leaf(ch.c5)
            &&& no_outside_leaf(ch.c6)
            &&& no_outside_leaf(ch.c7)
        },
    }
}

impl Node {
    /// Whether two classifications agree everywhere, boundary ids aside.
    pub fn eq_class(a: &Node, b: &Node) -> (r: bool)
        ensures
            r == same_class(*a, *b),
        decreases a,
    {
        match (a, b) {
            (Node::Completely(x), Node::Completely(y)) => *x == *y,
            (Node::Boundary(_), Node::Boundary(_)) => true,
            (Node::Sub(ca), Node::Sub(cb)) => Node::eq_class(&ca.c0, &cb.c0) && Node::eq_class(
                &ca.c1,
                &cb.c1,
            ) && Node::eq_class(&ca.c2, &cb.c2) && Node::eq_class(&ca.c3, &cb.c3) && Node::eq_class(
                &ca.c4,
                &cb.c4,
            ) && Node::eq_class(&ca.c5, &cb.c5) && Node::eq_class(&ca.c6, &cb.c6) && Node::eq_class(
                &ca.c7,
                &cb.c7,
            ),
            _ => false,
        }
    }
}

/// Every classification is equal to itself, boundary ids included.
pub proof fn lemma_same_class_refl(n: Node)
    ensures
        same_class(n, n),
    decreases n,
{
    match n {
        Node::Sub(ch) => {
            lemma_same_class_refl(ch.c0);
            lemma_same_class_refl(ch.c1);
            lemma_same_class_refl(ch.c2);
            lemma_same_class_refl(ch.c3);
            lemma_same_class_refl(ch.c4);
            lemma_same_class_refl(ch.c5);
            lemma_same_class_refl(ch.c6);
            lemma_same_class_refl(ch.c7);
        },
        _ => {},
    }
}

/// Collapsing preserves classification equality: families whose children
/// classify alike collapse to trees that classify alike.
proof fn lemma_collapse_same_class(ca: Children, cb: Children)
    requires
        same_class(ca.c0, cb.c0),
        same_class(ca.c1, cb.c1),
        same_class(ca.c2, cb.c2),
        same_class(ca.c3, cb.c3),
        same_class(ca.c4, cb.c4),
        same_class(ca.c5, cb.c5),
        same_class(ca.c6, cb.c6),
        same_class(ca.c7, cb.c7),
    ensures
        same_class(collapse_spec(ca), collapse_spec(cb)),
{
    if uniform(ca) {
        assert(uniform(cb));
    } else {
        assert(!uniform(cb));
    }
}

/// Union is commutative up to boundary ids: combining in either order
/// classifies every cell alike.
pub proof fn lemma_union_comm(a: Node, b: Node)
    ensures
        same_class(union_spec(a, b), union_spec(b, a)),
    decreases a, b,
{
    match (a, b) {
        (Node::Sub(ca), Node::Sub(cb)) => {
            lemma_union_comm(ca.c0, cb.c0);
            lemma_union_comm(ca.c1, cb.c1);
            lemma_union_comm(ca.c2, cb.c2);
            lemma_union_comm(ca.c3, cb.c3);
            lemma_union_comm(ca.c4, cb.c4);
            lemma_union_comm(ca.c5, cb.c5);
            lemma_union_comm(ca.c6, cb.c6);
            lemma_union_comm(ca.c7, cb.c7);
            lemma_collapse_same_class(
                Children {
                    c0: union_spec(ca.c0, cb.c0),
                    c1: union_spec(ca.c1, cb.c1),
                    c2: union_spec(ca.c2, cb.c2),
                    c3: union_spec(ca.c3, cb.c3),
                    c4: union_spec(ca.c4, cb.c4),
                    c5: union_spec(ca.c5, cb.c5),
                    c6: union_spec(ca.c6, cb.c6),
                    c7: union_spec(ca.c7, cb.c7),
                },
                Children {
                    c0: union_spec(cb.c0, ca.c0),
                    c1: union_spec(cb.c1, ca.c1),
                    c2: union_spec(cb.c2, ca.c2),
                    c3: union_spec(cb.c3, ca.c3),
                    c4: union_spec(cb.c4, ca.c4),
                    c5: union_spec(cb.c5, ca.c5),
                    c6: union_spec(cb.c6, ca.c6),
                    c7: union_spec(cb.c7, ca.c7),
                },
            );
        },
        _ => {
            lemma_same_class_refl(union_spec(a, b));
            lemma_same_class_refl(a);
            lemma_same_class_refl(b);
        },
    }
}

/// Intersection is idempotent: intersecting a collapsed classification
/// with itself gives it back exactly, boundary ids included.
pub proof fn lemma_inter_self(a: Node)
    requires
        a.collapsed(),
    ensures
        inter_spec(a, a) == a,
    decreases a,
{
    match a {
        Node::Sub(ch) => {
            lemma_inter_self(ch.c0);
            lemma_inter_self(ch.c1);
            lemma_inter_self(ch.c2);
            lemma_inter_self(ch.c3);
            lemma_inter_self(ch.c4);
            lemma_inter_self(ch.c5);
            lemma_inter_self(ch.c6);
            lemma_inter_self(ch.c7);
            assert((Children {
                c0: inter_spec(ch.c0, ch.c0),
                c1: inter_spec(ch.c1, ch.c1),
                c2: inter_spec(ch.c2, ch.c2),
                c3: inter_spec(ch.c3, ch.c3),
                c4: inter_spec(ch.c4, ch.c4),
                c5: inter_spec(ch.c5, ch.c5),
                c6: inter_spec(ch.c6, ch.c6),
                c7: inter_spec(ch.c7, ch.c7),
            }) == *ch);
        },
        _ => {},
    }
}

/// Complementing commutes with collapsing.
proof fn lemma_not_collapse(ch: Children)
    ensures
        not_spec(collapse_spec(ch)) == collapse_spec(not_children(ch)),
{
    if uniform(ch) {
        assert(uniform(not_children(ch)));
    } else {
        if uniform(not_children(ch)) {
            let s = not_children(ch).c0->Completely_0;
            assert(ch.c0 == Node::Completely(s.spec_opposite()));
            assert(ch.c1 == Node::Completely(s.spec_opposite()));
            assert(ch.c2 == Node::Completely(s.spec_opposite()));
            assert(ch.c3 == Node::Completely(s.spec_opposite()));
            assert(ch.c4 == Node::Completely(s.spec_opposite()));
            assert(ch.c5 == Node::Completely(s.spec_opposite()));
            assert(ch.c6 == Node::Completely(s.spec_opposite()));
            assert(ch.c7 == Node::Completely(s.spec_opposite()));
            assert(uniform(ch));
        }
    }
}

/// De Morgan: the complement of a union is the intersection of the
/// complements, exactly, boundary ids included.
pub proof fn lemma_de_morgan(a: Node, b: Node)
    ensures
        not_spec(union_spec(a, b)) == inter_spec(not_spec(a), not_spec(b)),
    decreases a, b,
{
    match (a, b) {
        (Node::Sub(ca), Node::Sub(cb)) => {
            lemma_de_morgan(ca.c0, cb.c0);
            lemma_de_morgan(ca.c1, cb.c1);
            lemma_de_morgan(ca.c2, cb.c2);
            lemma_de_morgan(ca.c3, cb.c3);
            lemma_de_morgan(ca.c4, cb.c4);
            lemma_de_morgan(ca.c5, cb.c5);
            lemma_de_morgan(ca.c6, cb.c6);
            lemma_de_morgan(ca.c7, cb.c7);
            lemma_not_collapse(
                Children {
                    c0: union_spec(ca.c0, cb.c0),
                    c1: union_spec(ca.c1, cb.c1),
                    c2: union_spec(ca.c2, cb.c2),
                    c3: union_spec(ca.c3, cb.c3),
                    c4: union_spec(ca.c4, cb.c4),
                    c5: union_spec(ca.c5, cb.c5),
                    c6: union_spec(ca.c6, cb.c6),
                    c7: union_spec(ca.c7, cb.c7),
                },
            );
        },
        _ => {},
    }
}

/// A classification united with its own complement covers the whole
/// range: no leaf of the union is an outside cube.
pub proof fn lemma_union_complement_covers(a: Node)
    ensures
        no_outside_leaf(union_spec(a, not_spec(a))),
    decreases a,
{
    match a {
        Node::Sub(ch) => {
            lemma_union_complement_covers(ch.c0);
            lemma_union_complement_covers(ch.c1);
            lemma_union_complement_covers(ch.c2);
            lemma_union_complement_covers(ch.c3);
            lemma_union_complement_covers(ch.c4);
            lemma_union_complement_covers(ch.c5);
            lemma_union_complement_covers(ch.c6);
            lemma_union_complement_covers(ch.c7);
        },
        _ => {},
    }
}

/// Complementing keeps a classification collapsed.
pub proof fn lemma_not_collapsed(a: Node)
    requires
        a.collapsed(),
    ensures
        not_spec(a).collapsed(),
    decreases a,
{
    match a {
        Node::Sub(ch) => {
            lemma_not_collapsed(ch.c0);
            lemma_not_collapsed(ch.c1);
            lemma_not_collapsed(ch.c2);
            lemma_not_collapsed(ch.c3);
            lemma_not_collapsed(ch.c4);
            lemma_not_collapsed(ch.c5);
            lemma_not_collapsed(ch.c6);
            lemma_not_collapsed(ch.c7);
            lemma_not_collapse(*ch);
            assert(!uniform(not_children(*ch))) by {
                if uniform(not_children(*ch)) {
                    let s = not_children(*ch).c0->Completely_0;
                    assert(ch.c0 == Node::Completely(s.spec_opposite()));
                    assert(ch.c1 == Node::Completely(s.spec_opposite()));
                    assert(ch.c2 == Node::Completely(s.spec_opposite()));
                    assert(ch.c3 == Node::Completely(s.spec_opposite()));
                    assert(ch.c4 == Node::Completely(s.spec_opposite()));
                    assert(ch.c5 == Node::Completely(s.spec_opposite()));
                    assert(ch.c6 == Node::Completely(s.spec_opposite()));
                    assert(ch.c7 == Node::Completely(s.spec_opposite()));
                }
            }
        },
        _ => {},
    }
}

/// After a union of collapsed classifications, no subdivided node has all
/// eight children in the same terminal state.
pub proof fn lemma_union_collapsed(a: Node, b: Node)
    requires
        a.collapsed(),
        b.collapsed(),
    ensures
        union_spec(a, b).collapsed(),
    decreases a, b,
{
    match (a, b) {
        (Node::Sub(ca), Node::Sub(cb)) => {
            lemma_union_collapsed(ca.c0, cb.c0);
            lemma_union_collapsed(ca.c1, cb.c1);
            lemma_union_collapsed(ca.c2, cb.c2);
            lemma_union_collapsed(ca.c3, cb.c3);
            lemma_union_collapsed(ca.c4, cb.c4);
            lemma_union_collapsed(ca.c5, cb.c5);
            lemma_union_collapsed(ca.c6, cb.c6);
            lemma_union_collapsed(ca.c7, cb.c7);
        },
        _ => {},
    }
}

/// After an intersection of collapsed classifications, no subdivided node
/// has all eight children in the same terminal state.
pub proof fn lemma_inter_collapsed(a: Node, b: Node)
    requires
        a.collapsed(),
        b.collapsed(),
    ensures
        inter_spec(a, b).collapsed(),
    decreases a, b,
{
    match (a, b) {
        (Node::Sub(ca), Node::Sub(cb)) => {
            lemma_inter_collapsed(ca.c0, cb.c0);
            lemma_inter_collapsed(ca.c1, cb.c1);
            lemma_inter_collapsed(ca.c2, cb.c2);
            lemma_inter_collapsed(ca.c3, cb.c3);
            lemma_inter_collapsed(ca.c4, cb.c4);
            lemma_inter_collapsed(ca.c5, cb.c5);
            lemma_inter_collapsed(ca.c6, cb.c6);
            lemma_inter_collapsed(ca.c7, cb.c7);
        },
        _ => {},
    }
}

/// Open-interval overlap between the cube at `corner` with half-extent
/// `half` and the query box from `min` to `max`.
pub open spec fn overlaps(corner: V3, half: V3, min: V3, max: V3) -> bool {
    &&& corner.x < max.x && min.x < corner.x + 2 * half.x
    &&& corner.y < max.y && min.y < corner.y + 2 * half.y
    &&& corner.z < max.z && min.z < corner.z + 2 * half.z
}

/// The ids of the boundary leaves whose cell overlaps the query box, in
/// traversal order, with whole subtrees pruned as soon as their cube
/// misses the box.
pub open spec fn query_ids(n: Node, corner: V3, half: V3, min: V3, max: V3) -> Seq<u32>
    decreases n,
{
    if !overlaps(corner, half, min, max) {
        seq![]
    } else {
        match n {
            Node::Completely(_) => seq![],
            Node::Boundary(i) => seq![i],
            Node::Sub(ch) => {
                let h2 = half_extent(half);
                query_ids(ch.c0, child_corner(corner, half, 0), h2, min, max) + query_ids(
                    ch.c1,
                    child_corner(corner, half, 1),
                    h2,
                    min,
                    max,
                ) + query_ids(ch.c2, child_corner(corner, half, 2), h2, min, max) + query_ids(
                    ch.c3,
                    child_corner(corner, half, 3),
                    h2,
                    min,
                    max,
                ) + query_ids(ch.c4, child_corner(corner, half, 4), h2, min, max) + query_ids(
                    ch.c5,
                    child_corner(corner, half, 5),
                    h2,
                    min,
                    max,
                ) + query_ids(ch.c6, child_corner(corner, half, 6), h2, min, max) + query_ids(
                    ch.c7,
                    child_corner(corner, half, 7),
                    h2,
                    min,
                    max,
                )
            },
        }
    }
}

impl Node {
    /// Append to `points` the ids of the boundary leaves of this subtree
    /// whose cell overlaps the query box, descending into a child only
    /// when the child's cube overlaps it.
    #[verifier::rlimit(60)]
    pub fn find_id_in(&self, corner: V3, half: V3, min_p: V3, max_p: V3, points: &mut Vec<u32>)
        requires
            cube_wf(corner, half),
        ensures
            final(points)@ == old(points)@ + query_ids(*self, corner, half, min_p, max_p),
        decreases self,
    {
        let x_range = corner.x < max_p.x && min_p.x < corner.x + half.x + half.x;
        let y_range = corner.y < max_p.y && min_p.y < corner.y + half.y + half.y;
        let z_range = corner.z < max_p.z && min_p.z < corner.z + half.z + half.z;
        if x_range && y_range && z_range {
            match self {
                Node::Sub(ch) => {
                    let h2 = half.half();
                    let ghost old_points = points@;
                    let cc0 = sub_corner(corner, half, [false, false, false]);
                    let cc1 = sub_corner(corner, half, [true, false, false]);
                    let cc2 = sub_corner(corner, half, [false, true, false]);
                    let cc3 = sub_corner(corner, half, [true, true, false]);
                    let cc4 = sub_corner(corner, half, [false, false, true]);
                    let cc5 = sub_corner(corner, half, [true, false, true]);
                    let cc6 = sub_corner(corner, half, [false, true, true]);
                    let cc7 = sub_corner(corner, half, [true, true, true]);
                    proof {
                        assert(cc0 == child_corner(corner, half, 0));
                        assert(cc1 == child_corner(corner, half, 1));
                        assert(cc2 == child_corner(corner, half, 2));
                        assert(cc3 == child_corner(corner, half, 3));
                        assert(cc4 == child_corner(corner, half, 4));
                        assert(cc5 == child_corner(corner, half, 5));
                        assert(cc6 == child_corner(corner, half, 6));
                        assert(cc7 == child_corner(corner, half, 7));
                        assert(cube_wf(cc0, h2) && cube_wf(cc1, h2) && cube_wf(cc2, h2) && cube_wf(
                            cc3,
                            h2,
                        ) && cube_wf(cc4, h2) && cube_wf(cc5, h2) && cube_wf(cc6, h2) && cube_wf(
                            cc7,
                            h2,
                        ));
                    }
                    ch.c0.find_id_in(cc0, h2, min_p, max_p, points);
                    ch.c1.find_id_in(cc1, h2, min_p, max_p, points);
                    ch.c2.find_id_in(cc2, h2, min_p, max_p, points);
                    ch.c3.find_id_in(cc3, h2, min_p, max_p, points);
                    ch.c4.find_id_in(cc4, h2, min_p, max_p, points);
                    ch.c5.find_id_in(cc5, h2, min_p, max_p, points);
                    ch.c6.find_id_in(cc6, h2, min_p, max_p, points);
                    ch.c7.find_id_in(cc7, h2, min_p, max_p, points);
                    proof {
                        assert(points@ =~= old_points + query_ids(
                            *self,
                            corner,
                            half,
                            min_p,
                            max_p,
                        ));
                    }
                },
                Node::Boundary(i) => {
                    points.push(*i);
                    proof {
                        assert(points@ =~= old(points)@ + query_ids(
                            *self,
                            corner,
                            half,
                            min_p,
                            max_p,
                        ));
                    }
                },
                Node::Completely(_) => {
                    proof {
                        assert(points@ =~= old(points)@ + query_ids(
                            *self,
                            corner,
                            half,
                            min_p,
                            max_p,
                        ));
                    }
                },
            }
        } else {
            proof {
                assert(points@ =~= old(points)@ + query_ids(*self, corner, half, min_p, max_p));
            }
        }
    }
}

/// The centers of the boundary-leaf cells of a tree, in traversal order:
/// with the sequential ids that `approximate` hands out, the id of a
/// boundary leaf indexes its center in this sequence.
pub open spec fn boundary_centers(n: Node, corner: V3, half: V3) -> Seq<V3>
    decreases n,
{
    match n {
        Node::Completely(_) => seq![],
        Node::Boundary(_) => seq![
            V3 {
                x: (corner.x + half.x) as i64,
                y: (corner.y + half.y) as i64,
                z: (corner.z + half.z) as i64,
            },
        ],
        Node::Sub(ch) => {
            let h2 = half_extent(half);
            boundary_centers(ch.c0, child_corner(corner, half, 0), h2) + boundary_centers(
                ch.c1,
                child_corner(corner, half, 1),
                h2,
            ) + boundary_centers(ch.c2, child_corner(corner, half, 2), h2) + boundary_centers(
                ch.c3,
                child_corner(corner, half, 3),
                h2,
            ) + boundary_centers(ch.c4, child_corner(corner, half, 4), h2) + boundary_centers(
                ch.c5,
                child_corner(corner, half, 5),
                h2,
            ) + boundary_centers(ch.c6, child_corner(corner, half, 6), h2) + boundary_centers(
                ch.c7,
                child_corner(corner, half, 7),
                h2,
            )
        },
    }
}

/// A tree has exactly one center per boundary id.
pub proof fn lemma_centers_match_ids(n: Node, corner: V3, half: V3)
    ensures
        boundary_centers(n, corner, half).len() == boundary_ids(n).len(),
    decreases n,
{
    match n {
        Node::Sub(ch) => {
            let h2 = half_extent(half);
            lemma_centers_match_ids(ch.c0, child_corner(corner, half, 0), h2);
            lemma_centers_match_ids(ch.c1, child_corner(corner, half, 1), h2);
            lemma_centers_match_ids(ch.c2, child_corner(corner, half, 2), h2);
            lemma_centers_match_ids(ch.c3, child_corner(corner, half, 3), h2);
            lemma_centers_match_ids(ch.c4, child_corner(corner, half, 4), h2);
            lemma_centers_match_ids(ch.c5, child_corner(corner, half, 5), h2);
            lemma_centers_match_ids(ch.c6, child_corner(corner, half, 6), h2);
            lemma_centers_match_ids(ch.c7, child_corner(corner, half, 7), h2);
        },
        _ => {},
    }
}

impl Node {
    /// Append the centers of this subtree's boundary-leaf cells to
    /// `points`, in traversal order.
    pub fn boundary_centers_into(&self, corner: V3, half: V3, points: &mut Vec<V3>)
        requires
            cube_wf(corner, half),
        ensures
            final(points)@ == old(points)@ + boundary_centers(*self, corner, half),
        decreases self,
    {
        match self {
            Node::Sub(ch) => {
                let h2 = half.half();
                let ghost before = points@;
                let cc0 = sub_corner(corner, half, [false, false, false]);
                let cc1 = sub_corner(corner, half, [true, false, false]);
                let cc2 = sub_corner(corner, half, [false, true, false]);
                let cc3 = sub_corner(corner, half, [true, true, false]);
                let cc4 = sub_corner(corner, half, [false, false, true]);
                let cc5 = sub_corner(corner, half, [true, false, true]);
                let cc6 = sub_corner(corner, half, [false, true, true]);
                let cc7 = sub_corner(corner, half, [true, true, true]);
                proof {
                    assert(cc0 == child_corner(corner, half, 0));
                    assert(cc1 == child_corner(corner, half, 1));
                    assert(cc2 == child_corner(corner, half, 2));
                    assert(cc3 == child_corner(corner, half, 3));
                    assert(cc4 == child_corner(corner, half, 4));
                    assert(cc5 == child_corner(corner, half, 5));
                    assert(cc6 == child_corner(corner, half, 6));
                    assert(cc7 == child_corner(corner, half, 7));
                    assert(cube_wf(cc0, h2) && cube_wf(cc1, h2) && cube_wf(cc2, h2) && cube_wf(
                        cc3,
                        h2,
                    ) && cube_wf(cc4, h2) && cube_wf(cc5, h2) && cube_wf(cc6, h2) && cube_wf(
                        cc7,
                        h2,
                    ));
                }
                ch.c0.boundary_centers_into(cc0, h2, points);
                ch.c1.boundary_centers_into(cc1, h2, points);
                ch.c2.boundary_centers_into(cc2, h2, points);
                ch.c3.boundary_centers_into(cc3, h2, points);
                ch.c4.boundary_centers_into(cc4, h2, points);
                ch.c5.boundary_centers_into(cc5, h2, points);
                ch.c6.boundary_centers_into(cc6, h2, points);
                ch.c7.boundary_centers_into(cc7, h2, points);
                proof {
                    assert(points@ =~= before + boundary_centers(*self, corner, half));
                }
            },
            Node::Boundary(_) => {
                let center = corner.add(half);
                points.push(center);
                proof {
                    assert(points@ =~= old(points)@ + boundary_centers(*self, corner, half));
                }
            },
            Node::Completely(_) => {
                proof {
                    assert(points@ =~= old(points)@ + boundary_centers(*self, corner, half));
                }
            },
        }
    }
}

/// Half of a range's diagonal: the half-extent of the cube the octree
/// subdivides.
pub open spec fn range_half(range: Range) -> V3 {
    V3 {
        x: ((range.greater_corner.x - range.smaller_corner.x) / 2) as i64,
        y: ((range.greater_corner.y - range.smaller_corner.y) / 2) as i64,
        z: ((range.greater_corner.z - range.smaller_corner.z) / 2) as i64,
    }
}

/// The octree region classifier over a box of space.
pub struct Octree {
    pub range: Range,
    pub depth: u8,
    pub root: Node,
}

impl Octree {
    /// A usable tree: a valid in-world range whose extent is even on every
    /// axis, so that the root cube reproduces it exactly.
    pub open spec fn wf(self) -> bool {
        &&& self.range.wf()
        &&& self.range.smaller_corner.in_world()
        &&& self.range.greater_corner.in_world()
        &&& (self.range.greater_corner.x - self.range.smaller_corner.x) % 2 == 0
        &&& (self.range.greater_corner.y - self.range.smaller_corner.y) % 2 == 0
        &&& (self.range.greater_corner.z - self.range.smaller_corner.z) % 2 == 0
    }

    /// Build the classification of a shape over a box, subdividing at
    /// most `max_depth` times.
    pub fn approximate<S: Shape>(shape: &S, range: Range, max_depth: u8) -> (r: Octree)
        requires
            shape.sh_wf(),
            range.wf(),
            range.smaller_corner.in_world(),
            range.greater_corner.in_world(),
            (range.greater_corner.x - range.smaller_corner.x) % 2 == 0,
            (range.greater_corner.y - range.smaller_corner.y) % 2 == 0,
            (range.greater_corner.z - range.smaller_corner.z) % 2 == 0,
            tiles(range_half(range), max_depth as nat),
            pow8(max_depth as nat) <= u32::MAX,
        ensures
            r.range == range,
            r.depth == max_depth,
            r.wf(),
            region_sound(*shape, r.root, range.smaller_corner, range_half(range)),
            r.root.collapsed(),
            well_depthed(r.root, max_depth as nat),
            shape.classify_spec(
                cube_center(range.smaller_corner, range_half(range)),
                range_half(range),
            ) is Outside ==> r.root == Node::Completely(NodeState::Outside),
            shape.classify_spec(
                cube_center(range.smaller_corner, range_half(range)),
                range_half(range),
            ) is Inside ==> r.root == Node::Completely(NodeState::Inside),
            boundary_ids(r.root) == id_run(0, boundary_ids(r.root).len()),
    {
        let diag = range.diagonal();
        let half = diag.half();
        proof {
            assert(half == range_half(range));
            assert(cube_wf(range.smaller_corner, half));
        }
        let (root, _next_id) = Node::approximate(shape, range.smaller_corner, half, max_depth, 0);
        Octree { range, depth: max_depth, root }
    }

    /// Union of two classifications built over the same range and depth.
    pub fn union(self, other: Octree) -> (r: Octree)
        requires
            self.range == other.range,
            self.depth == other.depth,
        ensures
            r.range == self.range,
            r.depth == self.depth,
            r.root == union_spec(self.root, other.root),
            self.root.collapsed() && other.root.collapsed() ==> r.root.collapsed(),
    {
        proof {
            if self.root.collapsed() && other.root.collapsed() {
                lemma_union_collapsed(self.root, other.root);
            }
        }
        Octree { range: self.range, depth: self.depth, root: Node::union(self.root, other.root) }
    }

    /// Intersection of two classifications built over the same range and
    /// depth.
    pub fn inter(self, other: Octree) -> (r: Octree)
        requires
            self.range == other.range,
            self.depth == other.depth,
        ensures
            r.range == self.range,
            r.depth == self.depth,
            r.root == inter_spec(self.root, other.root),
            self.root.collapsed() && other.root.collapsed() ==> r.root.collapsed(),
    {
        proof {
            if self.root.collapsed() && other.root.collapsed() {
                lemma_inter_collapsed(self.root, other.root);
            }
        }
        Octree { range: self.range, depth: self.depth, root: Node::inter(self.root, other.root) }
    }

    /// Complement of a classification.
    pub fn not(self) -> (r: Octree)
        ensures
            r.range == self.range,
            r.depth == self.depth,
            r.root == not_spec(self.root),
            self.root.collapsed() ==> r.root.collapsed(),
    {
        proof {
            if self.root.collapsed() {
                lemma_not_collapsed(self.root);
            }
        }
        Octree { range: self.range, depth: self.depth, root: self.root.not() }
    }

    /// The ids of the boundary leaves whose cell overlaps the open box
    /// from `min_p` to `max_p`, in traversal order.
    pub fn query_range(&self, min_p: V3, max_p: V3) -> (r: Vec<u32>)
        requires
            self.wf(),
        ensures
            r@ == query_ids(
                self.root,
                self.range.smaller_corner,
                range_half(self.range),
                min_p,
                max_p,
            ),
    {
        let diag = self.range.diagonal();
        let half = diag.half();
        proof {
            assert(half == range_half(self.range));
            assert(cube_wf(self.range.smaller_corner, half));
        }
        let mut result: Vec<u32> = Vec::new();
        self.root.find_id_in(self.range.smaller_corner, half, min_p, max_p, &mut result);
        result
    }

    /// The centers of the boundary-leaf cells, in traversal order: the
    /// sequential boundary ids of a freshly built tree index into this.
    pub fn boundary_points(&self) -> (r: Vec<V3>)
        requires
            self.wf(),
        ensures
            r@ == boundary_centers(self.root, self.range.smaller_corner, range_half(self.range)),
    {
        let diag = self.range.diagonal();
        let half = diag.half();
        proof {
            assert(half == range_half(self.range));
            assert(cube_wf(self.range.smaller_corner, half));
        }
        let mut result: Vec<V3> = Vec::new();
        self.root.boundary_centers_into(self.range.smaller_corner, half, &mut result);
        result
    }

    /// The classification of a sphere over the box from the origin to
    /// `(128, 128, 128)`.
    pub fn new_test_sphere(depth: u8, center: V3, r: i64) -> (t: Octree)
        requires
            depth <= 6,
            center.in_world(),
            0 <= r <= WORLD_BOUND,
        ensures
            t.depth == depth,
            t.wf(),
            t.range == (Range {
                smaller_corner: V3 { x: 0, y: 0, z: 0 },
                greater_corner: V3 { x: 128, y: 128, z: 128 },
            }),
            region_sound(
                Sphere { center, r },
                t.root,
                t.range.smaller_corner,
                range_half(t.range),
            ),
            t.root.collapsed(),
    {
        let range = Range::new(V3::new(0, 0, 0), V3::new(128, 128, 128));
        let sphere = Sphere::new(center, r);
        proof {
            reveal_with_fuel(tiles, 8);
            reveal_with_fuel(pow8, 8);
            let h = range_half(range);
            assert(h == (V3 { x: 64, y: 64, z: 64 }));
            if depth == 0 {
                assert(tiles(h, 0) && pow8(0) <= u32::MAX);
            } else if depth == 1 {
                assert(tiles(h, 1) && pow8(1) <= u32::MAX);
            } else if depth == 2 {
                assert(tiles(h, 2) && pow8(2) <= u32::MAX);
            } else if depth == 3 {
                assert(tiles(h, 3) && pow8(3) <= u32::MAX);
            } else if depth == 4 {
                assert(tiles(h, 4) && pow8(4) <= u32::MAX);
            } else if depth == 5 {
                assert(tiles(h, 5) && pow8(5) <= u32::MAX);
            } else {
                assert(tiles(h, 6) && pow8(6) <= u32::MAX);
            }
        }
        Octree::approximate(&sphere, range, depth)
    }
}

} // verus!
