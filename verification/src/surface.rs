//! The mesh-extraction octree: a fixed-depth variant of the region
//! classifier whose boundary cells carry per-cell state — eight shared
//! corner-vertex slots and six face-neighbour links — and that extracts a
//! surface-net style triangle mesh from them.
//!
//! Cells live in an arena and are addressed by integer handle; neighbour
//! links are handle lookups, never references. Grid positions are integer
//! coordinates in `0 .. 2^depth` per axis, the same coordinates the
//! builder used, and indexing a position outside that grid resolves to the
//! `Outside` terminal by convention.

use crate::octree::{
    child_corner,
    cube_center,
    cube_wf,
    half_extent,
    in_cube,
    lemma_cube_in_ball,
    sub_corner,
    tiles,
    NodeState,
};
use crate::range::Range;
use crate::shape::{Shape, ShapeClass};
use crate::vec3::V3;
use std::collections::HashMap;
use vstd::prelude::*;

verus! {

broadcast use vstd::std_specs::hash::group_hash_axioms;


/// Powers of two: the side of the grid at a given depth.
pub open spec fn pow2(e: nat) -> int
    decreases e,
{
    if e == 0 {
        1int
    } else {
        2 * pow2((e - 1) as nat)
    }
}

pub proof fn lemma_pow2_pos(e: nat)
    ensures
        pow2(e) >= 1,
    decreases e,
{
    if e > 0 {
        lemma_pow2_pos((e - 1) as nat);
    }
}

pub proof fn lemma_pow2_bound(e: nat)
    requires
        e <= 30,
    ensures
        pow2(e) <= 0x4000_0000,
    decreases 30 - e,
{
    if e == 30 {
        assert(pow2(30) == 0x4000_0000) by {
            reveal_with_fuel(pow2, 31);
        }
    } else {
        lemma_pow2_bound((e + 1) as nat);
        lemma_pow2_pos(e);
    }
}

/// Two to the `e`, executable.
pub fn pow2_i64(e: u8) -> (r: i64)
    requires
        e <= 30,
    ensures
        r as int == pow2(e as nat),
{
    let mut r: i64 = 1;
    let mut i: u8 = 0;
    while i < e
        invariant
            i <= e,
            e <= 30,
            r as int == pow2(i as nat),
        decreases e - i,
    {
        proof {
            lemma_pow2_bound(i as nat);
            lemma_pow2_pos(i as nat);
        }
        r = r * 2;
        i = i + 1;
    }
    r
}

/// What sits across a face, or at a grid position: a boundary cell,
/// addressed by handle, or a region completely on one side.
#[derive(Clone, Copy, PartialEq, Eq, Structural, Debug)]
pub enum NeighborRef {
    Cell(usize),
    State(NodeState),
}

/// Per-cell state of one boundary cell: its grid position, the eight
/// corner-vertex slots shared with its neighbours and filled lazily
/// during triangulation, and the six face-neighbour links resolved once
/// after construction.
pub struct CellInfo {
    pub pos: V3,
    pub cube_indices: Vec<Option<usize>>,
    pub neighbours: Vec<NeighborRef>,
}

/// A node of the mesh-extraction octree.
pub enum Node {
    Completely(NodeState),
    Cell(usize),
    Sub(Box<Children>),
}

/// The eight children of a subdivided node, by corner index.
pub struct Children {
    pub c0: Node,
    pub c1: Node,
    pub c2: Node,
    pub c3: Node,
    pub c4: Node,
    pub c5: Node,
    pub c6: Node,
    pub c7: Node,
}

impl Children {
    pub open spec fn spec_child(self, i: int) -> Node {
        if i == 0 {
            self.c0
        } else if i == 1 {
            self.c1
        } else if i == 2 {
            self.c2
        } else if i == 3 {
            self.c3
        } else if i == 4 {
            self.c4
        } else if i == 5 {
            self.c5
        } else if i == 6 {
            self.c6
        } else {
            self.c7
        }
    }
}

/// Look a grid position up in a subtree of the given depth: descend by
/// the high bit of each coordinate until a terminal or a cell answers.
/// The position is relative to the subtree and must lie in its grid box;
/// a subdivided node of depth zero cannot arise in a built tree and
/// answers `Outside`.
pub open spec fn lookup(n: Node, px: int, py: int, pz: int, depth: nat) -> NeighborRef
    decreases depth, n,
{
    match n {
        Node::Completely(s) => NeighborRef::State(s),
        Node::Cell(h) => NeighborRef::Cell(h),
        Node::Sub(ch) => {
            if depth == 0 {
                NeighborRef::State(NodeState::Outside)
            } else {
                let m = pow2((depth - 1) as nat);
                let i = (if px >= m {
                    1int
                } else {
                    0int
                }) + (if py >= m {
                    2int
                } else {
                    0int
                }) + (if pz >= m {
                    4int
                } else {
                    0int
                });
                lookup(
                    ch.spec_child(i),
                    px - if px >= m {
                        m
                    } else {
                        0int
                    },
                    py - if py >= m {
                        m
                    } else {
                        0int
                    },
                    pz - if pz >= m {
                        m
                    } else {
                        0int
                    },
                    (depth - 1) as nat,
                )
            }
        },
    }
}

/// Soundness of a mesh-extraction tree with respect to a shape: every
/// point of a cube classified `Outside` lies outside the shape, every
/// point of a cube classified `Inside` lies inside it. Boundary cells
/// promise nothing.
pub open spec fn surface_sound<S: Shape>(shape: S, n: Node, corner: V3, half: V3) -> bool
    decreases n,
{
    match n {
        Node::Completely(NodeState::Outside) => forall|p: V3|
            #[trigger] in_cube(corner, half, p) ==> !shape.inside(p),
        Node::Completely(NodeState::Inside) => forall|p: V3|
            #[trigger] in_cube(corner, half, p) ==> shape.inside(p),
        Node::Cell(_) => true,
        Node::Sub(ch) => {
            &&& surface_sound(shape, ch.c0, child_corner(corner, half, 0), half_extent(half))
            &&& surface_sound(shape, ch.c1, child_corner(corner, half, 1), half_extent(half))
            &&& surface_sound(shape, ch.c2, child_corner(corner, half, 2), half_extent(half))
            &&& surface_sound(shape, ch.c3, child_corner(corner, half, 3), half_extent(half))
            &&& surface_sound(shape, ch.c4, child_corner(corner, half, 4), half_extent(half))
            &&& surface_sound(shape, ch.c5, child_corner(corner, half, 5), half_extent(half))
            &&& surface_sound(shape, ch.c6, child_corner(corner, half, 6), half_extent(half))
            &&& surface_sound(shape, ch.c7, child_corner(corner, half, 7), half_extent(half))
        },
    }
}

/// Validity of one freshly built arena entry for the grid box at
/// `(bx, by, bz)` with side `2^depth`: position in the box, eight empty
/// corner slots, six neighbour slots.
pub open spec fn entry_init(c: CellInfo, bx: int, by: int, bz: int, depth: nat) -> bool {
    &&& bx <= c.pos.x < bx + pow2(depth)
    &&& by <= c.pos.y < by + pow2(depth)
    &&& bz <= c.pos.z < bz + pow2(depth)
    &&& c.cube_indices@.len() == 8
    &&& forall|k: int| 0 <= k < 8 ==> c.cube_indices@[k] is None
    &&& c.neighbours@.len() == 6
}

/// Coherence of a subtree with the arena: every cell node carries a valid
/// handle whose recorded position is the cell's own grid position, cells
/// sit only at depth zero, and subdivisions only above it.
pub open spec fn tree_cells_ok(
    n: Node,
    bx: int,
    by: int,
    bz: int,
    depth: nat,
    cells: Seq<CellInfo>,
) -> bool
    decreases n,
{
    match n {
        Node::Completely(_) => true,
        Node::Cell(h) => {
            &&& depth == 0
            &&& h < cells.len()
            &&& cells[h as int].pos.x == bx
            &&& cells[h as int].pos.y == by
            &&& cells[h as int].pos.z == bz
        },
        Node::Sub(ch) => {
            &&& depth > 0
            &&& {
                let m = pow2((depth - 1) as nat);
                &&& tree_cells_ok(ch.c0, bx, by, bz, (depth - 1) as nat, cells)
                &&& tree_cells_ok(ch.c1, bx + m, by, bz, (depth - 1) as nat, cells)
                &&& tree_cells_ok(ch.c2, bx, by + m, bz, (depth - 1) as nat, cells)
                &&& tree_cells_ok(ch.c3, bx + m, by + m, bz, (depth - 1) as nat, cells)
                &&& tree_cells_ok(ch.c4, bx, by, bz + m, (depth - 1) as nat, cells)
                &&& tree_cells_ok(ch.c5, bx + m, by, bz + m, (depth - 1) as nat, cells)
                &&& tree_cells_ok(ch.c6, bx, by + m, bz + m, (depth - 1) as nat, cells)
                &&& tree_cells_ok(ch.c7, bx + m, by + m, bz + m, (depth - 1) as nat, cells)
            }
        },
    }
}

/// A lookup inside the subtree's grid box that answers with a cell hands
/// out a valid handle, and the handle's recorded position is exactly the
/// position looked up.
pub proof fn lemma_lookup_cell_valid(
    n: Node,
    bx: int,
    by: int,
    bz: int,
    px: int,
    py: int,
    pz: int,
    depth: nat,
    cells: Seq<CellInfo>,
)
    requires
        tree_cells_ok(n, bx, by, bz, depth, cells),
        0 <= px < pow2(depth),
        0 <= py < pow2(depth),
        0 <= pz < pow2(depth),
        lookup(n, px, py, pz, depth) is Cell,
    ensures
        lookup(n, px, py, pz, depth)->Cell_0 < cells.len(),
        cells[lookup(n, px, py, pz, depth)->Cell_0 as int].pos.x == bx + px,
        cells[lookup(n, px, py, pz, depth)->Cell_0 as int].pos.y == by + py,
        cells[lookup(n, px, py, pz, depth)->Cell_0 as int].pos.z == bz + pz,
    decreases depth, n,
{
    match n {
        Node::Sub(ch) => {
            if depth > 0 {
                let m = pow2((depth - 1) as nat);
                let i = (if px >= m {
                    1int
                } else {
                    0int
                }) + (if py >= m {
                    2int
                } else {
                    0int
                }) + (if pz >= m {
                    4int
                } else {
                    0int
                });
                let npx = px - if px >= m {
                    m
                } else {
                    0int
                };
                let npy = py - if py >= m {
                    m
                } else {
                    0int
                };
                let npz = pz - if pz >= m {
                    m
                } else {
                    0int
                };
                let nbx = bx + if px >= m {
                    m
                } else {
                    0int
                };
                let nby = by + if py >= m {
                    m
                } else {
                    0int
                };
                let nbz = bz + if pz >= m {
                    m
                } else {
                    0int
                };
                lemma_lookup_cell_valid(
                    ch.spec_child(i),
                    nbx,
                    nby,
                    nbz,
                    npx,
                    npy,
                    npz,
                    (depth - 1) as nat,
                    cells,
                );
            }
        },
        _ => {},
    }
}

/// Coherence is insensitive to everything but the handles' recorded
/// positions, so it survives growth of the arena and updates that keep
/// every position.
pub proof fn lemma_tree_cells_ok_extend(
    n: Node,
    bx: int,
    by: int,
    bz: int,
    depth: nat,
    cells1: Seq<CellInfo>,
    cells2: Seq<CellInfo>,
)
    requires
        tree_cells_ok(n, bx, by, bz, depth, cells1),
        cells1.len() <= cells2.len(),
        forall|h: int| 0 <= h < cells1.len() ==> (#[trigger] cells2[h]).pos == cells1[h].pos,
    ensures
        tree_cells_ok(n, bx, by, bz, depth, cells2),
    decreases n,
{
    match n {
        Node::Sub(ch) => {
            let m = pow2((depth - 1) as nat);
            lemma_tree_cells_ok_extend(ch.c0, bx, by, bz, (depth - 1) as nat, cells1, cells2);
            lemma_tree_cells_ok_extend(ch.c1, bx + m, by, bz, (depth - 1) as nat, cells1, cells2);
            lemma_tree_cells_ok_extend(ch.c2, bx, by + m, bz, (depth - 1) as nat, cells1, cells2);
            lemma_tree_cells_ok_extend(
                ch.c3,
                bx + m,
                by + m,
                bz,
                (depth - 1) as nat,
                cells1,
                cells2,
            );
            lemma_tree_cells_ok_extend(ch.c4, bx, by, bz + m, (depth - 1) as nat, cells1, cells2);
            lemma_tree_cells_ok_extend(
                ch.c5,
                bx + m,
                by,
                bz + m,
                (depth - 1) as nat,
                cells1,
                cells2,
            );
            lemma_tree_cells_ok_extend(
                ch.c6,
                bx,
                by + m,
                bz + m,
                (depth - 1) as nat,
                cells1,
                cells2,
            );
            lemma_tree_cells_ok_extend(
                ch.c7,
                bx + m,
                by + m,
                bz + m,
                (depth - 1) as nat,
                cells1,
                cells2,
            );
        },
        _ => {},
    }
}

impl Node {
    /// Build the mesh-extraction tree of the cube at `corner` with
    /// half-extent `half`, covering the grid box at `(gx, gy, gz)` with
    /// side `2^depth`. The classification rule is the region classifier's;
    /// a cell that the surface may cross and that has no depth left
    /// becomes a boundary cell pushed onto the arena, with empty corner
    /// slots and neighbour links still to be resolved.
    #[verifier::rlimit(60)]
    fn build<S: Shape>(
        shape: &S,
        corner: V3,
        half: V3,
        depth: u8,
        gx: i64,
        gy: i64,
        gz: i64,
        cells: &mut Vec<CellInfo>,
    ) -> (n: Node)
        requires
            shape.sh_wf(),
            cube_wf(corner, half),
            tiles(half, depth as nat),
            depth <= 24,
            0 <= gx && gx as int + pow2(depth as nat) <= 0x1000_0000,
            0 <= gy && gy as int + pow2(depth as nat) <= 0x1000_0000,
            0 <= gz && gz as int + pow2(depth as nat) <= 0x1000_0000,
        ensures
            final(cells)@.len() >= old(cells)@.len(),
            forall|i: int|
                0 <= i < old(cells)@.len() ==> final(cells)@[i] == #[trigger] old(cells)@[i],
            tree_cells_ok(n, gx as int, gy as int, gz as int, depth as nat, final(cells)@),
            surface_sound(*shape, n, corner, half),
            shape.classify_spec(cube_center(corner, half), half) is Outside ==> n
                == Node::Completely(NodeState::Outside),
            shape.classify_spec(cube_center(corner, half), half) is Inside ==> n
                == Node::Completely(NodeState::Inside),
            forall|h: int|
                old(cells)@.len() <= h < final(cells)@.len() ==> lookup(
                    n,
                    (#[trigger] final(cells)@[h]).pos.x - gx,
                    final(cells)@[h].pos.y - gy,
                    final(cells)@[h].pos.z - gz,
                    depth as nat,
                ) == NeighborRef::Cell(h as usize),
            forall|h: int|
                old(cells)@.len() <= h < final(cells)@.len() ==> entry_init(
                    #[trigger] final(cells)@[h],
                    gx as int,
                    gy as int,
                    gz as int,
                    depth as nat,
                ),
        decreases depth,
    {
        let center = corner.add(half);
        let class = shape.classify(center, half);
        match class {
            ShapeClass::Outside => {
                proof {
                    assert forall|p: V3| #[trigger] in_cube(corner, half, p) implies !shape.inside(
                        p,
                    ) by {
                        lemma_cube_in_ball(corner, half, center, p);
                    }
                }
                Node::Completely(NodeState::Outside)
            },
            ShapeClass::Inside => {
                proof {
                    assert forall|p: V3| #[trigger] in_cube(corner, half, p) implies shape.inside(
                        p,
                    ) by {
                        lemma_cube_in_ball(corner, half, center, p);
                    }
                }
                Node::Completely(NodeState::Inside)
            },
            ShapeClass::Straddle => {
                if depth == 0 {
                    let mut slots: Vec<Option<usize>> = Vec::new();
                    slots.push(None);
                    slots.push(None);
                    slots.push(None);
                    slots.push(None);
                    slots.push(None);
                    slots.push(None);
                    slots.push(None);
                    slots.push(None);
                    let mut nb: Vec<NeighborRef> = Vec::new();
                    nb.push(NeighborRef::State(NodeState::Outside));
                    nb.push(NeighborRef::State(NodeState::Outside));
                    nb.push(NeighborRef::State(NodeState::Outside));
                    nb.push(NeighborRef::State(NodeState::Outside));
                    nb.push(NeighborRef::State(NodeState::Outside));
                    nb.push(NeighborRef::State(NodeState::Outside));
                    let h = cells.len();
                    let entry = CellInfo { pos: V3 { x: gx, y: gy, z: gz }, cube_indices: slots, neighbours: nb };
                    cells.push(entry);
                    Node::Cell(h)
                } else {
                    let h2 = half.half();
                    let m = pow2_i64(depth - 1);
                    proof {
                        assert(h2 == half_extent(half));
                        assert(pow2(depth as nat) == 2 * pow2((depth - 1) as nat));
                        lemma_pow2_pos((depth - 1) as nat);
                    }
                    let cc0 = sub_corner(corner, half, [false, false, false]);
                    let cc1 = sub_corner(corner, half, [true, false, false]);
                    let cc2 = sub_corner(corner, half, [false, true, false]);
                    let cc3 = sub_corner(corner, half, [true, true, false]);
                    let cc4 = sub_corner(corner, half, [false, false, true]);
                    let cc5 = sub_corner(corner, half, [true, false, true]);
                    let cc6 = sub_corner(corner, half, [false, true, true]);
                    let cc7 = sub_corner(corner, half, [true, true, true]);
                    proof {
                        assert(cc0 == child_corner(corner, half, 0));
                        assert(cc1 == child_corner(corner, half, 1));
                        assert(cc2 == child_corner(corner, half, 2));
                        assert(cc3 == child_corner(corner, half, 3));
                        assert(cc4 == child_corner(corner, half, 4));
                        assert(cc5 == child_corner(corner, half, 5));
                        assert(cc6 == child_corner(corner, half, 6));
                        assert(cc7 == child_corner(corner, half, 7));
                        assert(cube_wf(cc0, h2) && cube_wf(cc1, h2) && cube_wf(cc2, h2) && cube_wf(
                            cc3,
                            h2,
                        ) && cube_wf(cc4, h2) && cube_wf(cc5, h2) && cube_wf(cc6, h2) && cube_wf(
                            cc7,
                            h2,
                        ));
                    }
                    let ghost l0 = cells@.len() as int;
                    let n0 = Node::build(shape, cc0, h2, depth - 1, gx, gy, gz, cells);
                    let ghost s1v = cells@;
                    let n1 = Node::build(shape, cc1, h2, depth - 1, gx + m, gy, gz, cells);
                    let ghost s2v = cells@;
                    let n2 = Node::build(shape, cc2, h2, depth - 1, gx, gy + m, gz, cells);
                    let ghost s3v = cells@;
                    let n3 = Node::build(shape, cc3, h2, depth - 1, gx + m, gy + m, gz, cells);
                    let ghost s4v = cells@;
                    let n4 = Node::build(shape, cc4, h2, depth - 1, gx, gy, gz + m, cells);
                    let ghost s5v = cells@;
                    let n5 = Node::build(shape, cc5, h2, depth - 1, gx + m, gy, gz + m, cells);
                    let ghost s6v = cells@;
                    let n6 = Node::build(shape, cc6, h2, depth - 1, gx, gy + m, gz + m, cells);
                    let ghost s7v = cells@;
                    let n7 = Node::build(shape, cc7, h2, depth - 1, gx + m, gy + m, gz + m, cells);
                    let node = Node::Sub(
                        Box::new(Children { c0: n0, c1: n1, c2: n2, c3: n3, c4: n4, c5: n5, c6: n6, c7: n7 }),
                    );
                    proof {
                        let d1 = (depth - 1) as nat;
                        let mi = m as int;
                        let fin = cells@;
                        assert forall|i: int| 0 <= i < s1v.len() implies fin[i] == s1v[i] by {
                            assert(s2v[i] == s1v[i]);
                            assert(s3v[i] == s2v[i]);
                            assert(s4v[i] == s3v[i]);
                            assert(s5v[i] == s4v[i]);
                            assert(s6v[i] == s5v[i]);
                            assert(s7v[i] == s6v[i]);
                            assert(fin[i] == s7v[i]);
                        }
                        lemma_tree_cells_ok_extend(
                            n0,
                            gx as int,
                            gy as int,
                            gz as int,
                            d1,
                            s1v,
                            fin,
                        );
                        lemma_tree_cells_ok_extend(
                            n1,
                            gx as int + mi,
                            gy as int,
                            gz as int,
                            d1,
                            s2v,
                            fin,
                        );
                        lemma_tree_cells_ok_extend(
                            n2,
                            gx as int,
                            gy as int + mi,
                            gz as int,
                            d1,
                            s3v,
                            fin,
                        );
                        lemma_tree_cells_ok_extend(
                            n3,
                            gx as int + mi,
                            gy as int + mi,
                            gz as int,
                            d1,
                            s4v,
                            fin,
                        );
                        lemma_tree_cells_ok_extend(
                            n4,
                            gx as int,
                            gy as int,
                            gz as int + mi,
                            d1,
                            s5v,
                            fin,
                        );
                        lemma_tree_cells_ok_extend(
                            n5,
                            gx as int + mi,
                            gy as int,
                            gz as int + mi,
                            d1,
                            s6v,
                            fin,
                        );
                        lemma_tree_cells_ok_extend(
                            n6,
                            gx as int,
                            gy as int + mi,
                            gz as int + mi,
                            d1,
                            s7v,
                            fin,
                        );
                        assert(tree_cells_ok(
                            node,
                            gx as int,
                            gy as int,
                            gz as int,
                            depth as nat,
                            fin,
                        ));
                        assert forall|h: int| l0 <= h < fin.len() implies entry_init(
                            #[trigger] fin[h],
                            gx as int,
                            gy as int,
                            gz as int,
                            depth as nat,
                        ) by {
                            if h < s1v.len() {
                                assert(fin[h] == s1v[h]) by {
                                    assert(s2v[h] == s1v[h]);
                                    assert(s3v[h] == s2v[h]);
                                    assert(s4v[h] == s3v[h]);
                                    assert(s5v[h] == s4v[h]);
                                    assert(s6v[h] == s5v[h]);
                                    assert(s7v[h] == s6v[h]);
                                    assert(fin[h] == s7v[h]);
                                }
                                assert(entry_init(s1v[h], gx as int, gy as int, gz as int, d1));
                            } else if h < s2v.len() {
                                assert(fin[h] == s2v[h]) by {
                                    assert(s3v[h] == s2v[h]);
                                    assert(s4v[h] == s3v[h]);
                                    assert(s5v[h] == s4v[h]);
                                    assert(s6v[h] == s5v[h]);
                                    assert(s7v[h] == s6v[h]);
                                    assert(fin[h] == s7v[h]);
                                }
                                assert(entry_init(s2v[h], gx as int + mi, gy as int, gz as int, d1));
                            } else if h < s3v.len() {
                                assert(fin[h] == s3v[h]) by {
                                    assert(s4v[h] == s3v[h]);
                                    assert(s5v[h] == s4v[h]);
                                    assert(s6v[h] == s5v[h]);
                                    assert(s7v[h] == s6v[h]);
                                    assert(fin[h] == s7v[h]);
                                }
                                assert(entry_init(s3v[h], gx as int, gy as int + mi, gz as int, d1));
                            } else if h < s4v.len() {
                                assert(fin[h] == s4v[h]) by {
                                    assert(s5v[h] == s4v[h]);
                                    assert(s6v[h] == s5v[h]);
                                    assert(s7v[h] == s6v[h]);
                                    assert(fin[h] == s7v[h]);
                                }
                                assert(entry_init(
                                    s4v[h],
                                    gx as int + mi,
                                    gy as int + mi,
                                    gz as int,
                                    d1,
                                ));
                            } else if h < s5v.len() {
                                assert(fin[h] == s5v[h]) by {
                                    assert(s6v[h] == s5v[h]);
                                    assert(s7v[h] == s6v[h]);
                                    assert(fin[h] == s7v[h]);
                                }
                                assert(entry_init(s5v[h], gx as int, gy as int, gz as int + mi, d1));
                            } else if h < s6v.len() {
                                assert(fin[h] == s6v[h]) by {
                                    assert(s7v[h] == s6v[h]);
                                    assert(fin[h] == s7v[h]);
                                }
                                assert(entry_init(
                                    s6v[h],
                                    gx as int + mi,
                                    gy as int,
                                    gz as int + mi,
                                    d1,
                                ));
                            } else if h < s7v.len() {
                                assert(fin[h] == s7v[h]);
                                assert(entry_init(
                                    s7v[h],
                                    gx as int,
                                    gy as int + mi,
                                    gz as int + mi,
                                    d1,
                                ));
                            } else {
                                assert(entry_init(
                                    fin[h],
                                    gx as int + mi,
                                    gy as int + mi,
                                    gz as int + mi,
                                    d1,
                                ));
                            }
                        }
                        assert(mi == pow2(d1));
                        assert forall|h: int| l0 <= h < fin.len() implies lookup(
                            node,
                            (#[trigger] fin[h]).pos.x - gx,
                            fin[h].pos.y - gy,
                            fin[h].pos.z - gz,
                            depth as nat,
                        ) == NeighborRef::Cell(h as usize) by {
                            if h < s1v.len() {
                                assert(fin[h] == s1v[h]) by {
                                    assert(s2v[h] == s1v[h]);
                                    assert(s3v[h] == s2v[h]);
                                    assert(s4v[h] == s3v[h]);
                                    assert(s5v[h] == s4v[h]);
                                    assert(s6v[h] == s5v[h]);
                                    assert(s7v[h] == s6v[h]);
                                    assert(fin[h] == s7v[h]);
                                }
                                assert(entry_init(s1v[h], gx as int, gy as int, gz as int, d1));
                                assert(lookup(n0, fin[h].pos.x - (gx as int), fin[h].pos.y - (gy as int), fin[h].pos.z - (gz as int), d1) == NeighborRef::Cell(h as usize));
                                assert(fin[h].pos.x - gx < mi);
                                assert(fin[h].pos.y - gy < mi);
                                assert(fin[h].pos.z - gz < mi);
                            } else if h < s2v.len() {
                                assert(fin[h] == s2v[h]) by {
                                    assert(s3v[h] == s2v[h]);
                                    assert(s4v[h] == s3v[h]);
                                    assert(s5v[h] == s4v[h]);
                                    assert(s6v[h] == s5v[h]);
                                    assert(s7v[h] == s6v[h]);
                                    assert(fin[h] == s7v[h]);
                                }
                                assert(entry_init(s2v[h], gx as int + mi, gy as int, gz as int, d1));
                                assert(lookup(n1, fin[h].pos.x - (gx as int + mi), fin[h].pos.y - (gy as int), fin[h].pos.z - (gz as int), d1) == NeighborRef::Cell(h as usize));
                                assert(fin[h].pos.x - gx >= mi);
                                assert(fin[h].pos.y - gy < mi);
                                assert(fin[h].pos.z - gz < mi);
                            } else if h < s3v.len() {
                                assert(fin[h] == s3v[h]) by {
                                    assert(s4v[h] == s3v[h]);
                                    assert(s5v[h] == s4v[h]);
                                    assert(s6v[h] == s5v[h]);
                                    assert(s7v[h] == s6v[h]);
                                    assert(fin[h] == s7v[h]);
                                }
                                assert(entry_init(s3v[h], gx as int, gy as int + mi, gz as int, d1));
                                assert(lookup(n2, fin[h].pos.x - (gx as int), fin[h].pos.y - (gy as int + mi), fin[h].pos.z - (gz as int), d1) == NeighborRef::Cell(h as usize));
                                assert(fin[h].pos.x - gx < mi);
                                assert(fin[h].pos.y - gy >= mi);
                                assert(fin[h].pos.z - gz < mi);
                            } else if h < s4v.len() {
                                assert(fin[h] == s4v[h]) by {
                                    assert(s5v[h] == s4v[h]);
                                    assert(s6v[h] == s5v[h]);
                                    assert(s7v[h] == s6v[h]);
                                    assert(fin[h] == s7v[h]);
                                }
                                assert(entry_init(s4v[h], gx as int + mi, gy as int + mi, gz as int, d1));
                                assert(lookup(n3, fin[h].pos.x - (gx as int + mi), fin[h].pos.y - (gy as int + mi), fin[h].pos.z - (gz as int), d1) == NeighborRef::Cell(h as usize));
                                assert(fin[h].pos.x - gx >= mi);
                                assert(fin[h].pos.y - gy >= mi);
                                assert(fin[h].pos.z - gz < mi);
                            } else if h < s5v.len() {
                                assert(fin[h] == s5v[h]) by {
                                    assert(s6v[h] == s5v[h]);
                                    assert(s7v[h] == s6v[h]);
                                    assert(fin[h] == s7v[h]);
                                }
                                assert(entry_init(s5v[h], gx as int, gy as int, gz as int + mi, d1));
                                assert(lookup(n4, fin[h].pos.x - (gx as int), fin[h].pos.y - (gy as int), fin[h].pos.z - (gz as int + mi), d1) == NeighborRef::Cell(h as usize));
                                assert(fin[h].pos.x - gx < mi);
                                assert(fin[h].pos.y - gy < mi);
                                assert(fin[h].pos.z - gz >= mi);
                            } else if h < s6v.len() {
                                assert(fin[h] == s6v[h]) by {
                                    assert(s7v[h] == s6v[h]);
                                    assert(fin[h] == s7v[h]);
                                }
                                assert(entry_init(s6v[h], gx as int + mi, gy as int, gz as int + mi, d1));
                                assert(lookup(n5, fin[h].pos.x - (gx as int + mi), fin[h].pos.y - (gy as int), fin[h].pos.z - (gz as int + mi), d1) == NeighborRef::Cell(h as usize));
                                assert(fin[h].pos.x - gx >= mi);
                                assert(fin[h].pos.y - gy < mi);
                                assert(fin[h].pos.z - gz >= mi);
                            } else if h < s7v.len() {
                                assert(fin[h] == s7v[h]) by {
                                    assert(fin[h] == s7v[h]);
                                }
                                assert(entry_init(s7v[h], gx as int, gy as int + mi, gz as int + mi, d1));
                                assert(lookup(n6, fin[h].pos.x - (gx as int), fin[h].pos.y - (gy as int + mi), fin[h].pos.z - (gz as int + mi), d1) == NeighborRef::Cell(h as usize));
                                assert(fin[h].pos.x - gx < mi);
                                assert(fin[h].pos.y - gy >= mi);
                                assert(fin[h].pos.z - gz >= mi);
                            } else {
                                assert(entry_init(fin[h], gx as int + mi, gy as int + mi, gz as int + mi, d1));
                                assert(lookup(n7, fin[h].pos.x - (gx as int + mi), fin[h].pos.y - (gy as int + mi), fin[h].pos.z - (gz as int + mi), d1) == NeighborRef::Cell(h as usize));
                                assert(fin[h].pos.x - gx >= mi);
                                assert(fin[h].pos.y - gy >= mi);
                                assert(fin[h].pos.z - gz >= mi);
                            }
                        }
                    }
                    node
                }
            },
        }
    }
}

pub proof fn lemma_pow2_bound24(e: nat)
    requires
        e <= 24,
    ensures
        pow2(e) <= 0x100_0000,
    decreases 24 - e,
{
    if e == 24 {
        assert(pow2(24) == 0x100_0000) by {
            reveal_with_fuel(pow2, 25);
        }
    } else {
        lemma_pow2_bound24((e + 1) as nat);
        lemma_pow2_pos(e);
    }
}

pub proof fn lemma_pow2_bound20(e: nat)
    requires
        e <= 20,
    ensures
        pow2(e) <= 0x10_0000,
    decreases 20 - e,
{
    if e == 20 {
        assert(pow2(20) == 0x10_0000) by {
            reveal_with_fuel(pow2, 21);
        }
    } else {
        lemma_pow2_bound20((e + 1) as nat);
        lemma_pow2_pos(e);
    }
}

impl Node {
    /// Look a grid position up in this subtree; `m` is half the subtree's
    /// grid side.
    fn index_rel(&self, px: i64, py: i64, pz: i64, depth: u8, m: i64) -> (r: NeighborRef)
        requires
            depth <= 24,
            depth >= 1 ==> m as int == pow2((depth - 1) as nat),
            0 <= px < pow2(depth as nat),
            0 <= py < pow2(depth as nat),
            0 <= pz < pow2(depth as nat),
        ensures
            r == lookup(*self, px as int, py as int, pz as int, depth as nat),
        decreases depth,
    {
        match self {
            Node::Completely(s) => NeighborRef::State(*s),
            Node::Cell(h) => NeighborRef::Cell(*h),
            Node::Sub(ch) => {
                if depth == 0 {
                    NeighborRef::State(NodeState::Outside)
                } else {
                    let bx = px >= m;
                    let by = py >= m;
                    let bz = pz >= m;
                    let npx = if bx {
                        px - m
                    } else {
                        px
                    };
                    let npy = if by {
                        py - m
                    } else {
                        py
                    };
                    let npz = if bz {
                        pz - m
                    } else {
                        pz
                    };
                    let child: &Node = if bx {
                        if by {
                            if bz {
                                &ch.c7
                            } else {
                                &ch.c3
                            }
                        } else {
                            if bz {
                                &ch.c5
                            } else {
                                &ch.c1
                            }
                        }
                    } else {
                        if by {
                            if bz {
                                &ch.c6
                            } else {
                                &ch.c2
                            }
                        } else {
                            if bz {
                                &ch.c4
                            } else {
                                &ch.c0
                            }
                        }
                    };
                    proof {
                        let ii = (if bx {
                            1int
                        } else {
                            0int
                        }) + (if by {
                            2int
                        } else {
                            0int
                        }) + (if bz {
                            4int
                        } else {
                            0int
                        });
                        assert(*child == ch.spec_child(ii));
                        if depth >= 2 {
                            assert(pow2((depth - 1) as nat) == 2 * pow2((depth - 2) as nat));
                        }
                    }
                    child.index_rel(npx, npy, npz, depth - 1, m / 2)
                }
            },
        }
    }
}

/// Look a grid position up from the root: a position outside the grid
/// box `[0, 2^depth)` per axis resolves to the `Outside` terminal.
pub open spec fn grid_lookup(root: Node, depth: nat, px: int, py: int, pz: int) -> NeighborRef {
    if 0 <= px < pow2(depth) && 0 <= py < pow2(depth) && 0 <= pz < pow2(depth) {
        lookup(root, px, py, pz, depth)
    } else {
        NeighborRef::State(NodeState::Outside)
    }
}

/// Two arena entries of a built tree never record the same grid
/// position: looking the shared position up would have to answer with
/// both handles.
pub proof fn lemma_cell_positions_injective(t: Octree, h1: int, h2: int)
    requires
        t.wf(),
        0 <= h1 < t.cells@.len(),
        0 <= h2 < t.cells@.len(),
        t.cells@[h1].pos == t.cells@[h2].pos,
    ensures
        h1 == h2,
{
    assert(t.cells@.len() <= usize::MAX) by {
        broadcast use vstd::std_specs::vec::axiom_spec_len;

        assert(vstd::std_specs::vec::spec_vec_len(&t.cells) == t.cells@.len());
    }
    assert(grid_lookup(
        t.root,
        t.depth as nat,
        t.cells@[h1].pos.x as int,
        t.cells@[h1].pos.y as int,
        t.cells@[h1].pos.z as int,
    ) == NeighborRef::Cell(h1 as usize));
    assert(grid_lookup(
        t.root,
        t.depth as nat,
        t.cells@[h2].pos.x as int,
        t.cells@[h2].pos.y as int,
        t.cells@[h2].pos.z as int,
    ) == NeighborRef::Cell(h2 as usize));
}

/// Face-adjacent cells share their corner vertices: for a corner `k` of
/// cell `h` lying on the face toward cell neighbour `h2`, the mirrored
/// corner of `h2` denotes the same grid corner, and whenever both slots
/// are filled they hold the same vertex index. Together with the two
/// triangles per crossing face this closes the mesh at uniform depth.
pub proof fn lemma_face_neighbours_share_corner(
    t: Octree,
    h: int,
    h2: usize,
    k2: int,
    k: int,
)
    requires
        t.wf(),
        shared_slots(t.cells@),
        0 <= h < t.cells@.len(),
        0 <= k2 < 6,
        0 <= k < 8,
        t.cells@[h].neighbours@[k2] == NeighborRef::Cell(h2),
        corner_bit_spec(k, k2 / 2) == (k2 % 2 == 1),
    ensures
        h2 < t.cells@.len(),
        t.cells@[h2 as int].pos.x == t.cells@[h].pos.x + shift_x(k2),
        t.cells@[h2 as int].pos.y == t.cells@[h].pos.y + shift_y(k2),
        t.cells@[h2 as int].pos.z == t.cells@[h].pos.z + shift_z(k2),
        0 <= corner_flip_spec(k, k2 / 2) < 8,
        t.cells@[h].cube_indices@[k] is Some && t.cells@[h2 as int].cube_indices@[corner_flip_spec(
            k,
            k2 / 2,
        )] is Some ==> t.cells@[h].cube_indices@[k] == t.cells@[h2 as int].cube_indices@[
            corner_flip_spec(k, k2 / 2)
        ],
{
    let c = t.cells@[h];
    assert(c.neighbours@[k2] == grid_lookup(
        t.root,
        t.depth as nat,
        c.pos.x + shift_x(k2),
        c.pos.y + shift_y(k2),
        c.pos.z + shift_z(k2),
    ));
    assert(0 <= c.pos.x + shift_x(k2) < pow2(t.depth as nat) && 0 <= c.pos.y + shift_y(k2) < pow2(
        t.depth as nat,
    ) && 0 <= c.pos.z + shift_z(k2) < pow2(t.depth as nat));
    lemma_lookup_cell_valid(
        t.root,
        0,
        0,
        0,
        c.pos.x + shift_x(k2),
        c.pos.y + shift_y(k2),
        c.pos.z + shift_z(k2),
        t.depth as nat,
        t.cells@,
    );
    let kf = corner_flip_spec(k, k2 / 2);
    assert(corner_bit_spec(kf, k2 / 2) == !corner_bit_spec(k, k2 / 2));
    assert(forall|d2: int|
        0 <= d2 < 3 && d2 != k2 / 2 ==> corner_bit_spec(kf, d2) == corner_bit_spec(k, d2));
    assert(corner_pos_x(t.cells@[h], k) == corner_pos_x(t.cells@[h2 as int], kf));
    assert(corner_pos_y(t.cells@[h], k) == corner_pos_y(t.cells@[h2 as int], kf));
    assert(corner_pos_z(t.cells@[h], k) == corner_pos_z(t.cells@[h2 as int], kf));
}

/// The x offset of face neighbour `k` of a cell: the six face neighbours
/// are numbered axis by axis, the lower side first.
pub open spec fn shift_x(k: int) -> int {
    if k == 0 {
        -1int
    } else if k == 1 {
        1int
    } else {
        0int
    }
}

pub open spec fn shift_y(k: int) -> int {
    if k == 2 {
        -1int
    } else if k == 3 {
        1int
    } else {
        0int
    }
}

pub open spec fn shift_z(k: int) -> int {
    if k == 4 {
        -1int
    } else if k == 5 {
        1int
    } else {
        0int
    }
}

/// Grid lookup, executable, with the out-of-grid convention.
fn grid_index(root: &Node, px: i64, py: i64, pz: i64, depth: u8, side: i64, m: i64) -> (r:
    NeighborRef)
    requires
        depth <= 24,
        side as int == pow2(depth as nat),
        depth >= 1 ==> m as int == pow2((depth - 1) as nat),
    ensures
        r == grid_lookup(*root, depth as nat, px as int, py as int, pz as int),
{
    if px >= 0 && px < side && py >= 0 && py < side && pz >= 0 && pz < side {
        root.index_rel(px, py, pz, depth, m)
    } else {
        NeighborRef::State(NodeState::Outside)
    }
}

/// The mesh-extraction octree over a box of space.
pub struct Octree {
    pub range: Range,
    pub depth: u8,
    pub root: Node,
    pub cells: Vec<CellInfo>,
    pub cell_half: V3,
}

impl Octree {
    /// Every arena entry has a position inside the grid, eight corner
    /// slots and six neighbour slots, and every neighbour slot holds
    /// exactly what indexing the tree at the face-adjacent grid position
    /// resolves to.
    pub open spec fn arena_ok(self) -> bool {
        forall|h: int|
            0 <= h < self.cells@.len() ==> {
                let c = #[trigger] self.cells@[h];
                &&& 0 <= c.pos.x < pow2(self.depth as nat)
                &&& 0 <= c.pos.y < pow2(self.depth as nat)
                &&& 0 <= c.pos.z < pow2(self.depth as nat)
                &&& c.cube_indices@.len() == 8
                &&& c.neighbours@.len() == 6
            }
    }

    /// Neighbour resolution: each of the six slots of every cell equals
    /// the grid lookup of the position one step along the slot's axis and
    /// direction, with out-of-grid neighbours resolving to `Outside`.
    pub open spec fn neighbours_resolved(self) -> bool {
        forall|h: int, k: int|
            0 <= h < self.cells@.len() && 0 <= k < 6 ==> #[trigger] self.cells@[h].neighbours@[k]
                == grid_lookup(
                self.root,
                self.depth as nat,
                self.cells@[h].pos.x + shift_x(k),
                self.cells@[h].pos.y + shift_y(k),
                self.cells@[h].pos.z + shift_z(k),
            )
    }

    /// The arena is reachable from the tree: indexing the tree at any
    /// cell's recorded grid position resolves to exactly that cell's
    /// handle. With this, an `index` at a position listed by
    /// `get_cells_with_indices` gives the listed handle back, and two
    /// distinct handles never record the same position.
    pub open spec fn cells_reachable(self) -> bool {
        forall|h: int|
            0 <= h < self.cells@.len() ==> grid_lookup(
                self.root,
                self.depth as nat,
                (#[trigger] self.cells@[h]).pos.x as int,
                self.cells@[h].pos.y as int,
                self.cells@[h].pos.z as int,
            ) == NeighborRef::Cell(h as usize)
    }

    /// A built tree: bounded depth, a range whose extent is `2^depth`
    /// grid cells of extent twice `cell_half` per axis, a tree coherent
    /// with its arena, and resolved neighbours.
    pub open spec fn wf(self) -> bool {
        &&& self.depth <= 20
        &&& self.range.wf()
        &&& self.range.smaller_corner.in_world()
        &&& self.range.greater_corner.in_world()
        &&& self.cell_half.non_negative()
        &&& self.cell_half.x * (2 * pow2(self.depth as nat)) == self.range.greater_corner.x
            - self.range.smaller_corner.x
        &&& self.cell_half.y * (2 * pow2(self.depth as nat)) == self.range.greater_corner.y
            - self.range.smaller_corner.y
        &&& self.cell_half.z * (2 * pow2(self.depth as nat)) == self.range.greater_corner.z
            - self.range.smaller_corner.z
        &&& tree_cells_ok(self.root, 0, 0, 0, self.depth as nat, self.cells@)
        &&& self.arena_ok()
        &&& self.cells_reachable()
        &&& self.neighbours_resolved()
    }

    /// No corner-vertex slot filled yet: the state right after
    /// construction, which one triangulation consumes.
    pub open spec fn fresh(self) -> bool {
        forall|h: int, k: int|
            0 <= h < self.cells@.len() && 0 <= k < 8 ==> (#[trigger] self.cells@[h].cube_indices@[k])
                is None
    }

    /// Approximate a signed-distance shape over a box with a fixed-depth
    /// mesh-extraction tree, then resolve the six face neighbours of
    /// every boundary cell by indexing the tree at the adjacent integer
    /// grid positions.
    #[verifier::rlimit(60)]
    pub fn new_from_dist<S: Shape>(d: &S, range: Range, depth: u8) -> (t: Octree)
        requires
            d.sh_wf(),
            range.wf(),
            range.smaller_corner.in_world(),
            range.greater_corner.in_world(),
            (range.greater_corner.x - range.smaller_corner.x) % 2 == 0,
            (range.greater_corner.y - range.smaller_corner.y) % 2 == 0,
            (range.greater_corner.z - range.smaller_corner.z) % 2 == 0,
            tiles(crate::octree::range_half(range), depth as nat),
            depth <= 20,
        ensures
            t.wf(),
            t.fresh(),
            t.range == range,
            t.depth == depth,
            surface_sound(*d, t.root, range.smaller_corner, crate::octree::range_half(range)),
            d.classify_spec(
                cube_center(range.smaller_corner, crate::octree::range_half(range)),
                crate::octree::range_half(range),
            ) is Outside ==> t.root == Node::Completely(NodeState::Outside),
            d.classify_spec(
                cube_center(range.smaller_corner, crate::octree::range_half(range)),
                crate::octree::range_half(range),
            ) is Inside ==> t.root == Node::Completely(NodeState::Inside),
    {
        let diag = range.diagonal();
        let half = diag.half();
        proof {
            assert(half == crate::octree::range_half(range));
            assert(cube_wf(range.smaller_corner, half));
            lemma_pow2_bound24(depth as nat);
            lemma_pow2_pos(depth as nat);
        }
        // The half-extent of one grid cell: the root half-extent halved
        // once per level, exactly, thanks to the tiling precondition.
        let mut ch = half;
        let mut k: u8 = 0;
        proof {
            assert(pow2(0) == 1);
            assert(ch.x * pow2(0) == ch.x) by (nonlinear_arith)
                requires
                    pow2(0) == 1,
            ;
            assert(ch.y * pow2(0) == ch.y) by (nonlinear_arith)
                requires
                    pow2(0) == 1,
            ;
            assert(ch.z * pow2(0) == ch.z) by (nonlinear_arith)
                requires
                    pow2(0) == 1,
            ;
        }
        while k < depth
            invariant
                k <= depth,
                depth <= 24,
                tiles(ch, (depth - k) as nat),
                ch.non_negative(),
                ch.x * pow2(k as nat) == half.x,
                ch.y * pow2(k as nat) == half.y,
                ch.z * pow2(k as nat) == half.z,
            decreases depth - k,
        {
            let ghost chx = ch.x as int;
            let ghost chy = ch.y as int;
            let ghost chz = ch.z as int;
            let next = ch.half();
            proof {
                assert(pow2((k + 1) as nat) == 2 * pow2(k as nat));
                assert((chx / 2) * (2 * pow2(k as nat)) == chx * pow2(k as nat)) by (nonlinear_arith)
                    requires
                        chx % 2 == 0,
                ;
                assert((chy / 2) * (2 * pow2(k as nat)) == chy * pow2(k as nat)) by (nonlinear_arith)
                    requires
                        chy % 2 == 0,
                ;
                assert((chz / 2) * (2 * pow2(k as nat)) == chz * pow2(k as nat)) by (nonlinear_arith)
                    requires
                        chz % 2 == 0,
                ;
            }
            ch = next;
            k = k + 1;
        }
        let mut cells: Vec<CellInfo> = Vec::new();
        let root = Node::build(d, range.smaller_corner, half, depth, 0, 0, 0, &mut cells);
        let ghost cells0 = cells@;
        let side = pow2_i64(depth);
        let m = side / 2;
        proof {
            if depth >= 1 {
                assert(pow2(depth as nat) == 2 * pow2((depth - 1) as nat));
            }
        }
        let n_cells = cells.len();
        let mut hidx: usize = 0;
        while hidx < n_cells
            invariant
                depth <= 24,
                side as int == pow2(depth as nat),
                depth >= 1 ==> m as int == pow2((depth - 1) as nat),
                n_cells == cells@.len(),
                cells@.len() == cells0.len(),
                hidx <= n_cells,
                tree_cells_ok(root, 0, 0, 0, depth as nat, cells0),
                forall|h: int|
                    0 <= h < cells0.len() ==> entry_init(
                        #[trigger] cells0[h],
                        0,
                        0,
                        0,
                        depth as nat,
                    ),
                forall|h: int|
                    0 <= h < cells@.len() ==> (#[trigger] cells@[h]).pos == cells0[h].pos
                        && cells@[h].cube_indices == cells0[h].cube_indices,
                forall|h: int| hidx <= h < cells@.len() ==> #[trigger] cells@[h] == cells0[h],
                forall|h: int|
                    0 <= h < hidx ==> (#[trigger] cells@[h]).neighbours@.len() == 6,
                forall|h: int, k2: int|
                    0 <= h < hidx && 0 <= k2 < 6 ==> #[trigger] cells@[h].neighbours@[k2]
                        == grid_lookup(
                        root,
                        depth as nat,
                        cells@[h].pos.x + shift_x(k2),
                        cells@[h].pos.y + shift_y(k2),
                        cells@[h].pos.z + shift_z(k2),
                    ),
            decreases n_cells - hidx,
        {
            let pos = cells[hidx].pos;
            let r0 = grid_index(&root, pos.x - 1, pos.y, pos.z, depth, side, m);
            let r1 = grid_index(&root, pos.x + 1, pos.y, pos.z, depth, side, m);
            let r2 = grid_index(&root, pos.x, pos.y - 1, pos.z, depth, side, m);
            let r3 = grid_index(&root, pos.x, pos.y + 1, pos.z, depth, side, m);
            let r4 = grid_index(&root, pos.x, pos.y, pos.z - 1, depth, side, m);
            let r5 = grid_index(&root, pos.x, pos.y, pos.z + 1, depth, side, m);
            let mut nb: Vec<NeighborRef> = Vec::new();
            nb.push(r0);
            nb.push(r1);
            nb.push(r2);
            nb.push(r3);
            nb.push(r4);
            nb.push(r5);
            let ghost nbview = nb@;
            let cref = &mut cells[hidx];
            cref.neighbours = nb;
            proof {
                assert(cells@[hidx as int].neighbours@ == nbview);
                assert forall|h: int, k2: int|
                    0 <= h < hidx as int + 1 && 0 <= k2 < 6 implies #[trigger] cells@[h].neighbours@[k2]
                    == grid_lookup(
                    root,
                    depth as nat,
                    cells@[h].pos.x + shift_x(k2),
                    cells@[h].pos.y + shift_y(k2),
                    cells@[h].pos.z + shift_z(k2),
                ) by {
                    if h == hidx as int {
                        assert(cells@[h].neighbours@[k2] == nbview[k2]);
                    }
                }
            }
            hidx = hidx + 1;
        }
        let t = Octree { range, depth, root, cells, cell_half: ch };
        proof {
            lemma_tree_cells_ok_extend(t.root, 0, 0, 0, depth as nat, cells0, t.cells@);
            assert forall|h: int| 0 <= h < t.cells@.len() implies grid_lookup(
                t.root,
                t.depth as nat,
                (#[trigger] t.cells@[h]).pos.x as int,
                t.cells@[h].pos.y as int,
                t.cells@[h].pos.z as int,
            ) == NeighborRef::Cell(h as usize) by {
                assert(t.cells@[h].pos == cells0[h].pos);
                assert(entry_init(cells0[h], 0, 0, 0, depth as nat));
                assert(lookup(
                    t.root,
                    cells0[h].pos.x - 0,
                    cells0[h].pos.y - 0,
                    cells0[h].pos.z - 0,
                    depth as nat,
                ) == NeighborRef::Cell(h as usize));
            }
            assert(t.cell_half.x * (2 * pow2(depth as nat)) == range.greater_corner.x
                - range.smaller_corner.x) by (nonlinear_arith)
                requires
                    t.cell_half.x * pow2(depth as nat) == half.x as int,
                    2 * (half.x as int) == range.greater_corner.x - range.smaller_corner.x,
            ;
            assert(t.cell_half.y * (2 * pow2(depth as nat)) == range.greater_corner.y
                - range.smaller_corner.y) by (nonlinear_arith)
                requires
                    t.cell_half.y * pow2(depth as nat) == half.y as int,
                    2 * (half.y as int) == range.greater_corner.y - range.smaller_corner.y,
            ;
            assert(t.cell_half.z * (2 * pow2(depth as nat)) == range.greater_corner.z
                - range.smaller_corner.z) by (nonlinear_arith)
                requires
                    t.cell_half.z * pow2(depth as nat) == half.z as int,
                    2 * (half.z as int) == range.greater_corner.z - range.smaller_corner.z,
            ;
        }
        t
    }

    /// Index a grid position: the cell there, or the terminal state of
    /// the region it falls in, with positions outside the grid resolving
    /// to `Outside`.
    pub fn index(&self, id: V3) -> (r: NeighborRef)
        requires
            self.wf(),
        ensures
            r == grid_lookup(self.root, self.depth as nat, id.x as int, id.y as int, id.z as int),
    {
        let side = pow2_i64(self.depth);
        let m = side / 2;
        proof {
            if self.depth >= 1 {
                assert(pow2(self.depth as nat) == 2 * pow2((self.depth - 1) as nat));
            }
        }
        grid_index(&self.root, id.x, id.y, id.z, self.depth, side, m)
    }

    /// Every boundary cell's grid position with its handle, in arena
    /// order: one pair per boundary cell of the tree. On a well-formed
    /// tree the positions are pairwise distinct
    /// (`lemma_cell_positions_injective`) and indexing any listed
    /// position gives the listed handle back (`cells_reachable`).
    pub fn get_cells_with_indices(&self) -> (r: Vec<(V3, usize)>)
        ensures
            r@.len() == self.cells@.len(),
            forall|i: int|
                0 <= i < r@.len() ==> (#[trigger] r@[i]).0 == self.cells@[i].pos && r@[i].1 == i,
    {
        let mut result: Vec<(V3, usize)> = Vec::new();
        let mut i: usize = 0;
        while i < self.cells.len()
            invariant
                i <= self.cells@.len(),
                result@.len() == i,
                forall|j: int|
                    0 <= j < i as int ==> (#[trigger] result@[j]).0 == self.cells@[j].pos
                        && result@[j].1 == j,
            decreases self.cells@.len() - i,
        {
            result.push((self.cells[i].pos, i));
            i = i + 1;
        }
        result
    }

    /// The point in space at the center of the grid cell at `pos`.
    pub fn index_to_point(&self, pos: V3) -> (r: V3)
        requires
            self.wf(),
            0 <= pos.x < pow2(self.depth as nat),
            0 <= pos.y < pow2(self.depth as nat),
            0 <= pos.z < pow2(self.depth as nat),
        ensures
            r.x == self.range.smaller_corner.x + pos.x * (2 * self.cell_half.x) + self.cell_half.x,
            r.y == self.range.smaller_corner.y + pos.y * (2 * self.cell_half.y) + self.cell_half.y,
            r.z == self.range.smaller_corner.z + pos.z * (2 * self.cell_half.z) + self.cell_half.z,
    {
        proof {
            let d = self.depth as nat;
            assert(0 <= pos.x * (2 * self.cell_half.x) <= self.range.greater_corner.x
                - self.range.smaller_corner.x - 2 * self.cell_half.x) by (nonlinear_arith)
                requires
                    0 <= pos.x < pow2(d),
                    0 <= self.cell_half.x,
                    self.cell_half.x * (2 * pow2(d)) == self.range.greater_corner.x
                        - self.range.smaller_corner.x,
            ;
            assert(0 <= pos.y * (2 * self.cell_half.y) <= self.range.greater_corner.y
                - self.range.smaller_corner.y - 2 * self.cell_half.y) by (nonlinear_arith)
                requires
                    0 <= pos.y < pow2(d),
                    0 <= self.cell_half.y,
                    self.cell_half.y * (2 * pow2(d)) == self.range.greater_corner.y
                        - self.range.smaller_corner.y,
            ;
            assert(0 <= pos.z * (2 * self.cell_half.z) <= self.range.greater_corner.z
                - self.range.smaller_corner.z - 2 * self.cell_half.z) by (nonlinear_arith)
                requires
                    0 <= pos.z < pow2(d),
                    0 <= self.cell_half.z,
                    self.cell_half.z * (2 * pow2(d)) == self.range.greater_corner.z
                        - self.range.smaller_corner.z,
            ;
        }
        V3 {
            x: self.range.smaller_corner.x + pos.x * (2 * self.cell_half.x) + self.cell_half.x,
            y: self.range.smaller_corner.y + pos.y * (2 * self.cell_half.y) + self.cell_half.y,
            z: self.range.smaller_corner.z + pos.z * (2 * self.cell_half.z) + self.cell_half.z,
        }
    }
}

/// The boolean of axis `d` in corner index `k`.
pub open spec fn corner_bit_spec(k: int, d: int) -> bool {
    if d == 0 {
        k % 2 == 1
    } else if d == 1 {
        (k / 2) % 2 == 1
    } else {
        (k / 4) % 2 == 1
    }
}

/// The boolean of axis `d` in corner index `k`, executable.
fn corner_bit(k: usize, d: usize) -> (b: bool)
    requires
        k < 8,
        d < 3,
    ensures
        b == corner_bit_spec(k as int, d as int),
{
    if d == 0 {
        k % 2 == 1
    } else if d == 1 {
        (k / 2) % 2 == 1
    } else {
        (k / 4) % 2 == 1
    }
}

/// The corner index across axis `d` from corner `k`: the bit of axis `d`
/// flipped, the other two kept.
/// The corner index across axis `d` from corner `k`: the bit of axis `d`
/// flipped, the other two kept.
pub open spec fn corner_flip_spec(k: int, d: int) -> int {
    let step = if d == 0 {
        1int
    } else if d == 1 {
        2int
    } else {
        4int
    };
    if corner_bit_spec(k, d) {
        k - step
    } else {
        k + step
    }
}

/// The x coordinate of the grid corner that corner `k` of cell `c`
/// denotes: the cell's position, moved one step along each axis whose
/// bit is set in `k`. Mirrored corners of adjacent cells denote the same
/// grid corner.
pub open spec fn corner_pos_x(c: CellInfo, k: int) -> int {
    c.pos.x + if corner_bit_spec(k, 0) {
        1int
    } else {
        0int
    }
}

pub open spec fn corner_pos_y(c: CellInfo, k: int) -> int {
    c.pos.y + if corner_bit_spec(k, 1) {
        1int
    } else {
        0int
    }
}

pub open spec fn corner_pos_z(c: CellInfo, k: int) -> int {
    c.pos.z + if corner_bit_spec(k, 2) {
        1int
    } else {
        0int
    }
}

/// A grid corner position packed into one registry key: 21 bits per
/// axis, which the depth bound keeps exact.
pub open spec fn corner_key(x: int, y: int, z: int) -> int {
    x + y * 0x20_0000 + z * 0x400_0000_0000
}

/// The registry key of corner `k` of cell `c`.
pub open spec fn slot_key(c: CellInfo, k: int) -> u64 {
    corner_key(corner_pos_x(c, k), corner_pos_y(c, k), corner_pos_z(c, k)) as u64
}

/// Every value the corner registry holds is a vertex index below `n`.
pub open spec fn map_bounded(m: Map<u64, usize>, n: int) -> bool {
    forall|key: u64| #[trigger] m.contains_key(key) ==> m[key] < n
}

/// Every filled corner slot agrees with the registry: the slot holds
/// exactly the vertex index registered for its grid corner.
pub open spec fn slots_map_ok(cells: Seq<CellInfo>, m: Map<u64, usize>) -> bool {
    forall|h: int, k: int|
        0 <= h < cells.len() && 0 <= k < 8 ==> ((#[trigger] cells[h].cube_indices@[k]) matches Some(
            v,
        ) ==> m.contains_key(slot_key(cells[h], k)) && m[slot_key(cells[h], k)] == v)
}

/// Corner-vertex sharing: any two filled slots that denote the same grid
/// corner hold the same vertex index, across all cells.
pub open spec fn shared_slots(cells: Seq<CellInfo>) -> bool {
    forall|h1: int, k1: int, h2: int, k2: int|
        #![trigger cells[h1].cube_indices@[k1], cells[h2].cube_indices@[k2]]
        0 <= h1 < cells.len() && 0 <= k1 < 8 && 0 <= h2 < cells.len() && 0 <= k2 < 8
            && corner_pos_x(cells[h1], k1) == corner_pos_x(cells[h2], k2) && corner_pos_y(
            cells[h1],
            k1,
        ) == corner_pos_y(cells[h2], k2) && corner_pos_z(cells[h1], k1) == corner_pos_z(
            cells[h2],
            k2,
        ) && cells[h1].cube_indices@[k1] is Some && cells[h2].cube_indices@[k2] is Some
            ==> cells[h1].cube_indices@[k1] == cells[h2].cube_indices@[k2]
}

/// Slots that agree with one registry share: equal corners give equal
/// registry keys, so equal values.
proof fn lemma_slots_map_ok_shared(cells: Seq<CellInfo>, m: Map<u64, usize>)
    requires
        slots_map_ok(cells, m),
    ensures
        shared_slots(cells),
{
    assert forall|h1: int, k1: int, h2: int, k2: int|
        #![trigger cells[h1].cube_indices@[k1], cells[h2].cube_indices@[k2]]
        0 <= h1 < cells.len() && 0 <= k1 < 8 && 0 <= h2 < cells.len() && 0 <= k2 < 8
            && corner_pos_x(cells[h1], k1) == corner_pos_x(cells[h2], k2) && corner_pos_y(
            cells[h1],
            k1,
        ) == corner_pos_y(cells[h2], k2) && corner_pos_z(cells[h1], k1) == corner_pos_z(
            cells[h2],
            k2,
        ) && cells[h1].cube_indices@[k1] is Some && cells[h2].cube_indices@[k2]
            is Some implies cells[h1].cube_indices@[k1] == cells[h2].cube_indices@[k2] by {
        assert(slot_key(cells[h1], k1) == slot_key(cells[h2], k2));
    }
}

/// Whether face `k2` of a cell is boundary-crossing: the neighbour across
/// it resolved to the `Outside` terminal.
pub open spec fn crossing(c: CellInfo, k2: int) -> bool {
    c.neighbours@[k2] == NeighborRef::State(NodeState::Outside)
}

/// How many of the first `k2` faces of a cell are boundary-crossing.
pub open spec fn cell_crossings_up_to(c: CellInfo, k2: int) -> int
    decreases k2,
{
    if k2 <= 0 {
        0int
    } else {
        cell_crossings_up_to(c, k2 - 1) + if crossing(c, k2 - 1) {
            1int
        } else {
            0int
        }
    }
}

/// How many boundary-crossing faces the first `n` cells of the arena
/// have in all.
pub open spec fn crossings_up_to(cells: Seq<CellInfo>, n: int) -> int
    decreases n,
{
    if n <= 0 {
        0int
    } else {
        crossings_up_to(cells, n - 1) + cell_crossings_up_to(cells[n - 1], 6)
    }
}

/// Every filled corner slot of the arena holds a vertex index below `n`.
pub open spec fn slots_bounded(cells: Seq<CellInfo>, n: int) -> bool {
    forall|h: int, k: int|
        0 <= h < cells.len() && 0 <= k < 8 ==> ((#[trigger] cells[h].cube_indices@[k]) matches Some(
            v,
        ) ==> v < n)
}

/// Every corner of every boundary-crossing face of cell `h` has its
/// vertex slot filled.
pub open spec fn allocated(cells: Seq<CellInfo>, h: int) -> bool {
    forall|k2: int, k: int|
        #![trigger crossing(cells[h], k2), cells[h].cube_indices@[k]]
        0 <= k2 < 6 && 0 <= k < 8 && crossing(cells[h], k2) && corner_bit_spec(k, k2 / 2) == (k2 % 2
            == 1) ==> cells[h].cube_indices@[k] is Some
}

/// Monotone growth of filled slots keeps a cell's faces allocated.
proof fn lemma_allocated_monotone(cells1: Seq<CellInfo>, cells2: Seq<CellInfo>, h2: int)
    requires
        0 <= h2 < cells1.len(),
        cells2.len() == cells1.len(),
        cells2[h2].neighbours == cells1[h2].neighbours,
        forall|k: int|
            0 <= k < 8 ==> ((#[trigger] cells1[h2].cube_indices@[k]) is Some
                ==> cells2[h2].cube_indices@[k] is Some),
        allocated(cells1, h2),
    ensures
        allocated(cells2, h2),
{
    assert forall|k2: int, k: int|
        #![trigger crossing(cells2[h2], k2), cells2[h2].cube_indices@[k]]
        0 <= k2 < 6 && 0 <= k < 8 && crossing(cells2[h2], k2) && corner_bit_spec(k, k2 / 2) == (k2
            % 2 == 1) implies cells2[h2].cube_indices@[k] is Some by {
        assert(crossing(cells1[h2], k2));
        assert(cells1[h2].cube_indices@[k] is Some);
    }
}

/// The center of the grid cell at `pos`, in world coordinates.
pub open spec fn cell_center(t: Octree, pos: V3) -> V3 {
    V3 {
        x: (t.range.smaller_corner.x + pos.x * (2 * t.cell_half.x) + t.cell_half.x) as i64,
        y: (t.range.smaller_corner.y + pos.y * (2 * t.cell_half.y) + t.cell_half.y) as i64,
        z: (t.range.smaller_corner.z + pos.z * (2 * t.cell_half.z) + t.cell_half.z) as i64,
    }
}

/// The vertex is the center of one of the tree's boundary cells.
pub open spec fn vertex_from_cell(t: Octree, v: V3) -> bool {
    exists|h2: int| 0 <= h2 < t.cells@.len() && v == cell_center(t, #[trigger] t.cells@[h2].pos)
}

impl Octree {
    /// Fill the vertex slot of corner `k` of cell `h` if it is still
    /// empty. Corners are shared through `corner_map`, a registry from a
    /// corner's grid position to its vertex index: every cell bordering
    /// the corner reuses the registered vertex, and the first cell to
    /// need the corner pushes a fresh vertex at its own center and
    /// registers it.
    #[verifier::rlimit(60)]
    fn ensure_corner(
        &mut self,
        h: usize,
        k: usize,
        point_array: &mut Vec<V3>,
        corner_map: &mut HashMap<u64, usize>,
    )
        requires
            old(self).wf(),
            h < old(self).cells@.len(),
            k < 8,
            slots_bounded(old(self).cells@, old(point_array)@.len() as int),
            map_bounded(old(corner_map)@, old(point_array)@.len() as int),
            slots_map_ok(old(self).cells@, old(corner_map)@),
        ensures
            map_bounded(final(corner_map)@, final(point_array)@.len() as int),
            slots_map_ok(final(self).cells@, final(corner_map)@),
            final(self).wf(),
            final(self).range == old(self).range,
            final(self).depth == old(self).depth,
            final(self).root == old(self).root,
            final(self).cell_half == old(self).cell_half,
            final(self).cells@.len() == old(self).cells@.len(),
            forall|h2: int|
                0 <= h2 < old(self).cells@.len() ==> (#[trigger] final(self).cells@[h2]).pos == old(
                    self,
                ).cells@[h2].pos && final(self).cells@[h2].neighbours == old(
                    self,
                ).cells@[h2].neighbours && final(self).cells@[h2].cube_indices@.len() == 8,
            forall|h2: int, k2: int|
                0 <= h2 < old(self).cells@.len() && 0 <= k2 < 8 && !(h2 == h as int && k2
                    == k as int) ==> (#[trigger] final(self).cells@[h2].cube_indices@[k2]) == old(
                    self,
                ).cells@[h2].cube_indices@[k2],
            (final(self).cells@[h as int].cube_indices@[k as int]) is Some,
            slots_bounded(final(self).cells@, final(point_array)@.len() as int),
            final(point_array)@.len() >= old(point_array)@.len(),
            forall|i: int|
                0 <= i < old(point_array)@.len() ==> final(point_array)@[i]
                    == #[trigger] old(point_array)@[i],
            forall|i: int|
                old(point_array)@.len() <= i < final(point_array)@.len()
                    ==> #[trigger] final(point_array)@[i] == cell_center(
                    *old(self),
                    old(self).cells@[h as int].pos,
                ),
    {
        let existing = self.cells[h].cube_indices[k];
        if existing.is_some() {
            return ;
        }
        proof {
            lemma_pow2_bound20(self.depth as nat);
        }
        let pos = self.cells[h].pos;
        let cx: i64 = pos.x + if corner_bit(k, 0) {
            1
        } else {
            0
        };
        let cy: i64 = pos.y + if corner_bit(k, 1) {
            1
        } else {
            0
        };
        let cz: i64 = pos.z + if corner_bit(k, 2) {
            1
        } else {
            0
        };
        let key: u64 = (cx as u64) + (cy as u64) * 0x20_0000 + (cz as u64) * 0x400_0000_0000;
        proof {
            assert(key == slot_key(self.cells@[h as int], k as int));
        }
        let found = corner_map.get(&key);
        let idx: usize = match found {
            Some(v) => *v,
            None => {
                let v = point_array.len();
                let center = self.index_to_point(pos);
                point_array.push(center);
                corner_map.insert(key, v);
                v
            },
        };
        proof {
            assert(corner_map@.contains_key(key) && corner_map@[key] == idx && idx
                < point_array@.len());
            assert(map_bounded(corner_map@, point_array@.len() as int));
        }
        let cellref = &mut self.cells[h];
        let slotref = &mut cellref.cube_indices[k];
        *slotref = Some(idx);
        proof {
            assert(final(self).cells@ =~= old(self).cells@.update(
                h as int,
                final(self).cells@[h as int],
            ));
            assert(self.cells@[h as int].pos == old(self).cells@[h as int].pos);
            assert(self.cells@[h as int].neighbours == old(self).cells@[h as int].neighbours);
            assert(self.cells@[h as int].cube_indices@.len() == 8);
            lemma_tree_cells_ok_extend(
                self.root,
                0,
                0,
                0,
                self.depth as nat,
                old(self).cells@,
                self.cells@,
            );
            assert forall|h2: int| 0 <= h2 < self.cells@.len() implies grid_lookup(
                self.root,
                self.depth as nat,
                (#[trigger] self.cells@[h2]).pos.x as int,
                self.cells@[h2].pos.y as int,
                self.cells@[h2].pos.z as int,
            ) == NeighborRef::Cell(h2 as usize) by {
                assert(self.cells@[h2].pos == old(self).cells@[h2].pos);
                assert(grid_lookup(
                    old(self).root,
                    old(self).depth as nat,
                    old(self).cells@[h2].pos.x as int,
                    old(self).cells@[h2].pos.y as int,
                    old(self).cells@[h2].pos.z as int,
                ) == NeighborRef::Cell(h2 as usize));
            }
            assert forall|h2: int, k2: int|
                0 <= h2 < self.cells@.len() && 0 <= k2 < 6 implies #[trigger] self.cells@[h2].neighbours@[k2]
                == grid_lookup(
                self.root,
                self.depth as nat,
                self.cells@[h2].pos.x + shift_x(k2),
                self.cells@[h2].pos.y + shift_y(k2),
                self.cells@[h2].pos.z + shift_z(k2),
            ) by {
                assert(old(self).cells@[h2].neighbours@[k2] == grid_lookup(
                    old(self).root,
                    old(self).depth as nat,
                    old(self).cells@[h2].pos.x + shift_x(k2),
                    old(self).cells@[h2].pos.y + shift_y(k2),
                    old(self).cells@[h2].pos.z + shift_z(k2),
                ));
            }
            assert forall|h2: int, k2: int|
                0 <= h2 < self.cells@.len() && 0 <= k2 < 8 implies ((
            #[trigger] self.cells@[h2].cube_indices@[k2]) matches Some(v)
                ==> corner_map@.contains_key(slot_key(self.cells@[h2], k2)) && corner_map@[slot_key(
                self.cells@[h2],
                k2,
            )] == v) by {
                assert(self.cells@[h2].pos == old(self).cells@[h2].pos);
                assert(slot_key(self.cells@[h2], k2) == slot_key(old(self).cells@[h2], k2));
                if h2 == h as int && k2 == k as int {
                } else {
                    assert(self.cells@[h2].cube_indices@[k2] == old(
                        self,
                    ).cells@[h2].cube_indices@[k2]);
                    if old(self).cells@[h2].cube_indices@[k2] is Some {
                        assert(old(corner_map)@.contains_key(slot_key(old(self).cells@[h2], k2)));
                    }
                }
            }
        }
    }
}

impl Octree {
    /// Walk every cell and fill the corner-vertex slots of every
    /// boundary-crossing face, sharing corners across cells through a
    /// registry keyed by the corner's grid position.
    #[verifier::rlimit(60)]
    fn alloc_corners(&mut self, point_array: &mut Vec<V3>)
        requires
            old(self).wf(),
            old(self).fresh(),
            slots_bounded(old(self).cells@, old(point_array)@.len() as int),
        ensures
            shared_slots(final(self).cells@),
            final(self).wf(),
            final(self).range == old(self).range,
            final(self).depth == old(self).depth,
            final(self).root == old(self).root,
            final(self).cell_half == old(self).cell_half,
            final(self).cells@.len() == old(self).cells@.len(),
            forall|h2: int|
                0 <= h2 < old(self).cells@.len() ==> (#[trigger] final(self).cells@[h2]).pos == old(
                    self,
                ).cells@[h2].pos && final(self).cells@[h2].neighbours == old(
                    self,
                ).cells@[h2].neighbours,
            slots_bounded(final(self).cells@, final(point_array)@.len() as int),
            final(point_array)@.len() >= old(point_array)@.len(),
            forall|i: int|
                0 <= i < old(point_array)@.len() ==> final(point_array)@[i]
                    == #[trigger] old(point_array)@[i],
            forall|i: int|
                old(point_array)@.len() <= i < final(point_array)@.len() ==> vertex_from_cell(
                    *old(self),
                    #[trigger] final(point_array)@[i],
                ),
            forall|h2: int| 0 <= h2 < final(self).cells@.len() ==> allocated(final(self).cells@, h2),
    {
        let mut corner_map: HashMap<u64, usize> = HashMap::new();
        let ncells = self.cells.len();
        let mut h: usize = 0;
        while h < ncells
            invariant
                self.wf(),
                ncells == self.cells@.len(),
                h <= ncells,
                self.range == old(self).range,
                self.depth == old(self).depth,
                self.root == old(self).root,
                self.cell_half == old(self).cell_half,
                self.cells@.len() == old(self).cells@.len(),
                forall|h2: int|
                    0 <= h2 < old(self).cells@.len() ==> (#[trigger] self.cells@[h2]).pos == old(
                        self,
                    ).cells@[h2].pos && self.cells@[h2].neighbours == old(
                        self,
                    ).cells@[h2].neighbours,
                slots_bounded(self.cells@, point_array@.len() as int),
                map_bounded(corner_map@, point_array@.len() as int),
                slots_map_ok(self.cells@, corner_map@),
                point_array@.len() >= old(point_array)@.len(),
                forall|i: int|
                    0 <= i < old(point_array)@.len() ==> point_array@[i] == #[trigger] old(
                        point_array,
                    )@[i],
                forall|i: int|
                    old(point_array)@.len() <= i < point_array@.len() ==> vertex_from_cell(
                        *old(self),
                        #[trigger] point_array@[i],
                    ),
                forall|h2: int| 0 <= h2 < h as int ==> allocated(self.cells@, h2),
            decreases ncells - h,
        {
            let mut face: usize = 0;
            while face < 6
                invariant
                    self.wf(),
                    ncells == self.cells@.len(),
                    h < ncells,
                    face <= 6,
                    self.range == old(self).range,
                    self.depth == old(self).depth,
                    self.root == old(self).root,
                    self.cell_half == old(self).cell_half,
                    self.cells@.len() == old(self).cells@.len(),
                    forall|h2: int|
                        0 <= h2 < old(self).cells@.len() ==> (#[trigger] self.cells@[h2]).pos
                            == old(self).cells@[h2].pos && self.cells@[h2].neighbours == old(
                            self,
                        ).cells@[h2].neighbours,
                    slots_bounded(self.cells@, point_array@.len() as int),
                    map_bounded(corner_map@, point_array@.len() as int),
                    slots_map_ok(self.cells@, corner_map@),
                    point_array@.len() >= old(point_array)@.len(),
                    forall|i: int|
                        0 <= i < old(point_array)@.len() ==> point_array@[i] == #[trigger] old(
                            point_array,
                        )@[i],
                    forall|i: int|
                        old(point_array)@.len() <= i < point_array@.len() ==> vertex_from_cell(
                            *old(self),
                            #[trigger] point_array@[i],
                        ),
                    forall|h2: int| 0 <= h2 < h as int ==> allocated(self.cells@, h2),
                    forall|k2p: int, k: int|
                        #![trigger crossing(self.cells@[h as int], k2p), self.cells@[h as int].cube_indices@[k]]
                        0 <= k2p < face as int && 0 <= k < 8 && crossing(self.cells@[h as int], k2p)
                            && corner_bit_spec(k, k2p / 2) == (k2p % 2 == 1)
                            ==> self.cells@[h as int].cube_indices@[k] is Some,
                decreases 6 - face,
            {
                let nbr = self.cells[h].neighbours[face];
                let is_crossing = match nbr {
                    NeighborRef::State(NodeState::Outside) => true,
                    _ => false,
                };
                if is_crossing {
                    let axis = face / 2;
                    let up = face % 2 == 1;
                    let mut k: usize = 0;
                    while k < 8
                        invariant
                            self.wf(),
                            ncells == self.cells@.len(),
                            h < ncells,
                            face < 6,
                            axis == face / 2,
                            up == (face % 2 == 1),
                            k <= 8,
                            self.range == old(self).range,
                            self.depth == old(self).depth,
                            self.root == old(self).root,
                            self.cell_half == old(self).cell_half,
                            self.cells@.len() == old(self).cells@.len(),
                            forall|h2: int|
                                0 <= h2 < old(self).cells@.len() ==> (#[trigger] self.cells@[h2]).pos
                                    == old(self).cells@[h2].pos && self.cells@[h2].neighbours
                                    == old(self).cells@[h2].neighbours,
                            slots_bounded(self.cells@, point_array@.len() as int),
                            map_bounded(corner_map@, point_array@.len() as int),
                            slots_map_ok(self.cells@, corner_map@),
                            point_array@.len() >= old(point_array)@.len(),
                            forall|i: int|
                                0 <= i < old(point_array)@.len() ==> point_array@[i]
                                    == #[trigger] old(point_array)@[i],
                            forall|i: int|
                                old(point_array)@.len() <= i < point_array@.len()
                                    ==> vertex_from_cell(*old(self), #[trigger] point_array@[i]),
                            forall|h2: int| 0 <= h2 < h as int ==> allocated(self.cells@, h2),
                            forall|k2p: int, k3: int|
                                #![trigger crossing(self.cells@[h as int], k2p), self.cells@[h as int].cube_indices@[k3]]
                                0 <= k2p < face as int && 0 <= k3 < 8 && crossing(
                                    self.cells@[h as int],
                                    k2p,
                                ) && corner_bit_spec(k3, k2p / 2) == (k2p % 2 == 1)
                                    ==> self.cells@[h as int].cube_indices@[k3] is Some,
                            forall|k3: int|
                                0 <= k3 < k as int && corner_bit_spec(k3, axis as int) == up ==> (
                                #[trigger] self.cells@[h as int].cube_indices@[k3]) is Some,
                        decreases 8 - k,
                    {
                        if corner_bit(k, axis) == up {
                            let ghost pre_self = *self;
                            let ghost pre_pts = point_array@;
                            self.ensure_corner(h, k, point_array, &mut corner_map);
                            proof {
                                assert(cell_center(pre_self, pre_self.cells@[h as int].pos)
                                    == cell_center(*old(self), old(self).cells@[h as int].pos));
                                assert forall|i: int|
                                    old(point_array)@.len() <= i < point_array@.len()
                                        implies vertex_from_cell(
                                    *old(self),
                                    #[trigger] point_array@[i],
                                ) by {
                                    if i < pre_pts.len() {
                                        assert(point_array@[i] == pre_pts[i]);
                                        assert(vertex_from_cell(*old(self), pre_pts[i]));
                                    } else {
                                        assert(point_array@[i] == cell_center(
                                            *old(self),
                                            old(self).cells@[h as int].pos,
                                        ));
                                    }
                                }
                                assert forall|h2: int| 0 <= h2 < h as int implies allocated(
                                    self.cells@,
                                    h2,
                                ) by {
                                    lemma_allocated_monotone(pre_self.cells@, self.cells@, h2);
                                }
                                assert forall|k2p: int, k3: int|
                                    #![trigger crossing(self.cells@[h as int], k2p), self.cells@[h as int].cube_indices@[k3]]
                                    0 <= k2p < face as int && 0 <= k3 < 8 && crossing(
                                        self.cells@[h as int],
                                        k2p,
                                    ) && corner_bit_spec(k3, k2p / 2) == (k2p % 2 == 1)
                                        implies self.cells@[h as int].cube_indices@[k3] is Some by {
                                    assert(crossing(pre_self.cells@[h as int], k2p));
                                    assert(pre_self.cells@[h as int].cube_indices@[k3] is Some);
                                }
                                assert forall|k3: int|
                                    0 <= k3 < k as int + 1 && corner_bit_spec(k3, axis as int)
                                        == up implies (#[trigger] self.cells@[h as int].cube_indices@[k3])
                                    is Some by {
                                    if k3 < k as int {
                                        assert(pre_self.cells@[h as int].cube_indices@[k3]
                                            is Some);
                                    }
                                }
                            }
                        }
                        k = k + 1;
                    }
                }
                face = face + 1;
            }
            h = h + 1;
        }
        proof {
            lemma_slots_map_ok_shared(self.cells@, corner_map@);
        }
    }
}

/// A cell's crossing count is between zero and the number of faces seen.
proof fn lemma_cell_crossings_nonneg(c: CellInfo, k2: int)
    requires
        k2 >= 0,
    ensures
        0 <= cell_crossings_up_to(c, k2) <= k2,
    decreases k2,
{
    if k2 > 0 {
        lemma_cell_crossings_nonneg(c, k2 - 1);
    }
}

/// The arena's crossing count is non-negative.
proof fn lemma_crossings_nonneg(cells: Seq<CellInfo>, n: int)
    ensures
        crossings_up_to(cells, n) >= 0,
    decreases n,
{
    if n > 0 {
        lemma_crossings_nonneg(cells, n - 1);
        lemma_cell_crossings_nonneg(cells[n - 1], 6);
    }
}

/// Crossing counts depend only on the neighbour slots.
proof fn lemma_cell_crossings_same(c1: CellInfo, c2: CellInfo, k2: int)
    requires
        c2.neighbours == c1.neighbours,
    ensures
        cell_crossings_up_to(c1, k2) == cell_crossings_up_to(c2, k2),
    decreases k2,
{
    if k2 > 0 {
        lemma_cell_crossings_same(c1, c2, k2 - 1);
    }
}

/// The arena's crossing count depends only on the neighbour slots.
proof fn lemma_crossings_same(cells1: Seq<CellInfo>, cells2: Seq<CellInfo>, n: int)
    requires
        n <= cells1.len(),
        n <= cells2.len(),
        forall|h: int| 0 <= h < n ==> (#[trigger] cells2[h]).neighbours == cells1[h].neighbours,
    ensures
        crossings_up_to(cells1, n) == crossings_up_to(cells2, n),
    decreases n,
{
    if n > 0 {
        lemma_crossings_same(cells1, cells2, n - 1);
        lemma_cell_crossings_same(cells1[n - 1], cells2[n - 1], 6);
    }
}

impl Octree {
    /// Extract the surface-net mesh. Every cell's six faces are examined;
    /// a face whose neighbour resolved to the `Outside` terminal is
    /// boundary-crossing, its four corner-vertex slots are filled — each
    /// grid corner shared through a registry, so every cell bordering it
    /// reuses one vertex, and the first to need it pushes a fresh vertex
    /// at its own center — and the quad is emitted as two triangles.
    /// Vertices are appended to `point_array` and triangle corner indices
    /// to `index_array`; `shared_slots` then makes the mesh closed across
    /// adjacent cells at uniform depth (`lemma_face_neighbours_share_corner`).
    /// The corner slots are consumed by this pass: rebuild the tree to
    /// triangulate again.
    pub fn triangulate(&mut self, point_array: &mut Vec<V3>, index_array: &mut Vec<usize>)
        requires
            old(self).wf(),
            old(self).fresh(),
        ensures
            final(self).wf(),
            final(self).range == old(self).range,
            final(self).depth == old(self).depth,
            final(self).root == old(self).root,
            final(self).cells@.len() == old(self).cells@.len(),
            forall|h: int|
                0 <= h < old(self).cells@.len() ==> (#[trigger] final(self).cells@[h]).pos == old(
                    self,
                ).cells@[h].pos && final(self).cells@[h].neighbours == old(
                    self,
                ).cells@[h].neighbours,
            final(point_array)@.len() >= old(point_array)@.len(),
            forall|i: int|
                0 <= i < old(point_array)@.len() ==> final(point_array)@[i]
                    == #[trigger] old(point_array)@[i],
            forall|i: int|
                old(point_array)@.len() <= i < final(point_array)@.len() ==> vertex_from_cell(
                    *old(self),
                    #[trigger] final(point_array)@[i],
                ),
            shared_slots(final(self).cells@),
            final(index_array)@.len() == old(index_array)@.len() + 6 * crossings_up_to(
                old(self).cells@,
                old(self).cells@.len() as int,
            ),
            forall|i: int|
                0 <= i < old(index_array)@.len() ==> final(index_array)@[i]
                    == #[trigger] old(index_array)@[i],
            forall|i: int|
                old(index_array)@.len() <= i < final(index_array)@.len()
                    ==> #[trigger] final(index_array)@[i] < final(point_array)@.len(),
    {
        self.alloc_corners(point_array);
        let ncells = self.cells.len();
        let ghost idx0 = index_array@.len() as int;
        let mut h: usize = 0;
        while h < ncells
            invariant
                self.wf(),
                ncells == self.cells@.len(),
                h <= ncells,
                slots_bounded(self.cells@, point_array@.len() as int),
                forall|h2: int| 0 <= h2 < ncells as int ==> allocated(self.cells@, h2),
                idx0 == old(index_array)@.len(),
                index_array@.len() == idx0 + 6 * crossings_up_to(self.cells@, h as int),
                forall|i: int|
                    0 <= i < idx0 ==> index_array@[i] == #[trigger] old(index_array)@[i],
                forall|i: int|
                    idx0 <= i < index_array@.len() ==> #[trigger] index_array@[i]
                        < point_array@.len(),
            decreases ncells - h,
        {
            let mut face: usize = 0;
            while face < 6
                invariant
                    self.wf(),
                    ncells == self.cells@.len(),
                    h < ncells,
                    face <= 6,
                    slots_bounded(self.cells@, point_array@.len() as int),
                    forall|h2: int| 0 <= h2 < ncells as int ==> allocated(self.cells@, h2),
                    idx0 == old(index_array)@.len(),
                    index_array@.len() == idx0 + 6 * (crossings_up_to(self.cells@, h as int)
                        + cell_crossings_up_to(self.cells@[h as int], face as int)),
                    forall|i: int|
                        0 <= i < idx0 ==> index_array@[i] == #[trigger] old(index_array)@[i],
                    forall|i: int|
                        idx0 <= i < index_array@.len() ==> #[trigger] index_array@[i]
                            < point_array@.len(),
                decreases 6 - face,
            {
                proof {
                    lemma_crossings_nonneg(self.cells@, h as int);
                    lemma_cell_crossings_nonneg(self.cells@[h as int], face as int);
                }
                let nbr = self.cells[h].neighbours[face];
                let is_crossing = match nbr {
                    NeighborRef::State(NodeState::Outside) => true,
                    _ => false,
                };
                if is_crossing {
                    let axis = face / 2;
                    let up = face % 2 == 1;
                    let (ka, kb, kc, kd): (usize, usize, usize, usize) = if axis == 0 {
                        if up {
                            (1, 3, 5, 7)
                        } else {
                            (0, 2, 4, 6)
                        }
                    } else if axis == 1 {
                        if up {
                            (2, 3, 6, 7)
                        } else {
                            (0, 1, 4, 5)
                        }
                    } else {
                        if up {
                            (4, 5, 6, 7)
                        } else {
                            (0, 1, 2, 3)
                        }
                    };
                    proof {
                        assert(crossing(self.cells@[h as int], face as int));
                        assert(allocated(self.cells@, h as int));
                        assert(self.cells@[h as int].cube_indices@[ka as int] is Some);
                        assert(self.cells@[h as int].cube_indices@[kb as int] is Some);
                        assert(self.cells@[h as int].cube_indices@[kc as int] is Some);
                        assert(self.cells@[h as int].cube_indices@[kd as int] is Some);
                    }
                    let va = self.cells[h].cube_indices[ka].unwrap();
                    let vb = self.cells[h].cube_indices[kb].unwrap();
                    let vc = self.cells[h].cube_indices[kc].unwrap();
                    let vd = self.cells[h].cube_indices[kd].unwrap();
                    proof {
                        assert(va < point_array@.len() && vb < point_array@.len() && vc
                            < point_array@.len() && vd < point_array@.len());
                    }
                    let ghost pre_idx = index_array@;
                    index_array.push(va);
                    index_array.push(vb);
                    index_array.push(vc);
                    index_array.push(vb);
                    index_array.push(vd);
                    index_array.push(vc);
                    proof {
                        assert(index_array@ =~= pre_idx + seq![va, vb, vc, vb, vd, vc]);
                    }
                }
                proof {
                    assert(cell_crossings_up_to(self.cells@[h as int], face as int + 1)
                        == cell_crossings_up_to(self.cells@[h as int], face as int) + if crossing(
                        self.cells@[h as int],
                        face as int,
                    ) {
                        1int
                    } else {
                        0int
                    });
                }
                face = face + 1;
            }
            proof {
                lemma_crossings_nonneg(self.cells@, h as int);
                lemma_cell_crossings_nonneg(self.cells@[h as int], 6);
                assert(crossings_up_to(self.cells@, h as int + 1) == crossings_up_to(
                    self.cells@,
                    h as int,
                ) + cell_crossings_up_to(self.cells@[h as int], 6));
            }
            h = h + 1;
        }
        proof {
            lemma_crossings_same(old(self).cells@, self.cells@, old(self).cells@.len() as int);
        }
    }
}

} // verus!
