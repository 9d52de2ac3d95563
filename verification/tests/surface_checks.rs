use subdiv::octree::NodeState;
use subdiv::range::Range;
use subdiv::shape::Sphere;
use subdiv::surface::{NeighborRef, Octree};
use subdiv::vec3::V3;

fn sphere_octree(depth: u8) -> Octree {
    let range = Range::new(V3::new(0, 0, 0), V3::new(128, 128, 128));
    Octree::new_from_dist(&Sphere::new(V3::new(64, 64, 64), 40), range, depth)
}

#[test]
fn octree_indexing() {
    let mut oct = sphere_octree(4);
    let cells = oct.get_cells_with_indices();
    assert!(!cells.is_empty());
    for &(_pos, h) in cells.iter() {
        let mut buf = [0u8; 8];
        getrandom::getrandom(&mut buf).unwrap();
        let vals: Vec<Option<usize>> = buf.iter().map(|&b| Some(b as usize)).collect();
        oct.cells[h].cube_indices = vals;
    }
    for &(pos, h) in cells.iter() {
        match oct.index(pos) {
            NeighborRef::Cell(h2) => {
                assert_eq!(oct.cells[h2].cube_indices, oct.cells[h].cube_indices);
            }
            NeighborRef::State(_) => panic!("cell position resolved to a terminal"),
        }
    }
}

#[test]
fn octree_triangulation() {
    let mut oct = sphere_octree(5);
    oct.triangulate(&mut Vec::new(), &mut Vec::new());
}

#[test]
fn neighbour_resolution() {
    let oct = sphere_octree(3);
    let side = 8i64;
    let shifts = [
        (-1i64, 0i64, 0i64),
        (1, 0, 0),
        (0, -1, 0),
        (0, 1, 0),
        (0, 0, -1),
        (0, 0, 1),
    ];
    assert!(!oct.cells.is_empty());
    for cell in oct.cells.iter() {
        assert_eq!(cell.neighbours.len(), 6);
        for (k, &(dx, dy, dz)) in shifts.iter().enumerate() {
            let p = V3::new(cell.pos.x + dx, cell.pos.y + dy, cell.pos.z + dz);
            let via_index = oct.index(p);
            assert_eq!(cell.neighbours[k], via_index);
            let out_of_grid =
                p.x < 0 || p.x >= side || p.y < 0 || p.y >= side || p.z < 0 || p.z >= side;
            if out_of_grid {
                assert_eq!(via_index, NeighborRef::State(NodeState::Outside));
            }
        }
    }
    assert_eq!(
        oct.index(V3::new(-1, 0, 0)),
        NeighborRef::State(NodeState::Outside)
    );
    assert_eq!(
        oct.index(V3::new(0, 8, 0)),
        NeighborRef::State(NodeState::Outside)
    );
}

#[test]
fn triangulation_closure() {
    let mut oct = sphere_octree(4);
    let mut crossings = 0usize;
    for cell in oct.cells.iter() {
        for k in 0..6usize {
            if cell.neighbours[k] == NeighborRef::State(NodeState::Outside) {
                crossings += 1;
            }
        }
    }
    let mut pts: Vec<V3> = Vec::new();
    let mut idx: Vec<usize> = Vec::new();
    oct.triangulate(&mut pts, &mut idx);
    assert_eq!(idx.len(), 6 * crossings);
    assert_eq!(idx.len() % 3, 0);
    for &i in idx.iter() {
        assert!(i < pts.len());
    }
    assert!(crossings > 0);
    assert!(!pts.is_empty());
    // Every vertex sits at the center of a grid cell: cells are 8 units
    // wide at depth 4 over the 128-wide range, so centers are 4 mod 8.
    for p in pts.iter() {
        assert_eq!(p.x.rem_euclid(8), 4);
        assert_eq!(p.y.rem_euclid(8), 4);
        assert_eq!(p.z.rem_euclid(8), 4);
    }
}

#[test]
fn grid_boundary_neighbours_resolve_outside() {
    // A sphere crossing the range's face: cells sit on the grid edge and
    // their outward neighbours fall off the grid, resolving to `Outside`.
    let range = Range::new(V3::new(0, 0, 0), V3::new(128, 128, 128));
    let mut oct = Octree::new_from_dist(&Sphere::new(V3::new(0, 64, 64), 40), range, 4);
    let mut edge_cells = 0usize;
    for cell in oct.cells.iter() {
        if cell.pos.x == 0 {
            edge_cells += 1;
            assert_eq!(cell.neighbours[0], NeighborRef::State(NodeState::Outside));
        }
    }
    assert!(edge_cells > 0);
    let mut pts: Vec<V3> = Vec::new();
    let mut idx: Vec<usize> = Vec::new();
    oct.triangulate(&mut pts, &mut idx);
    assert!(!idx.is_empty());
    for &i in idx.iter() {
        assert!(i < pts.len());
    }
}

#[test]
fn face_neighbours_share_corner_vertices() {
    let mut oct = sphere_octree(4);
    let mut pts: Vec<V3> = Vec::new();
    let mut idx: Vec<usize> = Vec::new();
    oct.triangulate(&mut pts, &mut idx);
    // For every pair of face-adjacent cells, mirrored filled corner slots
    // hold the same vertex index: the mesh has no cracks between cells.
    let mut shared_pairs = 0usize;
    for cell in oct.cells.iter() {
        for k2 in 0..6usize {
            if let NeighborRef::Cell(h2) = cell.neighbours[k2] {
                let axis = k2 / 2;
                let step = 1usize << axis;
                for k in 0..8usize {
                    let bit = (k >> axis) & 1 == 1;
                    if bit == (k2 % 2 == 1) {
                        let kf = if bit { k - step } else { k + step };
                        if let (Some(v1), Some(v2)) =
                            (cell.cube_indices[k], oct.cells[h2].cube_indices[kf])
                        {
                            assert_eq!(v1, v2);
                            shared_pairs += 1;
                        }
                    }
                }
            }
        }
    }
    assert!(shared_pairs > 0);
}

#[test]
fn index_to_point_centers() {
    let oct = sphere_octree(3);
    // Grid cells are 16 units wide in a 128-wide range at depth 3.
    let p = oct.index_to_point(V3::new(0, 0, 0));
    assert_eq!((p.x, p.y, p.z), (8, 8, 8));
    let q = oct.index_to_point(V3::new(7, 7, 7));
    assert_eq!((q.x, q.y, q.z), (120, 120, 120));
}
