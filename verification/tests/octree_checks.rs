use subdiv::octree::{Node, NodeState, Octree};
use subdiv::range::Range;
use subdiv::shape::{Shape, ShapeClass, Sphere};
use subdiv::vec3::V3;

fn unit_range() -> Range {
    Range::new(V3::new(0, 0, 0), V3::new(128, 128, 128))
}

fn tree_a() -> Octree {
    Octree::approximate(&Sphere::new(V3::new(40, 64, 64), 30), unit_range(), 3)
}

fn tree_b() -> Octree {
    Octree::approximate(&Sphere::new(V3::new(90, 64, 64), 25), unit_range(), 3)
}

fn dist_sq_to(p: (i64, i64, i64), c: (i64, i64, i64)) -> i64 {
    let dx = p.0 - c.0;
    let dy = p.1 - c.1;
    let dz = p.2 - c.2;
    dx * dx + dy * dy + dz * dz
}

// Walk the classifier, handing each leaf with its cube to `f`.
fn walk_leaves<F: FnMut(&Node, (i64, i64, i64), (i64, i64, i64))>(
    n: &Node,
    corner: (i64, i64, i64),
    half: (i64, i64, i64),
    f: &mut F,
) {
    match n {
        Node::Sub(ch) => {
            let h2 = (half.0 / 2, half.1 / 2, half.2 / 2);
            let kids = [
                &ch.c0, &ch.c1, &ch.c2, &ch.c3, &ch.c4, &ch.c5, &ch.c6, &ch.c7,
            ];
            for (i, kid) in kids.iter().enumerate() {
                let cc = (
                    corner.0 + if i & 1 != 0 { half.0 } else { 0 },
                    corner.1 + if i & 2 != 0 { half.1 } else { 0 },
                    corner.2 + if i & 4 != 0 { half.2 } else { 0 },
                );
                walk_leaves(kid, cc, h2, f);
            }
        }
        _ => f(n, corner, half),
    }
}

// No subdivided node may keep eight children in one terminal state.
fn check_collapsed(n: &Node) {
    if let Node::Sub(ch) = n {
        let kids = [
            &ch.c0, &ch.c1, &ch.c2, &ch.c3, &ch.c4, &ch.c5, &ch.c6, &ch.c7,
        ];
        let mut all_same = true;
        if let Node::Completely(s0) = ch.c0 {
            for kid in kids.iter() {
                match kid {
                    Node::Completely(s) if *s == s0 => {}
                    _ => all_same = false,
                }
            }
        } else {
            all_same = false;
        }
        assert!(!all_same, "uniform subdivided node survived");
        for kid in kids.iter() {
            check_collapsed(kid);
        }
    }
}

#[test]
fn sphere_classify_cases() {
    let s = Sphere::new(V3::new(0, 0, 0), 10);
    assert_eq!(
        s.classify(V3::new(20, 0, 0), V3::new(2, 2, 2)),
        ShapeClass::Outside
    );
    assert_eq!(
        s.classify(V3::new(2, 0, 0), V3::new(1, 1, 1)),
        ShapeClass::Inside
    );
    assert_eq!(
        s.classify(V3::new(10, 0, 0), V3::new(1, 1, 1)),
        ShapeClass::Straddle
    );
    // A distance exactly equal to the half-diagonal counts as outside.
    let point_sphere = Sphere::new(V3::new(0, 0, 0), 0);
    assert_eq!(
        point_sphere.classify(V3::new(5, 0, 0), V3::new(5, 0, 0)),
        ShapeClass::Outside
    );
}

#[test]
fn classification_soundness_sphere() {
    let center = (64i64, 64i64, 64i64);
    let r = 30i64;
    let t = Octree::new_test_sphere(4, V3::new(center.0, center.1, center.2), r);
    let mut checked = 0usize;
    walk_leaves(
        &t.root,
        (0, 0, 0),
        (64, 64, 64),
        &mut |leaf, corner, half| {
            let samples = [
                corner,
                (
                    corner.0 + 2 * half.0,
                    corner.1 + 2 * half.1,
                    corner.2 + 2 * half.2,
                ),
                (corner.0 + half.0, corner.1 + half.1, corner.2 + half.2),
            ];
            match leaf {
                Node::Completely(NodeState::Inside) => {
                    for &p in samples.iter() {
                        assert!(dist_sq_to(p, center) < r * r);
                        checked += 1;
                    }
                }
                Node::Completely(NodeState::Outside) => {
                    for &p in samples.iter() {
                        assert!(dist_sq_to(p, center) >= r * r);
                        checked += 1;
                    }
                }
                _ => {}
            }
        },
    );
    assert!(checked > 0);
}

#[test]
fn union_commutes_on_classifications() {
    let u_ab = tree_a().union(tree_b());
    let u_ba = tree_b().union(tree_a());
    assert!(Node::eq_class(&u_ab.root, &u_ba.root));
}

#[test]
fn intersection_is_idempotent() {
    let i_aa = tree_a().inter(tree_a());
    assert_eq!(i_aa.root, tree_a().root);
}

#[test]
fn de_morgan() {
    let lhs = tree_a().union(tree_b()).not();
    let rhs = tree_a().not().inter(tree_b().not());
    assert_eq!(lhs.root, rhs.root);
}

#[test]
fn union_with_complement_covers() {
    let u = tree_a().union(tree_a().not());
    walk_leaves(&u.root, (0, 0, 0), (64, 64, 64), &mut |leaf, _, _| {
        match leaf {
            Node::Completely(NodeState::Outside) => {
                panic!("outside leaf in a tree united with its complement")
            }
            _ => {}
        }
    });
}

#[test]
fn collapse_invariant_after_ops() {
    check_collapsed(&tree_a().root);
    check_collapsed(&tree_a().union(tree_b()).root);
    check_collapsed(&tree_a().inter(tree_b()).root);
    check_collapsed(&tree_a().not().root);
}

#[test]
fn octree_boundary_points_match_ids() {
    let t = Octree::new_test_sphere(3, V3::new(64, 64, 64), 30);
    let ids = t.query_range(V3::new(-1, -1, -1), V3::new(129, 129, 129));
    let centers = t.boundary_points();
    assert_eq!(ids.len(), centers.len());
    // Boundary cells at depth 3 are 16 wide: each center is a cell center.
    for c in centers.iter() {
        assert_eq!(c.x.rem_euclid(16), 8);
        assert_eq!(c.y.rem_euclid(16), 8);
        assert_eq!(c.z.rem_euclid(16), 8);
    }
}

#[test]
fn octree_query_range_ids() {
    let t = Octree::new_test_sphere(3, V3::new(64, 64, 64), 30);
    let all = t.query_range(V3::new(-1, -1, -1), V3::new(129, 129, 129));
    assert!(!all.is_empty());
    // Fresh ids are the run 0, 1, 2, ... in traversal order.
    for (i, &id) in all.iter().enumerate() {
        assert_eq!(id, i as u32);
    }
    // A query box far from the sphere's surface holds no boundary cell.
    let corner = t.query_range(V3::new(0, 0, 0), V3::new(3, 3, 3));
    assert!(corner.is_empty());
}
