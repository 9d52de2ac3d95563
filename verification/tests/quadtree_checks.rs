use std::collections::HashSet;
use subdiv::quadtree::QuadTree;

#[test]
fn quadtree_round_trip() {
    let mut t = QuadTree::new(100, 100);
    let pts = [
        (10i64, 10i64, 1u32),
        (20, 35, 2),
        (77, 12, 3),
        (50, 50, 4),
        (3, 90, 5),
        (88, 88, 6),
    ];
    for &(x, y, id) in pts.iter() {
        t.insert(x, y, id);
    }
    assert_eq!(t.size(), 6);
    let got = t.find_in_range(0, 0, 100, 100);
    assert_eq!(got.len(), 6);
    let got_set: HashSet<u32> = got.iter().copied().collect();
    let want: HashSet<u32> = [1u32, 2, 3, 4, 5, 6].iter().copied().collect();
    assert_eq!(got_set, want);
}

#[test]
fn quadtree_range_query() {
    let mut t = QuadTree::new(10, 10);
    t.insert(1, 1, 1);
    t.insert(5, 5, 2);
    t.insert(9, 9, 3);
    let got = t.find_in_range(0, 0, 6, 6);
    let got_set: HashSet<u32> = got.iter().copied().collect();
    let want: HashSet<u32> = [1u32, 2].iter().copied().collect();
    assert_eq!(got_set, want);
    assert!(!got_set.contains(&3));
}

#[test]
fn quadtree_duplicate_coordinates() {
    let mut t = QuadTree::new(10, 10);
    t.insert(4, 4, 1);
    t.insert(4, 4, 2);
    t.insert(4, 4, 3);
    assert_eq!(t.size(), 3);
    let got = t.find_in_range(0, 0, 10, 10);
    assert_eq!(got.len(), 3);
    let got_set: HashSet<u32> = got.iter().copied().collect();
    let want: HashSet<u32> = [1u32, 2, 3].iter().copied().collect();
    assert_eq!(got_set, want);
}

#[test]
fn quadtree_clear_and_size() {
    let mut t = QuadTree::new(64, 64);
    assert_eq!(t.size(), 0);
    t.insert(8, 8, 11);
    t.insert(40, 40, 12);
    assert_eq!(t.size(), 2);
    t.clear();
    assert_eq!(t.size(), 0);
    assert!(t.find_in_range(0, 0, 64, 64).is_empty());
}

#[test]
fn quadtree_boundary_points_excluded_from_query() {
    let mut t = QuadTree::new(10, 10);
    t.insert(0, 5, 7);
    t.insert(5, 5, 8);
    let got = t.find_in_range(0, 0, 10, 10);
    let got_set: HashSet<u32> = got.iter().copied().collect();
    let want: HashSet<u32> = [8u32].iter().copied().collect();
    assert_eq!(got_set, want);
}

#[test]
fn quadtree_leaf_rects() {
    let mut t = QuadTree::new(100, 100);
    assert_eq!(t.leaf_rects(), vec![(0i64, 0i64, 100i64, 100i64)]);
    t.insert(10, 10, 1);
    t.insert(80, 80, 2);
    let rects = t.leaf_rects();
    assert_eq!(rects.len(), 4);
    assert_eq!(rects[0], (0, 0, 50, 50));
    assert_eq!(rects[3], (50, 50, 50, 50));
}
