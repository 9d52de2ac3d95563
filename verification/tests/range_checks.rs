use subdiv::range::Range;
use subdiv::vec3::V3;

#[test]
fn range_contain_strict() {
    let r = Range::new(V3::new(0, 0, 0), V3::new(10, 10, 10));
    assert!(r.contain(V3::new(5, 5, 5)));
    assert!(!r.contain(V3::new(0, 5, 5)));
    assert!(!r.contain(V3::new(10, 5, 5)));
    assert!(!r.contain(V3::new(5, 5, 11)));
}

#[test]
fn range_intersection_cases() {
    let a = Range::new(V3::new(0, 0, 0), V3::new(10, 10, 10));
    let b = Range::new(V3::new(5, 5, 5), V3::new(20, 20, 20));
    let i = a.intersection(&b).expect("boxes overlap");
    assert_eq!(i.smaller_corner, V3::new(5, 5, 5));
    assert_eq!(i.greater_corner, V3::new(10, 10, 10));
    // Disjoint on one axis: nothing comes back.
    let c = Range::new(V3::new(30, 0, 0), V3::new(40, 10, 10));
    assert!(a.intersection(&c).is_none());
    // Boxes that only touch give a degenerate cut: nothing comes back.
    let d = Range::new(V3::new(10, 0, 0), V3::new(20, 10, 10));
    assert!(a.intersection(&d).is_none());
    // An overlap of extent 1 is positive: a box comes back even though no
    // integer point lies strictly inside it.
    let e = Range::new(V3::new(9, 0, 0), V3::new(20, 10, 10));
    let thin = a.intersection(&e).expect("positive overlap");
    assert_eq!(thin.smaller_corner, V3::new(9, 0, 0));
    assert_eq!(thin.greater_corner, V3::new(10, 10, 10));
}

#[test]
fn range_diagonal_extent() {
    let r = Range::new(V3::new(-4, 2, 0), V3::new(6, 10, 1));
    let d = r.diagonal();
    assert_eq!((d.x, d.y, d.z), (10, 8, 1));
}
