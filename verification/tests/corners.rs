use subdiv::corner::{CubeCorner, SquareCorner};

#[test]
fn conversions() {
    for i in 0..8usize {
        let corner = CubeCorner(i);
        assert_eq!(corner, CubeCorner::from_bools(corner.bools()));
    }
}

#[test]
fn square_conversions() {
    for i in 0..4usize {
        let corner = SquareCorner(i);
        assert_eq!(corner, SquareCorner::from_bools(corner.bools()));
    }
}

#[test]
fn corner_bools_values() {
    let c = CubeCorner(5);
    let b = c.bools();
    assert_eq!(b, [true, false, true]);
    assert_eq!(CubeCorner::from_bools([false, true, true]).0, 6);
    let s = SquareCorner(2);
    assert_eq!(s.bools(), [false, true]);
}
