use life3d::grid::{i2p, p2i};

#[test]
fn index_to_coords_and_back() {
    let dim = (4usize, 3usize, 2usize);
    let total = 4 * 3 * 2;
    for i in 0..total {
        let p = i2p(dim, i);
        assert!(p.0 < 4 && p.1 < 3 && p.2 < 2);
        assert_eq!(p2i(dim, p), i);
    }
}

#[test]
fn coords_to_index_and_back() {
    let dim = (3usize, 5usize, 7usize);
    for x in 0..3 {
        for y in 0..5 {
            for z in 0..7 {
                let i = p2i(dim, (x, y, z));
                assert!(i < 3 * 5 * 7);
                assert_eq!(i2p(dim, i), (x, y, z));
            }
        }
    }
}

#[test]
fn linearization_is_z_fastest() {
    let dim = (2usize, 3usize, 4usize);
    assert_eq!(p2i(dim, (0, 0, 0)), 0);
    assert_eq!(p2i(dim, (0, 0, 1)), 1);
    assert_eq!(p2i(dim, (0, 1, 0)), 4);
    assert_eq!(p2i(dim, (1, 0, 0)), 12);
    assert_eq!(p2i(dim, (1, 2, 3)), 23);
    assert_eq!(i2p(dim, 23), (1, 2, 3));
}
