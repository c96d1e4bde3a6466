use life3d::grid::i2p;
use life3d::seed::{is_interior_candidate, random_world};

#[test]
fn random_world_covers_grid_and_keeps_margin_dead() {
    let dim = (16usize, 16usize, 16usize);
    let w = random_world(dim);
    assert_eq!(w.len(), 16 * 16 * 16);
    for (i, &alive) in w.iter().enumerate() {
        if alive {
            let p = i2p(dim, i);
            assert!(is_interior_candidate(dim, p));
        }
    }
}

#[test]
fn interior_margin_is_an_eighth_per_face() {
    let dim = (16usize, 16usize, 16usize);
    // Margin of 16 / 8 = 2: coordinates 2..=14 are eligible, off the
    // five-aligned planes.
    assert!(is_interior_candidate(dim, (3, 3, 3)));
    assert!(is_interior_candidate(dim, (2, 14, 7)));
    assert!(!is_interior_candidate(dim, (1, 3, 3)));
    assert!(!is_interior_candidate(dim, (3, 15, 3)));
    assert!(!is_interior_candidate(dim, (5, 3, 3)));
    assert!(!is_interior_candidate(dim, (3, 10, 3)));
    assert!(!is_interior_candidate(dim, (3, 3, 0)));
}
