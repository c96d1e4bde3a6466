use life3d::grid::p2i;
use life3d::project::{CELL_SCALE, COLOR_LEVEL_MILLI};
use life3d::state::State;

type U3d = (usize, usize, usize);

fn world_with(dim: U3d, live: &[U3d]) -> Vec<bool> {
    let mut w = vec![false; dim.0 * dim.1 * dim.2];
    for &c in live {
        w[p2i(dim, c)] = true;
    }
    w
}

#[test]
fn initial_records_are_centred_and_visible() {
    let dim = (3usize, 3usize, 3usize);
    let st = State::new(dim, vec![5], vec![4, 5], world_with(dim, &[(1, 1, 1), (0, 0, 0)]));
    let recs = st.get_initial_state();
    assert_eq!(recs.len(), 27);

    let corner = &recs[p2i(dim, (0, 0, 0))];
    assert_eq!((corner.pos_x, corner.pos_y, corner.pos_z), (-2, -2, -2));
    assert!(corner.show);

    let centre = &recs[p2i(dim, (1, 1, 1))];
    assert_eq!((centre.pos_x, centre.pos_y, centre.pos_z), (0, 0, 0));
    assert!(centre.show);

    let far = &recs[p2i(dim, (2, 2, 2))];
    assert_eq!((far.pos_x, far.pos_y, far.pos_z), (2, 2, 2));
    assert!(!far.show);

    for r in &recs {
        assert_eq!(r.scale_factor, CELL_SCALE);
        assert_eq!((r.color_r, r.color_g, r.color_b), (COLOR_LEVEL_MILLI, COLOR_LEVEL_MILLI, COLOR_LEVEL_MILLI));
    }
}

#[test]
fn refresh_tracks_current_generation() {
    let dim = (5usize, 5usize, 1usize);
    let seed = world_with(dim, &[(1, 2, 0), (2, 2, 0), (3, 2, 0)]);
    let mut st = State::new(dim, vec![3], vec![2, 3], seed);
    let mut recs = st.get_initial_state();

    st.step_forward();
    st.up_to_actual_state(&mut recs);
    for (i, r) in recs.iter().enumerate() {
        assert_eq!(r.show, st.world[i]);
    }
}

#[test]
fn refresh_twice_is_identical_and_preserves_fields() {
    let dim = (4usize, 3usize, 2usize);
    let seed = world_with(dim, &[(0, 0, 0), (1, 2, 1), (3, 1, 0)]);
    let mut st = State::new(dim, vec![5], vec![4, 5], seed);
    let initial = st.get_initial_state();

    st.step_forward();
    let mut once = initial.clone();
    st.up_to_actual_state(&mut once);
    let mut twice = once.clone();
    st.up_to_actual_state(&mut twice);

    // Idempotence: a second refresh with unchanged state changes nothing.
    assert_eq!(once, twice);

    // Position, scale and colour are untouched by refreshing.
    assert_eq!(once.len(), initial.len());
    for (r, orig) in once.iter().zip(initial.iter()) {
        assert_eq!(r.pos_x, orig.pos_x);
        assert_eq!(r.pos_y, orig.pos_y);
        assert_eq!(r.pos_z, orig.pos_z);
        assert_eq!(r.scale_factor, orig.scale_factor);
        assert_eq!(r.color_r, orig.color_r);
        assert_eq!(r.color_g, orig.color_g);
        assert_eq!(r.color_b, orig.color_b);
    }
}
