use life3d::grid::p2i;
use life3d::neighbours::count_live_neighbours;
use life3d::state::State;

type U3d = (usize, usize, usize);

fn dead_world(dim: U3d) -> Vec<bool> {
    vec![false; dim.0 * dim.1 * dim.2]
}

fn world_with(dim: U3d, live: &[U3d]) -> Vec<bool> {
    let mut w = dead_world(dim);
    for &c in live {
        w[p2i(dim, c)] = true;
    }
    w
}

fn live_cells(dim: U3d, w: &[bool]) -> Vec<U3d> {
    let mut out = Vec::new();
    for x in 0..dim.0 {
        for y in 0..dim.1 {
            for z in 0..dim.2 {
                if w[p2i(dim, (x, y, z))] {
                    out.push((x, y, z));
                }
            }
        }
    }
    out
}

#[test]
fn rule_evaluator_matches_sets() {
    let dim = (1usize, 1usize, 1usize);
    let st = State::new(dim, vec![5], vec![4, 5], dead_world(dim));
    assert!(st.rules(false, 5));
    assert!(!st.rules(false, 4));
    assert!(!st.rules(false, 0));
    assert!(st.rules(true, 4));
    assert!(st.rules(true, 5));
    assert!(!st.rules(true, 3));
    assert!(!st.rules(true, 26));
}

#[test]
fn dead_grid_stays_dead() {
    let dim = (3usize, 3usize, 3usize);
    let mut st = State::new(dim, vec![5], vec![4, 5], dead_world(dim));
    st.step_forward();
    assert!(st.world.iter().all(|&c| !c));
    st.step_forward();
    assert!(st.world.iter().all(|&c| !c));
}

#[test]
fn classic_life_blinker_layer() {
    // One 3D layer (z extent 1) with the classic rules: a row of three live
    // cells oscillates between horizontal and vertical.
    let dim = (5usize, 5usize, 1usize);
    let seed = world_with(dim, &[(1, 2, 0), (2, 2, 0), (3, 2, 0)]);
    let mut st = State::new(dim, vec![3], vec![2, 3], seed);

    // Hand-calculated neighbour counts of the starting pattern.
    assert_eq!(count_live_neighbours(&st.world, dim, (2, 2, 0)), 2);
    assert_eq!(count_live_neighbours(&st.world, dim, (1, 2, 0)), 1);
    assert_eq!(count_live_neighbours(&st.world, dim, (3, 2, 0)), 1);
    assert_eq!(count_live_neighbours(&st.world, dim, (2, 1, 0)), 3);
    assert_eq!(count_live_neighbours(&st.world, dim, (2, 3, 0)), 3);
    assert_eq!(count_live_neighbours(&st.world, dim, (1, 1, 0)), 2);
    assert_eq!(count_live_neighbours(&st.world, dim, (0, 2, 0)), 1);
    assert_eq!(count_live_neighbours(&st.world, dim, (4, 2, 0)), 1);

    st.step_forward();
    assert_eq!(live_cells(dim, &st.world), vec![(2, 1, 0), (2, 2, 0), (2, 3, 0)]);
    // The previous buffer still holds the prior generation.
    assert_eq!(live_cells(dim, &st.old_world), vec![(1, 2, 0), (2, 2, 0), (3, 2, 0)]);

    st.step_forward();
    assert_eq!(live_cells(dim, &st.world), vec![(1, 2, 0), (2, 2, 0), (3, 2, 0)]);
}

#[test]
fn wraparound_counts_opposite_edges() {
    // On an axis of extent > 2, live cells at the two extremes see each
    // other as neighbours.
    let dim = (5usize, 1usize, 1usize);
    let w = world_with(dim, &[(0, 0, 0), (4, 0, 0)]);
    assert_eq!(count_live_neighbours(&w, dim, (0, 0, 0)), 1);
    assert_eq!(count_live_neighbours(&w, dim, (4, 0, 0)), 1);
    // An interior cell next to neither extreme sees nothing.
    assert_eq!(count_live_neighbours(&w, dim, (2, 0, 0)), 0);
    // Both extremes are neighbours of the cells one step in.
    assert_eq!(count_live_neighbours(&w, dim, (1, 0, 0)), 1);
    assert_eq!(count_live_neighbours(&w, dim, (3, 0, 0)), 1);
}

#[test]
fn short_axis_does_not_wrap() {
    // On an axis of extent 2 there is no wraparound: the two cells are
    // adjacent once, not twice.
    let dim = (2usize, 1usize, 1usize);
    let w = world_with(dim, &[(0, 0, 0), (1, 0, 0)]);
    assert_eq!(count_live_neighbours(&w, dim, (0, 0, 0)), 1);
    assert_eq!(count_live_neighbours(&w, dim, (1, 0, 0)), 1);
}

#[test]
fn wraparound_on_each_axis() {
    for axis in 0..3 {
        let mut dim = (1usize, 1usize, 1usize);
        let mut far = (0usize, 0usize, 0usize);
        match axis {
            0 => {
                dim.0 = 4;
                far.0 = 3;
            }
            1 => {
                dim.1 = 4;
                far.1 = 3;
            }
            _ => {
                dim.2 = 4;
                far.2 = 3;
            }
        }
        let w = world_with(dim, &[far]);
        assert_eq!(count_live_neighbours(&w, dim, (0, 0, 0)), 1);
        let w2 = world_with(dim, &[(0, 0, 0)]);
        assert_eq!(count_live_neighbours(&w2, dim, far), 1);
    }
}

#[test]
fn identical_states_stay_identical() {
    let dim = (4usize, 4usize, 4usize);
    let mut seed = dead_world(dim);
    for (i, c) in seed.iter_mut().enumerate() {
        *c = i % 3 == 0;
    }
    let mut a = State::new(dim, vec![5], vec![4, 5], seed.clone());
    let mut b = State::new(dim, vec![5], vec![4, 5], seed);
    for _ in 0..5 {
        a.step_forward();
        b.step_forward();
        assert_eq!(a.world, b.world);
        assert_eq!(a.old_world, b.old_world);
    }
}

#[test]
fn end_to_end_ten_steps() {
    // 5x5x5 toroidal box, birth {5}, stay {4, 5}, a fixed seed pattern, ten
    // steps; the final live-cell count matches the precomputed reference.
    let dim = (5usize, 5usize, 5usize);
    let mut seed = dead_world(dim);
    for x in 0..5 {
        for y in 0..5 {
            for z in 0..5 {
                if (x + 2 * y + 3 * z) % 7 == 0 {
                    seed[p2i(dim, (x, y, z))] = true;
                }
            }
        }
    }
    assert_eq!(seed.iter().filter(|&&c| c).count(), 18);
    let mut st = State::new(dim, vec![5], vec![4, 5], seed);
    for _ in 0..10 {
        st.step_forward();
    }
    assert_eq!(st.world.iter().filter(|&&c| c).count(), 22);
}
