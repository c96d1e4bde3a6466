//! Seeding: builds a starting population. Cells outside an interior margin
//! (an eighth of each axis at either face) stay dead, so clamped-edge
//! configurations show no boundary artifacts; eligible cells are set by a
//! random draw.

use vstd::prelude::*;
use crate::grid::{U3d, vol, coords_of, i2p};

verus! {

/// A cell position eligible for random seeding: inside the interior margin
/// and off the five-aligned planes, which stay dead to give the pattern
/// structure.
pub open spec fn interior_candidate(dim: U3d, x: int, y: int, z: int) -> bool {
    &&& dim.0 as int / 8 <= x <= dim.0 as int - dim.0 as int / 8
    &&& dim.1 as int / 8 <= y <= dim.1 as int - dim.1 as int / 8
    &&& dim.2 as int / 8 <= z <= dim.2 as int - dim.2 as int / 8
    &&& x % 5 != 0
    &&& y % 5 != 0
    &&& z % 5 != 0
}

/// Whether the cell at `p` is eligible for random seeding.
pub fn is_interior_candidate(dim: U3d, p: U3d) -> (r: bool)
    ensures
        r == interior_candidate(dim, p.0 as int, p.1 as int, p.2 as int),
{
    let (xs, ys, zs) = dim;
    let (x, y, z) = p;
    xs / 8 <= x && x <= xs - xs / 8
        && ys / 8 <= y && y <= ys - ys / 8
        && zs / 8 <= z && z <= zs - zs / 8
        && x % 5 != 0 && y % 5 != 0 && z % 5 != 0
}

/// Relies on rand::random::<bool>() for the random draw; nothing is assumed
/// of the outcome.
#[verifier::external_body]
fn coin_flip() -> (r: bool) {
    rand::random::<bool>()
}

/// Builds a starting population over the whole grid, in index order: a cell
/// outside the interior margin is dead whatever the draws return; a cell
/// inside it takes a random draw.
pub fn random_world(dim: U3d) -> (r: Vec<bool>)
    requires
        0 < dim.0 && 0 < dim.1 && 0 < dim.2,
        vol(dim) <= usize::MAX,
    ensures
        r@.len() == vol(dim),
        forall|i: int|
            0 <= i < vol(dim) && #[trigger] r@[i] ==> ({
                let (x, y, z) = coords_of(dim, i);
                interior_candidate(dim, x, y, z)
            }),
{
    proof {
        let xsi = dim.0 as int;
        let ysi = dim.1 as int;
        let zsi = dim.2 as int;
        assert(xsi * ysi <= xsi * ysi * zsi && 0 <= xsi * ysi) by (nonlinear_arith)
            requires 0 < xsi, 0 < ysi, 0 < zsi;
    }
    let total: usize = dim.0 * dim.1 * dim.2;
    let mut out: Vec<bool> = Vec::new();
    let mut i: usize = 0;
    while i < total
        invariant
            i <= total,
            total == vol(dim),
            vol(dim) <= usize::MAX,
            out@.len() == i,
            forall|j: int|
                0 <= j < i && #[trigger] out@[j] ==> ({
                    let (x, y, z) = coords_of(dim, j);
                    interior_candidate(dim, x, y, z)
                }),
        decreases total - i,
    {
        let p = i2p(dim, i);
        let alive = if is_interior_candidate(dim, p) {
            coin_flip()
        } else {
            false
        };
        out.push(alive);
        i = i + 1;
    }
    out
}

} // verus!
