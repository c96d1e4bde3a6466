//! Neighbour counting: the live-cell count over the 3x3x3 block around a
//! cell, excluding the centre. Axes of extent greater than 2 wrap toroidally;
//! on shorter axes an offset that falls outside the box is treated as an
//! absent (dead) neighbour.

use vstd::prelude::*;
use vstd::arithmetic::div_mod::{
    lemma_fundamental_div_mod, lemma_fundamental_div_mod_converse_div,
    lemma_fundamental_div_mod_converse_mod, lemma_mod_division_less_than_divisor,
    lemma_div_pos_is_pos,
};
use crate::grid::{U3d, vol, in_bounds, index_of, lemma_index_bound, p2i};

verus! {

/// One axis of a neighbour offset: the coordinate `c + d` (with `d` in
/// {-1, 0, 1}), wrapped to the opposite edge when the axis extent supports
/// wraparound (extent > 2), absent when it falls off the end of a short axis.
pub open spec fn axis_nb(size: int, c: int, d: int) -> Option<int> {
    if size > 2 {
        if c + d < 0 {
            Some(size - 1)
        } else if c + d >= size {
            Some(0int)
        } else {
            Some(c + d)
        }
    } else {
        if 0 <= c + d < size {
            Some(c + d)
        } else {
            None
        }
    }
}

/// The offset triple encoded by a flat offset number `k` in [0, 27):
/// each component ranges over {-1, 0, 1}, the x component varying slowest.
pub open spec fn delta_of(k: int) -> (int, int, int) {
    (k / 9 - 1, (k / 3) % 3 - 1, k % 3 - 1)
}

/// What offset number `k` adds to the neighbour count of the cell at
/// (x, y, z): one if it resolves to a live cell, zero if the cell there is
/// dead, the offset is the centre, or the offset falls off a short axis.
pub open spec fn offset_term(w: Seq<bool>, dim: U3d, x: int, y: int, z: int, k: int) -> nat {
    let d = delta_of(k);
    if d.0 == 0 && d.1 == 0 && d.2 == 0 {
        0
    } else {
        match (
            axis_nb(dim.0 as int, x, d.0),
            axis_nb(dim.1 as int, y, d.1),
            axis_nb(dim.2 as int, z, d.2),
        ) {
            (Some(nx), Some(ny), Some(nz)) => if w[index_of(dim, nx, ny, nz)] {
                1nat
            } else {
                0nat
            },
            _ => 0,
        }
    }
}

/// Sum of the contributions of offset numbers [0, k).
pub open spec fn nb_prefix(w: Seq<bool>, dim: U3d, x: int, y: int, z: int, k: int) -> nat
    decreases k,
{
    if k <= 0 {
        0
    } else {
        nb_prefix(w, dim, x, y, z, k - 1) + offset_term(w, dim, x, y, z, k - 1)
    }
}

/// The 26-neighbour live count of the cell at (x, y, z).
pub open spec fn live_neighbours(w: Seq<bool>, dim: U3d, x: int, y: int, z: int) -> nat {
    nb_prefix(w, dim, x, y, z, 27)
}

/// Offset numbers decode to their component triple.
proof fn lemma_delta_decode(a: int, b: int, c: int)
    requires
        0 <= a < 3,
        0 <= b < 3,
        0 <= c < 3,
    ensures
        delta_of(9 * a + 3 * b + c) == (a - 1, b - 1, c - 1),
{
    let k = 9 * a + 3 * b + c;
    lemma_fundamental_div_mod_converse_div(k, 9, a, 3 * b + c);
    lemma_fundamental_div_mod_converse_div(k, 3, 3 * a + b, c);
    lemma_fundamental_div_mod_converse_mod(k, 3, 3 * a + b, c);
    lemma_fundamental_div_mod_converse_mod(3 * a + b, 3, a, b);
}

/// Every offset component lies in {-1, 0, 1}.
proof fn lemma_delta_range(k: int)
    requires
        0 <= k < 27,
    ensures
        -1 <= delta_of(k).0 <= 1,
        -1 <= delta_of(k).1 <= 1,
        -1 <= delta_of(k).2 <= 1,
{
    lemma_div_pos_is_pos(k, 9);
    lemma_fundamental_div_mod(k, 9);
    lemma_mod_division_less_than_divisor(k, 9);
    lemma_div_pos_is_pos(k, 3);
    lemma_fundamental_div_mod(k, 3);
    lemma_mod_division_less_than_divisor(k, 3);
    lemma_mod_division_less_than_divisor(k / 3, 3);
}

/// A resolved axis offset stays inside the axis.
proof fn lemma_axis_nb_in_range(size: int, c: int, d: int)
    requires
        0 <= c < size,
        -1 <= d <= 1,
    ensures
        axis_nb(size, c, d) matches Some(n) ==> 0 <= n < size,
{
}

/// A prefix of the contribution sum is bounded by the number of offsets it
/// covers, less one for the centre offset once that is past.
proof fn lemma_nb_prefix_bound(w: Seq<bool>, dim: U3d, x: int, y: int, z: int, k: int)
    requires
        0 <= k <= 27,
    ensures
        nb_prefix(w, dim, x, y, z, k) <= if k <= 13 { k } else { k - 1 },
    decreases k,
{
    if k > 0 {
        lemma_nb_prefix_bound(w, dim, x, y, z, k - 1);
        assert(offset_term(w, dim, x, y, z, k - 1) <= 1);
        if k - 1 == 13 {
            assert(delta_of(13) == (0int, 0int, 0int));
            assert(offset_term(w, dim, x, y, z, 13) == 0);
        }
    }
}

/// The neighbour count never exceeds 26.
pub proof fn lemma_live_neighbours_le_26(w: Seq<bool>, dim: U3d, x: int, y: int, z: int)
    ensures
        live_neighbours(w, dim, x, y, z) <= 26,
{
    lemma_nb_prefix_bound(w, dim, x, y, z, 27);
}

/// Prefixes of the contribution sum grow monotonically.
proof fn lemma_nb_prefix_mono(w: Seq<bool>, dim: U3d, x: int, y: int, z: int, k1: int, k2: int)
    requires
        0 <= k1 <= k2,
    ensures
        nb_prefix(w, dim, x, y, z, k1) <= nb_prefix(w, dim, x, y, z, k2),
    decreases k2 - k1,
{
    if k1 < k2 {
        lemma_nb_prefix_mono(w, dim, x, y, z, k1, k2 - 1);
    }
}

/// A single offset's contribution is bounded by the whole neighbour count.
proof fn lemma_offset_term_le_count(w: Seq<bool>, dim: U3d, x: int, y: int, z: int, k: int)
    requires
        0 <= k < 27,
    ensures
        offset_term(w, dim, x, y, z, k) <= live_neighbours(w, dim, x, y, z),
{
    assert(nb_prefix(w, dim, x, y, z, k + 1)
        == nb_prefix(w, dim, x, y, z, k) + offset_term(w, dim, x, y, z, k));
    lemma_nb_prefix_mono(w, dim, x, y, z, k + 1, 27);
}

/// Toroidal wraparound on the x axis: when that axis is long enough to wrap,
/// a live cell at one extreme is counted as a neighbour of the cell at the
/// other extreme. The other two axes behave the same way by the symmetric
/// lemmas below.
pub proof fn lemma_wraparound_x(w: Seq<bool>, dim: U3d, y: int, z: int)
    requires
        dim.0 > 2,
        w.len() == vol(dim),
        0 <= y < dim.1,
        0 <= z < dim.2,
    ensures
        w[index_of(dim, dim.0 - 1, y, z)] ==> live_neighbours(w, dim, 0, y, z) >= 1,
        w[index_of(dim, 0, y, z)] ==> live_neighbours(w, dim, dim.0 - 1, y, z) >= 1,
{
    lemma_delta_decode(0, 1, 1);
    assert(offset_term(w, dim, 0, y, z, 4) == if w[index_of(dim, dim.0 - 1, y, z)] {
        1nat
    } else {
        0nat
    });
    lemma_offset_term_le_count(w, dim, 0, y, z, 4);
    lemma_delta_decode(2, 1, 1);
    assert(offset_term(w, dim, dim.0 - 1, y, z, 22) == if w[index_of(dim, 0, y, z)] {
        1nat
    } else {
        0nat
    });
    lemma_offset_term_le_count(w, dim, dim.0 - 1, y, z, 22);
}

/// Toroidal wraparound on the y axis.
pub proof fn lemma_wraparound_y(w: Seq<bool>, dim: U3d, x: int, z: int)
    requires
        dim.1 > 2,
        w.len() == vol(dim),
        0 <= x < dim.0,
        0 <= z < dim.2,
    ensures
        w[index_of(dim, x, dim.1 - 1, z)] ==> live_neighbours(w, dim, x, 0, z) >= 1,
        w[index_of(dim, x, 0, z)] ==> live_neighbours(w, dim, x, dim.1 - 1, z) >= 1,
{
    lemma_delta_decode(1, 0, 1);
    assert(offset_term(w, dim, x, 0, z, 10) == if w[index_of(dim, x, dim.1 - 1, z)] {
        1nat
    } else {
        0nat
    });
    lemma_offset_term_le_count(w, dim, x, 0, z, 10);
    lemma_delta_decode(1, 2, 1);
    assert(offset_term(w, dim, x, dim.1 - 1, z, 16) == if w[index_of(dim, x, 0, z)] {
        1nat
    } else {
        0nat
    });
    lemma_offset_term_le_count(w, dim, x, dim.1 - 1, z, 16);
}

/// Toroidal wraparound on the z axis.
pub proof fn lemma_wraparound_z(w: Seq<bool>, dim: U3d, x: int, y: int)
    requires
        dim.2 > 2,
        w.len() == vol(dim),
        0 <= x < dim.0,
        0 <= y < dim.1,
    ensures
        w[index_of(dim, x, y, dim.2 - 1)] ==> live_neighbours(w, dim, x, y, 0) >= 1,
        w[index_of(dim, x, y, 0)] ==> live_neighbours(w, dim, x, y, dim.2 - 1) >= 1,
{
    lemma_delta_decode(1, 1, 0);
    assert(offset_term(w, dim, x, y, 0, 12) == if w[index_of(dim, x, y, dim.2 - 1)] {
        1nat
    } else {
        0nat
    });
    lemma_offset_term_le_count(w, dim, x, y, 0, 12);
    lemma_delta_decode(1, 1, 2);
    assert(offset_term(w, dim, x, y, dim.2 - 1, 14) == if w[index_of(dim, x, y, 0)] {
        1nat
    } else {
        0nat
    });
    lemma_offset_term_le_count(w, dim, x, y, dim.2 - 1, 14);
}

/// In a world with no live cell, every neighbour count is zero.
pub proof fn lemma_dead_world_no_neighbours(w: Seq<bool>, dim: U3d, x: int, y: int, z: int)
    requires
        w.len() == vol(dim),
        in_bounds(dim, x, y, z),
        forall|i: int| 0 <= i < w.len() ==> !w[i],
    ensures
        live_neighbours(w, dim, x, y, z) == 0,
{
    lemma_dead_prefix_zero(w, dim, x, y, z, 27);
}

proof fn lemma_dead_prefix_zero(w: Seq<bool>, dim: U3d, x: int, y: int, z: int, k: int)
    requires
        w.len() == vol(dim),
        in_bounds(dim, x, y, z),
        forall|i: int| 0 <= i < w.len() ==> !w[i],
        0 <= k <= 27,
    ensures
        nb_prefix(w, dim, x, y, z, k) == 0,
    decreases k,
{
    if k > 0 {
        lemma_dead_prefix_zero(w, dim, x, y, z, k - 1);
        lemma_delta_range(k - 1);
        let d = delta_of(k - 1);
        lemma_axis_nb_in_range(dim.0 as int, x, d.0);
        lemma_axis_nb_in_range(dim.1 as int, y, d.1);
        lemma_axis_nb_in_range(dim.2 as int, z, d.2);
        match (
            axis_nb(dim.0 as int, x, d.0),
            axis_nb(dim.1 as int, y, d.1),
            axis_nb(dim.2 as int, z, d.2),
        ) {
            (Some(nx), Some(ny), Some(nz)) => {
                lemma_index_bound(dim, nx, ny, nz);
                assert(!w[index_of(dim, nx, ny, nz)]);
            },
            _ => {},
        }
        assert(offset_term(w, dim, x, y, z, k - 1) == 0);
    }
}

/// Resolves one axis of a neighbour offset; `o` is the offset component
/// shifted into {0, 1, 2}.
fn axis_neighbour(size: usize, c: usize, o: usize) -> (r: Option<usize>)
    requires
        c < size,
        o < 3,
    ensures
        (match r {
            Some(n) => axis_nb(size as int, c as int, o as int - 1) == Some(n as int) && n < size,
            None => axis_nb(size as int, c as int, o as int - 1) is None,
        }),
{
    if size > 2 {
        if o == 0 {
            if c == 0 {
                Some(size - 1)
            } else {
                Some(c - 1)
            }
        } else if o == 1 {
            Some(c)
        } else {
            if c == size - 1 {
                Some(0)
            } else {
                Some(c + 1)
            }
        }
    } else {
        if o == 0 {
            if c == 0 {
                None
            } else {
                Some(c - 1)
            }
        } else if o == 1 {
            Some(c)
        } else {
            if c + 1 < size {
                Some(c + 1)
            } else {
                None
            }
        }
    }
}

/// Counts the live cells among the 26 neighbours of the cell at `p`,
/// scanning the 3x3x3 block around it and skipping the centre.
#[verifier::loop_isolation(false)]
pub fn count_live_neighbours(w: &Vec<bool>, dim: U3d, p: U3d) -> (r: u32)
    requires
        w@.len() == vol(dim),
        in_bounds(dim, p.0 as int, p.1 as int, p.2 as int),
    ensures
        r == live_neighbours(w@, dim, p.0 as int, p.1 as int, p.2 as int),
        r <= 26,
{
    let (x, y, z) = p;
    // The buffer's length is a usize, so the volume fits the address space.
    let _n: usize = w.len();
    assert(vol(dim) <= usize::MAX);
    let ghost xi = x as int;
    let ghost yi = y as int;
    let ghost zi = z as int;
    let mut acc: u32 = 0;
    let mut ox: usize = 0;
    while ox < 3
        invariant
            ox <= 3,
            acc == nb_prefix(w@, dim, xi, yi, zi, 9 * ox),
        decreases 3 - ox,
    {
        let mut oy: usize = 0;
        while oy < 3
            invariant
                oy <= 3,
                acc == nb_prefix(w@, dim, xi, yi, zi, 9 * ox + 3 * oy),
            decreases 3 - oy,
        {
            let mut oz: usize = 0;
            while oz < 3
                invariant
                    oz <= 3,
                    acc == nb_prefix(w@, dim, xi, yi, zi, 9 * ox + 3 * oy + oz),
                decreases 3 - oz,
            {
                let ghost k = 9 * ox + 3 * oy + oz;
                proof {
                    lemma_delta_decode(ox as int, oy as int, oz as int);
                    lemma_nb_prefix_bound(w@, dim, xi, yi, zi, k as int);
                }
                if !(ox == 1 && oy == 1 && oz == 1) {
                    let rx = axis_neighbour(dim.0, x, ox);
                    let ry = axis_neighbour(dim.1, y, oy);
                    let rz = axis_neighbour(dim.2, z, oz);
                    match (rx, ry, rz) {
                        (Some(nx), Some(ny), Some(nz)) => {
                            let idx = p2i(dim, (nx, ny, nz));
                            if w[idx] {
                                acc = acc + 1;
                            }
                        },
                        _ => {},
                    }
                }
                proof {
                    assert(nb_prefix(w@, dim, xi, yi, zi, k + 1)
                        == nb_prefix(w@, dim, xi, yi, zi, k as int)
                            + offset_term(w@, dim, xi, yi, zi, k as int));
                }
                oz = oz + 1;
            }
            oy = oy + 1;
        }
        ox = ox + 1;
    }
    proof {
        lemma_live_neighbours_le_26(w@, dim, xi, yi, zi);
    }
    acc
}

} // verus!
