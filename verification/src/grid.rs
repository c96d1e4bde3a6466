//! Grid addressing: the bidirectional mapping between a flat linear index
//! and 3D coordinates over a fixed-size box.

use vstd::prelude::*;
use vstd::arithmetic::div_mod::{
    lemma_fundamental_div_mod, lemma_fundamental_div_mod_converse_div,
    lemma_fundamental_div_mod_converse_mod, lemma_div_denominator,
};

verus! {

/// Grid dimensions or a coordinate triple: extents (or positions) along the
/// x, y and z axes.
pub type U3d = (usize, usize, usize);

/// Number of cells in a box with the given extents.
pub open spec fn vol(dim: U3d) -> int {
    dim.0 * dim.1 * dim.2
}

/// The coordinate triple lies inside the box.
pub open spec fn in_bounds(dim: U3d, x: int, y: int, z: int) -> bool {
    0 <= x < dim.0 && 0 <= y < dim.1 && 0 <= z < dim.2
}

/// Linearization: x varies slowest, z fastest.
pub open spec fn index_of(dim: U3d, x: int, y: int, z: int) -> int {
    x * (dim.1 * dim.2) + y * dim.2 + z
}

/// Inverse of linearization.
pub open spec fn coords_of(dim: U3d, i: int) -> (int, int, int) {
    (i / (dim.2 as int * dim.1 as int), (i / dim.2 as int) % dim.1 as int, i % dim.2 as int)
}

/// A valid index forces every axis extent to be positive.
pub proof fn lemma_positive_extents(dim: U3d, i: int)
    requires
        0 <= i < vol(dim),
    ensures
        0 < dim.0 && 0 < dim.1 && 0 < dim.2,
{
    let xs = dim.0 as int;
    let ys = dim.1 as int;
    let zs = dim.2 as int;
    assert(xs > 0 && ys > 0 && zs > 0) by (nonlinear_arith)
        requires xs * ys * zs > 0, xs >= 0, ys >= 0, zs >= 0;
}

/// A coordinate triple inside the box linearizes to an index inside the box.
pub proof fn lemma_index_bound(dim: U3d, x: int, y: int, z: int)
    requires
        in_bounds(dim, x, y, z),
    ensures
        0 <= index_of(dim, x, y, z) < vol(dim),
{
    let xs = dim.0 as int;
    let ys = dim.1 as int;
    let zs = dim.2 as int;
    assert(0 <= x * (ys * zs) + y * zs + z < xs * ys * zs) by (nonlinear_arith)
        requires
            0 <= x < xs,
            0 <= y < ys,
            0 <= z < zs,
    ;
}

/// Linearizing the coordinates of a valid index gives that index back,
/// and those coordinates lie inside the box.
pub proof fn lemma_coords_index_roundtrip(dim: U3d, i: int)
    requires
        0 <= i < vol(dim),
    ensures
        ({
            let (x, y, z) = coords_of(dim, i);
            in_bounds(dim, x, y, z) && index_of(dim, x, y, z) == i
        }),
{
    lemma_positive_extents(dim, i);
    let xs = dim.0 as int;
    let ys = dim.1 as int;
    let zs = dim.2 as int;
    let x = i / (zs * ys);
    let y = (i / zs) % ys;
    let z = i % zs;

    assert(zs * ys > 0) by (nonlinear_arith)
        requires zs > 0, ys > 0;

    // z is the remainder of i by zs, and i / zs carries the rest.
    lemma_fundamental_div_mod(i, zs);
    let q = i / zs;
    assert(i == zs * q + z);
    assert(0 <= z < zs);

    // y is the remainder of q by ys, x picks up the rest:
    // x == (i / zs) / ys == i / (zs * ys).
    lemma_div_denominator(i, zs, ys);
    assert((i / zs) / ys == i / (zs * ys));
    lemma_fundamental_div_mod(q, ys);
    assert(q == ys * (q / ys) + y);
    assert(q / ys == x);
    assert(q == ys * x + y);
    assert(0 <= y < ys);

    // Coordinates are in bounds: q >= 0 and x >= 0, and x < xs because
    // x >= xs would push i past the volume.
    assert(q >= 0) by (nonlinear_arith)
        requires i >= 0, zs > 0, i == zs * q + z, 0 <= z < zs;
    assert(x >= 0) by (nonlinear_arith)
        requires q >= 0, ys > 0, q == ys * x + y, 0 <= y < ys;
    assert(x < xs) by (nonlinear_arith)
        requires
            i < xs * ys * zs,
            i == zs * q + z,
            q == ys * x + y,
            0 <= z < zs,
            0 <= y < ys,
            ys > 0,
            zs > 0,
            x >= 0,
    ;

    // Reassemble the index.
    assert(x * (ys * zs) + y * zs + z == i) by (nonlinear_arith)
        requires i == zs * q + z, q == ys * x + y;
}

/// Taking the coordinates of a linearized in-bounds triple gives the triple
/// back.
pub proof fn lemma_index_coords_roundtrip(dim: U3d, x: int, y: int, z: int)
    requires
        in_bounds(dim, x, y, z),
    ensures
        0 <= index_of(dim, x, y, z) < vol(dim),
        coords_of(dim, index_of(dim, x, y, z)) == (x, y, z),
{
    lemma_index_bound(dim, x, y, z);
    let xs = dim.0 as int;
    let ys = dim.1 as int;
    let zs = dim.2 as int;
    let i = index_of(dim, x, y, z);

    assert(zs * ys > 0) by (nonlinear_arith)
        requires zs > 0, ys > 0;

    // i == (zs * ys) * x + (y * zs + z) with the addend below zs * ys,
    // so i / (zs * ys) == x.
    assert(i == (zs * ys) * x + (y * zs + z) && 0 <= y * zs + z < zs * ys)
        by (nonlinear_arith)
        requires
            i == x * (ys * zs) + y * zs + z,
            0 <= y < ys,
            0 <= z < zs,
    ;
    lemma_fundamental_div_mod_converse_div(i, zs * ys, x, y * zs + z);
    assert(i / (zs * ys) == x);

    // i == zs * (x * ys + y) + z with 0 <= z < zs, so i / zs == x * ys + y
    // and i % zs == z.
    assert(i == zs * (x * ys + y) + z) by (nonlinear_arith)
        requires i == x * (ys * zs) + y * zs + z;
    lemma_fundamental_div_mod_converse_div(i, zs, x * ys + y, z);
    lemma_fundamental_div_mod_converse_mod(i, zs, x * ys + y, z);
    assert(i / zs == x * ys + y);
    assert(i % zs == z);

    // (x * ys + y) % ys == y.
    assert(x * ys + y == ys * x + y) by (nonlinear_arith);
    lemma_fundamental_div_mod_converse_mod(x * ys + y, ys, x, y);
    assert((x * ys + y) % ys == y);
}

/// Forward linearization of a coordinate triple, as the renderer and the
/// stepping loop use it.
pub fn p2i(dim: U3d, p: U3d) -> (r: usize)
    requires
        in_bounds(dim, p.0 as int, p.1 as int, p.2 as int),
        vol(dim) <= usize::MAX,
    ensures
        r == index_of(dim, p.0 as int, p.1 as int, p.2 as int),
        r < vol(dim),
{
    let (_, ys, zs) = dim;
    let (x, y, z) = p;
    proof {
        lemma_index_bound(dim, x as int, y as int, z as int);
        let xsi = dim.0 as int;
        let xi = x as int;
        let yi = y as int;
        let zi = z as int;
        let ysi = ys as int;
        let zsi = zs as int;
        assert(xi * zsi * ysi == xi * (ysi * zsi)
            && 0 <= xi * zsi
            && xi * zsi <= xi * zsi * ysi
            && 0 <= yi * zsi
            && xi * (ysi * zsi) + yi * zsi + zi < xsi * (ysi * zsi)
            && xsi * (ysi * zsi) == xsi * ysi * zsi) by (nonlinear_arith)
            requires 0 <= xi < xsi, 0 <= yi < ysi, 0 <= zi < zsi;
    }
    x * zs * ys + y * zs + z
}

/// Inverse linearization: the coordinates of a flat index.
pub fn i2p(dim: U3d, idx: usize) -> (r: U3d)
    requires
        idx < vol(dim),
        vol(dim) <= usize::MAX,
    ensures
        (r.0 as int, r.1 as int, r.2 as int) == coords_of(dim, idx as int),
        in_bounds(dim, r.0 as int, r.1 as int, r.2 as int),
        index_of(dim, r.0 as int, r.1 as int, r.2 as int) == idx,
{
    proof {
        lemma_positive_extents(dim, idx as int);
        lemma_coords_index_roundtrip(dim, idx as int);
        let xsi = dim.0 as int;
        let ysi = dim.1 as int;
        let zsi = dim.2 as int;
        assert(0 < zsi * ysi && zsi * ysi <= xsi * ysi * zsi) by (nonlinear_arith)
            requires 0 < xsi, 0 < ysi, 0 < zsi;
    }
    let (_, ys, zs) = dim;
    (idx / (zs * ys), (idx / zs) % ys, idx % zs)
}

} // verus!
