//! Instance-state projection: converts cell state into per-instance render
//! records (position, scale, visibility, colour), decoupled from stepping so
//! the renderer can refresh visibility without reallocating the list.
//!
//! Positions are kept as integers: each component is the doubled, centred
//! cell coordinate (twice the coordinate minus the axis extent less one).
//! The renderer multiplies it by half the per-cell spacing to get the world
//! position, so the grid stays centred on the origin.

use vstd::prelude::*;
use vstd::pervasive::VecAdditionalExecFns;
use crate::grid::{U3d, vol, coords_of, i2p};
use crate::state::State;

verus! {

/// Uniform scale factor of every cell's mesh instance.
pub const CELL_SCALE: u32 = 5;

/// Grey level of every cell, in thousandths of full brightness.
pub const COLOR_LEVEL_MILLI: u32 = 900;

/// Per-cell render record: doubled centred position, uniform scale,
/// visibility flag, and colour in thousandths per channel.
#[derive(Clone, Copy, Debug, PartialEq, Eq, Structural)]
pub struct PerObjectState {
    pub pos_x: i128,
    pub pos_y: i128,
    pub pos_z: i128,
    pub scale_factor: u32,
    pub show: bool,
    pub color_r: u32,
    pub color_g: u32,
    pub color_b: u32,
}

/// The doubled, centred coordinate of a cell along one axis.
pub open spec fn centred2(size: int, c: int) -> int {
    2 * c - (size - 1)
}

/// The render record that the initial projection gives cell `i`.
pub open spec fn init_record(dim: U3d, w: Seq<bool>, i: int) -> PerObjectState {
    let (x, y, z) = coords_of(dim, i);
    PerObjectState {
        pos_x: centred2(dim.0 as int, x) as i128,
        pos_y: centred2(dim.1 as int, y) as i128,
        pos_z: centred2(dim.2 as int, z) as i128,
        scale_factor: CELL_SCALE,
        show: w[i],
        color_r: COLOR_LEVEL_MILLI,
        color_g: COLOR_LEVEL_MILLI,
        color_b: COLOR_LEVEL_MILLI,
    }
}

/// The records with the visibility flag rewritten from the world, pairing
/// records with cells in index order; every other field is kept, and
/// records without a matching cell are left whole.
pub open spec fn refreshed(w: Seq<bool>, s: Seq<PerObjectState>) -> Seq<PerObjectState> {
    s.map(
        |i: int, r: PerObjectState|
            if i < w.len() {
                PerObjectState {
                    pos_x: r.pos_x,
                    pos_y: r.pos_y,
                    pos_z: r.pos_z,
                    scale_factor: r.scale_factor,
                    show: w[i],
                    color_r: r.color_r,
                    color_g: r.color_g,
                    color_b: r.color_b,
                }
            } else {
                r
            },
    )
}

impl State {
    /// Produces one render record per grid cell, in index order: centred
    /// position, fixed scale and colour, visibility from the cell's state.
    #[verifier::loop_isolation(false)]
    pub fn get_initial_state(&self) -> (r: Vec<PerObjectState>)
        requires
            self.wf(),
        ensures
            r@.len() == vol(self.dim),
            forall|i: int| 0 <= i < r@.len() ==> r@[i] == init_record(self.dim, self.world@, i),
    {
        let dim = self.dim;
        let n: usize = self.world.len();
        let mut out: Vec<PerObjectState> = Vec::new();
        let mut i: usize = 0;
        while i < n
            invariant
                i <= n,
                out@.len() == i,
                forall|j: int| 0 <= j < i ==> out@[j] == init_record(dim, self.world@, j),
            decreases n - i,
        {
            let (x, y, z) = i2p(dim, i);
            let rec = PerObjectState {
                pos_x: 2 * (x as i128) - (dim.0 as i128 - 1),
                pos_y: 2 * (y as i128) - (dim.1 as i128 - 1),
                pos_z: 2 * (z as i128) - (dim.2 as i128 - 1),
                scale_factor: CELL_SCALE,
                show: self.world[i],
                color_r: COLOR_LEVEL_MILLI,
                color_g: COLOR_LEVEL_MILLI,
                color_b: COLOR_LEVEL_MILLI,
            };
            out.push(rec);
            i = i + 1;
        }
        out
    }

    /// Rewrites only the visibility flag of each existing record to the
    /// matching cell's current state; position, scale and colour are
    /// untouched. This is the steady-state per-frame update path.
    #[verifier::loop_isolation(false)]
    pub fn up_to_actual_state(&self, state: &mut Vec<PerObjectState>)
        requires
            self.wf(),
        ensures
            final(state)@ == refreshed(self.world@, old(state)@),
    {
        let n: usize = if state.len() < self.world.len() {
            state.len()
        } else {
            self.world.len()
        };
        let mut i: usize = 0;
        while i < n
            invariant
                i <= n,
                state@.len() == old(state)@.len(),
                forall|j: int| 0 <= j < i ==> state@[j] == refreshed(self.world@, old(state)@)[j],
                forall|j: int| i <= j < state@.len() ==> state@[j] == old(state)@[j],
            decreases n - i,
        {
            let mut rec = state[i];
            rec.show = self.world[i];
            state.set(i, rec);
            i = i + 1;
        }
        assert(state@ =~= refreshed(self.world@, old(state)@));
    }
}

/// Refreshing visibility is idempotent: refreshing with an unchanged world
/// a second time changes nothing; and a refresh never touches position,
/// scale or colour.
pub proof fn lemma_refresh_idempotent(w: Seq<bool>, s: Seq<PerObjectState>)
    ensures
        refreshed(w, refreshed(w, s)) == refreshed(w, s),
        refreshed(w, s).len() == s.len(),
        forall|i: int|
            0 <= i < s.len() ==> {
                let r = #[trigger] refreshed(w, s)[i];
                r.pos_x == s[i].pos_x && r.pos_y == s[i].pos_y && r.pos_z == s[i].pos_z
                    && r.scale_factor == s[i].scale_factor
                    && r.color_r == s[i].color_r && r.color_g == s[i].color_g
                    && r.color_b == s[i].color_b
            },
{
    assert(refreshed(w, refreshed(w, s)) =~= refreshed(w, s));
}

} // verus!
