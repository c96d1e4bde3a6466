//! The automaton state: both generation buffers and the rule sets, with the
//! double-buffered step function and the rule evaluator.

use vstd::prelude::*;
use vstd::pervasive::VecAdditionalExecFns;
use crate::grid::{U3d, vol, coords_of, lemma_coords_index_roundtrip, i2p};
use crate::neighbours::{live_neighbours, count_live_neighbours, lemma_dead_world_no_neighbours};

verus! {

/// The rule evaluator's decision for one cell: a dead cell is born when its
/// live-neighbour count is in the birth set; a live cell survives when the
/// count is in the survival set; anything else dies or stays dead.
pub open spec fn rule_spec(birth: Seq<u32>, stay: Seq<u32>, alive: bool, neighbours: u32) -> bool {
    if alive {
        stay.contains(neighbours)
    } else {
        birth.contains(neighbours)
    }
}

/// The cell at index `i` of the next generation: the rule evaluator applied
/// to the cell's current state and its 26-neighbour live count.
pub open spec fn next_cell(dim: U3d, birth: Seq<u32>, stay: Seq<u32>, w: Seq<bool>, i: int) -> bool {
    let (x, y, z) = coords_of(dim, i);
    rule_spec(birth, stay, w[i], live_neighbours(w, dim, x, y, z) as u32)
}

/// One whole generation step of the world.
pub open spec fn next_world(dim: U3d, birth: Seq<u32>, stay: Seq<u32>, w: Seq<bool>) -> Seq<bool> {
    Seq::new(w.len(), |i: int| next_cell(dim, birth, stay, w, i))
}

/// Generation `n`, counting the starting world as generation 0.
pub open spec fn nth_generation(dim: U3d, birth: Seq<u32>, stay: Seq<u32>, w: Seq<bool>, n: nat) -> Seq<bool>
    decreases n,
{
    if n == 0 {
        w
    } else {
        next_world(dim, birth, stay, nth_generation(dim, birth, stay, w, (n - 1) as nat))
    }
}

/// Linear membership scan over a small rule set.
fn contains_u32(v: &Vec<u32>, n: u32) -> (r: bool)
    ensures
        r == v@.contains(n),
{
    let mut i: usize = 0;
    while i < v.len()
        invariant
            i <= v@.len(),
            forall|j: int| 0 <= j < i ==> v@[j] != n,
        decreases v@.len() - i,
    {
        if v[i] == n {
            return true;
        }
        i = i + 1;
    }
    false
}

/// A generalized 3D Life automaton over a fixed box of cells: the current
/// and previous generation buffers, and the immutable birth/survival rule
/// sets.
pub struct State {
    pub dim: U3d,
    pub world: Vec<bool>,
    pub old_world: Vec<bool>,
    pub birth: Vec<u32>,
    pub stay: Vec<u32>,
}

impl State {
    /// Every axis extent is positive and both generation buffers hold
    /// exactly one cell per grid position.
    pub open spec fn wf(&self) -> bool {
        &&& 0 < self.dim.0 && 0 < self.dim.1 && 0 < self.dim.2
        &&& self.world@.len() == vol(self.dim)
        &&& self.old_world@.len() == vol(self.dim)
    }

    /// Builds an automaton with the given dimensions, rule sets and seed
    /// population; both buffers start as the seed generation.
    pub fn new(dim: U3d, birth: Vec<u32>, stay: Vec<u32>, seed: Vec<bool>) -> (r: State)
        requires
            0 < dim.0 && 0 < dim.1 && 0 < dim.2,
            seed@.len() == vol(dim),
        ensures
            r.wf(),
            r.dim == dim,
            r.birth@ == birth@,
            r.stay@ == stay@,
            r.world@ == seed@,
            r.old_world@ == seed@,
    {
        let old_world = seed.clone();
        assert(old_world@ =~= seed@);
        State { dim, world: seed, old_world, birth, stay }
    }

    /// The rule evaluator: decides a cell's next state from its current
    /// state and its live-neighbour count.
    pub fn rules(&self, alive: bool, neighbours: u32) -> (r: bool)
        ensures
            r == rule_spec(self.birth@, self.stay@, alive, neighbours),
    {
        match alive {
            false => contains_u32(&self.birth, neighbours),
            true => contains_u32(&self.stay, neighbours),
        }
    }

    /// Advances exactly one generation. The buffers swap roles without
    /// copying: afterwards the previous buffer holds what was the current
    /// generation, and the current buffer holds the stepped world.
    #[verifier::loop_isolation(false)]
    pub fn step_forward(&mut self)
        requires
            old(self).wf(),
        ensures
            final(self).wf(),
            final(self).dim == old(self).dim,
            final(self).birth@ == old(self).birth@,
            final(self).stay@ == old(self).stay@,
            final(self).old_world@ == old(self).world@,
            final(self).world@ == next_world(
                old(self).dim,
                old(self).birth@,
                old(self).stay@,
                old(self).world@,
            ),
    {
        core::mem::swap(&mut self.world, &mut self.old_world);
        let dim = self.dim;
        let n: usize = self.world.len();
        let ghost prev = self.old_world@;
        let ghost b = self.birth@;
        let ghost s = self.stay@;
        let ghost target = next_world(dim, b, s, prev);
        let mut i: usize = 0;
        while i < n
            invariant
                i <= n,
                self.dim == dim,
                self.old_world@ == prev,
                self.birth@ == b,
                self.stay@ == s,
                self.world@.len() == n,
                forall|j: int| 0 <= j < i ==> self.world@[j] == target[j],
            decreases n - i,
        {
            let p = i2p(dim, i);
            let cnt = count_live_neighbours(&self.old_world, dim, p);
            let alive = self.old_world[i];
            let next = self.rules(alive, cnt);
            proof {
                assert(target[i as int] == next_cell(dim, b, s, prev, i as int));
                assert(cnt as nat == live_neighbours(
                    prev,
                    dim,
                    coords_of(dim, i as int).0,
                    coords_of(dim, i as int).1,
                    coords_of(dim, i as int).2,
                ));
            }
            self.world.set(i, next);
            i = i + 1;
        }
        assert(self.world@ =~= target);
    }
}

/// No spontaneous birth: when 0 is not in the birth set, a world with no
/// live cell steps to a world with no live cell.
pub proof fn lemma_dead_world_stays_dead(dim: U3d, birth: Seq<u32>, stay: Seq<u32>, w: Seq<bool>)
    requires
        w.len() == vol(dim),
        !birth.contains(0u32),
        forall|i: int| 0 <= i < w.len() ==> !w[i],
    ensures
        next_world(dim, birth, stay, w).len() == w.len(),
        forall|i: int| 0 <= i < w.len() ==> !next_world(dim, birth, stay, w)[i],
{
    assert forall|i: int| 0 <= i < w.len() implies !next_world(dim, birth, stay, w)[i] by {
        lemma_coords_index_roundtrip(dim, i);
        let (x, y, z) = coords_of(dim, i);
        lemma_dead_world_no_neighbours(w, dim, x, y, z);
        assert(live_neighbours(w, dim, x, y, z) as u32 == 0u32);
    }
}

/// Determinism: a generation is a pure function of the dimensions, the rule
/// sets and the seed world, so two automata built alike produce identical
/// generation sequences, step after step.
pub proof fn lemma_deterministic_generations(a: State, b: State, n: nat)
    requires
        a.dim == b.dim,
        a.birth@ == b.birth@,
        a.stay@ == b.stay@,
        a.world@ == b.world@,
    ensures
        nth_generation(a.dim, a.birth@, a.stay@, a.world@, n)
            == nth_generation(b.dim, b.birth@, b.stay@, b.world@, n),
{
}

} // verus!
