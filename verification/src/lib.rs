//! A three-dimensional cellular automaton: a Life variant with configurable
//! birth/survival neighbour-count rules over a fixed box of cells, with
//! toroidal wraparound on axes long enough to support it.
//!
//! The crate owns the simulation core: grid addressing, the rule evaluator,
//! the double-buffered step function, the per-instance render-state
//! projection, and the parser for rule-set input lines. Windowing, shaders
//! and the draw loop live outside the library.

use vstd::prelude::*;

pub mod grid;
pub mod neighbours;
pub mod parse;
pub mod project;
pub mod seed;
pub mod state;

verus! {

/// What the event-processing layer asks the main loop to do next.
pub enum Action {
    Stop,
    Continue,
}

} // verus!
