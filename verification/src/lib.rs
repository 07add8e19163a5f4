//! A 2-D falling-sand cellular automaton.
//!
//! A fixed-size grid of typed cells evolves one tick at a time under
//! per-type movement rules (gravity, diagonal settling, lateral flow,
//! rising smoke), and a brush paints cells of a selected type into the
//! grid. The rule engine, the grid, the brush and the selector are all
//! verified; a host supplies windowing, rendering and input around them.

pub mod cell;
pub mod engine;
pub mod grid;
pub mod laws;
pub mod paint;
pub mod selector;
