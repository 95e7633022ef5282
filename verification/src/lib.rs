//! A verified "fire" cellular automaton: a grid of heat levels that drifts and
//! decays row by row, is fed by a constant source row and by painted strokes,
//! and is mapped to RGBA pixels through a fixed palette.
//!
//! - [`heat_grid`]: the grid, its propagation step and the painting of strokes.
//! - [`stroke_painter`]: the heat that a stroke gives to a cell.
//! - [`drift_source`]: the seeded random drifts.
//! - [`palette_mapper`]: colours, opacities and the picture of a grid.
//! - [`pointer_input`]: the pointer state machine.
//! - [`simulation_clock`]: the scheduling of ticks and frames.
//! - [`doom_fire`]: one simulation, driven by the messages of its host.
//! - [`background`], [`container_size`]: styles of the page around the surface.

pub mod background;
pub mod container_size;
pub mod doom_fire;
pub mod drift_source;
pub mod heat_grid;
pub mod palette_mapper;
pub mod pointer_input;
pub mod simulation_clock;
pub mod stroke_painter;
mod wide_product;
