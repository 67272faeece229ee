//! A verified falling-sand cellular automaton: a fixed-size grid of cells,
//! each holding at most one particle (solid, fluid, sand, or a kinetic
//! free-flight wrapper), advanced one tick at a time by a state-update pass
//! over a frozen snapshot followed by a position-update pass over the live
//! grid.
//!
//! All quantities are integers: colors are stored in thousandths of a unit
//! per channel, velocities and sub-cell positions in tenths of a cell, and
//! the fluid animation phase in steps of one fortieth of its period.

pub mod color;
pub mod geom;
pub mod grid;
pub mod num;
pub mod particle;
pub mod rng;
