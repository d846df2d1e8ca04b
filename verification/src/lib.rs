//! Deterministic core of a 2D arena of mass-conserving balls: the broad-phase
//! spatial index, the per-tick collision and food passes, the task scheduler
//! and the viewport mapping, each with a machine-checked contract.

pub mod collision;
pub mod color;
pub mod economy;
pub mod grid;
pub mod interpolator;
pub mod scheduler;
pub mod tick;
pub mod ticklog;
pub mod world;
