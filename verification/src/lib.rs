//! Multi-agent grid planning and simulation: square intensity grids with
//! saturating local operators, path planners (ray casting, breadth-first
//! exploration, and an open label-setting variant), an incremental
//! deplete-and-recover simulator, a wall-clock deadline controller, and
//! the orchestration loop that composes them per time step.

pub mod common;
pub mod config;
pub mod parsers;
pub mod planners;
pub mod run;
pub mod simulators;
pub mod utils;

pub use common::traits;
pub use common::types;
