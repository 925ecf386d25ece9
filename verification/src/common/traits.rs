use vstd::prelude::*;

use crate::common::types::{CoreError, Grid, Path};

verus! {

/// A trait for path planning algorithms.
///
/// Implementors provide a method that, given a grid and a start cell,
/// either produces a route or reports that none is available.
pub trait Planner {
    /// Conditions the planner's parameters and the grid side length must
    /// meet for planning to stay within machine limits.
    spec fn req(&self, size: usize) -> bool;

    /// Attempts to find a path on the given grid from the start position.
    ///
    /// A returned path holds at least two steps (a route that cannot be
    /// executed is reported as `None` instead), begins at `start`, and
    /// stays inside the grid.
    fn solve(&self, grid: &Grid, start: (usize, usize)) -> (r: Option<Path>)
        requires
            self.req(grid.size),
            grid.wf(),
            start.0 < grid.size,
            start.1 < grid.size,
        ensures
            match r {
                Some(p) => {
                    &&& p.steps@.len() >= 2
                    &&& p.steps@[0] == start
                    &&& p.in_bounds(grid.size as int)
                },
                None => true,
            },
    ;
}

/// A trait for simulation algorithms.
///
/// Implementors provide a method that executes the first step of a path on
/// a grid, yielding the advanced grid and the agent's next position.
pub trait Simulator {
    /// Whether this simulator is set up for grids of the given side length.
    spec fn fits(&self, size: usize) -> bool;

    /// Simulates the execution of a path on the given grid.
    ///
    /// On success the grid keeps its side length and the returned position
    /// lies inside it; a path with fewer than two steps holds no step to
    /// execute and is refused, and nothing else is.
    fn solve(&self, grid: &Grid, path: &Path) -> (r: Result<(Grid, (usize, usize)), CoreError>)
        requires
            self.fits(grid.size),
            grid.wf(),
            path.in_bounds(grid.size as int),
        ensures
            match r {
                Ok((g2, pos)) => {
                    &&& g2.wf()
                    &&& g2.size == grid.size
                    &&& pos.0 < grid.size
                    &&& pos.1 < grid.size
                    &&& path.steps@.len() >= 2
                },
                Err(e) => e == CoreError::PathTooShort && path.steps@.len() < 2,
            },
    ;
}

} // verus!
