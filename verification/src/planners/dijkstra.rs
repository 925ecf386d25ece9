use vstd::prelude::*;

use crate::common::traits::Planner;
use crate::common::types::{Grid, Path};

verus! {

/// A label-setting planner variant keyed by accumulated value.
///
/// The relaxation step of the search — and with it the intended goal
/// condition — is an open design question, so this variant reports no path
/// for any input; callers treat that as planning exhaustion and stop
/// gracefully.
pub struct Dijkstra {}

impl Planner for Dijkstra {
    open spec fn req(&self, size: usize) -> bool {
        true
    }

    /// Reports no path: the label-setting expansion is deliberately left
    /// open rather than guessed at.
    fn solve(&self, grid: &Grid, start: (usize, usize)) -> (r: Option<Path>)
        ensures
            r is None,
    {
        None
    }
}

} // verus!
