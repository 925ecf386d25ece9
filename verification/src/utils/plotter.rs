use vstd::prelude::*;

use crate::common::types::{path_value, Grid, Path};

verus! {

/// Condenses each agent's path history into a single trace: the sequence
/// of cells the agent actually set out from, one per recorded path, costed
/// by the given grid's values along the trace.
pub fn create_path_traces(
    paths: &Vec<Vec<Path>>,
    positions: &Vec<(usize, usize)>,
    final_grid: &Grid,
) -> (r: Vec<Vec<Path>>)
    requires
        paths@.len() == positions@.len(),
        final_grid.wf(),
        forall|a: int, k: int|
            0 <= a < paths@.len() && 0 <= k < paths@[a]@.len() ==> (#[trigger] paths@[a]@[k]).steps@.len()
                >= 1,
        forall|a: int, k: int|
            0 <= a < paths@.len() && 0 <= k < paths@[a]@.len() ==> (#[trigger] paths@[a]@[k]).steps@[0].0
                < final_grid.size && paths@[a]@[k].steps@[0].1 < final_grid.size,
        forall|a: int| 0 <= a < paths@.len() ==> 255 * (#[trigger] paths@[a]@.len()) <= usize::MAX,
    ensures
        r@.len() == positions@.len(),
        forall|a: int| 0 <= a < r@.len() ==> (#[trigger] r@[a]@).len() == 1,
        forall|a: int|
            0 <= a < r@.len() ==> (#[trigger] r@[a]@[0]).steps@.len() == paths@[a]@.len(),
        forall|a: int, k: int|
            0 <= a < r@.len() && 0 <= k < paths@[a]@.len() ==> (#[trigger] r@[a]@[0].steps@[k])
                == paths@[a]@[k].steps@[0],
        forall|a: int|
            0 <= a < r@.len() ==> (#[trigger] r@[a]@[0]).total_cost == path_value(
                *final_grid,
                r@[a]@[0].steps@,
            ),
{
    let mut path_traces: Vec<Vec<Path>> = Vec::new();
    let mut a: usize = 0;
    while a < paths.len()
        invariant
            paths@.len() == positions@.len(),
            final_grid.wf(),
            a <= paths@.len(),
            path_traces@.len() == a,
            forall|b: int, k: int|
                0 <= b < paths@.len() && 0 <= k < paths@[b]@.len() ==> (
                #[trigger] paths@[b]@[k]).steps@.len() >= 1,
            forall|b: int, k: int|
                0 <= b < paths@.len() && 0 <= k < paths@[b]@.len() ==> (
                #[trigger] paths@[b]@[k]).steps@[0].0 < final_grid.size
                    && paths@[b]@[k].steps@[0].1 < final_grid.size,
            forall|b: int|
                0 <= b < paths@.len() ==> 255 * (#[trigger] paths@[b]@.len()) <= usize::MAX,
            forall|b: int| 0 <= b < a ==> (#[trigger] path_traces@[b]@).len() == 1,
            forall|b: int|
                0 <= b < a ==> (#[trigger] path_traces@[b]@[0]).steps@.len() == paths@[b]@.len(),
            forall|b: int, k: int|
                0 <= b < a && 0 <= k < paths@[b]@.len() ==> (
                #[trigger] path_traces@[b]@[0].steps@[k]) == paths@[b]@[k].steps@[0],
            forall|b: int|
                0 <= b < a ==> (#[trigger] path_traces@[b]@[0]).total_cost == path_value(
                    *final_grid,
                    path_traces@[b]@[0].steps@,
                ),
        decreases paths@.len() - a,
    {
        let drone_paths = &paths[a];
        let mut steps: Vec<(usize, usize)> = Vec::new();
        let mut total_cost: usize = 0;
        let mut k: usize = 0;
        while k < drone_paths.len()
            invariant
                final_grid.wf(),
                drone_paths == &paths@[a as int],
                0 <= a < paths@.len(),
                k <= drone_paths@.len(),
                steps@.len() == k,
                forall|t: int, j: int|
                    0 <= t < paths@.len() && 0 <= j < paths@[t]@.len() ==> (
                    #[trigger] paths@[t]@[j]).steps@.len() >= 1,
                forall|t: int, j: int|
                    0 <= t < paths@.len() && 0 <= j < paths@[t]@.len() ==> (
                    #[trigger] paths@[t]@[j]).steps@[0].0 < final_grid.size
                        && paths@[t]@[j].steps@[0].1 < final_grid.size,
                forall|j: int| 0 <= j < k ==> #[trigger] steps@[j] == drone_paths@[j].steps@[0],
                total_cost == path_value(*final_grid, steps@),
                total_cost <= 255 * k,
                255 * drone_paths@.len() <= usize::MAX,
            decreases drone_paths@.len() - k,
        {
            let first = drone_paths[k].steps[0];
            let v = final_grid.value_at(first.0, first.1);
            let ghost old_steps = steps@;
            steps.push(first);
            proof {
                assert(steps@.drop_last() =~= old_steps);
                assert(steps@.last() == first);
            }
            total_cost = total_cost + v as usize;
            k = k + 1;
        }
        let trace = Path { steps, total_cost };
        let mut bucket: Vec<Path> = Vec::new();
        bucket.push(trace);
        path_traces.push(bucket);
        a = a + 1;
    }
    path_traces
}

} // verus!
