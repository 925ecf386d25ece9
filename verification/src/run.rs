use vstd::prelude::*;

use crate::common::traits::{Planner, Simulator};
use crate::common::types::{Grid, Path};
use crate::parsers::cli::Cli;
use crate::utils::deadline::Deadline;

verus! {

/// Every recorded position lies inside a square grid of side `size`.
pub open spec fn positions_in_bounds(ps: Seq<(usize, usize)>, size: int) -> bool {
    forall|a: int| 0 <= a < ps.len() ==> (#[trigger] ps[a]).0 < size && ps[a].1 < size
}

/// Every path recorded in the histories holds at least two steps and stays
/// inside a square grid of side `size`.
pub open spec fn histories_wf(paths: Seq<Vec<Path>>, size: int) -> bool {
    forall|a: int, k: int|
        0 <= a < paths.len() && 0 <= k < paths[a]@.len() ==> (#[trigger] paths[a]@[k]).steps@.len()
            >= 2 && paths[a]@[k].in_bounds(size)
}

/// Later agents never hold more recorded paths than earlier ones: within
/// each step agents are served in index order, and a failed plan ends the
/// step for every later agent.
pub open spec fn histories_ordered(paths: Seq<Vec<Path>>) -> bool {
    forall|a: int, b: int|
        #![trigger paths[a], paths[b]]
        0 <= a <= b < paths.len() ==> paths[b]@.len() <= paths[a]@.len()
}

/// Copies a list of coordinates.
fn copy_positions(v: &Vec<(usize, usize)>) -> (r: Vec<(usize, usize)>)
    ensures
        r@ == v@,
{
    let mut r: Vec<(usize, usize)> = Vec::new();
    let mut i: usize = 0;
    while i < v.len()
        invariant
            i <= v@.len(),
            r@ == v@.subrange(0, i as int),
        decreases v@.len() - i,
    {
        r.push(v[i]);
        proof {
            assert(r@ =~= v@.subrange(0, i + 1));
        }
        i = i + 1;
    }
    proof {
        assert(r@ =~= v@);
    }
    r
}

/// Runs the multi-agent orchestration loop: once per discrete time step,
/// every agent's neighborhood is suppressed on a shared working grid, each
/// agent in index order restores its own neighborhood from a frozen
/// reference, plans on that private grid, and simulates its first step;
/// each agent's simulated grid feeds the next agent, and the last agent's
/// becomes the shared grid of the next step. The loop ends when the step
/// counter reaches `cli.time_steps`, when any agent's planner reports no
/// path or its simulation is refused (later agents then lose their turn
/// for that step, and the run finalizes with the histories accumulated so
/// far), or when the deadline controller predicts overshoot.
///
/// The returned histories hold one entry per agent, at most one recorded
/// path per agent per step, each with at least two in-bounds steps; an
/// agent's first recorded path sets out from its starting position.
pub fn run_drone_simulation<P: Planner, S: Simulator>(
    cli: Cli,
    planner: P,
    simulator: S,
    starting_positions: Vec<(usize, usize)>,
    starting_grid: &Grid,
) -> (r: Vec<Vec<Path>>)
    requires
        starting_grid.wf(),
        positions_in_bounds(starting_positions@, starting_grid.size as int),
        planner.req(starting_grid.size),
        simulator.fits(starting_grid.size),
    ensures
        r@.len() == starting_positions@.len(),
        histories_wf(r@, starting_grid.size as int),
        histories_ordered(r@),
        forall|a: int| 0 <= a < r@.len() ==> (#[trigger] r@[a]@).len() <= cli.time_steps,
        forall|a: int|
            0 <= a < r@.len() && (#[trigger] r@[a]@).len() >= 1 ==> r@[a]@[0].steps@[0]
                == starting_positions@[a],
        cli.time_steps >= 1 && r@.len() >= 1 ==> (r@[0]@.len() >= 1 || (forall|a: int|
            0 <= a < r@.len() ==> (#[trigger] r@[a]@).len() == 0)),
{
    let size = starting_grid.size;
    let n = starting_grid.data.len();
    proof {
        assert(size + 3 <= usize::MAX) by (nonlinear_arith)
            requires
                size * size == n,
                n <= usize::MAX,
                3 <= usize::MAX,
        {
        }
    }

    let mut positions = copy_positions(&starting_positions);
    let n_pos = positions.len();
    let mut paths: Vec<Vec<Path>> = Vec::new();
    let mut a: usize = 0;
    while a < n_pos
        invariant
            a <= n_pos,
            paths@.len() == a,
            forall|b: int| 0 <= b < a ==> (#[trigger] paths@[b]@).len() == 0,
        decreases n_pos - a,
    {
        paths.push(Vec::new());
        a = a + 1;
    }

    let mut grid = starting_grid.clone();
    let max_steps: usize = cli.time_steps;

    let mut current_step: usize = 0;
    let mut deadline = Deadline::new(cli.max_duration as u64);

    while current_step < max_steps
        invariant_except_break
            forall|b: int| 0 <= b < paths@.len() ==> (#[trigger] paths@[b]@).len() == current_step,
        invariant
            grid.wf(),
            grid.size == size,
            size == starting_grid.size,
            size + 3 <= usize::MAX,
            planner.req(size),
            simulator.fits(size),
            current_step <= max_steps,
            positions@.len() == n_pos,
            n_pos == starting_positions@.len(),
            positions_in_bounds(positions@, size as int),
            paths@.len() == n_pos,
            histories_wf(paths@, size as int),
            histories_ordered(paths@),
            forall|b: int| 0 <= b < paths@.len() ==> (#[trigger] paths@[b]@).len() <= current_step,
            forall|b: int|
                0 <= b < paths@.len() && (#[trigger] paths@[b]@).len() == 0 ==> positions@[b]
                    == starting_positions@[b],
            forall|b: int|
                0 <= b < paths@.len() && (#[trigger] paths@[b]@).len() >= 1 ==> paths@[b]@[0].steps@[0]
                    == starting_positions@[b],
        ensures
            positions@.len() == n_pos,
            paths@.len() == n_pos,
            histories_wf(paths@, size as int),
            histories_ordered(paths@),
            forall|b: int| 0 <= b < paths@.len() ==> (#[trigger] paths@[b]@).len() <= max_steps,
            forall|b: int|
                0 <= b < paths@.len() && (#[trigger] paths@[b]@).len() >= 1 ==> paths@[b]@[0].steps@[0]
                    == starting_positions@[b],
            max_steps >= 1 && n_pos >= 1 ==> (paths@[0]@.len() >= 1 || (forall|a: int|
                0 <= a < paths@.len() ==> (#[trigger] paths@[a]@).len() == 0)),
        decreases max_steps - current_step,
    {
        current_step = current_step + 1;

        // One mutable working copy and one frozen reference snapshot.
        let mut global_grid = grid.clone();
        let reference_grid = global_grid.clone();

        // Suppress every agent's neighborhood on the working copy, biasing
        // planners away from cells already claimed this step.
        let mut pi: usize = 0;
        while pi < n_pos
            invariant
                global_grid.wf(),
                global_grid.size == size,
                size + 3 <= usize::MAX,
                positions@.len() == n_pos,
                positions_in_bounds(positions@, size as int),
                pi <= n_pos,
            decreases n_pos - pi,
        {
            let pos = positions[pi];
            global_grid.saturated_subtract_at(pos.0, pos.1, 2, 5);
            pi = pi + 1;
        }

        // Process agents in index order; each sees the previous agent's
        // simulated outcome within this same step.
        let mut private_grid = global_grid;
        let mut finished = false;
        let ghost paths0 = paths@;
        let ghost step_bound = current_step as int;
        let mut index: usize = 0;
        while index < n_pos
            invariant_except_break
                !finished,
                forall|b: int|
                    index <= b < paths@.len() ==> (#[trigger] paths@[b]@).len()
                        == paths0[b]@.len(),
                forall|b: int|
                    0 <= b < index ==> (#[trigger] paths@[b]@).len() == paths0[b]@.len() + 1,
            invariant
                private_grid.wf(),
                private_grid.size == size,
                grid.wf(),
                grid.size == size,
                reference_grid.wf(),
                reference_grid.size == size,
                size + 3 <= usize::MAX,
                planner.req(size),
                simulator.fits(size),
                index <= n_pos,
                positions@.len() == n_pos,
                positions_in_bounds(positions@, size as int),
                paths@.len() == n_pos,
                histories_wf(paths@, size as int),
                forall|b: int|
                    0 <= b < paths@.len() ==> (#[trigger] paths@[b]@).len() <= step_bound,
                1 <= step_bound,
                paths0.len() == n_pos,
                histories_ordered(paths0),
                forall|b: int|
                    0 <= b < paths0.len() ==> (#[trigger] paths0[b]@).len() <= step_bound - 1,
                n_pos == starting_positions@.len(),
                forall|b: int|
                    0 <= b < paths@.len() && (#[trigger] paths@[b]@).len() == 0 ==> positions@[b]
                        == starting_positions@[b],
                forall|b: int|
                    0 <= b < paths@.len() && (#[trigger] paths@[b]@).len() >= 1 ==> paths@[b]@[0].steps@[0]
                        == starting_positions@[b],
            ensures
                grid.wf(),
                grid.size == size,
                positions@.len() == n_pos,
                positions_in_bounds(positions@, size as int),
                paths@.len() == n_pos,
                histories_wf(paths@, size as int),
                histories_ordered(paths@),
                forall|b: int|
                    0 <= b < paths@.len() ==> (#[trigger] paths@[b]@).len() <= step_bound,
                forall|b: int|
                    0 <= b < paths@.len() && (#[trigger] paths@[b]@).len() == 0 ==> positions@[b]
                        == starting_positions@[b],
                forall|b: int|
                    0 <= b < paths@.len() && (#[trigger] paths@[b]@).len() >= 1 ==> paths@[b]@[0].steps@[0]
                        == starting_positions@[b],
                !finished ==> (forall|b: int|
                    0 <= b < paths@.len() ==> (#[trigger] paths@[b]@).len() == paths0[b]@.len()
                        + 1),
                n_pos >= 1 ==> (paths@[0]@.len() == paths0[0]@.len() + 1 || (forall|b: int|
                    0 <= b < paths@.len() ==> (#[trigger] paths@[b]@).len()
                        == paths0[b]@.len())),
            decreases n_pos - index,
        {
            let private_location = positions[index];
            // Restore the true values around this agent's own position so
            // it is not blinded by its own suppression.
            private_grid.max(private_location.0, private_location.1, 1, &reference_grid);

            match planner.solve(&private_grid, private_location) {
                Some(path) => {
                    let recorded = path.clone();
                    let ghost pre_paths = paths@;
                    paths[index].push(recorded);
                    proof {
                        assert(pre_paths[index as int]@.len() == paths0[index as int]@.len());
                        assert(paths0[index as int]@.len() <= step_bound - 1);
                        assert(paths@[index as int]@.len() <= step_bound);
                        assert(paths@[index as int]@.last().steps@ == path.steps@);
                        if pre_paths[index as int]@.len() == 0 {
                            assert(paths@[index as int]@[0].steps@[0]
                                == starting_positions@[index as int]);
                        } else {
                            assert(paths@[index as int]@[0] == pre_paths[index as int]@[0]);
                        }
                        assert forall|b: int, k: int|
                            0 <= b < paths@.len() && 0 <= k < paths@[b]@.len() implies (
                        #[trigger] paths@[b]@[k]).steps@.len() >= 2 && paths@[b]@[k].in_bounds(
                            size as int,
                        ) by {
                            if b == index as int && k == paths@[b]@.len() - 1 {
                            } else {
                                assert(paths@[b]@[k] == pre_paths[b]@[k]);
                            }
                        }
                    }

                    match simulator.solve(&private_grid, &path) {
                        Ok(sim_out) => {
                            let (new_grid, new_location) = sim_out;
                            if index != n_pos - 1 {
                                private_grid = new_grid;
                            } else {
                                grid = new_grid;
                            }
                            positions[index] = new_location;
                        },
                        Err(_) => {
                            finished = true;
                            proof {
                                if n_pos >= 1 {
                                    assert(paths@[0]@.len() == paths0[0]@.len() + 1);
                                }
                                assert forall|b1: int, b2: int|
                                    #![trigger paths@[b1], paths@[b2]]
                                    0 <= b1 <= b2 < paths@.len() implies paths@[b2]@.len()
                                    <= paths@[b1]@.len() by {
                                    assert(paths0[b2]@.len() <= paths0[b1]@.len());
                                }
                            }
                            break;
                        },
                    }
                },
                None => {
                    finished = true;
                    proof {
                        if n_pos >= 1 && index > 0 {
                            assert(paths@[0]@.len() == paths0[0]@.len() + 1);
                        }
                        assert forall|b1: int, b2: int|
                            #![trigger paths@[b1], paths@[b2]]
                            0 <= b1 <= b2 < paths@.len() implies paths@[b2]@.len()
                            <= paths@[b1]@.len() by {
                            assert(paths0[b2]@.len() <= paths0[b1]@.len());
                        }
                    }
                    break;
                },
            }
            index = index + 1;
        }

        // Planning exhaustion (or a refused simulation) is a terminal
        // signal for the whole run, not just for this step.
        if finished {
            proof {
                if max_steps >= 1 && n_pos >= 1 {
                    if paths@[0]@.len() == paths0[0]@.len() + 1 {
                        assert(paths@[0]@.len() >= 1);
                    } else if current_step >= 2 {
                        assert(paths@[0]@.len() == current_step - 1 >= 1);
                    } else {
                        assert(forall|a: int|
                            0 <= a < paths@.len() ==> (#[trigger] paths@[a]@).len() == 0);
                    }
                }
            }
            break;
        }

        if current_step == max_steps {
            break;
        }

        deadline.tick();
        if deadline.will_exceed_deadline() {
            break;
        }
    }

    paths
}

} // verus!
