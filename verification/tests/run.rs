use planner::parsers::Cli;
use planner::planners::RayCasting;
use planner::run::run_drone_simulation;
use planner::simulators::Incremental;
use planner::types::Grid;
use planner::utils::create_path_traces;

fn demo_cli(steps: usize) -> Cli {
    Cli {
        size: 3,
        time_steps: steps,
        max_duration: 10_000,
        pos_x: vec![2, 6],
        pos_y: vec![2, 6],
        grid: String::from("GRID_S"),
    }
}

#[test]
fn two_agents_record_paths_within_step_bound() {
    // Two agents on a 9x9 grid of positive values, five steps, a generous
    // deadline: both histories are non-empty and no history exceeds the
    // step bound.
    let grid = Grid::new(vec![5u8; 81]);
    let planner = RayCasting { len: 3, rays: 8 };
    let simulator = Incremental { increment_step: 1, start_grid: grid.clone() };
    let positions = vec![(2, 2), (6, 6)];

    let paths = run_drone_simulation(demo_cli(5), planner, simulator, positions, &grid);

    assert_eq!(paths.len(), 2);
    for w in paths.windows(2) {
        assert!(w[1].len() <= w[0].len(), "later agents never lead earlier ones");
    }
    for agent_paths in &paths {
        assert!(!agent_paths.is_empty(), "each agent records at least one path");
        assert!(agent_paths.len() <= 5, "the loop stops within the step bound");
        for p in agent_paths {
            assert!(p.steps.len() >= 2);
        }
    }
}

#[test]
fn zero_steps_records_nothing() {
    let grid = Grid::new(vec![5u8; 81]);
    let planner = RayCasting { len: 3, rays: 8 };
    let simulator = Incremental { increment_step: 1, start_grid: grid.clone() };
    let positions = vec![(4, 4)];

    let paths = run_drone_simulation(demo_cli(0), planner, simulator, positions, &grid);
    assert_eq!(paths.len(), 1);
    assert!(paths[0].is_empty());
}

#[test]
fn traces_condense_histories() {
    let grid = Grid::new(vec![5u8; 81]);
    let planner = RayCasting { len: 3, rays: 8 };
    let simulator = Incremental { increment_step: 1, start_grid: grid.clone() };
    let positions = vec![(2, 2), (6, 6)];

    let paths = run_drone_simulation(demo_cli(3), planner, simulator, positions.clone(), &grid);
    let final_grid = Grid::new(vec![5u8; 81]);
    let traces = create_path_traces(&paths, &positions, &final_grid);

    assert_eq!(traces.len(), 2);
    for (a, trace) in traces.iter().enumerate() {
        assert_eq!(trace.len(), 1);
        let t = &trace[0];
        assert_eq!(t.steps.len(), paths[a].len());
        for (k, p) in paths[a].iter().enumerate() {
            assert_eq!(t.steps[k], p.steps[0]);
        }
        let sum: usize = t.steps.iter().map(|&(r, c)| final_grid.value_at(r, c) as usize).sum();
        assert_eq!(t.total_cost, sum);
    }
}
