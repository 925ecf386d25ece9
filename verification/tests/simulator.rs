use planner::simulators::Incremental;
use planner::traits::Simulator;
use planner::types::{CoreError, Grid, Path};

/// Tests the incremental solve function.
#[test]
fn test_incremental_solve() {
    let start_grid = Grid::load("GRID_S").unwrap();
    let incremental = Incremental { increment_step: 1, start_grid: start_grid.clone() };

    let mut steps = Vec::new();
    steps.push((0, 0));
    steps.push((1, 1));
    let path = Path { steps, total_cost: 0 };

    let result = incremental.solve(&start_grid, &path);

    assert!(result.is_ok());

    if let Ok((out_grid, new_pos)) = result {
        assert_eq!(new_pos, (1, 1));
        assert_eq!(out_grid.value_at(0, 0), 0);
    }
}

#[test]
fn incremental_depletes_and_recovers() {
    // Baseline 9 everywhere except a zero at the consumed corner; the
    // current grid sits below baseline at 5, so every other cell recovers
    // by exactly the increment step while the consumed cell stays at zero.
    let mut base = vec![9u8; 9];
    base[0] = 0;
    let baseline = Grid::new(base);
    let current = Grid::new(vec![5u8; 9]);
    let incremental = Incremental { increment_step: 1, start_grid: baseline };

    let path = Path { steps: vec![(0, 0), (1, 1)], total_cost: 0 };
    let (out, pos) = incremental.solve(&current, &path).unwrap();

    assert_eq!(pos, (1, 1));
    assert_eq!(out.value_at(0, 0), 0);
    for r in 0..3 {
        for c in 0..3 {
            if (r, c) != (0, 0) {
                assert_eq!(out.value_at(r, c), 6);
            }
        }
    }
}

#[test]
fn incremental_recovery_saturates() {
    let baseline = Grid::new(vec![255u8; 4]);
    let current = Grid::new(vec![254u8; 4]);
    let incremental = Incremental { increment_step: 200, start_grid: baseline };
    let path = Path { steps: vec![(0, 0), (0, 1)], total_cost: 0 };
    let (out, _) = incremental.solve(&current, &path).unwrap();
    // The consumed cell restarts from zero and recovers by one step;
    // the others saturate at the cell maximum.
    assert_eq!(out.value_at(0, 0), 200);
    assert_eq!(out.value_at(0, 1), 255);
    assert_eq!(out.value_at(1, 0), 255);
    assert_eq!(out.value_at(1, 1), 255);
}

#[test]
fn incremental_refuses_short_path() {
    let g = Grid::new(vec![1u8; 4]);
    let incremental = Incremental { increment_step: 1, start_grid: g.clone() };
    let path = Path { steps: vec![(0, 0)], total_cost: 0 };
    let r = incremental.solve(&g, &path);
    assert_eq!(r.err(), Some(CoreError::PathTooShort));

    let empty = Path { steps: Vec::new(), total_cost: 0 };
    let r = incremental.solve(&g, &empty);
    assert_eq!(r.err(), Some(CoreError::PathTooShort));
}
