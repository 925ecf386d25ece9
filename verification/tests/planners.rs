use planner::planners::{Dijkstra, RayCasting, BFS};
use planner::traits::Planner;
use planner::types::Grid;

/// Tests the ray casting planner with a small grid.
#[test]
fn test_ray_casting_planner() {
    let planner = RayCasting { len: 3, rays: 8 };

    let grid = Grid::load("GRID_S").expect("Could not load grid");

    let start_pos = (1, 1);
    let path = planner.solve(&grid, start_pos);

    assert!(path.is_some(), "Planner should find a path");

    if let Some(path) = path {
        assert!(!path.steps.is_empty(), "Path should have at least one step");

        assert!(path.steps.len() <= 3, "Path should not exceed ray len");
    }
}

#[test]
fn ray_casting_follows_elevated_axis_ray() {
    // Uniform grid with one elevated cell three steps down the first axis
    // from the start: the axis-aligned ray toward it scores highest.
    let mut data = vec![1u8; 81];
    data[6 * 9 + 4] = 200;
    let grid = Grid::new(data);
    let planner = RayCasting { len: 3, rays: 8 };

    let path = planner.solve(&grid, (4, 4)).expect("planner should find a path");
    assert!(path.steps.len() <= 4, "path stays within ray length plus one");
    assert_eq!(path.steps[0], (4, 4));
    assert_eq!(*path.steps.last().unwrap(), (6, 4), "path ends at the elevated cell");
    let sum: usize = path.steps.iter().map(|&(r, c)| grid.value_at(r, c) as usize).sum();
    assert_eq!(path.total_cost, sum);
}

#[test]
fn ray_casting_none_on_single_cell_grid() {
    // From the only cell of a 1x1 grid no ray keeps more than one point.
    let grid = Grid::new(vec![7u8]);
    let planner = RayCasting { len: 3, rays: 8 };
    assert!(planner.solve(&grid, (0, 0)).is_none());
}

#[test]
fn bfs_reaches_center_of_small_grid() {
    // 3x3 grid, center 50, all others 10, started at a corner: the best
    // route runs from the corner through the center, its cost the exact
    // sum of the values along it, its steps 8-adjacent.
    let mut data = vec![10u8; 9];
    data[4] = 50;
    let grid = Grid::new(data);
    let planner = BFS {};

    let path = planner.solve(&grid, (0, 0)).expect("planner should find a path");
    assert_eq!(path.steps[0], (0, 0));
    assert!(path.steps.contains(&(1, 1)), "route passes through the center");
    // The search is deterministic: the best discovery route runs through
    // the center on to the far corner, accumulating 10 + 50 + 10.
    assert_eq!(path.steps, vec![(0, 0), (1, 1), (2, 2)]);
    assert_eq!(path.total_cost, 70);
    let sum: usize = path.steps.iter().map(|&(r, c)| grid.value_at(r, c) as usize).sum();
    assert_eq!(path.total_cost, sum);
    for w in path.steps.windows(2) {
        let (a, b) = (w[0], w[1]);
        let dr = (a.0 as i64 - b.0 as i64).abs();
        let dc = (a.1 as i64 - b.1 as i64).abs();
        assert!(dr <= 1 && dc <= 1 && (dr, dc) != (0, 0), "steps are 8-adjacent");
    }
}

#[test]
fn bfs_none_when_all_other_cells_empty() {
    let mut data = vec![0u8; 9];
    data[0] = 10;
    let grid = Grid::new(data);
    let planner = BFS {};
    assert!(planner.solve(&grid, (0, 0)).is_none());
}

#[test]
fn dijkstra_reports_no_path() {
    let grid = Grid::load("GRID_S").unwrap();
    let planner = Dijkstra {};
    assert!(planner.solve(&grid, (1, 1)).is_none());
}
