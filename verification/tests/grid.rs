use planner::types::{CoreError, Grid};

#[test]
fn grid_new_sets_square_side() {
    let g = Grid::new(vec![1u8; 25]);
    assert_eq!(g.size, 5);
    assert_eq!(g.data.len(), 25);
}

#[test]
fn value_at_reads_row_major() {
    let g = Grid::new(vec![0, 1, 2, 3, 4, 5, 6, 7, 8]);
    assert_eq!(g.size, 3);
    assert_eq!(g.value_at(0, 0), 0);
    assert_eq!(g.value_at(0, 2), 2);
    assert_eq!(g.value_at(1, 0), 3);
    assert_eq!(g.value_at(2, 2), 8);
}

#[test]
fn saturated_subtract_clips_and_saturates() {
    // 5x5 grid of 3s: subtracting 5 around the corner saturates at zero
    // and touches only the clipped neighborhood.
    let mut g = Grid::new(vec![3u8; 25]);
    g.saturated_subtract_at(0, 0, 1, 5);
    for r in 0..5 {
        for c in 0..5 {
            if r <= 1 && c <= 1 {
                assert_eq!(g.value_at(r, c), 0);
            } else {
                assert_eq!(g.value_at(r, c), 3);
            }
        }
    }
}

#[test]
fn saturated_add_clips_and_saturates() {
    let mut g = Grid::new(vec![250u8; 25]);
    g.saturated_add_at(2, 2, 1, 10);
    for r in 0..5 {
        for c in 0..5 {
            if (1..=3).contains(&r) && (1..=3).contains(&c) {
                assert_eq!(g.value_at(r, c), 255);
            } else {
                assert_eq!(g.value_at(r, c), 250);
            }
        }
    }
}

#[test]
fn max_restores_from_source_within_neighborhood() {
    let mut g = Grid::new(vec![1u8; 25]);
    let source = Grid::new(vec![9u8; 25]);
    g.max(2, 2, 1, &source);
    for r in 0..5 {
        for c in 0..5 {
            if (1..=3).contains(&r) && (1..=3).contains(&c) {
                assert_eq!(g.value_at(r, c), 9);
            } else {
                assert_eq!(g.value_at(r, c), 1);
            }
        }
    }
}

#[test]
fn load_known_grid_scales_by_ten() {
    let g = Grid::load("GRID_TEST_SINGLE").unwrap();
    assert_eq!(g.size, 1);
    assert_eq!(g.value_at(0, 0), 50);

    let g = Grid::load("GRID_S").unwrap();
    assert_eq!(g.size, 20);
    assert_eq!(g.value_at(0, 0), 0);
}

#[test]
fn load_unknown_grid_name_fails() {
    let r = Grid::load("GRID_NO_SUCH");
    assert_eq!(r.err(), Some(CoreError::InvalidGridName));
}

#[test]
fn load_all_predefined_grids() {
    for name in [
        "GRID_S",
        "GRID_M",
        "GRID_L",
        "GRID_TEST_SINGLE",
        "GRID_TEST_LINE",
        "GRID_TEST_HORIZONTAL",
        "GRID_TEST_VERTICAL",
        "GRID_TEST_DIAGONAL",
    ] {
        let g = Grid::load(name).unwrap();
        assert_eq!(g.size * g.size, g.data.len());
    }
}

#[test]
fn clone_preserves_cells() {
    let g = Grid::load("GRID_TEST_DIAGONAL").unwrap();
    let h = g.clone();
    assert_eq!(g.data, h.data);
    assert_eq!(g.size, h.size);
}
