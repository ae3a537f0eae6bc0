use parchis::layout::{get_grid_home_pos, get_grid_pos, grid_pos_on_side};

#[test]
fn side_origins() {
    assert_eq!(grid_pos_on_side((0, 0), 0), (4, 10));
    assert_eq!(grid_pos_on_side((0, 0), 1), (0, 4));
    assert_eq!(grid_pos_on_side((0, 0), 2), (6, 0));
    assert_eq!(grid_pos_on_side((0, 0), 3), (10, 6));
}

#[test]
fn steps_along_and_across() {
    assert_eq!(grid_pos_on_side((2, 1), 0), (3, 8));
    assert_eq!(grid_pos_on_side((2, 1), 1), (2, 3));
    assert_eq!(grid_pos_on_side((2, 1), 2), (7, 2));
    assert_eq!(grid_pos_on_side((2, 1), 3), (8, 7));
}

#[test]
fn track_cells_of_first_side() {
    let cells: Vec<(i32, i32)> = (0..10).map(|i| get_grid_pos(i, 0)).collect();
    assert_eq!(
        cells,
        vec![(4, 10), (4, 9), (4, 8), (4, 7), (4, 6), (3, 6), (2, 6), (1, 6), (0, 6), (0, 5)]
    );
}

#[test]
fn track_cells_are_distinct() {
    let mut cells: Vec<(i32, i32)> = Vec::new();
    for side in 0..4 {
        for i in 0..10 {
            let (x, y) = get_grid_pos(i, side);
            assert!((0..=10).contains(&x) && (0..=10).contains(&y));
            cells.push((x, y));
        }
    }
    let mut unique = cells.clone();
    unique.sort();
    unique.dedup();
    assert_eq!(unique.len(), 40);
    assert_eq!(get_grid_pos(9, 0), (0, 5));
    assert_eq!(get_grid_pos(0, 1), (0, 4));
}

#[test]
fn home_lane_slots() {
    let lane: Vec<(i32, i32)> = (0..4).map(|i| get_grid_home_pos(i, 0)).collect();
    assert_eq!(lane, vec![(5, 9), (5, 8), (5, 7), (5, 6)]);
    assert_eq!(get_grid_home_pos(0, 1), (1, 5));
    assert_eq!(get_grid_home_pos(3, 2), (5, 4));
    assert_eq!(get_grid_home_pos(3, 3), (6, 5));
}
