use game_of_life::grid::{
    alive_neighbors, count_alive, dead_grid, glider_configuration, is_alive_at, next_generation,
    random_configuration,
};

fn grid_from(rows: &[&str]) -> Vec<Vec<bool>> {
    rows.iter().map(|r| r.chars().map(|c| c == '#').collect()).collect()
}

#[test]
fn empty_three_by_three_stays_empty() {
    let grid = dead_grid(3, 3);
    assert_eq!(grid, vec![vec![false; 3]; 3]);
    assert_eq!(next_generation(&grid), vec![vec![false; 3]; 3]);
}

#[test]
fn dead_grid_has_requested_dimensions() {
    let grid = dead_grid(5, 2);
    assert_eq!(grid.len(), 2);
    assert!(grid.iter().all(|row| row.len() == 5));
    assert_eq!(count_alive(&grid), 0);
    assert_eq!(dead_grid(4, 0), Vec::<Vec<bool>>::new());
}

#[test]
fn isolated_cell_dies() {
    let grid = grid_from(&["...", ".#.", "..."]);
    assert_eq!(alive_neighbors(&grid, 1, 1), 0);
    let next = next_generation(&grid);
    assert_eq!(next, grid_from(&["...", "...", "..."]));
}

#[test]
fn dead_cell_with_three_neighbors_is_born() {
    let grid = grid_from(&["##.", "#..", "..."]);
    assert_eq!(alive_neighbors(&grid, 1, 1), 3);
    let next = next_generation(&grid);
    assert!(next[1][1]);
    assert_eq!(next, grid_from(&["##.", "##.", "..."]));
}

#[test]
fn living_cell_with_two_neighbors_survives() {
    let grid = grid_from(&["#..", ".#.", "..#"]);
    assert_eq!(alive_neighbors(&grid, 1, 1), 2);
    let next = next_generation(&grid);
    assert_eq!(next, grid_from(&["...", ".#.", "..."]));
}

#[test]
fn living_cell_with_three_neighbors_survives() {
    let grid = grid_from(&["#.#", ".#.", "..#"]);
    assert_eq!(alive_neighbors(&grid, 1, 1), 3);
    assert!(next_generation(&grid)[1][1]);
}

#[test]
fn living_cell_with_one_neighbor_starves() {
    let grid = grid_from(&["#..", ".#.", "..."]);
    assert_eq!(alive_neighbors(&grid, 1, 1), 1);
    assert!(!next_generation(&grid)[1][1]);
}

#[test]
fn living_cell_with_four_neighbors_dies() {
    let grid = grid_from(&["#.#", ".#.", "#.#"]);
    assert_eq!(alive_neighbors(&grid, 1, 1), 4);
    let next = next_generation(&grid);
    assert!(!next[1][1]);
    assert_eq!(next, grid_from(&[".#.", "#.#", ".#."]));
}

#[test]
fn dead_cell_with_two_or_four_neighbors_stays_dead() {
    let two = grid_from(&["#..", "...", "..#"]);
    assert!(!next_generation(&two)[1][1]);
    let four = grid_from(&["#.#", "...", "#.#"]);
    assert!(!next_generation(&four)[1][1]);
}

#[test]
fn blinker_has_period_two() {
    let horizontal = grid_from(&[".....", ".....", ".###.", ".....", "....."]);
    let vertical = grid_from(&[".....", "..#..", "..#..", "..#..", "....."]);
    let once = next_generation(&horizontal);
    assert_eq!(once, vertical);
    let twice = next_generation(&once);
    assert_eq!(twice, horizontal);
}

#[test]
fn block_is_still() {
    let block = grid_from(&["....", ".##.", ".##.", "...."]);
    assert_eq!(next_generation(&block), block);
}

#[test]
fn glider_moves_one_step() {
    let glider = grid_from(&[".#...", "..#..", "###..", ".....", "....."]);
    let next = next_generation(&glider);
    assert_eq!(next, grid_from(&[".....", "#.#..", ".##..", ".#...", "....."]));
}

#[test]
fn next_generation_leaves_its_input_alone() {
    let grid = grid_from(&[".#.", ".#.", ".#."]);
    let copy = grid.clone();
    let mut next = next_generation(&grid);
    assert_eq!(grid, copy);
    next[0][0] = true;
    assert_eq!(next_generation(&grid), grid_from(&["...", "###", "..."]));
}

#[test]
fn corner_cell_counts_at_most_three() {
    let full = vec![vec![true; 4]; 3];
    assert_eq!(alive_neighbors(&full, 0, 0), 3);
    assert_eq!(alive_neighbors(&full, 3, 0), 3);
    assert_eq!(alive_neighbors(&full, 0, 2), 3);
    assert_eq!(alive_neighbors(&full, 3, 2), 3);
}

#[test]
fn edge_cell_counts_at_most_five() {
    let full = vec![vec![true; 4]; 3];
    assert_eq!(alive_neighbors(&full, 1, 0), 5);
    assert_eq!(alive_neighbors(&full, 0, 1), 5);
    assert_eq!(alive_neighbors(&full, 3, 1), 5);
    assert_eq!(alive_neighbors(&full, 2, 2), 5);
}

#[test]
fn inner_cell_counts_eight() {
    let full = vec![vec![true; 4]; 3];
    assert_eq!(alive_neighbors(&full, 1, 1), 8);
    assert_eq!(alive_neighbors(&full, 2, 1), 8);
}

#[test]
fn single_cell_grid_has_no_neighbors() {
    let grid = vec![vec![true]];
    assert_eq!(alive_neighbors(&grid, 0, 0), 0);
    assert_eq!(next_generation(&grid), vec![vec![false]]);
}

#[test]
fn positions_outside_the_grid_are_dead() {
    let full = vec![vec![true; 2]; 2];
    assert!(is_alive_at(&full, 0, 0));
    assert!(is_alive_at(&full, 1, 1));
    assert!(!is_alive_at(&full, -1, 0));
    assert!(!is_alive_at(&full, 0, -1));
    assert!(!is_alive_at(&full, 2, 0));
    assert!(!is_alive_at(&full, 0, 2));
    assert!(!is_alive_at(&full, i32::MIN, i32::MAX));
    assert_eq!(alive_neighbors(&full, -1, -1), 1);
    assert_eq!(alive_neighbors(&full, 2, 2), 1);
    assert_eq!(alive_neighbors(&full, -1, 0), 2);
    assert_eq!(alive_neighbors(&full, 5, 5), 0);
}

#[test]
fn edges_do_not_wrap() {
    let grid = grid_from(&["#..#", "....", "#..#"]);
    assert_eq!(alive_neighbors(&grid, 0, 0), 0);
    assert_eq!(alive_neighbors(&grid, 3, 2), 0);
    assert_eq!(next_generation(&grid), grid_from(&["....", "....", "...."]));
}

#[test]
fn count_alive_counts_living_cells() {
    assert_eq!(count_alive(&grid_from(&["#.#", ".#.", "#.#"])), 5);
    assert_eq!(count_alive(&grid_from(&["...", "..."])), 0);
    assert_eq!(count_alive(&vec![vec![true; 7]; 3]), 21);
    assert_eq!(count_alive(&grid_from(&["#"])), 1);
}

#[test]
fn random_configuration_sets_drawn_cells_alive() {
    let mut grid = dead_grid(3, 2);
    let draws = grid_from(&["#.#", ".#."]);
    random_configuration(&mut grid, &draws);
    assert_eq!(grid, draws);
}

#[test]
fn random_configuration_keeps_living_cells() {
    let mut grid = grid_from(&["##.", "..."]);
    let draws = grid_from(&[".#.", "..#"]);
    random_configuration(&mut grid, &draws);
    assert_eq!(grid, grid_from(&["##.", "..#"]));
}

#[test]
fn random_configuration_without_draws_changes_nothing() {
    let mut grid = grid_from(&["#.", ".#"]);
    random_configuration(&mut grid, &dead_grid(2, 2));
    assert_eq!(grid, grid_from(&["#.", ".#"]));
}

#[test]
fn glider_configuration_places_five_cells() {
    let mut grid = dead_grid(4, 4);
    glider_configuration(&mut grid);
    assert_eq!(grid, grid_from(&[".#..", "..#.", "###.", "...."]));
    assert_eq!(count_alive(&grid), 5);
}

#[test]
fn glider_configuration_keeps_living_cells() {
    let mut grid = grid_from(&["#...", "....", "...#"]);
    glider_configuration(&mut grid);
    assert_eq!(grid, grid_from(&["##..", "..#.", "####"]));
}
