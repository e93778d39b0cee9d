use game_of_life::universe::{Cell, Universe};

fn universe_from(alive: &[(u32, u32)], width: u32, height: u32) -> Universe {
    Universe::with_size_filled(width, height, |row, col| {
        if alive.contains(&(row, col)) {
            Cell::Alive
        } else {
            Cell::Dead
        }
    })
}

fn alive_cells(u: &Universe) -> Vec<(u32, u32)> {
    u.iter_cells()
        .into_iter()
        .filter(|(c, _, _)| c.is_alive())
        .map(|(_, row, col)| (row, col))
        .collect()
}

#[test]
fn block_is_a_still_life() {
    // A 2x2 block of alive cells centered in a 4x4 all-dead grid.
    let block = [(1, 1), (1, 2), (2, 1), (2, 2)];
    let mut u = universe_from(&block, 4, 4);
    u.tick();
    assert_eq!(alive_cells(&u), block.to_vec());
    u.tick();
    assert_eq!(alive_cells(&u), block.to_vec());
}

#[test]
fn blinker_oscillates_with_period_two() {
    // A horizontal 3-cell blinker in the middle row of a 3x5 grid.
    let horizontal = [(1, 1), (1, 2), (1, 3)];
    let vertical = [(0, 2), (1, 2), (2, 2)];
    let mut u = universe_from(&horizontal, 5, 3);
    u.tick();
    assert_eq!(alive_cells(&u), vertical.to_vec());
    u.tick();
    assert_eq!(alive_cells(&u), horizontal.to_vec());
}

#[test]
fn glider_advances_to_its_next_generation() {
    // The standard 5-cell glider in a 4-row, 6-column grid.
    let glider = [(0, 1), (1, 2), (2, 0), (2, 1), (2, 2)];
    let next_generation = [(1, 0), (1, 2), (2, 1), (2, 2), (3, 1)];
    let mut u = universe_from(&glider, 6, 4);
    u.tick();
    assert_eq!(alive_cells(&u), next_generation.to_vec());
}

#[test]
fn all_dead_grid_stays_all_dead() {
    let mut u = universe_from(&[], 4, 3);
    for _ in 0..5 {
        u.tick();
        assert_eq!(alive_cells(&u), vec![]);
    }
}

#[test]
fn edges_do_not_wrap() {
    // In an all-alive 3x3 grid only the corners survive: a corner sees 3
    // live neighbors, an edge cell 5, the center 8. With wrapping edges
    // every cell would see 8 and die.
    let all = [
        (0, 0),
        (0, 1),
        (0, 2),
        (1, 0),
        (1, 1),
        (1, 2),
        (2, 0),
        (2, 1),
        (2, 2),
    ];
    let mut u = universe_from(&all, 3, 3);
    u.tick();
    assert_eq!(alive_cells(&u), vec![(0, 0), (0, 2), (2, 0), (2, 2)]);
}

#[test]
fn lone_cell_dies() {
    let mut u = universe_from(&[(0, 0)], 2, 2);
    u.tick();
    assert_eq!(alive_cells(&u), vec![]);
}

#[test]
fn birth_on_exactly_three_neighbors() {
    // Three alive cells in an L; the diagonal corner is born, making a block.
    let mut u = universe_from(&[(0, 0), (0, 1), (1, 0)], 3, 3);
    u.tick();
    assert_eq!(alive_cells(&u), vec![(0, 0), (0, 1), (1, 0), (1, 1)]);
}
