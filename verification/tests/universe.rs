use game_of_life::universe::{Cell, Universe};
use std::cell::RefCell;

fn cells_of(u: &Universe) -> Vec<Cell> {
    u.iter_cells().into_iter().map(|(c, _, _)| c).collect()
}

#[test]
fn try_with_cells() {
    let cells = vec![Cell::Dead, Cell::Alive, Cell::Dead, Cell::Alive];
    let universe = Universe::try_with_cells(cells, 2).unwrap();
    assert_eq!(universe.width(), 2);
    assert_eq!(universe.height(), 2);
    assert_eq!(
        cells_of(&universe),
        &[Cell::Dead, Cell::Alive, Cell::Dead, Cell::Alive]
    );
}

#[test]
fn try_with_cells_cells_cannot_be_empty() {
    let result = Universe::try_with_cells(vec![], 5);
    assert_eq!(result.unwrap_err(), "Cells cannot be empty");
}

#[test]
fn try_with_cells_width_cannot_be_zero() {
    let result = Universe::try_with_cells(vec![Cell::Dead], 0);
    assert_eq!(result.unwrap_err(), "Width cannot be zero");
}

#[test]
fn try_with_cells_cells_length_must_be_multiple_of_width() {
    let result = Universe::try_with_cells(vec![Cell::Dead, Cell::Alive], 3);
    assert_eq!(
        result.unwrap_err(),
        "Cells length must be a multiple of width"
    );
}

#[test]
fn with_size_filled_every_other() {
    let universe = Universe::with_size_filled(3, 3, |row, col| {
        if (row + col) % 2 == 0 {
            Cell::Alive
        } else {
            Cell::Dead
        }
    });

    assert_eq!(universe.width(), 3);
    assert_eq!(universe.height(), 3);
    assert_eq!(
        cells_of(&universe),
        vec![
            Cell::Alive,
            Cell::Dead,
            Cell::Alive,
            Cell::Dead,
            Cell::Alive,
            Cell::Dead,
            Cell::Alive,
            Cell::Dead,
            Cell::Alive
        ]
    );
}

#[test]
fn try_with_cells_empty_fails_for_any_width() {
    assert_eq!(
        Universe::try_with_cells(vec![], 0).unwrap_err(),
        "Cells cannot be empty"
    );
    assert_eq!(
        Universe::try_with_cells(vec![], 1).unwrap_err(),
        "Cells cannot be empty"
    );
    assert_eq!(
        Universe::try_with_cells(vec![], 1000).unwrap_err(),
        "Cells cannot be empty"
    );
}

#[test]
fn try_with_cells_derives_height_from_width() {
    let cells = vec![Cell::Dead; 6];
    let universe = Universe::try_with_cells(cells, 3).unwrap();
    assert_eq!(universe.width(), 3);
    assert_eq!(universe.height(), 2);
}

#[test]
fn with_size_filled_invokes_fill_in_row_major_order() {
    let calls: RefCell<Vec<(u32, u32)>> = RefCell::new(Vec::new());
    let universe = Universe::with_size_filled(3, 3, |row, col| {
        calls.borrow_mut().push((row, col));
        Cell::Dead
    });
    assert_eq!(universe.width(), 3);
    assert_eq!(universe.height(), 3);
    assert_eq!(
        *calls.borrow(),
        vec![
            (0, 0),
            (0, 1),
            (0, 2),
            (1, 0),
            (1, 1),
            (1, 2),
            (2, 0),
            (2, 1),
            (2, 2)
        ]
    );
}

#[test]
fn with_size_filled_zero_dimensions_yield_empty_grid() {
    let universe = Universe::with_size_filled(0, 7, |_, _| Cell::Alive);
    assert_eq!(universe.width(), 0);
    assert_eq!(universe.height(), 7);
    assert!(universe.iter_cells().is_empty());

    let universe = Universe::with_size_filled(7, 0, |_, _| Cell::Alive);
    assert_eq!(universe.width(), 7);
    assert_eq!(universe.height(), 0);
    assert!(universe.iter_cells().is_empty());
}

#[test]
fn iter_cells_reports_row_and_column() {
    let cells = vec![
        Cell::Alive,
        Cell::Dead,
        Cell::Dead,
        Cell::Dead,
        Cell::Dead,
        Cell::Alive,
    ];
    let universe = Universe::try_with_cells(cells, 3).unwrap();
    let triples = universe.iter_cells();
    assert_eq!(
        triples,
        vec![
            (Cell::Alive, 0, 0),
            (Cell::Dead, 0, 1),
            (Cell::Dead, 0, 2),
            (Cell::Dead, 1, 0),
            (Cell::Dead, 1, 1),
            (Cell::Alive, 1, 2),
        ]
    );
}

#[test]
fn cell_is_alive_is_dead() {
    assert!(Cell::Alive.is_alive());
    assert!(!Cell::Alive.is_dead());
    assert!(Cell::Dead.is_dead());
    assert!(!Cell::Dead.is_alive());
}
