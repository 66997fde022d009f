use game_of_life::{Cell, GridError, Universe};

fn grid_from(height: u32, width: u32, alive: &[(u32, u32)]) -> Universe {
    let mut cells = vec![vec![Cell::Dead; width as usize]; height as usize];
    for &(row, col) in alive {
        cells[row as usize][col as usize] = Cell::Alive;
    }
    Universe::new(height, width, cells).unwrap()
}

#[test]
fn new_keeps_the_cells_it_is_given() {
    let cells = vec![
        vec![Cell::Dead, Cell::Alive, Cell::Dead],
        vec![Cell::Alive, Cell::Dead, Cell::Alive],
    ];
    let universe = Universe::new(2, 3, cells.clone()).unwrap();
    assert_eq!(universe.height(), 2);
    assert_eq!(universe.width(), 3);
    for row in 0..2u32 {
        for col in 0..3u32 {
            assert_eq!(universe.get(row, col), Ok(cells[row as usize][col as usize]));
        }
    }
}

#[test]
fn new_refuses_zero_height() {
    let result = Universe::new(0, 3, vec![]);
    assert_eq!(result.err(), Some(GridError::InvalidDimensions));
}

#[test]
fn new_refuses_zero_width() {
    let result = Universe::new(2, 0, vec![vec![], vec![]]);
    assert_eq!(result.err(), Some(GridError::InvalidDimensions));
}

#[test]
fn new_refuses_zero_height_and_width() {
    let result = Universe::new(0, 0, vec![]);
    assert_eq!(result.err(), Some(GridError::InvalidDimensions));
}

#[test]
fn new_refuses_too_few_rows() {
    let result = Universe::new(3, 2, vec![vec![Cell::Dead; 2]; 2]);
    assert_eq!(result.err(), Some(GridError::InvalidDimensions));
}

#[test]
fn new_refuses_too_many_rows() {
    let result = Universe::new(1, 2, vec![vec![Cell::Dead; 2]; 2]);
    assert_eq!(result.err(), Some(GridError::InvalidDimensions));
}

#[test]
fn new_refuses_a_row_of_the_wrong_length() {
    let cells = vec![vec![Cell::Dead; 3], vec![Cell::Dead; 2], vec![Cell::Dead; 3]];
    let result = Universe::new(3, 3, cells);
    assert_eq!(result.err(), Some(GridError::InvalidDimensions));
}

#[test]
fn new_accepts_the_smallest_grid() {
    let universe = Universe::new(1, 1, vec![vec![Cell::Alive]]).unwrap();
    assert_eq!(universe.height(), 1);
    assert_eq!(universe.width(), 1);
    assert_eq!(universe.get(0, 0), Ok(Cell::Alive));
}

#[test]
fn get_reads_each_cell() {
    let universe = grid_from(3, 4, &[(0, 0), (1, 2), (2, 3)]);
    assert_eq!(universe.get(0, 0), Ok(Cell::Alive));
    assert_eq!(universe.get(0, 1), Ok(Cell::Dead));
    assert_eq!(universe.get(1, 2), Ok(Cell::Alive));
    assert_eq!(universe.get(2, 3), Ok(Cell::Alive));
    assert_eq!(universe.get(2, 0), Ok(Cell::Dead));
}

#[test]
fn get_refuses_a_row_past_the_end() {
    let universe = grid_from(3, 4, &[]);
    assert_eq!(universe.get(3, 0), Err(GridError::OutOfBounds));
    assert_eq!(universe.get(u32::MAX, 0), Err(GridError::OutOfBounds));
}

#[test]
fn get_refuses_a_column_past_the_end() {
    let universe = grid_from(3, 4, &[]);
    assert_eq!(universe.get(0, 4), Err(GridError::OutOfBounds));
    assert_eq!(universe.get(2, u32::MAX), Err(GridError::OutOfBounds));
}

#[test]
fn get_does_not_wrap() {
    let universe = grid_from(2, 2, &[(0, 0)]);
    assert_eq!(universe.get(2, 2), Err(GridError::OutOfBounds));
}

#[test]
fn neighbours_of_the_corner_wrap_both_ways() {
    let universe = grid_from(5, 5, &[]);
    let coords = universe.wrapped_neighbor_coordinates(0, 0);
    assert!(coords.contains(&(4, 4)));
    assert!(coords.contains(&(4, 0)));
    assert!(coords.contains(&(0, 4)));
}

#[test]
fn neighbours_of_the_corner_in_order() {
    let universe = grid_from(5, 5, &[]);
    let coords = universe.wrapped_neighbor_coordinates(0, 0);
    assert_eq!(coords, [(4, 4), (4, 0), (4, 1), (0, 4), (0, 1), (1, 4), (1, 0), (1, 1)]);
}

#[test]
fn neighbours_of_the_far_corner_wrap_to_the_start() {
    let universe = grid_from(5, 7, &[]);
    let coords = universe.wrapped_neighbor_coordinates(4, 6);
    assert_eq!(coords, [(3, 5), (3, 6), (3, 0), (4, 5), (4, 0), (0, 5), (0, 6), (0, 0)]);
}

#[test]
fn neighbours_of_an_inner_cell_do_not_wrap() {
    let universe = grid_from(5, 5, &[]);
    let coords = universe.wrapped_neighbor_coordinates(2, 3);
    assert_eq!(coords, [(1, 2), (1, 3), (1, 4), (2, 2), (2, 4), (3, 2), (3, 3), (3, 4)]);
}

#[test]
fn neighbours_stay_in_range() {
    let universe = grid_from(3, 4, &[]);
    for row in 0..3u32 {
        for col in 0..4u32 {
            for (r, c) in universe.wrapped_neighbor_coordinates(row, col) {
                assert!(r < 3 && c < 4);
            }
        }
    }
}

#[test]
fn neighbours_on_a_single_cell_grid_are_the_cell_itself() {
    let universe = grid_from(1, 1, &[]);
    assert_eq!(universe.wrapped_neighbor_coordinates(0, 0), [(0, 0); 8]);
}

#[test]
fn neighbours_on_a_grid_of_two_columns_meet_on_both_sides() {
    let universe = grid_from(3, 2, &[]);
    let coords = universe.wrapped_neighbor_coordinates(1, 0);
    assert_eq!(coords, [(0, 1), (0, 0), (0, 1), (1, 1), (1, 1), (2, 1), (2, 0), (2, 1)]);
}
