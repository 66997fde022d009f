use game_of_life::{Cell, Universe};

fn grid_from(height: u32, width: u32, alive: &[(u32, u32)]) -> Universe {
    let mut cells = vec![vec![Cell::Dead; width as usize]; height as usize];
    for &(row, col) in alive {
        cells[row as usize][col as usize] = Cell::Alive;
    }
    Universe::new(height, width, cells).unwrap()
}

fn alive_cells(universe: &Universe) -> Vec<(u32, u32)> {
    let mut alive = Vec::new();
    for row in 0..universe.height() {
        for col in 0..universe.width() {
            if universe.get(row, col) == Ok(Cell::Alive) {
                alive.push((row, col));
            }
        }
    }
    alive
}

fn after(universe: Universe, steps: u32) -> Universe {
    let mut current = universe;
    for _ in 0..steps {
        current = current.tick().0;
    }
    current
}

#[test]
fn block_is_a_still_life_on_four_by_four() {
    let block = [(1, 1), (1, 2), (2, 1), (2, 2)];
    let (next, all_dead) = grid_from(4, 4, &block).tick();
    assert!(!all_dead);
    assert_eq!(alive_cells(&next), block.to_vec());
}

#[test]
fn block_is_a_still_life_on_a_larger_grid() {
    let block = [(3, 5), (3, 6), (4, 5), (4, 6)];
    let universe = after(grid_from(8, 10, &block), 5);
    assert_eq!(alive_cells(&universe), block.to_vec());
}

#[test]
fn block_across_the_corner_is_a_still_life() {
    let block = [(0, 0), (0, 5), (4, 0), (4, 5)];
    let (next, _) = grid_from(5, 6, &block).tick();
    assert_eq!(alive_cells(&next), block.to_vec());
}

#[test]
fn blinker_turns_upright_and_back() {
    let flat = [(2, 1), (2, 2), (2, 3)];
    let upright = [(1, 2), (2, 2), (3, 2)];
    let (once, _) = grid_from(5, 5, &flat).tick();
    assert_eq!(alive_cells(&once), upright.to_vec());
    let (twice, _) = once.tick();
    assert_eq!(alive_cells(&twice), flat.to_vec());
}

#[test]
fn blinker_oscillates_on_four_by_four() {
    let flat = [(1, 0), (1, 1), (1, 2)];
    let upright = [(0, 1), (1, 1), (2, 1)];
    let (once, _) = grid_from(4, 4, &flat).tick();
    assert_eq!(alive_cells(&once), upright.to_vec());
    let (twice, _) = once.tick();
    assert_eq!(alive_cells(&twice), flat.to_vec());
}

#[test]
fn blinker_across_the_edge_oscillates() {
    let flat = [(0, 0), (0, 1), (0, 5)];
    let upright = [(0, 0), (1, 0), (4, 0)];
    let (once, _) = grid_from(5, 6, &flat).tick();
    assert_eq!(alive_cells(&once), upright.to_vec());
    let (twice, _) = once.tick();
    assert_eq!(alive_cells(&twice), flat.to_vec());
}

#[test]
fn glider_moves_one_cell_diagonally_in_four_ticks() {
    let glider = [(0, 1), (1, 2), (2, 0), (2, 1), (2, 2)];
    let moved = [(1, 2), (2, 3), (3, 1), (3, 2), (3, 3)];
    let universe = after(grid_from(8, 8, &glider), 4);
    assert_eq!(alive_cells(&universe), moved.to_vec());
}

#[test]
fn glider_passes_through_its_four_phases() {
    let glider = [(0, 1), (1, 2), (2, 0), (2, 1), (2, 2)];
    let (one, _) = grid_from(6, 6, &glider).tick();
    assert_eq!(alive_cells(&one), vec![(1, 0), (1, 2), (2, 1), (2, 2), (3, 1)]);
    let (two, _) = one.tick();
    assert_eq!(alive_cells(&two), vec![(1, 2), (2, 0), (2, 2), (3, 1), (3, 2)]);
    let (three, _) = two.tick();
    assert_eq!(alive_cells(&three), vec![(1, 1), (2, 2), (2, 3), (3, 1), (3, 2)]);
    let (four, _) = three.tick();
    assert_eq!(alive_cells(&four), vec![(1, 2), (2, 3), (3, 1), (3, 2), (3, 3)]);
}

#[test]
fn glider_travels_around_the_torus() {
    // On five by five cells the glider is back where it started after five
    // diagonal moves.
    let glider = [(0, 1), (1, 2), (2, 0), (2, 1), (2, 2)];
    let universe = after(grid_from(5, 5, &glider), 20);
    assert_eq!(alive_cells(&universe), glider.to_vec());
}

#[test]
fn glider_wraps_over_the_corner() {
    let glider = [(3, 4), (4, 5), (5, 3), (5, 4), (5, 5)];
    let moved = [(0, 0), (0, 4), (0, 5), (4, 5), (5, 0)];
    let universe = after(grid_from(6, 6, &glider), 4);
    assert_eq!(alive_cells(&universe), moved.to_vec());
}
