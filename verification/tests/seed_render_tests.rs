use game_of_life::{cell_from_draw, Cell, GridError, Universe, ALIVE_CHANCE};

#[test]
fn draw_that_is_a_multiple_gives_a_live_cell() {
    assert_eq!(cell_from_draw(0), Cell::Alive);
    assert_eq!(cell_from_draw(2), Cell::Alive);
    assert_eq!(cell_from_draw(4_294_967_294), Cell::Alive);
}

#[test]
fn draw_that_is_no_multiple_gives_a_dead_cell() {
    assert_eq!(cell_from_draw(1), Cell::Dead);
    assert_eq!(cell_from_draw(3), Cell::Dead);
    assert_eq!(cell_from_draw(u32::MAX), Cell::Dead);
}

#[test]
fn alive_chance_is_one_in_two() {
    assert_eq!(ALIVE_CHANCE, 2);
}

#[test]
fn random_grid_has_the_size_asked_for() {
    let universe = Universe::random(25, 50).unwrap();
    assert_eq!(universe.height(), 25);
    assert_eq!(universe.width(), 50);
    for row in 0..25u32 {
        for col in 0..50u32 {
            assert!(universe.get(row, col).is_ok());
        }
    }
    assert_eq!(universe.get(25, 0), Err(GridError::OutOfBounds));
    assert_eq!(universe.get(0, 50), Err(GridError::OutOfBounds));
}

#[test]
fn random_grid_holds_live_and_dead_cells() {
    // With 1250 cells drawn at even odds, a grid of one state only is out of
    // the question.
    let universe = Universe::random(25, 50).unwrap();
    let mut alive = 0u32;
    let mut dead = 0u32;
    for row in 0..25u32 {
        for col in 0..50u32 {
            match universe.get(row, col) {
                Ok(Cell::Alive) => alive += 1,
                Ok(Cell::Dead) => dead += 1,
                Err(error) => panic!("no cell at ({}, {}): {:?}", row, col, error),
            }
        }
    }
    assert_eq!(alive + dead, 1250);
    assert!(alive > 0);
    assert!(dead > 0);
}

#[test]
fn random_grid_of_one_cell() {
    let universe = Universe::random(1, 1).unwrap();
    assert_eq!(universe.height(), 1);
    assert_eq!(universe.width(), 1);
}

#[test]
fn random_refuses_zero_height() {
    assert_eq!(Universe::random(0, 7).err(), Some(GridError::InvalidDimensions));
}

#[test]
fn random_refuses_zero_width() {
    assert_eq!(Universe::random(7, 0).err(), Some(GridError::InvalidDimensions));
}

#[test]
fn random_grid_can_be_ticked() {
    let universe = Universe::random(10, 12).unwrap();
    let (next, all_dead) = universe.tick();
    assert_eq!(next.height(), 10);
    assert_eq!(next.width(), 12);
    let mut any_alive = false;
    for row in 0..10u32 {
        for col in 0..12u32 {
            if next.get(row, col) == Ok(Cell::Alive) {
                any_alive = true;
            }
        }
    }
    assert_eq!(all_dead, !any_alive);
}

#[test]
fn glyph_of_each_cell() {
    assert_eq!(Cell::Alive.glyph(), "\u{2588}");
    assert_eq!(Cell::Dead.glyph(), "\u{2591}");
}

#[test]
fn render_writes_one_line_per_row() {
    let cells = vec![
        vec![Cell::Dead, Cell::Alive, Cell::Dead],
        vec![Cell::Dead, Cell::Dead, Cell::Alive],
    ];
    let universe = Universe::new(2, 3, cells).unwrap();
    assert_eq!(universe.render(), "\u{2591}\u{2588}\u{2591}\n\u{2591}\u{2591}\u{2588}\n");
}

#[test]
fn render_of_a_single_cell() {
    let universe = Universe::new(1, 1, vec![vec![Cell::Alive]]).unwrap();
    assert_eq!(universe.render(), "\u{2588}\n");
}

#[test]
fn render_of_a_dead_grid() {
    let universe = Universe::new(3, 2, vec![vec![Cell::Dead; 2]; 3]).unwrap();
    assert_eq!(universe.render(), "\u{2591}\u{2591}\n\u{2591}\u{2591}\n\u{2591}\u{2591}\n");
}

#[test]
fn render_follows_the_grid_through_a_tick() {
    let cells = vec![
        vec![Cell::Dead; 5],
        vec![Cell::Dead; 5],
        vec![Cell::Dead, Cell::Alive, Cell::Alive, Cell::Alive, Cell::Dead],
        vec![Cell::Dead; 5],
        vec![Cell::Dead; 5],
    ];
    let (next, _) = Universe::new(5, 5, cells).unwrap().tick();
    let dead = "\u{2591}\u{2591}\u{2591}\u{2591}\u{2591}\n";
    let mid = "\u{2591}\u{2591}\u{2588}\u{2591}\u{2591}\n";
    assert_eq!(next.render(), format!("{}{}{}{}{}", dead, mid, mid, mid, dead));
}
