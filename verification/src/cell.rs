//! The state of one cell and the rule that carries it into the next generation.

use vstd::prelude::*;

verus! {

/// One cell of the grid. A cell has no identity beyond its state.
#[derive(Clone, Copy, Debug, PartialEq, Eq, Structural)]
pub enum Cell {
    Dead,
    Alive,
}

/// The state a cell takes in the next generation, given its present state
/// and the number of its live neighbours: a live cell survives with two or
/// three live neighbours, a dead cell comes alive with exactly three.
pub open spec fn next_cell(cell: Cell, live_neighbours: int) -> Cell {
    match cell {
        Cell::Alive => if live_neighbours == 2 || live_neighbours == 3 {
            Cell::Alive
        } else {
            Cell::Dead
        },
        Cell::Dead => if live_neighbours == 3 {
            Cell::Alive
        } else {
            Cell::Dead
        },
    }
}

/// Applies the transition rule to one cell.
pub fn next_state(current_cell: Cell, live_neighbor_count: u8) -> (next: Cell)
    ensures
        next == next_cell(current_cell, live_neighbor_count as int),
{
    match current_cell {
        Cell::Alive => {
            if live_neighbor_count < 2 || live_neighbor_count > 3 {
                Cell::Dead
            } else {
                Cell::Alive
            }
        },
        Cell::Dead => {
            if live_neighbor_count == 3 {
                Cell::Alive
            } else {
                Cell::Dead
            }
        },
    }
}

} // verus!
