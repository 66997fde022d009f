//! A first generation drawn at random.

use vstd::prelude::*;
use crate::cell::Cell;
use crate::grid::{well_formed, rows, cols};
use crate::universe::{Universe, GridError};

verus! {

/// A cell of a random grid is alive with one chance in this many.
pub const ALIVE_CHANCE: u32 = 2;

/// The cell that a drawn number stands for: alive when the number is a
/// multiple of `ALIVE_CHANCE`, dead otherwise.
pub open spec fn cell_of_draw(draw: u32) -> Cell {
    if draw % ALIVE_CHANCE == 0 {
        Cell::Alive
    } else {
        Cell::Dead
    }
}

/// Turns one drawn number into a cell.
pub fn cell_from_draw(draw: u32) -> (cell: Cell)
    ensures
        cell == cell_of_draw(draw),
{
    if draw % ALIVE_CHANCE == 0 {
        Cell::Alive
    } else {
        Cell::Dead
    }
}

/// Calls `rand::random::<u32>()`, which draws a number from the generator of
/// the running thread. Nothing is claimed of the number drawn: two calls may
/// return any two numbers. The generator is seeded from the operating system
/// when a thread first uses it, and the call panics if that fails; nothing
/// here can rule it out.
#[verifier::external_body]
fn random_draw() -> u32 {
    rand::random::<u32>()
}

impl Universe {
    /// A grid of `height` rows and `width` columns in which every cell is
    /// drawn on its own from the generator of the running thread, alive with
    /// one chance in `ALIVE_CHANCE`. It is refused when a dimension is zero.
    /// Which cells are alive depends on the numbers drawn; the size of the
    /// grid does not.
    pub fn random(height: u32, width: u32) -> (result: Result<Universe, GridError>)
        ensures
            result is Ok <==> height > 0 && width > 0,
            result matches Ok(universe) ==> well_formed(universe@) && rows(universe@) == height
                && cols(universe@) == width,
            result matches Err(error) ==> error == GridError::InvalidDimensions,
    {
        if height == 0 || width == 0 {
            return Err(GridError::InvalidDimensions);
        }
        let mut cells: Vec<Vec<Cell>> = Vec::new();
        let mut r: u32 = 0;
        while r < height
            invariant
                r <= height,
                cells@.len() == r,
                forall|k: int| 0 <= k < r ==> (#[trigger] cells@[k])@.len() == width,
            decreases height - r,
        {
            let mut row: Vec<Cell> = Vec::new();
            let mut c: u32 = 0;
            while c < width
                invariant
                    c <= width,
                    row@.len() == c,
                decreases width - c,
            {
                row.push(cell_from_draw(random_draw()));
                c += 1;
            }
            cells.push(row);
            r += 1;
        }
        Universe::new(height, width, cells)
    }
}

} // verus!
