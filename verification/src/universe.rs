//! The grid that the simulation runs on, and one step of the simulation.

use vstd::prelude::*;
use crate::cell::{Cell, next_state};
use crate::grid::{
    well_formed, rows, cols, in_range, wrap, neighbour_offsets, wrapped_neighbours,
    plain_neighbours, count_alive, live_neighbours, bounded_live_neighbours, next_generation,
    all_dead, lemma_wrap, lemma_extinct_is_fixed,
};

verus! {

/// Why a grid could not be built or read.
#[derive(Clone, Copy, Debug, PartialEq, Eq, Structural)]
pub enum GridError {
    /// The grid would have no rows or no columns, or the cells handed over do
    /// not fill the stated height and width.
    InvalidDimensions,
    /// A coordinate outside the grid was read directly.
    OutOfBounds,
}

/// A generation of cells on a torus. Height and width are fixed when the
/// grid is made; every coordinate below them has exactly one cell.
#[derive(Debug)]
pub struct Universe {
    width: u32,
    height: u32,
    cells: Vec<Vec<Cell>>,
}

/// The rows of cells that a vector of vectors holds.
pub open spec fn rows_of(cells: Vec<Vec<Cell>>) -> Seq<Seq<Cell>> {
    Seq::new(cells@.len(), |r: int| cells@[r]@)
}

/// The same coordinates as unbounded integers.
pub open spec fn coordinates_of(coords: Seq<(u32, u32)>) -> Seq<(int, int)> {
    Seq::new(coords.len(), |i: int| (coords[i].0 as int, coords[i].1 as int))
}

/// Whether every cell that comes before `(row, col)` in row-major order is
/// dead.
spec fn dead_before(grid: Seq<Seq<Cell>>, row: int, col: int) -> bool {
    forall|r: int, c: int|
        0 <= r < grid.len() && 0 <= c < grid[r].len() && (r < row || (r == row && c < col)) ==> (
        #[trigger] grid[r][c]) == Cell::Dead
}

/// The offset of the neighbour with the given index, row offset first.
fn neighbour_offset(index: usize) -> (offset: (i8, i8))
    requires
        index < 8,
    ensures
        (offset.0 as int, offset.1 as int) == neighbour_offsets()[index as int],
{
    let offsets: [(i8, i8); 8] = [
        (-1, -1),
        (-1, 0),
        (-1, 1),
        (0, -1),
        (0, 1),
        (1, -1),
        (1, 0),
        (1, 1),
    ];
    offsets[index]
}

/// The place before `coord` on a ring of `size` places.
fn step_back(coord: u32, size: u32) -> (place: u32)
    requires
        coord < size,
    ensures
        place == wrap(coord as int, -1, size as int),
        place < size,
{
    proof {
        lemma_wrap(coord as int, -1, size as int);
    }
    if coord == 0 {
        size - 1
    } else {
        coord - 1
    }
}

/// The place after `coord` on a ring of `size` places.
fn step_forward(coord: u32, size: u32) -> (place: u32)
    requires
        coord < size,
    ensures
        place == wrap(coord as int, 1, size as int),
        place < size,
{
    proof {
        lemma_wrap(coord as int, 1, size as int);
    }
    if coord == size - 1 {
        0
    } else {
        coord + 1
    }
}

impl View for Universe {
    type V = Seq<Seq<Cell>>;

    closed spec fn view(&self) -> Seq<Seq<Cell>> {
        rows_of(self.cells)
    }
}

impl Universe {
    #[verifier::type_invariant]
    spec fn consistent(&self) -> bool {
        &&& well_formed(self@)
        &&& self.height == rows(self@)
        &&& self.width == cols(self@)
    }

    /// Builds a grid of `height` rows and `width` columns from the rows in
    /// `initial_cells`. It is refused when a dimension is zero or when the
    /// rows handed over are not `height` rows of `width` cells each.
    pub fn new(height: u32, width: u32, initial_cells: Vec<Vec<Cell>>) -> (result: Result<
        Universe,
        GridError,
    >)
        ensures
            result is Ok <==> (height > 0 && width > 0 && rows_of(initial_cells).len() == height
                && forall|r: int|
                0 <= r < height ==> (#[trigger] rows_of(initial_cells)[r]).len() == width),
            result matches Ok(universe) ==> universe@ == rows_of(initial_cells) && well_formed(
                universe@,
            ),
            result matches Err(error) ==> error == GridError::InvalidDimensions,
    {
        if height == 0 || width == 0 || initial_cells.len() != height as usize {
            return Err(GridError::InvalidDimensions);
        }
        let mut r: usize = 0;
        while r < initial_cells.len()
            invariant
                r <= initial_cells.len(),
                initial_cells.len() == height,
                forall|k: int| 0 <= k < r ==> (#[trigger] rows_of(initial_cells)[k]).len() == width,
            decreases initial_cells.len() - r,
        {
            if initial_cells[r].len() != width as usize {
                assert(rows_of(initial_cells)[r as int].len() != width);
                return Err(GridError::InvalidDimensions);
            }
            r += 1;
        }
        Ok(Universe { width, height, cells: initial_cells })
    }

    /// The number of rows.
    pub fn height(&self) -> (height: u32)
        ensures
            height == rows(self@),
            well_formed(self@),
    {
        proof {
            use_type_invariant(self);
        }
        self.height
    }

    /// The number of columns.
    pub fn width(&self) -> (width: u32)
        ensures
            width == cols(self@),
            well_formed(self@),
    {
        proof {
            use_type_invariant(self);
        }
        self.width
    }

    /// The cell at a coordinate that lies in the grid.
    pub(crate) fn cell(&self, row: u32, col: u32) -> (cell: Cell)
        requires
            in_range(self@, row as int, col as int),
        ensures
            cell == self@[row as int][col as int],
    {
        proof {
            use_type_invariant(self);
            assert(self@[row as int].len() == self@[0].len());
        }
        self.cells[row as usize][col as usize]
    }

    /// The cell at `(row, col)`, or `OutOfBounds` when the coordinate does not
    /// lie in the grid.
    pub fn get(&self, row: u32, col: u32) -> (result: Result<Cell, GridError>)
        ensures
            result is Ok <==> in_range(self@, row as int, col as int),
            result matches Ok(cell) ==> cell == self@[row as int][col as int],
            result matches Err(error) ==> error == GridError::OutOfBounds,
    {
        proof {
            use_type_invariant(self);
        }
        if row < self.height && col < self.width {
            Ok(self.cell(row, col))
        } else {
            Err(GridError::OutOfBounds)
        }
    }

    /// The eight neighbours of `(row, col)`, each wrapped onto the torus, in
    /// the order of `neighbour_offsets`. Every one of them lies in the grid.
    pub fn wrapped_neighbor_coordinates(&self, row: u32, col: u32) -> (coords: [(u32, u32); 8])
        requires
            in_range(self@, row as int, col as int),
        ensures
            coordinates_of(coords@) == wrapped_neighbours(
                row as int,
                col as int,
                rows(self@),
                cols(self@),
            ),
            forall|i: int|
                0 <= i < 8 ==> in_range(
                    self@,
                    (#[trigger] coords@[i]).0 as int,
                    coords@[i].1 as int,
                ),
    {
        proof {
            use_type_invariant(self);
            lemma_wrap(row as int, 0, self.height as int);
            lemma_wrap(col as int, 0, self.width as int);
        }
        let up = step_back(row, self.height);
        let down = step_forward(row, self.height);
        let left = step_back(col, self.width);
        let right = step_forward(col, self.width);
        let coords = [
            (up, left),
            (up, col),
            (up, right),
            (row, left),
            (row, right),
            (down, left),
            (down, col),
            (down, right),
        ];
        assert(coordinates_of(coords@) =~= wrapped_neighbours(
            row as int,
            col as int,
            rows(self@),
            cols(self@),
        ));
        coords
    }

    /// The number of live cells among the eight neighbours of `(row, col)` on
    /// the torus, between 0 and 8. The grid is only read.
    pub fn live_neighbour_count(&self, cell_row: u32, cell_col: u32) -> (count: u8)
        requires
            in_range(self@, cell_row as int, cell_col as int),
        ensures
            count == live_neighbours(self@, cell_row as int, cell_col as int),
            count <= 8,
    {
        proof {
            use_type_invariant(self);
        }
        let coords = self.wrapped_neighbor_coordinates(cell_row, cell_col);
        let ghost neighbours = wrapped_neighbours(
            cell_row as int,
            cell_col as int,
            rows(self@),
            cols(self@),
        );
        let mut count: u8 = 0;
        let mut i: usize = 0;
        while i < 8
            invariant
                i <= 8,
                count <= i,
                count == count_alive(self@, neighbours.take(i as int)),
                neighbours.len() == 8,
                coordinates_of(coords@) == neighbours,
                well_formed(self@),
                self.height == rows(self@),
                self.width == cols(self@),
                forall|k: int|
                    0 <= k < 8 ==> in_range(
                        self@,
                        (#[trigger] coords@[k]).0 as int,
                        coords@[k].1 as int,
                    ),
            decreases 8 - i,
        {
            let (row, col) = coords[i];
            proof {
                assert(coordinates_of(coords@)[i as int] == neighbours[i as int]);
                assert(neighbours.take(i + 1).drop_last() =~= neighbours.take(i as int));
            }
            if self.cell(row, col) == Cell::Alive {
                count += 1;
            }
            i += 1;
        }
        proof {
            assert(neighbours.take(8) =~= neighbours);
        }
        count
    }

    /// The number of live cells among the neighbours of `(row, col)` when the
    /// edges of the grid are not joined: a neighbour that would lie outside
    /// the grid is left out.
    pub fn static_live_neighbour_count(&self, cell_row: u32, cell_col: u32) -> (count: u8)
        requires
            in_range(self@, cell_row as int, cell_col as int),
        ensures
            count == bounded_live_neighbours(self@, cell_row as int, cell_col as int),
            count <= 8,
    {
        proof {
            use_type_invariant(self);
        }
        let ghost neighbours = plain_neighbours(cell_row as int, cell_col as int);
        let mut count: u8 = 0;
        let mut i: usize = 0;
        while i < 8
            invariant
                i <= 8,
                count <= i,
                count == count_alive(self@, neighbours.take(i as int)),
                neighbours == plain_neighbours(cell_row as int, cell_col as int),
                well_formed(self@),
                self.height == rows(self@),
                self.width == cols(self@),
            decreases 8 - i,
        {
            let (row_step, col_step) = neighbour_offset(i);
            let row: i64 = cell_row as i64 + row_step as i64;
            let col: i64 = cell_col as i64 + col_step as i64;
            proof {
                assert(neighbours[i as int] == (row as int, col as int));
                assert(neighbours.take(i + 1).drop_last() =~= neighbours.take(i as int));
            }
            if 0 <= row && row < self.height as i64 && 0 <= col && col < self.width as i64 {
                if self.cell(row as u32, col as u32) == Cell::Alive {
                    count += 1;
                }
            }
            i += 1;
        }
        proof {
            assert(neighbours.take(8) =~= neighbours);
        }
        count
    }

    /// One step of the simulation. The next generation is a new grid, built
    /// from this one alone: each cell's next state comes from its own state
    /// and its live neighbours here, so no cell sees a neighbour that has
    /// already moved on. The flag tells whether the new grid is extinct.
    pub fn tick(&self) -> (result: (Universe, bool))
        ensures
            result.0@ == next_generation(self@),
            result.1 == all_dead(result.0@),
            well_formed(result.0@),
            rows(result.0@) == rows(self@),
            cols(result.0@) == cols(self@),
            all_dead(self@) ==> result.0@ == self@ && result.1,
    {
        proof {
            use_type_invariant(self);
            if all_dead(self@) {
                lemma_extinct_is_fixed(self@);
            }
        }
        let ghost next = next_generation(self@);
        let mut cells: Vec<Vec<Cell>> = Vec::new();
        let mut extinct = true;
        let mut row: u32 = 0;
        while row < self.height
            invariant
                row <= self.height,
                well_formed(self@),
                self.height == rows(self@),
                self.width == cols(self@),
                next == next_generation(self@),
                cells@.len() == row,
                forall|r: int| 0 <= r < row ==> (#[trigger] cells@[r])@ == next[r],
                extinct == dead_before(next, row as int, 0),
            decreases self.height - row,
        {
            let mut next_row: Vec<Cell> = Vec::new();
            let mut col: u32 = 0;
            while col < self.width
                invariant
                    row < self.height,
                    col <= self.width,
                    well_formed(self@),
                    self.height == rows(self@),
                    self.width == cols(self@),
                    next == next_generation(self@),
                    next_row@.len() == col,
                    forall|c: int|
                        0 <= c < col ==> (#[trigger] next_row@[c]) == next[row as int][c],
                    extinct == dead_before(next, row as int, col as int),
                decreases self.width - col,
            {
                let live = self.live_neighbour_count(row, col);
                let cell = next_state(self.cell(row, col), live);
                proof {
                    assert(cell == next[row as int][col as int]);
                }
                if cell == Cell::Alive {
                    extinct = false;
                }
                next_row.push(cell);
                col += 1;
            }
            assert(next_row@ =~= next[row as int]);
            cells.push(next_row);
            row += 1;
        }
        assert(rows_of(cells) =~= next);
        (Universe { width: self.width, height: self.height, cells }, extinct)
    }
}

} // verus!
