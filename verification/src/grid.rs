//! The mathematical model of a generation: a sequence of rows of cells on a
//! torus, with the neighbourhood, the transition and extinction stated over it.

use vstd::prelude::*;
use crate::cell::{Cell, next_cell};

verus! {

/// A grid has at least one row and one column, and all its rows have the
/// same length.
pub open spec fn well_formed(grid: Seq<Seq<Cell>>) -> bool {
    &&& grid.len() > 0
    &&& grid[0].len() > 0
    &&& forall|r: int| 0 <= r < grid.len() ==> (#[trigger] grid[r]).len() == grid[0].len()
}

/// The number of rows.
pub open spec fn rows(grid: Seq<Seq<Cell>>) -> int {
    grid.len() as int
}

/// The number of columns.
pub open spec fn cols(grid: Seq<Seq<Cell>>) -> int {
    grid[0].len() as int
}

/// Whether `(row, col)` names a cell of the grid.
pub open spec fn in_range(grid: Seq<Seq<Cell>>, row: int, col: int) -> bool {
    0 <= row < rows(grid) && 0 <= col < cols(grid)
}

/// Whether `(row, col)` names a cell of the grid and that cell is alive.
/// A coordinate outside the grid names no cell, so nothing is alive there.
pub open spec fn is_alive(grid: Seq<Seq<Cell>>, row: int, col: int) -> bool {
    in_range(grid, row, col) && grid[row][col] == Cell::Alive
}

/// The coordinate `delta` steps from `coord` on a ring of `size` places: the
/// last place is followed by the first.
pub open spec fn wrap(coord: int, delta: int, size: int) -> int {
    (coord + delta + size) % size
}

/// The eight offsets of the Moore neighbourhood, row offset first.
pub open spec fn neighbour_offsets() -> Seq<(int, int)> {
    seq![(-1, -1), (-1, 0), (-1, 1), (0, -1), (0, 1), (1, -1), (1, 0), (1, 1)]
}

/// The eight neighbours of `(row, col)` on a torus of `height` by `width`
/// cells, in the order of `neighbour_offsets`.
pub open spec fn wrapped_neighbours(row: int, col: int, height: int, width: int) -> Seq<
    (int, int),
> {
    Seq::new(8, |i: int| (
        wrap(row, neighbour_offsets()[i].0, height),
        wrap(col, neighbour_offsets()[i].1, width),
    ))
}

/// The eight neighbours of `(row, col)` on an unbounded plane, in the order of
/// `neighbour_offsets`. Some of them may lie outside a given grid.
pub open spec fn plain_neighbours(row: int, col: int) -> Seq<(int, int)> {
    Seq::new(8, |i: int| (row + neighbour_offsets()[i].0, col + neighbour_offsets()[i].1))
}

/// One if `(row, col)` names a live cell of the grid, zero otherwise.
pub open spec fn alive_count(grid: Seq<Seq<Cell>>, row: int, col: int) -> int {
    if is_alive(grid, row, col) {
        1
    } else {
        0
    }
}

/// How many of the given coordinates name a live cell of the grid. A
/// coordinate that occurs twice counts twice.
pub open spec fn count_alive(grid: Seq<Seq<Cell>>, coords: Seq<(int, int)>) -> int
    decreases coords.len(),
{
    if coords.len() == 0 {
        0
    } else {
        count_alive(grid, coords.drop_last()) + alive_count(grid, coords.last().0, coords.last().1)
    }
}

/// The number of live cells among the eight neighbours of `(row, col)` on the
/// torus.
pub open spec fn live_neighbours(grid: Seq<Seq<Cell>>, row: int, col: int) -> int {
    count_alive(grid, wrapped_neighbours(row, col, rows(grid), cols(grid)))
}

/// The number of live cells among those neighbours of `(row, col)` that lie
/// inside the grid when its edges are not joined.
pub open spec fn bounded_live_neighbours(grid: Seq<Seq<Cell>>, row: int, col: int) -> int {
    count_alive(grid, plain_neighbours(row, col))
}

/// The generation that follows `grid`: every cell takes the state that the
/// rule gives it from its own state and its live neighbours in `grid`.
pub open spec fn next_generation(grid: Seq<Seq<Cell>>) -> Seq<Seq<Cell>> {
    Seq::new(
        grid.len(),
        |r: int|
            Seq::new(grid[0].len(), |c: int| next_cell(grid[r][c], live_neighbours(grid, r, c))),
    )
}

/// The grid after `steps` transitions.
pub open spec fn generation(grid: Seq<Seq<Cell>>, steps: nat) -> Seq<Seq<Cell>>
    decreases steps,
{
    if steps == 0 {
        grid
    } else {
        next_generation(generation(grid, (steps - 1) as nat))
    }
}

/// Extinction: every cell of the grid is dead.
pub open spec fn all_dead(grid: Seq<Seq<Cell>>) -> bool {
    forall|r: int, c: int|
        0 <= r < grid.len() && 0 <= c < grid[r].len() ==> (#[trigger] grid[r][c]) == Cell::Dead
}

/// On a ring, a step of at most one full turn either way lands inside the
/// ring: short of the start it comes in from the end, past the end it starts
/// over, and otherwise it is the plain sum.
pub proof fn lemma_wrap(coord: int, delta: int, size: int)
    requires
        0 <= coord < size,
        -size <= delta <= size,
    ensures
        0 <= wrap(coord, delta, size) < size,
        wrap(coord, delta, size) == if coord + delta < 0 {
            coord + delta + size
        } else if coord + delta >= size {
            coord + delta - size
        } else {
            coord + delta
        },
{
    let target = if coord + delta < 0 {
        coord + delta + size
    } else if coord + delta >= size {
        coord + delta - size
    } else {
        coord + delta
    };
    let turns = if coord + delta < 0 {
        0int
    } else if coord + delta >= size {
        2int
    } else {
        1int
    };
    assert(coord + delta + size == turns * size + target) by (nonlinear_arith)
        requires
            turns == 0 || turns == 1 || turns == 2,
            coord + delta + size == target + if turns == 0 {
                0
            } else if turns == 1 {
                size
            } else {
                size + size
            },
    ;
    vstd::arithmetic::div_mod::lemma_fundamental_div_mod_converse(
        coord + delta + size,
        size,
        turns,
        target,
    );
}

/// No more cells are alive among some coordinates than there are
/// coordinates.
pub proof fn lemma_count_alive_bounds(grid: Seq<Seq<Cell>>, coords: Seq<(int, int)>)
    ensures
        0 <= count_alive(grid, coords) <= coords.len(),
    decreases coords.len(),
{
    if coords.len() > 0 {
        lemma_count_alive_bounds(grid, coords.drop_last());
    }
}

/// The count over eight coordinates is the sum of their eight cells.
proof fn lemma_count_alive_of_eight(grid: Seq<Seq<Cell>>, coords: Seq<(int, int)>)
    requires
        coords.len() == 8,
    ensures
        count_alive(grid, coords) == alive_count(grid, coords[0].0, coords[0].1) + alive_count(
            grid,
            coords[1].0,
            coords[1].1,
        ) + alive_count(grid, coords[2].0, coords[2].1) + alive_count(
            grid,
            coords[3].0,
            coords[3].1,
        ) + alive_count(grid, coords[4].0, coords[4].1) + alive_count(
            grid,
            coords[5].0,
            coords[5].1,
        ) + alive_count(grid, coords[6].0, coords[6].1) + alive_count(
            grid,
            coords[7].0,
            coords[7].1,
        ),
{
    let c7 = coords.drop_last();
    let c6 = c7.drop_last();
    let c5 = c6.drop_last();
    let c4 = c5.drop_last();
    let c3 = c4.drop_last();
    let c2 = c3.drop_last();
    let c1 = c2.drop_last();
    let c0 = c1.drop_last();
    assert(count_alive(grid, c0) == 0);
    assert(count_alive(grid, c1) == count_alive(grid, c0) + alive_count(
        grid,
        coords[0].0,
        coords[0].1,
    ));
    assert(count_alive(grid, c2) == count_alive(grid, c1) + alive_count(
        grid,
        coords[1].0,
        coords[1].1,
    ));
    assert(count_alive(grid, c3) == count_alive(grid, c2) + alive_count(
        grid,
        coords[2].0,
        coords[2].1,
    ));
    assert(count_alive(grid, c4) == count_alive(grid, c3) + alive_count(
        grid,
        coords[3].0,
        coords[3].1,
    ));
    assert(count_alive(grid, c5) == count_alive(grid, c4) + alive_count(
        grid,
        coords[4].0,
        coords[4].1,
    ));
    assert(count_alive(grid, c6) == count_alive(grid, c5) + alive_count(
        grid,
        coords[5].0,
        coords[5].1,
    ));
    assert(count_alive(grid, c7) == count_alive(grid, c6) + alive_count(
        grid,
        coords[6].0,
        coords[6].1,
    ));
}

/// In every grid, a cell has between zero and eight live neighbours.
pub proof fn lemma_live_neighbours_bounds(grid: Seq<Seq<Cell>>, row: int, col: int)
    ensures
        0 <= live_neighbours(grid, row, col) <= 8,
        0 <= bounded_live_neighbours(grid, row, col) <= 8,
{
    lemma_count_alive_bounds(grid, wrapped_neighbours(row, col, rows(grid), cols(grid)));
    lemma_count_alive_bounds(grid, plain_neighbours(row, col));
}

/// The live neighbours of a cell, written out: the sum over the three rows
/// around it and the three columns around it, the cell itself left out.
pub proof fn lemma_live_neighbours_sum(grid: Seq<Seq<Cell>>, row: int, col: int)
    ensures
        live_neighbours(grid, row, col) == ({
            let up = wrap(row, -1, rows(grid));
            let here = wrap(row, 0, rows(grid));
            let down = wrap(row, 1, rows(grid));
            let left = wrap(col, -1, cols(grid));
            let mid = wrap(col, 0, cols(grid));
            let right = wrap(col, 1, cols(grid));
            alive_count(grid, up, left) + alive_count(grid, up, mid) + alive_count(grid, up, right)
                + alive_count(grid, here, left) + alive_count(grid, here, right) + alive_count(
                grid,
                down,
                left,
            ) + alive_count(grid, down, mid) + alive_count(grid, down, right)
        }),
{
    lemma_count_alive_of_eight(grid, wrapped_neighbours(row, col, rows(grid), cols(grid)));
}

/// Nothing is alive among any coordinates of an extinct grid.
proof fn lemma_count_alive_of_dead(grid: Seq<Seq<Cell>>, coords: Seq<(int, int)>)
    requires
        well_formed(grid),
        all_dead(grid),
    ensures
        count_alive(grid, coords) == 0,
    decreases coords.len(),
{
    if coords.len() > 0 {
        lemma_count_alive_of_dead(grid, coords.drop_last());
        let (r, c) = coords.last();
        if in_range(grid, r, c) {
            assert(grid[r].len() == grid[0].len());
            assert(grid[r][c] == Cell::Dead);
        }
    }
}

/// An extinct grid stays as it is: its next generation is the same grid, and
/// so is extinct again.
pub proof fn lemma_extinct_is_fixed(grid: Seq<Seq<Cell>>)
    requires
        well_formed(grid),
        all_dead(grid),
    ensures
        next_generation(grid) == grid,
        all_dead(next_generation(grid)),
{
    let next = next_generation(grid);
    assert forall|r: int| 0 <= r < grid.len() implies #[trigger] next[r] =~= grid[r] by {
        assert(grid[r].len() == grid[0].len());
        assert forall|c: int| 0 <= c < grid[r].len() implies next[r][c] == grid[r][c] by {
            lemma_count_alive_of_dead(grid, wrapped_neighbours(r, c, rows(grid), cols(grid)));
            assert(grid[r][c] == Cell::Dead);
        }
    }
    assert(next =~= grid);
}

/// However often the transition is applied to an extinct grid, the grid
/// stays as it is.
pub proof fn lemma_extinct_forever(grid: Seq<Seq<Cell>>, steps: nat)
    requires
        well_formed(grid),
        all_dead(grid),
    ensures
        generation(grid, steps) == grid,
        all_dead(generation(grid, steps)),
    decreases steps,
{
    if steps > 0 {
        lemma_extinct_forever(grid, (steps - 1) as nat);
        lemma_extinct_is_fixed(grid);
    }
}

} // verus!
