//! Classical patterns on the torus and how a transition carries them on: a
//! still life, an oscillator and a spaceship.

use vstd::prelude::*;
use crate::cell::{Cell, next_cell};
use crate::grid::{
    well_formed, rows, cols, in_range, is_alive, wrap, live_neighbours, next_generation,
    generation, lemma_wrap, lemma_live_neighbours_sum,
};

verus! {

/// A shape laid on a torus. The shape is a list of offsets from its origin,
/// row offset first; the origin lies at `(row, col)` on a torus of `height`
/// by `width` cells.
pub struct Placed {
    pub shape: Seq<(int, int)>,
    pub row: int,
    pub col: int,
    pub height: int,
    pub width: int,
}

impl Placed {
    /// Whether the cell of the shape with the given index lies at `(r, c)`.
    pub open spec fn lands(self, index: int, r: int, c: int) -> bool {
        &&& r == wrap(self.row, self.shape[index].0, self.height)
        &&& c == wrap(self.col, self.shape[index].1, self.width)
    }

    /// Whether the shape covers the cell `(r, c)`.
    pub open spec fn covers(self, r: int, c: int) -> bool {
        exists|i: int| 0 <= i < self.shape.len() && #[trigger] self.lands(i, r, c)
    }

    /// One if the shape covers `(r, c)`, zero otherwise.
    pub open spec fn covered_count(self, r: int, c: int) -> int {
        if self.covers(r, c) {
            1
        } else {
            0
        }
    }

    /// How many of the eight neighbours of `(r, c)` on the torus the shape
    /// covers.
    pub open spec fn covered_neighbours(self, r: int, c: int) -> int {
        let up = wrap(r, -1, self.height);
        let down = wrap(r, 1, self.height);
        let left = wrap(c, -1, self.width);
        let right = wrap(c, 1, self.width);
        self.covered_count(up, left) + self.covered_count(up, c) + self.covered_count(up, right)
            + self.covered_count(r, left) + self.covered_count(r, right) + self.covered_count(
            down,
            left,
        ) + self.covered_count(down, c) + self.covered_count(down, right)
    }

    /// Another shape laid at the same place.
    pub open spec fn reshaped(self, shape: Seq<(int, int)>) -> Placed {
        Placed { shape, ..self }
    }

    /// Whether the rule, applied at `(r, c)` to what this shape covers, gives
    /// what the shape `to` covers there when laid at the same place.
    pub open spec fn rule_gives(self, to: Seq<(int, int)>, r: int, c: int) -> bool {
        next_cell(cell_under(self.covers(r, c)), self.covered_neighbours(r, c)) == cell_under(
            self.reshaped(to).covers(r, c),
        )
    }

    /// The rule turns this shape into the shape `to` at the same place: at
    /// every cell of the torus, the rule applied to what this shape covers
    /// gives what `to` covers.
    pub open spec fn turns_into(self, to: Seq<(int, int)>) -> bool {
        forall|r: int, c: int|
            0 <= r < self.height && 0 <= c < self.width ==> #[trigger] self.rule_gives(to, r, c)
    }
}

/// The state of a cell that a shape covers or does not cover.
pub open spec fn cell_under(covered: bool) -> Cell {
    if covered {
        Cell::Alive
    } else {
        Cell::Dead
    }
}

/// The shape laid on the torus of the grid with its origin at `(row, col)`.
pub open spec fn placed_on(
    grid: Seq<Seq<Cell>>,
    shape: Seq<(int, int)>,
    row: int,
    col: int,
) -> Placed {
    Placed { shape, row, col, height: rows(grid), width: cols(grid) }
}

/// The grid shows the shape at `(row, col)` and nothing else: the cells that
/// the shape covers are alive, all others are dead.
pub open spec fn shows(grid: Seq<Seq<Cell>>, shape: Seq<(int, int)>, row: int, col: int) -> bool {
    &&& well_formed(grid)
    &&& in_range(grid, row, col)
    &&& forall|r: int, c: int|
        in_range(grid, r, c) ==> (#[trigger] is_alive(grid, r, c) <==> placed_on(
            grid,
            shape,
            row,
            col,
        ).covers(r, c))
}

/// In a grid that shows a shape, the live neighbours of a cell are the
/// neighbours that the shape covers, and the cell is alive exactly when the
/// shape covers it.
proof fn lemma_neighbours_under_shape(
    grid: Seq<Seq<Cell>>,
    shape: Seq<(int, int)>,
    row: int,
    col: int,
    r: int,
    c: int,
)
    requires
        shows(grid, shape, row, col),
        in_range(grid, r, c),
    ensures
        live_neighbours(grid, r, c) == placed_on(grid, shape, row, col).covered_neighbours(r, c),
        grid[r][c] == cell_under(placed_on(grid, shape, row, col).covers(r, c)),
{
    let h = rows(grid);
    let w = cols(grid);
    let placed = placed_on(grid, shape, row, col);
    lemma_live_neighbours_sum(grid, r, c);
    lemma_wrap(r, -1, h);
    lemma_wrap(r, 0, h);
    lemma_wrap(r, 1, h);
    lemma_wrap(c, -1, w);
    lemma_wrap(c, 0, w);
    lemma_wrap(c, 1, w);
    let up = wrap(r, -1, h);
    let down = wrap(r, 1, h);
    let left = wrap(c, -1, w);
    let right = wrap(c, 1, w);
    assert(is_alive(grid, up, left) <==> placed.covers(up, left));
    assert(is_alive(grid, up, c) <==> placed.covers(up, c));
    assert(is_alive(grid, up, right) <==> placed.covers(up, right));
    assert(is_alive(grid, r, left) <==> placed.covers(r, left));
    assert(is_alive(grid, r, c) <==> placed.covers(r, c));
    assert(is_alive(grid, r, right) <==> placed.covers(r, right));
    assert(is_alive(grid, down, left) <==> placed.covers(down, left));
    assert(is_alive(grid, down, c) <==> placed.covers(down, c));
    assert(is_alive(grid, down, right) <==> placed.covers(down, right));
    assert(grid[r].len() == grid[0].len());
}

/// A grid that shows a shape moves on to a grid that shows what the rule
/// turns the shape into.
pub proof fn lemma_shape_moves_on(
    grid: Seq<Seq<Cell>>,
    from: Seq<(int, int)>,
    to: Seq<(int, int)>,
    row: int,
    col: int,
)
    requires
        shows(grid, from, row, col),
        placed_on(grid, from, row, col).turns_into(to),
    ensures
        shows(next_generation(grid), to, row, col),
{
    let next = next_generation(grid);
    let placed = placed_on(grid, from, row, col);
    assert(placed_on(next, to, row, col) == placed.reshaped(to));
    assert forall|r: int, c: int| in_range(next, r, c) implies (#[trigger] is_alive(next, r, c)
        <==> placed.reshaped(to).covers(r, c)) by {
        lemma_neighbours_under_shape(grid, from, row, col, r, c);
        assert(placed.rule_gives(to, r, c));
        assert(next[r][c] == cell_under(placed.reshaped(to).covers(r, c)));
    }
}

/// Two grids of the same size that show the same shape at the same place are
/// the same grid.
pub proof fn lemma_same_shape_same_grid(
    first: Seq<Seq<Cell>>,
    second: Seq<Seq<Cell>>,
    shape: Seq<(int, int)>,
    row: int,
    col: int,
)
    requires
        shows(first, shape, row, col),
        shows(second, shape, row, col),
        rows(first) == rows(second),
        cols(first) == cols(second),
    ensures
        first == second,
{
    assert forall|r: int| 0 <= r < first.len() implies #[trigger] first[r] =~= second[r] by {
        assert(first[r].len() == first[0].len());
        assert(second[r].len() == second[0].len());
        assert forall|c: int| 0 <= c < first[r].len() implies first[r][c] == second[r][c] by {
            assert(is_alive(first, r, c) <==> is_alive(second, r, c));
        }
    }
    assert(first =~= second);
}

/// On a ring of at least four places, in plain arithmetic: the places next
/// to `place`, and the places from one step before `origin` to three steps
/// after it.
proof fn lemma_ring(place: int, origin: int, size: int)
    requires
        size >= 4,
        0 <= place < size,
        0 <= origin < size,
    ensures
        wrap(place, -1, size) == if place == 0 {
            size - 1
        } else {
            place - 1
        },
        wrap(place, 1, size) == if place == size - 1 {
            0
        } else {
            place + 1
        },
        wrap(origin, -1, size) == if origin == 0 {
            size - 1
        } else {
            origin - 1
        },
        wrap(origin, 0, size) == origin,
        wrap(origin, 1, size) == if origin + 1 >= size {
            origin + 1 - size
        } else {
            origin + 1
        },
        wrap(origin, 2, size) == if origin + 2 >= size {
            origin + 2 - size
        } else {
            origin + 2
        },
        wrap(origin, 3, size) == if origin + 3 >= size {
            origin + 3 - size
        } else {
            origin + 3
        },
{
    lemma_wrap(place, -1, size);
    lemma_wrap(place, 1, size);
    lemma_wrap(origin, -1, size);
    lemma_wrap(origin, 0, size);
    lemma_wrap(origin, 1, size);
    lemma_wrap(origin, 2, size);
    lemma_wrap(origin, 3, size);
}

/// What a shape of three cells covers, cell by cell.
broadcast proof fn lemma_covers_three(placed: Placed, r: int, c: int)
    requires
        placed.shape.len() == 3,
    ensures
        #[trigger] placed.covers(r, c) <==> placed.lands(0, r, c) || placed.lands(1, r, c)
            || placed.lands(2, r, c),
{
}

/// What a shape of four cells covers, cell by cell.
broadcast proof fn lemma_covers_four(placed: Placed, r: int, c: int)
    requires
        placed.shape.len() == 4,
    ensures
        #[trigger] placed.covers(r, c) <==> placed.lands(0, r, c) || placed.lands(1, r, c)
            || placed.lands(2, r, c) || placed.lands(3, r, c),
{
}

/// What a shape of five cells covers, cell by cell.
broadcast proof fn lemma_covers_five(placed: Placed, r: int, c: int)
    requires
        placed.shape.len() == 5,
    ensures
        #[trigger] placed.covers(r, c) <==> placed.lands(0, r, c) || placed.lands(1, r, c)
            || placed.lands(2, r, c) || placed.lands(3, r, c) || placed.lands(4, r, c),
{
}

/// The block: two by two cells, the origin at its upper left.
pub open spec fn block() -> Seq<(int, int)> {
    seq![(0, 0), (0, 1), (1, 0), (1, 1)]
}

/// The rule leaves the block as it is.
proof fn lemma_block_stays(row: int, col: int, height: int, width: int)
    requires
        height >= 4,
        width >= 4,
        0 <= row < height,
        0 <= col < width,
    ensures
        (Placed { shape: block(), row, col, height, width }).turns_into(
            block(),
        ),
{
    let placed = Placed { shape: block(), row, col, height, width };
    assert forall|r: int, c: int| 0 <= r < height && 0 <= c < width implies #[trigger] placed
        .rule_gives(block(), r, c) by {
        broadcast use lemma_covers_four;
        lemma_ring(r, row, height);
        lemma_ring(c, col, width);
    }
}

/// The block is a still life: on a torus of at least four rows and four
/// columns, a grid that shows a block and nothing else is its own next
/// generation.
pub proof fn lemma_block_is_still(grid: Seq<Seq<Cell>>, row: int, col: int)
    requires
        shows(grid, block(), row, col),
        rows(grid) >= 4,
        cols(grid) >= 4,
    ensures
        next_generation(grid) == grid,
{
    lemma_block_stays(row, col, rows(grid), cols(grid));
    lemma_shape_moves_on(grid, block(), block(), row, col);
    lemma_same_shape_same_grid(next_generation(grid), grid, block(), row, col);
}

/// The blinker lying flat: three cells in a row, the origin in the middle.
pub open spec fn flat_blinker() -> Seq<(int, int)> {
    seq![(0, -1), (0, 0), (0, 1)]
}

/// The blinker standing upright: three cells in a column, the origin in the
/// middle.
pub open spec fn upright_blinker() -> Seq<(int, int)> {
    seq![(-1, 0), (0, 0), (1, 0)]
}

/// The rule stands the flat blinker upright.
proof fn lemma_flat_blinker_stands_up(row: int, col: int, height: int, width: int)
    requires
        height >= 4,
        width >= 4,
        0 <= row < height,
        0 <= col < width,
    ensures
        (Placed { shape: flat_blinker(), row, col, height, width }).turns_into(
            upright_blinker(),
        ),
{
    let placed = Placed { shape: flat_blinker(), row, col, height, width };
    assert forall|r: int, c: int| 0 <= r < height && 0 <= c < width implies #[trigger] placed
        .rule_gives(upright_blinker(), r, c) by {
        broadcast use lemma_covers_three;
        lemma_ring(r, row, height);
        lemma_ring(c, col, width);
    }
}

/// The rule lays the upright blinker flat.
proof fn lemma_upright_blinker_lies_down(row: int, col: int, height: int, width: int)
    requires
        height >= 4,
        width >= 4,
        0 <= row < height,
        0 <= col < width,
    ensures
        (Placed { shape: upright_blinker(), row, col, height, width }).turns_into(
            flat_blinker(),
        ),
{
    let placed = Placed { shape: upright_blinker(), row, col, height, width };
    assert forall|r: int, c: int| 0 <= r < height && 0 <= c < width implies #[trigger] placed
        .rule_gives(flat_blinker(), r, c) by {
        broadcast use lemma_covers_three;
        lemma_ring(r, row, height);
        lemma_ring(c, col, width);
    }
}

/// The blinker has period two: on a torus of at least four rows and four
/// columns, a grid that shows a flat blinker and nothing else shows the
/// upright blinker at the same place after one transition, and is itself
/// again after two.
pub proof fn lemma_blinker_oscillates(grid: Seq<Seq<Cell>>, row: int, col: int)
    requires
        shows(grid, flat_blinker(), row, col),
        rows(grid) >= 4,
        cols(grid) >= 4,
    ensures
        shows(generation(grid, 1), upright_blinker(), row, col),
        generation(grid, 2) == grid,
{
    let once = next_generation(grid);
    let twice = next_generation(once);
    assert(generation(grid, 1) == once && generation(grid, 2) == twice) by {
        reveal_with_fuel(generation, 3);
    }
    lemma_flat_blinker_stands_up(row, col, rows(grid), cols(grid));
    lemma_shape_moves_on(grid, flat_blinker(), upright_blinker(), row, col);
    lemma_upright_blinker_lies_down(row, col, rows(grid), cols(grid));
    lemma_shape_moves_on(once, upright_blinker(), flat_blinker(), row, col);
    lemma_same_shape_same_grid(twice, grid, flat_blinker(), row, col);
}

/// The glider, heading down and to the right, the origin at the upper left
/// of the square of three by three cells that holds it.
pub open spec fn glider() -> Seq<(int, int)> {
    seq![(0, 1), (1, 2), (2, 0), (2, 1), (2, 2)]
}

/// The glider one transition on, from the same origin.
spec fn glider_after_one() -> Seq<(int, int)> {
    seq![(1, 0), (1, 2), (2, 1), (2, 2), (3, 1)]
}

/// The glider two transitions on, from the same origin.
spec fn glider_after_two() -> Seq<(int, int)> {
    seq![(1, 2), (2, 0), (2, 2), (3, 1), (3, 2)]
}

/// The glider three transitions on, from the same origin.
spec fn glider_after_three() -> Seq<(int, int)> {
    seq![(1, 1), (2, 2), (2, 3), (3, 1), (3, 2)]
}

/// The glider four transitions on, from the same origin: the glider itself,
/// one cell down and one cell to the right.
spec fn glider_after_four() -> Seq<(int, int)> {
    seq![(1, 2), (2, 3), (3, 1), (3, 2), (3, 3)]
}

/// The first transition of the glider.
proof fn lemma_glider_first_step(row: int, col: int, height: int, width: int)
    requires
        height >= 5,
        width >= 5,
        0 <= row < height,
        0 <= col < width,
    ensures
        (Placed { shape: glider(), row, col, height, width }).turns_into(
            glider_after_one(),
        ),
{
    let placed = Placed { shape: glider(), row, col, height, width };
    assert forall|r: int, c: int| 0 <= r < height && 0 <= c < width implies #[trigger] placed
        .rule_gives(glider_after_one(), r, c) by {
        broadcast use lemma_covers_five;
        lemma_ring(r, row, height);
        lemma_ring(c, col, width);
    }
}

/// The second transition of the glider.
proof fn lemma_glider_second_step(row: int, col: int, height: int, width: int)
    requires
        height >= 5,
        width >= 5,
        0 <= row < height,
        0 <= col < width,
    ensures
        (Placed { shape: glider_after_one(), row, col, height, width }).turns_into(
            glider_after_two(),
        ),
{
    let placed = Placed { shape: glider_after_one(), row, col, height, width };
    assert forall|r: int, c: int| 0 <= r < height && 0 <= c < width implies #[trigger] placed
        .rule_gives(glider_after_two(), r, c) by {
        broadcast use lemma_covers_five;
        lemma_ring(r, row, height);
        lemma_ring(c, col, width);
    }
}

/// The third transition of the glider.
proof fn lemma_glider_third_step(row: int, col: int, height: int, width: int)
    requires
        height >= 5,
        width >= 5,
        0 <= row < height,
        0 <= col < width,
    ensures
        (Placed { shape: glider_after_two(), row, col, height, width }).turns_into(
            glider_after_three(),
        ),
{
    let placed = Placed { shape: glider_after_two(), row, col, height, width };
    assert forall|r: int, c: int| 0 <= r < height && 0 <= c < width implies #[trigger] placed
        .rule_gives(glider_after_three(), r, c) by {
        broadcast use lemma_covers_five;
        lemma_ring(r, row, height);
        lemma_ring(c, col, width);
    }
}

/// The fourth transition of the glider.
proof fn lemma_glider_fourth_step(row: int, col: int, height: int, width: int)
    requires
        height >= 5,
        width >= 5,
        0 <= row < height,
        0 <= col < width,
    ensures
        (Placed { shape: glider_after_three(), row, col, height, width }).turns_into(
            glider_after_four(),
        ),
{
    let placed = Placed { shape: glider_after_three(), row, col, height, width };
    assert forall|r: int, c: int| 0 <= r < height && 0 <= c < width implies #[trigger] placed
        .rule_gives(glider_after_four(), r, c) by {
        broadcast use lemma_covers_five;
        lemma_ring(r, row, height);
        lemma_ring(c, col, width);
    }
}

/// The glider travels: on a torus of at least five rows and five columns, a
/// grid that shows a glider and nothing else shows, after four transitions,
/// the same glider one cell further down and one cell further to the right,
/// the last row and column leading on to the first.
pub proof fn lemma_glider_travels(grid: Seq<Seq<Cell>>, row: int, col: int)
    requires
        shows(grid, glider(), row, col),
        rows(grid) >= 5,
        cols(grid) >= 5,
    ensures
        shows(generation(grid, 4), glider(), wrap(row, 1, rows(grid)), wrap(col, 1, cols(grid))),
{
    let h = rows(grid);
    let w = cols(grid);
    let one = next_generation(grid);
    let two = next_generation(one);
    let three = next_generation(two);
    let four = next_generation(three);
    assert(generation(grid, 4) == four) by {
        reveal_with_fuel(generation, 5);
    }
    lemma_glider_first_step(row, col, h, w);
    lemma_shape_moves_on(grid, glider(), glider_after_one(), row, col);
    lemma_glider_second_step(row, col, h, w);
    lemma_shape_moves_on(one, glider_after_one(), glider_after_two(), row, col);
    lemma_glider_third_step(row, col, h, w);
    lemma_shape_moves_on(two, glider_after_two(), glider_after_three(), row, col);
    lemma_glider_fourth_step(row, col, h, w);
    lemma_shape_moves_on(three, glider_after_three(), glider_after_four(), row, col);
    let row_on = wrap(row, 1, h);
    let col_on = wrap(col, 1, w);
    lemma_ring(row, row, h);
    lemma_ring(col, col, w);
    assert forall|r: int, c: int| in_range(four, r, c) implies (#[trigger] is_alive(four, r, c)
        <==> placed_on(four, glider(), row_on, col_on).covers(r, c)) by {
        let arrived = placed_on(four, glider_after_four(), row, col);
        assert(is_alive(four, r, c) <==> arrived.covers(r, c));
        broadcast use lemma_covers_five;
        lemma_ring(r, row_on, h);
        lemma_ring(c, col_on, w);
    }
}

} // verus!
