//! A generation as text: one glyph per cell, one line per row.

use vstd::prelude::*;
use vstd::string::*;
use crate::cell::Cell;
use crate::grid::{well_formed, rows, cols};
use crate::universe::Universe;

verus! {

/// The glyph that stands for a cell: a full block for a live cell, a light
/// shade for a dead one.
pub open spec fn glyph_of(cell: Cell) -> char {
    match cell {
        Cell::Alive => '\u{2588}',
        Cell::Dead => '\u{2591}',
    }
}

/// One row as text: the glyphs of its cells from left to right, then a line
/// feed.
pub open spec fn line_of(row: Seq<Cell>) -> Seq<char> {
    row.map_values(|cell: Cell| glyph_of(cell)).push('\n')
}

/// A grid as text: the lines of its rows from top to bottom.
pub open spec fn text_of(grid: Seq<Seq<Cell>>) -> Seq<char> {
    grid.map_values(|row: Seq<Cell>| line_of(row)).flatten()
}

impl Cell {
    /// The glyph that stands for this cell, as a string of one character.
    pub fn glyph(&self) -> (text: &'static str)
        ensures
            text@ == seq![glyph_of(*self)],
    {
        match self {
            Cell::Alive => {
                proof {
                    reveal_strlit("\u{2588}");
                    assert("\u{2588}"@ =~= seq![glyph_of(*self)]);
                }
                "\u{2588}"
            },
            Cell::Dead => {
                proof {
                    reveal_strlit("\u{2591}");
                    assert("\u{2591}"@ =~= seq![glyph_of(*self)]);
                }
                "\u{2591}"
            },
        }
    }
}

impl Universe {
    /// The grid as text, row by row, each row closed by a line feed.
    pub fn render(&self) -> (text: String)
        ensures
            text@ == text_of(self@),
    {
        let height = self.height();
        let width = self.width();
        let mut text = String::new();
        let mut row: u32 = 0;
        while row < height
            invariant
                row <= height,
                well_formed(self@),
                height == rows(self@),
                width == cols(self@),
                text@ == text_of(self@.take(row as int)),
            decreases height - row,
        {
            let ghost before = text@;
            let mut col: u32 = 0;
            while col < width
                invariant
                    row < height,
                    col <= width,
                    well_formed(self@),
                    height == rows(self@),
                    width == cols(self@),
                    text@ == before + self@[row as int].take(col as int).map_values(
                        |cell: Cell| glyph_of(cell),
                    ),
                decreases width - col,
            {
                let cell = self.cell(row, col);
                text.append(cell.glyph());
                proof {
                    let cells = self@[row as int];
                    assert(cells.take(col + 1).map_values(|cell: Cell| glyph_of(cell))
                        =~= cells.take(col as int).map_values(|cell: Cell| glyph_of(cell)).push(
                        glyph_of(cell),
                    ));
                }
                col += 1;
            }
            proof {
                reveal_strlit("\n");
                assert("\n"@ =~= seq!['\n']);
            }
            text.append("\n");
            proof {
                let cells = self@[row as int];
                assert(cells.len() == width);
                assert(cells.take(width as int) =~= cells);
                assert(text@ =~= before + line_of(cells));
                let lines = self@.take(row as int).map_values(|row: Seq<Cell>| line_of(row));
                assert(self@.take(row + 1).map_values(|row: Seq<Cell>| line_of(row)) =~= lines.push(
                    line_of(cells),
                ));
                lines.lemma_flatten_push(line_of(cells));
            }
            row += 1;
        }
        proof {
            assert(self@.take(height as int) =~= self@);
        }
        text
    }
}

} // verus!
