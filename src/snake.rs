//! The serpentine traversal of a grid: row by row from the first row, even
//! rows left to right and odd rows right to left.
use vstd::prelude::*;

use crate::glyph::WordleGuess;
use crate::grid::WordleGrid;

verus! {

/// The row of the `i`-th step on a grid `cols` wide.
pub open spec fn snake_row(i: int, cols: int) -> int {
    i / cols
}

/// The column of the `i`-th step on a grid `cols` wide.
pub open spec fn snake_col(i: int, cols: int) -> int {
    if (i / cols) % 2 == 0 {
        i % cols
    } else {
        cols - 1 - i % cols
    }
}

/// The width of a grid of cells: that of its first row.
pub open spec fn width(cells: Seq<Seq<WordleGuess>>) -> nat {
    if cells.len() == 0 {
        0
    } else {
        cells[0].len()
    }
}

/// Every row is as wide as the first.
pub open spec fn even_width(cells: Seq<Seq<WordleGuess>>) -> bool {
    forall|r: int| 0 <= r < cells.len() ==> #[trigger] cells[r].len() == width(cells)
}

/// The number of steps of the traversal.
pub open spec fn step_count(cells: Seq<Seq<WordleGuess>>) -> nat {
    cells.len() * width(cells)
}

/// A cursor over a grid in serpentine order. Copies resume independently.
#[derive(Clone, Copy)]
pub struct WordleGridSnakeIterator<'a> {
    grid: &'a WordleGrid,
    index: usize,
}

impl<'a> WordleGridSnakeIterator<'a> {
    /// The cells of the grid walked over.
    pub closed spec fn cells(&self) -> Seq<Seq<WordleGuess>> {
        self.grid@.1
    }

    /// How many steps have been taken.
    pub closed spec fn position(&self) -> nat {
        self.index as nat
    }

    /// The next step: its row, its column and its cell; `None` once every
    /// cell has been visited.
    pub fn next(&mut self) -> (r: Option<(usize, usize, &'a WordleGuess)>)
        requires
            even_width(old(self).cells()),
            step_count(old(self).cells()) <= usize::MAX,
        ensures
            final(self).cells() == old(self).cells(),
            old(self).position() < step_count(old(self).cells()) ==> {
                let i = old(self).position() as int;
                let w = width(old(self).cells()) as int;
                &&& r matches Some((row, col, g))
                &&& row == snake_row(i, w)
                &&& col == snake_col(i, w)
                &&& *g == old(self).cells()[row as int][col as int]
                &&& final(self).position() == old(self).position() + 1
            },
            old(self).position() >= step_count(old(self).cells()) ==> r is None && final(self).position()
                == old(self).position(),
    {
        let rows = self.grid.rows();
        let columns = self.grid.columns();
        assert(self.grid@.1.len() == rows);
        if rows == 0 || columns == 0 {
            return None;
        }
        assert(self.grid@.1[0] == self.grid.guesses@[0]@);
        assert(rows * columns <= usize::MAX);
        if self.index >= rows * columns {
            return None;
        }
        let i = self.index;
        assert(i / columns < rows) by (nonlinear_arith)
            requires
                i < rows * columns,
                columns > 0,
        ;
        let row = self.index / columns;
        let col = if row % 2 == 0 {
            self.index % columns
        } else {
            columns - 1 - self.index % columns
        };
        self.index += 1;
        assert(self.grid@.1[row as int] == self.grid.guesses@[row as int]@);
        Some((row, col, &self.grid.guesses[row][col]))
    }
}

impl WordleGrid {
    /// Iterates the grid from the bottom in a snake-like manner, initially left
    /// to right:
    ///
    /// 678
    /// 543
    /// 012
    pub fn snake_iter(&self) -> (it: WordleGridSnakeIterator)
        ensures
            it.cells() == self@.1,
            it.position() == 0,
    {
        WordleGridSnakeIterator { grid: self, index: 0 }
    }
}

} // verus!
