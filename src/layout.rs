//! Which cells are drawn as boxes, with which color, in the order in which
//! they drop.
use vstd::prelude::*;

use crate::glyph::{WordleGuess, WordleGuessKind};
use crate::grid::WordleGrid;
use crate::snake::{even_width, snake_col, snake_row, step_count, width};

verus! {

/// The box that a cell is drawn as.
#[derive(Debug, Clone, Copy, PartialEq, Eq, Structural)]
pub enum BoxColor {
    Green,
    Yellow,
    Black,
}

/// Correct cells are green, in-word cells yellow, and wrong cells black when
/// they are supports or toppers; other wrong cells are not drawn.
pub open spec fn box_of(g: WordleGuess) -> Option<BoxColor> {
    match g.kind {
        WordleGuessKind::Correct => Some(BoxColor::Green),
        WordleGuessKind::InWord => Some(BoxColor::Yellow),
        WordleGuessKind::NotInWord => if g.support || g.topper {
            Some(BoxColor::Black)
        } else {
            None
        },
    }
}

/// The box that `g` is drawn as, if any.
pub fn box_for(g: &WordleGuess) -> (r: Option<BoxColor>)
    ensures
        r == box_of(*g),
{
    match g.kind {
        WordleGuessKind::Correct => Some(BoxColor::Green),
        WordleGuessKind::InWord => Some(BoxColor::Yellow),
        WordleGuessKind::NotInWord => if g.support || g.topper {
            Some(BoxColor::Black)
        } else {
            None
        },
    }
}

/// One box to drop: its cell, its color, and whether its row differs from
/// that of the box before it (the first box is compared with row 0).
#[derive(Debug, Clone, Copy, PartialEq, Eq, Structural)]
pub struct Placement {
    pub row: usize,
    pub col: usize,
    pub color: BoxColor,
    pub new_row: bool,
}

/// The row of the last placement, or 0 when there is none.
pub open spec fn last_row(p: Seq<Placement>) -> int {
    if p.len() == 0 {
        0
    } else {
        p.last().row as int
    }
}

/// The placements of the first `n` steps of the serpentine order over `cells`.
pub open spec fn plan(cells: Seq<Seq<WordleGuess>>, n: nat) -> Seq<Placement>
    decreases n,
{
    if n == 0 {
        Seq::<Placement>::empty()
    } else {
        let p = plan(cells, (n - 1) as nat);
        let w = width(cells) as int;
        let r = snake_row(n - 1, w);
        let c = snake_col(n - 1, w);
        match box_of(cells[r][c]) {
            Some(b) => p.push(Placement { row: r as usize, col: c as usize, color: b, new_row: r != last_row(p) }),
            None => p,
        }
    }
}

impl WordleGrid {
    /// Whether every row is as wide as the first and the number of cells fits a `usize`.
    pub fn is_walkable(&self) -> (r: bool)
        ensures
            r == (even_width(self@.1) && step_count(self@.1) <= usize::MAX),
    {
        let rows = self.rows();
        let columns = self.columns();
        let mut r: usize = 0;
        while r < rows
            invariant
                rows == self@.1.len(),
                columns == width(self@.1),
                r <= rows,
                forall|i: int| 0 <= i < r ==> #[trigger] self@.1[i].len() == width(self@.1),
            decreases rows - r,
        {
            assert(self@.1[r as int] == self.guesses@[r as int]@);
            if self.guesses[r].len() != columns {
                return false;
            }
            r += 1;
        }
        rows.checked_mul(columns).is_some()
    }

    /// The boxes to drop for this grid, in serpentine order.
    pub fn placements(&self) -> (r: Vec<Placement>)
        requires
            even_width(self@.1),
            step_count(self@.1) <= usize::MAX,
        ensures
            r@ == plan(self@.1, step_count(self@.1)),
    {
        let mut it = self.snake_iter();
        let mut out: Vec<Placement> = Vec::new();
        let mut prev_row: usize = 0;
        loop
            invariant
                it.cells() == self@.1,
                even_width(self@.1),
                step_count(self@.1) <= usize::MAX,
                it.position() <= step_count(self@.1),
                out@ == plan(self@.1, it.position()),
                prev_row == last_row(out@),
            decreases step_count(self@.1) - it.position(),
        {
            match it.next() {
                Some((row, col, guess)) => {
                    match box_for(guess) {
                        Some(color) => {
                            out.push(Placement { row, col, color, new_row: row != prev_row });
                            prev_row = row;
                        },
                        None => {},
                    }
                },
                None => {
                    return out;
                },
            }
        }
    }
}

} // verus!
