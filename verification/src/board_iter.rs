//! Walking over the squares of a board.

use vstd::prelude::*;
use vstd::arithmetic::div_mod::lemma_multiply_divide_lt;
use crate::board::Board;
use crate::model::BoardView;
use crate::position::Position;
use crate::tile::Tile;

verus! {

/// A walk over every square of a board in row-major order.
pub struct BoardIter<'a> {
    pub(crate) board: &'a Board,
    pub(crate) counter: usize,
}

impl<'a> BoardIter<'a> {
    /// The board that is walked over.
    pub open(crate) spec fn board(&self) -> BoardView {
        self.board@
    }

    /// The number of squares handed out so far.
    pub open(crate) spec fn consumed(&self) -> nat {
        self.counter as nat
    }

    pub open(crate) spec fn wf(&self) -> bool {
        &&& self.board.wf()
        &&& self.counter <= self.board.width * self.board.height
    }

    /// The next square with its tile, or `None` once every square was handed
    /// out.
    pub fn next(&mut self) -> (item: Option<(Position, &'a Tile)>)
        requires
            old(self).wf(),
        ensures
            final(self).wf(),
            final(self).board() == old(self).board(),
            match item {
                Some((pos, tile)) => {
                    &&& old(self).consumed() < old(self).board().width * old(self).board().height
                    &&& pos == old(self).board().nth_cell(old(self).consumed())
                    &&& old(self).board().in_bounds(pos)
                    &&& *tile == old(self).board().tiles[pos]
                    &&& final(self).consumed() == old(self).consumed() + 1
                },
                None => {
                    &&& old(self).consumed() == old(self).board().width * old(self).board().height
                    &&& final(self).consumed() == old(self).consumed()
                },
            },
    {
        let board: &'a Board = self.board;
        proof {
            board@.lemma_sides();
        }
        let cells: usize = board.width * board.height;
        if self.counter >= cells {
            return None;
        }
        let row: usize = self.counter / board.width;
        let col: usize = self.counter % board.width;
        proof {
            lemma_multiply_divide_lt(self.counter as int, board.width as int, board.height as int);
        }
        let tile: &'a Tile = &board.grid[row][col];
        self.counter = self.counter + 1;
        Some((Position::new(col, row), tile))
    }
}

impl Board {
    /// A walk over every square of the board, from the first.
    pub fn iter(&self) -> (walk: BoardIter<'_>)
        requires
            self.wf(),
        ensures
            walk.wf(),
            walk.board() == self@,
            walk.consumed() == 0,
    {
        BoardIter { board: self, counter: 0 }
    }
}

} // verus!
