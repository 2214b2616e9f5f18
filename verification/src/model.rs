//! The mathematical model of a board, and what each command does to it.

use vstd::prelude::*;
use crate::outcome::{CellState, FlagOutcome, GameError};
use crate::position::Position;
use crate::tile::Tile;

verus! {

/// A board as contracts see it.
#[verifier::ext_equal]
pub struct BoardView {
    /// Number of columns.
    pub width: nat,
    /// Number of rows.
    pub height: nat,
    /// Number of mines that the board is meant to hold.
    pub mine_count: nat,
    /// What each square of the grid holds.
    pub tiles: Map<Position, Tile>,
    /// The squares that the player has uncovered.
    pub revealed: Set<Position>,
    /// The covered squares that the player has marked.
    pub flagged: Set<Position>,
}

/// What a reveal answers, with the uncovered squares as a set.
pub enum RevealOutcomeView {
    AlreadyRevealed,
    Flagged,
    HitMine,
    Revealed(Set<Position>),
}

/// A grid of this size exists and has room for the mines and one safe square.
pub open spec fn valid_configuration(width: nat, height: nat, mine_count: nat) -> bool {
    width * height <= usize::MAX && mine_count < width * height
}

impl BoardView {
    /// The board before any mine is placed: every square safe with count
    /// zero, nothing uncovered, nothing flagged.
    pub open spec fn blank(width: nat, height: nat, mine_count: nat) -> BoardView {
        BoardView {
            width,
            height,
            mine_count,
            tiles: Map::new(|p: Position| p.in_grid(width, height), |p: Position| Tile::Adjacent(0)),
            revealed: Set::empty(),
            flagged: Set::empty(),
        }
    }

    pub open spec fn in_bounds(self, p: Position) -> bool {
        p.in_grid(self.width, self.height)
    }

    /// Every square of the grid.
    pub open spec fn cells(self) -> Set<Position> {
        Set::new(|p: Position| self.in_bounds(p))
    }

    pub open spec fn is_mine(self, p: Position) -> bool {
        self.in_bounds(p) && self.tiles[p] is Bomb
    }

    /// The squares that hold a mine.
    pub open spec fn mines(self) -> Set<Position> {
        Set::new(|p: Position| self.is_mine(p))
    }

    /// The number of mines among the up to eight squares around `p`.
    pub open spec fn adjacent_mines(self, p: Position) -> nat {
        p.moore_set(self.width, self.height).intersect(self.mines()).len()
    }

    /// Every count on the board is the number of mines around its square.
    pub open spec fn counts_exact(self) -> bool {
        forall|p: Position|
            self.in_bounds(p) ==> ((#[trigger] self.tiles[p]) matches Tile::Adjacent(count)
                ==> count == self.adjacent_mines(p))
    }

    /// The conditions that every board meets.
    pub open spec fn wf(self) -> bool {
        &&& self.width * self.height <= usize::MAX
        &&& self.mine_count < self.width * self.height
        &&& self.tiles.dom() == self.cells()
        &&& self.revealed.subset_of(self.cells())
        &&& self.flagged.subset_of(self.cells())
        &&& self.revealed.disjoint(self.flagged)
        &&& self.mines().len() <= self.mine_count
        &&& self.counts_exact()
    }

    /// All the mines that the board is meant to hold are placed.
    pub open spec fn fully_mined(self) -> bool {
        self.mines().len() == self.mine_count
    }

    /// Every square without a mine is uncovered.
    pub open spec fn is_won(self) -> bool {
        self.cells().difference(self.mines()).subset_of(self.revealed)
    }

    /// A mine can be placed on `p`: the square is on the grid, holds no mine,
    /// and the board does not hold all its mines yet.
    pub open spec fn accepts_mine(self, p: Position) -> bool {
        self.in_bounds(p) && !self.is_mine(p) && self.mines().len() < self.mine_count
    }

    /// `self` is `earlier` with mines added: the same size, the same marks,
    /// and every mine of `earlier` still in place.
    pub open spec fn extends(self, earlier: BoardView) -> bool {
        &&& self.width == earlier.width
        &&& self.height == earlier.height
        &&& self.mine_count == earlier.mine_count
        &&& self.revealed == earlier.revealed
        &&& self.flagged == earlier.flagged
        &&& earlier.mines().subset_of(self.mines())
    }

    /// A board as a new game starts on it: all its mines placed, every square
    /// covered, no flag.
    pub open spec fn fresh(self) -> bool {
        &&& self.wf()
        &&& self.fully_mined()
        &&& self.revealed == Set::<Position>::empty()
        &&& self.flagged == Set::<Position>::empty()
    }

    /// The square with number `i` in row-major order.
    pub open spec fn nth_cell(self, i: nat) -> Position {
        Position { x: (i % self.width) as usize, y: (i / self.width) as usize }
    }

    /// The board with one more mine, at `p`: the square becomes a mine, and
    /// every safe square around it counts one more.
    pub open spec fn with_mine(self, p: Position) -> BoardView {
        BoardView {
            tiles: Map::new(
                |q: Position| self.in_bounds(q),
                |q: Position|
                    if q == p {
                        Tile::Bomb
                    } else if p.touches(q) {
                        self.tiles[q].plus_one()
                    } else {
                        self.tiles[q]
                    },
            ),
            ..self
        }
    }

    /// The board with `p` uncovered and nothing else changed. A flagged
    /// square, or one outside the grid, stays as it is.
    pub open spec fn uncovered(self, p: Position) -> BoardView {
        if self.in_bounds(p) && !self.flagged.contains(p) {
            BoardView { revealed: self.revealed.insert(p), ..self }
        } else {
            self
        }
    }

    /// The board with a flag on `p`. An uncovered square, or one outside the
    /// grid, stays as it is.
    pub open spec fn with_flag(self, p: Position) -> BoardView {
        if self.in_bounds(p) && !self.revealed.contains(p) {
            BoardView { flagged: self.flagged.insert(p), ..self }
        } else {
            self
        }
    }

    /// The board without a flag on `p`.
    pub open spec fn without_flag(self, p: Position) -> BoardView {
        BoardView { flagged: self.flagged.remove(p), ..self }
    }

    /// What toggling the flag on `p` answers.
    pub open spec fn toggle_result(self, p: Position) -> Result<FlagOutcome, GameError> {
        if !self.in_bounds(p) {
            Err(GameError::OutOfBounds)
        } else if self.revealed.contains(p) {
            Ok(FlagOutcome::CannotFlagRevealed)
        } else if self.flagged.contains(p) {
            Ok(FlagOutcome::Unflagged)
        } else {
            Ok(FlagOutcome::Flagged)
        }
    }

    /// The board after toggling the flag on `p`.
    pub open spec fn after_toggle(self, p: Position) -> BoardView {
        if self.flagged.contains(p) {
            self.without_flag(p)
        } else {
            self.with_flag(p)
        }
    }

    /// The square is on the grid, covered and without a flag: a reveal can
    /// uncover it.
    pub open spec fn untouched(self, p: Position) -> bool {
        self.in_bounds(p) && !self.revealed.contains(p) && !self.flagged.contains(p)
    }

    /// No mine lies around the square, so a reveal carries on to its
    /// neighbours.
    pub open spec fn spreads(self, p: Position) -> bool {
        self.tiles[p] == Tile::Adjacent(0)
    }

    /// A way that a reveal can take: untouched squares, each touching the
    /// next, every one but the last without a mine around it.
    pub open spec fn fill_path(self, path: Seq<Position>) -> bool {
        &&& path.len() > 0
        &&& forall|i: int| 0 <= i < path.len() ==> self.untouched(#[trigger] path[i])
        &&& forall|i: int|
            0 <= i < path.len() - 1 ==> self.spreads(#[trigger] path[i]) && path[i].touches(
                path[i + 1],
            )
    }

    /// The squares that a reveal of `origin` uncovers: those that a fill path
    /// from `origin` reaches.
    pub open spec fn fill_region(self, origin: Position) -> Set<Position> {
        Set::new(
            |q: Position|
                exists|path: Seq<Position>|
                    #[trigger] self.fill_path(path) && path.first() == origin && path.last() == q,
        )
    }

    /// What a reveal of `p` answers.
    pub open spec fn reveal_result(self, p: Position) -> Result<RevealOutcomeView, GameError> {
        if !self.in_bounds(p) {
            Err(GameError::OutOfBounds)
        } else if self.revealed.contains(p) {
            Ok(RevealOutcomeView::AlreadyRevealed)
        } else if self.flagged.contains(p) {
            Ok(RevealOutcomeView::Flagged)
        } else if self.tiles[p] is Bomb {
            Ok(RevealOutcomeView::HitMine)
        } else {
            Ok(RevealOutcomeView::Revealed(self.fill_region(p)))
        }
    }

    /// The board after a reveal of `p`.
    pub open spec fn after_reveal(self, p: Position) -> BoardView {
        if self.untouched(p) {
            BoardView { revealed: self.revealed.union(self.fill_region(p)), ..self }
        } else {
            self
        }
    }

    /// The first `upto` tiles of row `y` as text, with commas between them.
    pub open spec fn row_text(self, y: nat, upto: nat) -> Seq<char>
        decreases upto,
    {
        if upto == 0 {
            Seq::empty()
        } else if upto == 1 {
            self.tiles[Position { x: 0, y: y as usize }].label()
        } else {
            self.row_text(y, (upto - 1) as nat) + seq![','] + self.tiles[Position {
                x: (upto - 1) as usize,
                y: y as usize,
            }].label()
        }
    }

    /// The first `rows` rows as text, one line for each.
    pub open spec fn text_upto(self, rows: nat) -> Seq<char>
        decreases rows,
    {
        if rows == 0 {
            Seq::empty()
        } else if rows == 1 {
            self.row_text(0, self.width)
        } else {
            self.text_upto((rows - 1) as nat) + seq!['\n'] + self.row_text(
                (rows - 1) as nat,
                self.width,
            )
        }
    }

    /// The grid as text: the tiles of a row with commas between them, the
    /// rows with line feeds between them.
    pub open spec fn text(self) -> Seq<char> {
        self.text_upto(self.height)
    }

    /// The board as shown after a loss: every mine without a flag uncovered.
    pub open spec fn with_mines_shown(self) -> BoardView {
        BoardView { revealed: self.revealed.union(self.mines().difference(self.flagged)), ..self }
    }

    /// What a player sees of square `p`.
    pub open spec fn cell_state(self, p: Position) -> Result<CellState, GameError> {
        if !self.in_bounds(p) {
            Err(GameError::OutOfBounds)
        } else if self.revealed.contains(p) {
            Ok(CellState::Revealed(self.tiles[p]))
        } else if self.flagged.contains(p) {
            Ok(CellState::Flagged)
        } else {
            Ok(CellState::Covered)
        }
    }
}

} // verus!
