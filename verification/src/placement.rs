//! Random placement of the mines.

use vstd::prelude::*;
use rand::rngs::StdRng;
use rand::Rng;
use crate::board::Board;
use crate::model::BoardView;
use crate::position::Position;

verus! {

/// The generator `StdRng` of the `rand` crate. Nothing is claimed of what is
/// inside it; it is only handed on to the draw.
#[verifier::external_type_specification]
#[verifier::external_body]
pub struct ExStdRng(rand::rngs::StdRng);

/// How many draws a mine may take for each square of the board before the
/// first free square takes it.
pub const DRAWS_PER_SQUARE: usize = 64;

/// Draws a number with `Rng::gen_range` of the `rand` crate on the range
/// `0..bound`. All that is claimed of the call is that the number is below
/// `bound`; which one it is stays open. The call panics on an empty range, so
/// `bound` must be positive.
#[verifier::external_body]
fn draw_below(rng: &mut StdRng, bound: usize) -> (n: usize)
    requires
        bound > 0,
    ensures
        n < bound,
{
    rng.gen_range(0..bound)
}

impl BoardView {
    /// A board that does not hold all its mines has a square without one.
    pub proof fn lemma_free_square(self)
        requires
            self.wf(),
        ensures
            exists|p: Position| self.in_bounds(p) && !self.is_mine(p),
    {
        self.lemma_sides();
        if forall|p: Position| self.in_bounds(p) ==> self.is_mine(p) {
            assert(self.mines() =~= self.cells());
        }
    }
}

impl Board {
    /// The first square in row-major order that holds no mine.
    pub fn first_free(&self) -> (p: Position)
        requires
            self.wf(),
        ensures
            self@.in_bounds(p),
            !self@.is_mine(p),
            forall|q: Position| self@.in_bounds(q) && q.precedes(p) ==> self@.is_mine(q),
    {
        let mut r: usize = 0;
        while r < self.height
            invariant
                self.wf(),
                r <= self.height,
                forall|q: Position| self@.in_bounds(q) && q.y < r ==> self@.is_mine(q),
            decreases self.height - r,
        {
            let mut c: usize = 0;
            while c < self.width
                invariant
                    self.wf(),
                    r < self.height,
                    c <= self.width,
                    forall|q: Position|
                        self@.in_bounds(q) && q.precedes(Position { x: c, y: r }) ==> self@.is_mine(q),
                decreases self.width - c,
            {
                if !self.grid[r][c].is_bomb() {
                    return Position::new(c, r);
                }
                c += 1;
            }
            r += 1;
        }
        proof {
            self@.lemma_free_square();
        }
        Position::new(0, 0)
    }

    /// Adds one mine on a square drawn at random among those without one.
    ///
    /// A coordinate is drawn, row first; a draw that lands on a mine is
    /// thrown away and drawn again. So that the search ends on every run,
    /// the number of draws is limited to `DRAWS_PER_SQUARE` for each square
    /// of the board; should all of them land on mines, the first free square
    /// in row-major order takes the mine. A board that holds all its mines
    /// stays as it is.
    pub fn add_bomb(&mut self, rng: &mut StdRng)
        requires
            old(self).wf(),
        ensures
            final(self).wf(),
            old(self)@.fully_mined() ==> final(self)@ == old(self)@,
            !old(self)@.fully_mined() ==> exists|p: Position|
                old(self)@.accepts_mine(p) && final(self)@ == #[trigger] old(self)@.with_mine(p),
    {
        if self.placed >= self.mine_count {
            return;
        }
        proof {
            self@.lemma_sides();
        }
        let squares: usize = self.width * self.height;
        let limit: usize = match squares.checked_mul(DRAWS_PER_SQUARE) {
            Some(n) => n,
            None => usize::MAX,
        };
        let mut draws: usize = 0;
        while draws < limit
            invariant
                self.wf(),
                self@ == old(self)@,
                !self@.fully_mined(),
                0 < self.width,
                0 < self.height,
            decreases limit - draws,
        {
            let row: usize = draw_below(rng, self.height);
            let col: usize = draw_below(rng, self.width);
            if self.place_mine(Position::new(col, row)) {
                return;
            }
            draws += 1;
        }
        let free = self.first_free();
        let placed = self.place_mine(free);
        assert(placed);
    }

    /// Adds mines at random until the board holds as many as it is meant to.
    pub fn place_mines(&mut self, rng: &mut StdRng)
        requires
            old(self).wf(),
        ensures
            final(self).wf(),
            final(self)@.fully_mined(),
            final(self)@.extends(old(self)@),
    {
        while self.placed < self.mine_count
            invariant
                self.wf(),
                self@.extends(old(self)@),
            decreases self.mine_count - self.placed,
        {
            let ghost before = self@;
            self.add_bomb(rng);
            proof {
                let p = choose|p: Position| before.accepts_mine(p) && self@ == #[trigger] before.with_mine(p);
                before.lemma_with_mine(p);
            }
        }
    }
}

} // verus!
