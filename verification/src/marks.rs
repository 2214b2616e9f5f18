//! Uncovering and flagging keep a board well-formed.

use vstd::prelude::*;
use crate::model::BoardView;
use crate::position::Position;

verus! {

impl BoardView {
    /// Two boards with the same grid have the same mines and the same counts.
    pub(crate) proof fn lemma_same_grid(self, other: BoardView)
        requires
            self.wf(),
            other.width == self.width,
            other.height == self.height,
            other.tiles == self.tiles,
        ensures
            other.mines() == self.mines(),
            other.cells() == self.cells(),
            other.counts_exact(),
    {
        assert(other.mines() =~= self.mines());
        assert(other.cells() =~= self.cells());
        assert forall|p: Position| other.in_bounds(p) implies other.adjacent_mines(p)
            == self.adjacent_mines(p) by {}
    }

    /// A board is won when every square of the grid holds a mine or is
    /// uncovered.
    pub proof fn lemma_won_pointwise(self)
        ensures
            self.is_won() <==> forall|p: Position|
                self.in_bounds(p) && !self.is_mine(p) ==> #[trigger] self.revealed.contains(p),
    {
        let safe = self.cells().difference(self.mines());
        if self.is_won() {
            assert forall|p: Position| self.in_bounds(p) && !self.is_mine(p) implies #[trigger] self.revealed.contains(
                p,
            ) by {
                assert(safe.contains(p));
            }
        }
    }

    pub proof fn lemma_uncovered(self, p: Position)
        requires
            self.wf(),
        ensures
            self.uncovered(p).wf(),
            self.uncovered(p).mines() == self.mines(),
    {
        self.lemma_same_grid(self.uncovered(p));
    }

    pub proof fn lemma_with_flag(self, p: Position)
        requires
            self.wf(),
        ensures
            self.with_flag(p).wf(),
            self.with_flag(p).mines() == self.mines(),
    {
        self.lemma_same_grid(self.with_flag(p));
    }

    pub proof fn lemma_without_flag(self, p: Position)
        requires
            self.wf(),
        ensures
            self.without_flag(p).wf(),
            self.without_flag(p).mines() == self.mines(),
    {
        self.lemma_same_grid(self.without_flag(p));
    }

    pub proof fn lemma_after_toggle(self, p: Position)
        requires
            self.wf(),
        ensures
            self.after_toggle(p).wf(),
            self.after_toggle(p).mines() == self.mines(),
    {
        self.lemma_with_flag(p);
        self.lemma_without_flag(p);
    }
}

} // verus!
