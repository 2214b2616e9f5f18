//! Revealing a square, with the cascade over squares that have no mine
//! around them.

use vstd::prelude::*;
use crate::board::Board;
use crate::fill::lemma_push_to_set;
use crate::model::{BoardView, RevealOutcomeView};
use crate::outcome::{GameError, RevealOutcome};
use crate::position::Position;
use crate::tile::Tile;

verus! {

impl Board {
    /// Uncovers the square at `coord`. If no mine lies around it, the reveal
    /// carries on to the squares around it, and from each of those in the
    /// same way; flagged squares and squares uncovered before are passed over.
    ///
    /// A mine is uncovered like any other square and reported as `HitMine`;
    /// ending the game is left to the caller.
    pub fn reveal_cell(&mut self, coord: Position) -> (r: Result<RevealOutcome, GameError>)
        requires
            old(self).wf(),
        ensures
            final(self).wf(),
            final(self)@ == old(self)@.after_reveal(coord),
            old(self)@.untouched(coord) ==> final(self)@.revealed.contains(coord),
            match r {
                Ok(outcome) => old(self)@.reveal_result(coord) == Ok::<RevealOutcomeView, GameError>(
                    outcome@,
                ),
                Err(e) => old(self)@.reveal_result(coord) == Err::<RevealOutcomeView, GameError>(e),
            },
            r matches Ok(RevealOutcome::Revealed(cells)) ==> cells@.no_duplicates() && cells@[0]
                == coord,
    {
        if !(coord.y < self.height && coord.x < self.width) {
            return Err(GameError::OutOfBounds);
        }
        if self.revealed[coord.y][coord.x] {
            return Ok(RevealOutcome::AlreadyRevealed);
        }
        if self.flagged[coord.y][coord.x] {
            return Ok(RevealOutcome::Flagged);
        }
        let ghost before = self@;
        proof {
            before.lemma_region_origin(coord);
        }
        self.remove_covered_by_pos(&coord);
        if self.grid[coord.y][coord.x].is_bomb() {
            proof {
                before.lemma_region_single(coord);
                assert(self@ =~= before.after_reveal(coord));
            }
            return Ok(RevealOutcome::HitMine);
        }
        let mut found: Vec<Position> = Vec::new();
        found.push(coord);
        let mut head: usize = 0;
        proof {
            before.lemma_filling_start(coord);
            assert(found@ =~= seq![coord]);
        }
        while head < found.len()
            invariant
                self.wf(),
                before.filling(coord, self@, found@, head as int),
            decreases before.width * before.height - head,
        {
            proof {
                before.lemma_filling_bound(coord, self@, found@, head as int);
            }
            let at = found[head];
            proof {
                before.lemma_region_untouched(coord, at);
            }
            if self.grid[at.y][at.x] == Tile::Adjacent(0) {
                let around = at.get_surrounding(self.width, self.height);
                let mut j: usize = 0;
                while j < around.len()
                    invariant
                        j <= around.len(),
                        self.wf(),
                        before.filling(coord, self@, found@, head as int),
                        head < found.len(),
                        found[head as int] == at,
                        before.spreads(at),
                        around@.to_set() == at.moore_set(before.width, before.height),
                        forall|k: int| 0 <= k < j ==> !self@.untouched(#[trigger] around[k]),
                    decreases around.len() - j,
                {
                    let next = around[j];
                    proof {
                        assert(around@.to_set().contains(next));
                    }
                    if !self.revealed[next.y][next.x] && !self.flagged[next.y][next.x] {
                        proof {
                            before.lemma_filling_push(coord, self@, found@, head as int, next);
                        }
                        self.remove_covered_by_pos(&next);
                        found.push(next);
                    }
                    j += 1;
                }
                proof {
                    assert forall|q: Position| self@.in_bounds(q) && #[trigger] at.touches(q) implies !self@.untouched(
                        q,
                    ) by {
                        assert(around@.to_set().contains(q));
                        let k = choose|k: int| 0 <= k < around.len() && around[k] == q;
                        assert(!self@.untouched(around[k]));
                    }
                }
            }
            proof {
                before.lemma_filling_advance(coord, self@, found@, head as int);
                before.lemma_filling_bound(coord, self@, found@, head + 1);
            }
            head += 1;
        }
        proof {
            before.lemma_filling_done(coord, self@, found@);
        }
        Ok(RevealOutcome::Revealed(found))
    }

    /// Uncovers every mine that carries no flag, and nothing else.
    pub fn uncover_mines(&mut self)
        requires
            old(self).wf(),
        ensures
            final(self).wf(),
            final(self)@ == old(self)@.with_mines_shown(),
    {
        let mines = self.mines_iter();
        let ghost before = self@;
        let mut i: usize = 0;
        proof {
            assert(mines@.take(0).to_set() =~= Set::<Position>::empty());
            assert(self@ =~= BoardView {
                revealed: before.revealed.union(mines@.take(0).to_set().difference(before.flagged)),
                ..before
            });
        }
        while i < mines.len()
            invariant
                i <= mines.len(),
                self.wf(),
                before.wf(),
                mines@.to_set() == before.mines(),
                self@ == (BoardView {
                    revealed: before.revealed.union(
                        mines@.take(i as int).to_set().difference(before.flagged),
                    ),
                    ..before
                }),
            decreases mines.len() - i,
        {
            let mine = mines[i];
            self.remove_covered_by_pos(&mine);
            proof {
                assert(mines@.to_set().contains(mine));
                assert(mines@.take(i + 1) =~= mines@.take(i as int).push(mine));
                lemma_push_to_set(mines@.take(i as int), mine);
                assert(self@ =~= BoardView {
                    revealed: before.revealed.union(
                        mines@.take(i + 1).to_set().difference(before.flagged),
                    ),
                    ..before
                });
            }
            i += 1;
        }
        proof {
            assert(mines@.take(mines.len() as int) =~= mines@);
        }
    }
}

} // verus!
