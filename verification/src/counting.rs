//! Counting: the squares of a grid, the mines around a square, and why the
//! counts stay exact when a mine is added.

use vstd::prelude::*;
use crate::model::{valid_configuration, BoardView};
use crate::position::Position;
use crate::tile::Tile;

verus! {

/// Every square of a grid of the given size.
pub open spec fn grid_cells(width: nat, height: nat) -> Set<Position> {
    Set::new(|p: Position| p.in_grid(width, height))
}

/// The squares of row `y` in the first `width` columns.
spec fn row_cells(width: nat, y: nat) -> Set<Position> {
    Set::new(|p: Position| p.x < width && p.y == y)
}

proof fn lemma_row_cells(width: nat, y: nat)
    requires
        width <= usize::MAX,
        y <= usize::MAX,
    ensures
        row_cells(width, y).finite(),
        row_cells(width, y).len() == width,
    decreases width,
{
    if width == 0 {
        assert(row_cells(width, y) =~= Set::empty());
    } else {
        lemma_row_cells((width - 1) as nat, y);
        let last = Position { x: (width - 1) as usize, y: y as usize };
        assert(row_cells(width, y) =~= row_cells((width - 1) as nat, y).insert(last));
    }
}

/// A grid whose sides fit in `usize` has `width * height` squares.
pub proof fn lemma_grid_cells(width: nat, height: nat)
    requires
        width <= usize::MAX,
        height <= usize::MAX,
    ensures
        grid_cells(width, height).finite(),
        grid_cells(width, height).len() == width * height,
    decreases height,
{
    if height == 0 {
        assert(grid_cells(width, height) =~= Set::empty());
        assert(width * height == 0) by (nonlinear_arith)
            requires
                height == 0,
        ;
    } else {
        let above = grid_cells(width, (height - 1) as nat);
        let row = row_cells(width, (height - 1) as nat);
        lemma_grid_cells(width, (height - 1) as nat);
        lemma_row_cells(width, (height - 1) as nat);
        assert(grid_cells(width, height) =~= above.union(row));
        assert(above.disjoint(row));
        vstd::set_lib::lemma_set_disjoint_lens(above, row);
        assert(width * (height - 1) + width == width * height) by (nonlinear_arith);
    }
}


impl BoardView {
    /// The address `(x, y)` lies on the grid and holds a mine.
    pub(crate) open spec fn mine_at(self, x: int, y: int) -> bool {
        &&& 0 <= x < self.width
        &&& 0 <= y < self.height
        &&& self.tiles[Position { x: x as usize, y: y as usize }] is Bomb
    }

    pub(crate) open spec fn one_if_mine(self, x: int, y: int) -> nat {
        if self.mine_at(x, y) {
            1
        } else {
            0
        }
    }

    /// The mines around `(x, y)`, counted address by address.
    pub(crate) open spec fn tally(self, x: int, y: int) -> nat {
        self.one_if_mine(x - 1, y - 1) + self.one_if_mine(x, y - 1) + self.one_if_mine(x + 1, y - 1)
            + self.one_if_mine(x - 1, y) + self.one_if_mine(x + 1, y) + self.one_if_mine(
            x - 1,
            y + 1,
        ) + self.one_if_mine(x, y + 1) + self.one_if_mine(x + 1, y + 1)
    }

    spec fn with_if_mine(self, s: Set<Position>, x: int, y: int) -> Set<Position> {
        if self.mine_at(x, y) {
            s.insert(Position { x: x as usize, y: y as usize })
        } else {
            s
        }
    }

    /// The number of mines among the neighbours of `p` is the tally around `p`.
    pub(crate) proof fn lemma_tally(self, p: Position)
        requires
            self.width <= usize::MAX,
            self.height <= usize::MAX,
        ensures
            p.moore_set(self.width, self.height).intersect(self.mines()).finite(),
            self.adjacent_mines(p) == self.tally(p.x as int, p.y as int),
    {
        let x = p.x as int;
        let y = p.y as int;
        let s0 = Set::<Position>::empty();
        let s1 = self.with_if_mine(s0, x - 1, y - 1);
        let s2 = self.with_if_mine(s1, x, y - 1);
        let s3 = self.with_if_mine(s2, x + 1, y - 1);
        let s4 = self.with_if_mine(s3, x - 1, y);
        let s5 = self.with_if_mine(s4, x + 1, y);
        let s6 = self.with_if_mine(s5, x - 1, y + 1);
        let s7 = self.with_if_mine(s6, x, y + 1);
        let s8 = self.with_if_mine(s7, x + 1, y + 1);
        assert(s1.finite() && s1.len() == self.one_if_mine(x - 1, y - 1));
        assert(s2.finite() && s2.len() == s1.len() + self.one_if_mine(x, y - 1));
        assert(s3.finite() && s3.len() == s2.len() + self.one_if_mine(x + 1, y - 1));
        assert(s4.finite() && s4.len() == s3.len() + self.one_if_mine(x - 1, y));
        assert(s5.finite() && s5.len() == s4.len() + self.one_if_mine(x + 1, y));
        assert(s6.finite() && s6.len() == s5.len() + self.one_if_mine(x - 1, y + 1));
        assert(s7.finite() && s7.len() == s6.len() + self.one_if_mine(x, y + 1));
        assert(s8.finite() && s8.len() == s7.len() + self.one_if_mine(x + 1, y + 1));
        assert(s8 =~= p.moore_set(self.width, self.height).intersect(self.mines()));
    }

    /// A blank board of a valid configuration is well-formed and has no mine.
    pub proof fn lemma_blank(width: nat, height: nat, mine_count: nat)
        requires
            valid_configuration(width, height, mine_count),
        ensures
            BoardView::blank(width, height, mine_count).wf(),
            BoardView::blank(width, height, mine_count).mines() == Set::<Position>::empty(),
    {
        let b = BoardView::blank(width, height, mine_count);
        assert(b.tiles.dom() =~= b.cells());
        assert(b.mines() =~= Set::<Position>::empty());
        assert forall|p: Position| b.in_bounds(p) implies ((#[trigger] b.tiles[p]) matches Tile::Adjacent(
            count,
        ) ==> count == b.adjacent_mines(p)) by {
            assert(p.moore_set(width, height).intersect(b.mines()) =~= Set::<Position>::empty());
        }
    }

    /// Both sides of a well-formed board fit in `usize`, and it has a square.
    pub proof fn lemma_sides(self)
        requires
            self.wf(),
        ensures
            0 < self.width <= usize::MAX,
            0 < self.height <= usize::MAX,
            self.cells().finite(),
            self.cells().len() == self.width * self.height,
    {
        let w = self.width;
        let h = self.height;
        assert(0 < w <= w * h && 0 < h <= w * h) by (nonlinear_arith)
            requires
                0 < w * h,
        ;
        lemma_grid_cells(w, h);
        assert(self.cells() =~= grid_cells(w, h));
    }

    /// The mines, the uncovered squares and the flagged squares of a
    /// well-formed board are finite sets.
    pub proof fn lemma_finite(self)
        requires
            self.wf(),
        ensures
            self.mines().finite(),
            self.revealed.finite(),
            self.flagged.finite(),
    {
        self.lemma_sides();
        vstd::set_lib::lemma_set_subset_finite(self.cells(), self.mines());
        vstd::set_lib::lemma_set_subset_finite(self.cells(), self.revealed);
        vstd::set_lib::lemma_set_subset_finite(self.cells(), self.flagged);
    }

    /// A safe square that touches a square without a mine counts at most seven.
    pub(crate) proof fn lemma_room_for_one_more(self, p: Position, q: Position)
        requires
            self.wf(),
            self.in_bounds(p),
            !self.is_mine(p),
            self.in_bounds(q),
            p.touches(q),
        ensures
            self.tiles[q] matches Tile::Adjacent(count) ==> count <= 7,
    {
        self.lemma_sides();
        self.lemma_tally(q);
        assert(!self.mine_at(p.x as int, p.y as int));
    }

    /// Adding a mine on a square without one gives a well-formed board with
    /// exactly that one mine more.
    pub proof fn lemma_with_mine(self, p: Position)
        requires
            self.wf(),
            self.in_bounds(p),
            !self.is_mine(p),
            self.mines().len() < self.mine_count,
        ensures
            self.with_mine(p).wf(),
            self.with_mine(p).mines() == self.mines().insert(p),
            self.with_mine(p).mines().len() == self.mines().len() + 1,
    {
        let next = self.with_mine(p);
        self.lemma_sides();
        self.lemma_finite();
        assert(next.tiles.dom() =~= next.cells());
        assert(next.mines() =~= self.mines().insert(p));
        assert forall|q: Position| next.in_bounds(q) implies ((#[trigger] next.tiles[q]) matches Tile::Adjacent(
            count,
        ) ==> count == next.adjacent_mines(q)) by {
            self.lemma_tally(q);
            next.lemma_tally(q);
            if p.touches(q) {
                self.lemma_room_for_one_more(p, q);
            }
            let x = q.x as int;
            let y = q.y as int;
            assert forall|a: int, b: int| #[trigger]
                next.mine_at(a, b) == (self.mine_at(a, b) || (a == p.x && b == p.y)) by {}
            assert(self.tiles[q] matches Tile::Adjacent(count) ==> count == self.adjacent_mines(q));
        }
    }
}

} // verus!
