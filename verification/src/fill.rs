//! The region that a reveal uncovers, and the steps that fill it.

use vstd::prelude::*;
use crate::model::BoardView;
use crate::position::Position;

verus! {

/// The elements of a sequence with one more at its end.
pub(crate) proof fn lemma_push_to_set(s: Seq<Position>, x: Position)
    ensures
        s.push(x).to_set() == s.to_set().insert(x),
{
    let longer = s.push(x);
    assert forall|q: Position| longer.to_set().contains(q) <==> s.to_set().insert(x).contains(q) by {
        if longer.contains(q) {
            let k = choose|k: int| 0 <= k < longer.len() && longer[k] == q;
            if k < s.len() {
                assert(s[k] == q);
            }
        }
        if s.contains(q) {
            let k = choose|k: int| 0 <= k < s.len() && s[k] == q;
            assert(longer[k] == q);
        }
        if q == x {
            assert(longer[s.len() as int] == x);
        }
    }
    assert(longer.to_set() =~= s.to_set().insert(x));
}

impl BoardView {
    /// The origin of a reveal belongs to its region.
    pub proof fn lemma_region_origin(self, origin: Position)
        requires
            self.untouched(origin),
        ensures
            self.fill_region(origin).contains(origin),
    {
        let path = seq![origin];
        assert(self.fill_path(path) && path.first() == origin && path.last() == origin);
    }

    /// From a square of the region without a mine around it, the region goes
    /// on to every untouched square that touches it.
    pub proof fn lemma_region_step(self, origin: Position, from: Position, to: Position)
        requires
            self.fill_region(origin).contains(from),
            self.spreads(from),
            from.touches(to),
            self.untouched(to),
        ensures
            self.fill_region(origin).contains(to),
    {
        let path = choose|path: Seq<Position>|
            #[trigger] self.fill_path(path) && path.first() == origin && path.last() == from;
        let longer = path.push(to);
        assert forall|i: int| 0 <= i < longer.len() - 1 implies self.spreads(#[trigger] longer[i])
            && longer[i].touches(longer[i + 1]) by {
            if i < path.len() - 1 {
                assert(longer[i] == path[i] && longer[i + 1] == path[i + 1]);
            }
        }
        assert(self.fill_path(longer) && longer.first() == origin && longer.last() == to);
    }

    /// Every square of the region is untouched.
    pub proof fn lemma_region_untouched(self, origin: Position, q: Position)
        requires
            self.fill_region(origin).contains(q),
        ensures
            self.untouched(q),
            self.untouched(origin),
    {
        let path = choose|path: Seq<Position>|
            #[trigger] self.fill_path(path) && path.first() == origin && path.last() == q;
        assert(self.untouched(path[0]));
        assert(self.untouched(path[path.len() - 1]));
    }

    /// The region of a square with a mine around it, or with a mine on it, is
    /// that square alone.
    pub proof fn lemma_region_single(self, origin: Position)
        requires
            self.untouched(origin),
            !self.spreads(origin),
        ensures
            self.fill_region(origin) == set![origin],
    {
        self.lemma_region_origin(origin);
        assert forall|q: Position| self.fill_region(origin).contains(q) implies q == origin by {
            let path = choose|path: Seq<Position>|
                #[trigger] self.fill_path(path) && path.first() == origin && path.last() == q;
            if path.len() > 1 {
                assert(self.spreads(path[0]));
            }
        }
        assert(self.fill_region(origin) =~= set![origin]);
    }

    /// A reveal that starts on a safe square uncovers no mine.
    pub proof fn lemma_region_safe(self, origin: Position, q: Position)
        requires
            self.wf(),
            !self.is_mine(origin),
            self.fill_region(origin).contains(q),
        ensures
            !self.is_mine(q),
    {
        let path = choose|path: Seq<Position>|
            #[trigger] self.fill_path(path) && path.first() == origin && path.last() == q;
        if path.len() > 1 {
            let from = path[path.len() - 2];
            assert(self.spreads(from) && from.touches(path[path.len() - 2 + 1]));
            assert(self.untouched(from));
            self.lemma_sides();
            self.lemma_tally(from);
            let around = from.moore_set(self.width, self.height).intersect(self.mines());
            if self.is_mine(q) {
                assert(around.contains(q));
            }
        }
    }

    /// `inside` holds the origin and, with every square that spreads, the
    /// untouched squares around it.
    pub open spec fn closed_under_fill(self, origin: Position, inside: Set<Position>) -> bool {
        &&& inside.contains(origin)
        &&& forall|from: Position, to: Position|
            inside.contains(from) && self.spreads(from) && #[trigger] from.touches(to)
                && self.untouched(to) ==> inside.contains(to)
    }

    proof fn lemma_path_inside(self, origin: Position, inside: Set<Position>, path: Seq<Position>, i: int)
        requires
            self.closed_under_fill(origin, inside),
            self.fill_path(path),
            path.first() == origin,
            0 <= i < path.len(),
        ensures
            inside.contains(path[i]),
        decreases i,
    {
        if i > 0 {
            self.lemma_path_inside(origin, inside, path, i - 1);
            assert(self.spreads(path[i - 1]) && path[i - 1].touches(path[i - 1 + 1]));
            assert(self.untouched(path[i]));
        }
    }

    /// The region is the least set that is closed under the steps of a fill.
    pub proof fn lemma_region_least(self, origin: Position, inside: Set<Position>)
        requires
            self.closed_under_fill(origin, inside),
        ensures
            self.fill_region(origin).subset_of(inside),
    {
        assert forall|q: Position| self.fill_region(origin).contains(q) implies inside.contains(q) by {
            let path = choose|path: Seq<Position>|
                #[trigger] self.fill_path(path) && path.first() == origin && path.last() == q;
            self.lemma_path_inside(origin, inside, path, path.len() - 1);
        }
    }

    /// A reveal keeps a board well-formed and moves no mine.
    pub proof fn lemma_after_reveal(self, p: Position)
        requires
            self.wf(),
        ensures
            self.after_reveal(p).wf(),
            self.after_reveal(p).mines() == self.mines(),
    {
        let next = self.after_reveal(p);
        self.lemma_same_grid(next);
        assert forall|q: Position| self.fill_region(p).contains(q) implies self.untouched(q) by {
            self.lemma_region_untouched(p, q);
        }
    }

    /// The state of a fill under way. `self` is the board before the reveal
    /// and `now` the board so far; `found` lists the squares uncovered so far,
    /// and the first `head` of them have been carried on to their neighbours.
    pub(crate) open spec fn filling(
        self,
        origin: Position,
        now: BoardView,
        found: Seq<Position>,
        head: int,
    ) -> bool {
        &&& self.wf()
        &&& now == BoardView { revealed: self.revealed.union(found.to_set()), ..self }
        &&& found.no_duplicates()
        &&& 0 <= head <= found.len()
        &&& found.len() > 0
        &&& found[0] == origin
        &&& forall|i: int|
            0 <= i < found.len() ==> self.fill_region(origin).contains(#[trigger] found[i])
        &&& forall|i: int, q: Position|
            0 <= i < head && self.spreads(found[i]) && self.untouched(q) && #[trigger] found[i].touches(q)
                ==> found.contains(q)
    }

    pub(crate) proof fn lemma_filling_start(self, origin: Position)
        requires
            self.wf(),
            self.untouched(origin),
        ensures
            self.filling(origin, self.uncovered(origin), seq![origin], 0),
    {
        let found = seq![origin];
        self.lemma_region_origin(origin);
        lemma_push_to_set(Seq::empty(), origin);
        assert(found =~= Seq::<Position>::empty().push(origin));
        assert(Seq::<Position>::empty().to_set() =~= Set::<Position>::empty());
        assert(found.to_set() =~= set![origin]);
        assert(self.uncovered(origin) =~= BoardView {
            revealed: self.revealed.union(found.to_set()),
            ..self
        });
    }

    pub(crate) proof fn lemma_filling_bound(self, origin: Position, now: BoardView, found: Seq<Position>, head: int)
        requires
            self.filling(origin, now, found, head),
        ensures
            found.len() <= self.width * self.height,
            now.wf(),
            now.mines() == self.mines(),
    {
        self.lemma_sides();
        found.unique_seq_to_set();
        assert forall|q: Position| found.to_set().contains(q) implies self.untouched(q) by {
            let i = choose|i: int| 0 <= i < found.len() && found[i] == q;
            self.lemma_region_untouched(origin, found[i]);
        }
        vstd::set_lib::lemma_len_subset(found.to_set(), self.cells());
        self.lemma_same_grid(now);
    }

    pub(crate) proof fn lemma_filling_push(
        self,
        origin: Position,
        now: BoardView,
        found: Seq<Position>,
        head: int,
        next: Position,
    )
        requires
            self.filling(origin, now, found, head),
            head < found.len(),
            self.spreads(found[head]),
            found[head].touches(next),
            now.untouched(next),
        ensures
            self.filling(origin, now.uncovered(next), found.push(next), head),
    {
        let longer = found.push(next);
        assert(!found.contains(next)) by {
            if found.contains(next) {
                assert(found.to_set().contains(next));
            }
        }
        assert(self.untouched(next));
        self.lemma_region_step(origin, found[head], next);
        lemma_push_to_set(found, next);
        assert(now.uncovered(next) =~= BoardView {
            revealed: self.revealed.union(longer.to_set()),
            ..self
        });
        assert forall|i: int, q: Position|
            0 <= i < head && self.spreads(longer[i]) && self.untouched(q) && #[trigger] longer[i].touches(
                q,
            ) implies longer.contains(q) by {
            assert(found[i].touches(q));
            assert(found.contains(q));
            let k = choose|k: int| 0 <= k < found.len() && found[k] == q;
            assert(longer[k] == q);
        }
    }

    pub(crate) proof fn lemma_filling_advance(
        self,
        origin: Position,
        now: BoardView,
        found: Seq<Position>,
        head: int,
    )
        requires
            self.filling(origin, now, found, head),
            head < found.len(),
            self.spreads(found[head]) ==> forall|q: Position|
                now.in_bounds(q) && #[trigger] found[head].touches(q) ==> !now.untouched(q),
        ensures
            self.filling(origin, now, found, head + 1),
    {
        assert forall|i: int, q: Position|
            0 <= i < head + 1 && self.spreads(found[i]) && self.untouched(q) && #[trigger] found[i].touches(
                q,
            ) implies found.contains(q) by {
            if i == head {
                assert(!now.untouched(q));
                assert(found.to_set().contains(q));
            }
        }
    }

    pub(crate) proof fn lemma_filling_done(
        self,
        origin: Position,
        now: BoardView,
        found: Seq<Position>,
    )
        requires
            self.filling(origin, now, found, found.len() as int),
        ensures
            found.to_set() == self.fill_region(origin),
            self.untouched(origin),
            now == self.after_reveal(origin),
    {
        let inside = found.to_set();
        assert(inside.contains(found[0]));
        assert forall|from: Position, to: Position|
            inside.contains(from) && self.spreads(from) && #[trigger] from.touches(to)
                && self.untouched(to) implies inside.contains(to) by {
            let i = choose|i: int| 0 <= i < found.len() && found[i] == from;
            assert(found[i].touches(to));
            assert(found.contains(to));
        }
        self.lemma_region_least(origin, inside);
        assert forall|q: Position| inside.contains(q) implies self.fill_region(origin).contains(q) by {
            let i = choose|i: int| 0 <= i < found.len() && found[i] == q;
        }
        assert(inside =~= self.fill_region(origin));
        self.lemma_region_untouched(origin, found[0]);
    }
}

} // verus!
