//! Grid addresses and their neighbourhoods.

use vstd::prelude::*;

verus! {

/// The address of one square: column `x`, row `y`, both counted from zero.
#[derive(Debug, PartialEq, Eq, Hash, Clone, Copy, Structural)]
pub struct Position {
    pub x: usize,
    pub y: usize,
}

impl Position {
    /// The address lies on a grid of `width` columns and `height` rows.
    pub open spec fn in_grid(self, width: nat, height: nat) -> bool {
        self.x < width && self.y < height
    }

    /// `other` is one of the eight squares around this one (diagonals count).
    pub open spec fn touches(self, other: Position) -> bool {
        &&& self != other
        &&& self.x - other.x <= 1
        &&& other.x - self.x <= 1
        &&& self.y - other.y <= 1
        &&& other.y - self.y <= 1
    }

    /// `other` is directly above, below, left or right of this square.
    pub open spec fn beside(self, other: Position) -> bool {
        ||| (self.x == other.x && (self.y - other.y == 1 || other.y - self.y == 1))
        ||| (self.y == other.y && (self.x - other.x == 1 || other.x - self.x == 1))
    }

    /// Row-major order: earlier row first, then earlier column.
    pub open spec fn precedes(self, other: Position) -> bool {
        self.y < other.y || (self.y == other.y && self.x < other.x)
    }

    /// The Moore neighbourhood clipped to the grid: every square of the grid
    /// that touches this one.
    pub open spec fn moore_set(self, width: nat, height: nat) -> Set<Position> {
        Set::new(|q: Position| q.in_grid(width as nat, height as nat) && self.touches(q))
    }

    /// The orthogonal neighbourhood clipped to the grid.
    pub open spec fn orthogonal_set(self, width: nat, height: nat) -> Set<Position> {
        Set::new(|q: Position| q.in_grid(width as nat, height as nat) && self.beside(q))
    }

    pub fn new(x: usize, y: usize) -> (p: Position)
        ensures
            p == (Position { x, y }),
    {
        Position { x, y }
    }

    /// The squares of the grid that touch this one, in row-major order.
    ///
    /// The square itself is never part of the result, and it does not have to
    /// lie on the grid.
    pub fn get_surrounding(&self, width: usize, height: usize) -> (out: Vec<Position>)
        ensures
            out@.to_set() == self.moore_set(width as nat, height as nat),
            forall|i: int, j: int| 0 <= i < j < out.len() ==> out[i].precedes(out[j]),
            out@.no_duplicates(),
            out.len() <= 8,
    {
        let me = *self;
        let mut out: Vec<Position> = Vec::with_capacity(8);
        let row_lo: usize = if me.y > 0 { me.y - 1 } else { 0 };
        let row_hi: usize = if me.y < usize::MAX { me.y + 1 } else { me.y };
        let col_lo: usize = if me.x > 0 { me.x - 1 } else { 0 };
        let col_hi: usize = if me.x < usize::MAX { me.x + 1 } else { me.x };
        let mut r: usize = row_lo;
        while r < height && r <= row_hi
            invariant
                row_lo == if me.y > 0 { me.y - 1 } else { 0 },
                row_hi == if me.y < usize::MAX { me.y + 1 } else { me.y as int },
                col_lo == if me.x > 0 { me.x - 1 } else { 0 },
                col_hi == if me.x < usize::MAX { me.x + 1 } else { me.x as int },
                row_lo <= r <= row_hi + 1,
                forall|q: Position| #[trigger]
                    out@.contains(q) <==> q.in_grid(width as nat, height as nat) && me.touches(q) && q.y < r,
                forall|i: int, j: int| 0 <= i < j < out.len() ==> out[i].precedes(out[j]),
                out.len() <= 3 * (r - row_lo) - if r > me.y { 1int } else { 0int },
            decreases row_hi + 1 - r,
        {
            let mut c: usize = col_lo;
            while c < width && c <= col_hi
                invariant
                    row_lo == if me.y > 0 { me.y - 1 } else { 0 },
                    row_hi == if me.y < usize::MAX { me.y + 1 } else { me.y as int },
                    col_lo == if me.x > 0 { me.x - 1 } else { 0 },
                    col_hi == if me.x < usize::MAX { me.x + 1 } else { me.x as int },
                    row_lo <= r <= row_hi,
                    r < height,
                    col_lo <= c <= col_hi + 1,
                    forall|q: Position| #[trigger]
                        out@.contains(q) <==> q.in_grid(width as nat, height as nat) && me.touches(q) && q.precedes(
                            Position { x: c, y: r },
                        ),
                    forall|i: int, j: int| 0 <= i < j < out.len() ==> out[i].precedes(out[j]),
                    out.len() <= 3 * (r - row_lo) - (if r > me.y { 1int } else { 0int }) + (c
                        - col_lo) - (if r == me.y && c > me.x { 1int } else { 0int }),
                decreases col_hi + 1 - c,
            {
                if !(r == me.y && c == me.x) {
                    let cell = Position::new(c, r);
                    let ghost before = out@;
                    out.push(cell);
                    proof {
                        assert forall|q: Position| #[trigger]
                            out@.contains(q) <==> q.in_grid(width as nat, height as nat) && me.touches(q) && q.precedes(
                                Position { x: (c + 1) as usize, y: r },
                            ) by {
                            if out@.contains(q) {
                                let k = choose|k: int| 0 <= k < out@.len() && out@[k] == q;
                                if k < before.len() {
                                    assert(before[k] == q);
                                    assert(before.contains(q));
                                }
                            }
                            if q.in_grid(width as nat, height as nat) && me.touches(q) && q.precedes(
                                Position { x: (c + 1) as usize, y: r },
                            ) {
                                if q == cell {
                                    assert(out@[before.len() as int] == q);
                                } else {
                                    assert(before.contains(q));
                                    let k = choose|k: int| 0 <= k < before.len() && before[k] == q;
                                    assert(out@[k] == q);
                                }
                            }
                        }
                        assert forall|i: int, j: int| 0 <= i < j < out.len() implies out[i].precedes(
                            out[j],
                        ) by {
                            if j == before.len() {
                                assert(before.contains(before[i]));
                            } else {
                                assert(out[i] == before[i] && out[j] == before[j]);
                            }
                        }
                    }
                }
                c += 1;
            }
            r += 1;
        }
        proof {
            assert(out@.to_set() =~= me.moore_set(width as nat, height as nat));
            assert forall|i: int, j: int| 0 <= i < j < out.len() implies out[i] != out[j] by {
                assert(out[i].precedes(out[j]));
            }
        }
        out
    }

    /// The squares of the grid directly above, left, right and below this
    /// one, in row-major order.
    pub fn neighbors_orthogonal(&self, width: usize, height: usize) -> (out: Vec<Position>)
        ensures
            out@.to_set() == self.orthogonal_set(width as nat, height as nat),
            forall|i: int, j: int| 0 <= i < j < out.len() ==> out[i].precedes(out[j]),
            out@.no_duplicates(),
            out.len() <= 4,
    {
        let me = *self;
        let mut out: Vec<Position> = Vec::with_capacity(4);
        if me.x < width {
            if me.y > 0 && me.y - 1 < height {
                out.push(Position::new(me.x, me.y - 1));
            }
        }
        let ghost above = out@;
        if me.y < height {
            if me.x > 0 && me.x - 1 < width {
                out.push(Position::new(me.x - 1, me.y));
            }
            if me.x < usize::MAX && me.x + 1 < width {
                out.push(Position::new(me.x + 1, me.y));
            }
        }
        let ghost level = out@;
        if me.x < width {
            if me.y < usize::MAX && me.y + 1 < height {
                out.push(Position::new(me.x, me.y + 1));
            }
        }
        proof {
            let grid = me.orthogonal_set(width as nat, height as nat);
            assert forall|q: Position| out@.contains(q) implies grid.contains(q) by {
                let k = choose|k: int| 0 <= k < out@.len() && out@[k] == q;
                assert(out@[k] == q);
            }
            assert forall|q: Position| grid.contains(q) implies out@.contains(q) by {
                if q.y < me.y {
                    assert(out@[0] == q);
                } else if q.y > me.y {
                    assert(out@[out@.len() - 1] == q);
                } else if q.x < me.x {
                    assert(level[above.len() as int] == q);
                    assert(out@[above.len() as int] == q);
                } else {
                    assert(level[level.len() - 1] == q);
                    assert(out@[level.len() - 1] == q);
                }
            }
            assert(out@.to_set() =~= grid);
            assert forall|i: int, j: int| 0 <= i < j < out.len() implies out[i] != out[j] by {
                assert(out[i].precedes(out[j]));
            }
        }
        out
    }
}

} // verus!
