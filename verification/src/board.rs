//! The board: its grid, what the player has uncovered and marked.

use vstd::prelude::*;
use crate::model::{valid_configuration, BoardView};
use crate::outcome::{CellState, FlagOutcome, GameError};
use crate::position::Position;
use crate::tile::Tile;

verus! {

/// A grid of tiles with the player's marks on it.
#[derive(Debug)]
pub struct Board {
    pub(crate) width: usize,
    pub(crate) height: usize,
    pub(crate) mine_count: usize,
    pub(crate) placed: usize,
    pub(crate) grid: Vec<Vec<Tile>>,
    pub(crate) revealed: Vec<Vec<bool>>,
    pub(crate) flagged: Vec<Vec<bool>>,
}

impl View for Board {
    type V = BoardView;

    open(crate) spec fn view(&self) -> BoardView {
        BoardView {
            width: self.width as nat,
            height: self.height as nat,
            mine_count: self.mine_count as nat,
            tiles: Map::new(
                |p: Position| p.x < self.width && p.y < self.height,
                |p: Position| self.grid[p.y as int][p.x as int],
            ),
            revealed: Set::new(
                |p: Position| p.x < self.width && p.y < self.height && self.revealed[p.y as int][p.x as int],
            ),
            flagged: Set::new(
                |p: Position| p.x < self.width && p.y < self.height && self.flagged[p.y as int][p.x as int],
            ),
        }
    }
}

/// A grid of `height` rows of `width` entries each.
pub(crate) open spec fn rectangular<T>(rows: Seq<Vec<T>>, width: usize, height: usize) -> bool {
    &&& rows.len() == height
    &&& forall|r: int| 0 <= r < height ==> (#[trigger] rows[r]).len() == width
}

fn uniform_row<T: Copy>(value: T, width: usize) -> (row: Vec<T>)
    ensures
        row.len() == width,
        forall|c: int| 0 <= c < width ==> row[c] == value,
{
    let mut row: Vec<T> = Vec::new();
    let mut c: usize = 0;
    while c < width
        invariant
            c <= width,
            row.len() == c,
            forall|i: int| 0 <= i < c ==> row[i] == value,
        decreases width - c,
    {
        row.push(value);
        c += 1;
    }
    row
}

fn uniform_grid<T: Copy>(value: T, width: usize, height: usize) -> (rows: Vec<Vec<T>>)
    ensures
        rectangular(rows@, width, height),
        forall|r: int, c: int| 0 <= r < height && 0 <= c < width ==> rows[r][c] == value,
{
    let mut rows: Vec<Vec<T>> = Vec::new();
    let mut r: usize = 0;
    while r < height
        invariant
            r <= height,
            rectangular(rows@, width, r),
            forall|i: int, c: int| 0 <= i < r && 0 <= c < width ==> rows[i][c] == value,
        decreases height - r,
    {
        rows.push(uniform_row(value, width));
        r += 1;
    }
    rows
}

impl Board {
    /// The conditions that every board meets, on the stored data and on its view.
    pub open(crate) spec fn wf(&self) -> bool {
        &&& rectangular(self.grid@, self.width, self.height)
        &&& rectangular(self.revealed@, self.width, self.height)
        &&& rectangular(self.flagged@, self.width, self.height)
        &&& self@.mines().finite()
        &&& self@.mines().len() == self.placed
        &&& self@.wf()
    }

    /// A well-formed board has a well-formed view.
    pub proof fn lemma_view_wf(&self)
        requires
            self.wf(),
        ensures
            self@.wf(),
            self@.mines().finite(),
    {
    }

    /// A board of `width` columns and `height` rows, meant for `mine_count`
    /// mines and holding none yet.
    ///
    /// A grid without squares, one with as many mines as squares or more, and
    /// one whose number of squares does not fit in `usize` are refused.
    pub fn new(width: usize, height: usize, mine_count: usize) -> (r: Result<Board, GameError>)
        ensures
            match r {
                Ok(board) => {
                    &&& valid_configuration(width as nat, height as nat, mine_count as nat)
                    &&& board.wf()
                    &&& board@ == BoardView::blank(width as nat, height as nat, mine_count as nat)
                },
                Err(e) => {
                    &&& e == GameError::InvalidConfiguration
                    &&& !valid_configuration(width as nat, height as nat, mine_count as nat)
                },
            },
    {
        let cells: usize = match width.checked_mul(height) {
            Some(n) => n,
            None => {
                return Err(GameError::InvalidConfiguration);
            },
        };
        if mine_count >= cells {
            return Err(GameError::InvalidConfiguration);
        }
        let board = Board {
            width,
            height,
            mine_count,
            placed: 0,
            grid: uniform_grid(Tile::Adjacent(0), width, height),
            revealed: uniform_grid(false, width, height),
            flagged: uniform_grid(false, width, height),
        };
        proof {
            BoardView::lemma_blank(width as nat, height as nat, mine_count as nat);
            assert(board@ =~= BoardView::blank(width as nat, height as nat, mine_count as nat));
        }
        Ok(board)
    }

    /// Number of columns.
    pub fn width(&self) -> (w: usize)
        ensures
            w == self@.width,
    {
        self.width
    }

    /// Number of rows.
    pub fn height(&self) -> (h: usize)
        ensures
            h == self@.height,
    {
        self.height
    }

    /// Number of mines that the board is meant to hold.
    pub fn mine_count(&self) -> (n: usize)
        ensures
            n == self@.mine_count,
    {
        self.mine_count
    }

    /// Number of mines placed so far.
    pub fn mines_placed(&self) -> (n: usize)
        requires
            self.wf(),
        ensures
            n == self@.mines().len(),
    {
        self.placed
    }

    /// The tile in row `row`, column `col`, if the grid has such a square.
    pub fn get(&self, row: usize, col: usize) -> (tile: Option<Tile>)
        requires
            self.wf(),
        ensures
            tile == if self@.in_bounds(Position { x: col, y: row }) {
                Some(self@.tiles[Position { x: col, y: row }])
            } else {
                None
            },
    {
        if row < self.height && col < self.width {
            Some(self.grid[row][col])
        } else {
            None
        }
    }

    /// Whether the square in row `row`, column `col` is on the grid and covered.
    pub fn get_covered(&self, row: usize, col: usize) -> (covered: bool)
        requires
            self.wf(),
        ensures
            covered == (self@.in_bounds(Position { x: col, y: row }) && !self@.revealed.contains(
                Position { x: col, y: row },
            )),
    {
        row < self.height && col < self.width && !self.revealed[row][col]
    }

    /// Whether the square at `pos` is on the grid and covered.
    pub fn get_covered_by_pos(&self, pos: &Position) -> (covered: bool)
        requires
            self.wf(),
        ensures
            covered == (self@.in_bounds(*pos) && !self@.revealed.contains(*pos)),
    {
        self.get_covered(pos.y, pos.x)
    }

    /// Uncovers the square at `pos` and no other. A flagged square, or one
    /// outside the grid, stays as it is.
    pub fn remove_covered_by_pos(&mut self, pos: &Position)
        requires
            old(self).wf(),
        ensures
            final(self).wf(),
            final(self)@ == old(self)@.uncovered(*pos),
    {
        if pos.y < self.height && pos.x < self.width && !self.flagged[pos.y][pos.x] {
            self.revealed[pos.y][pos.x] = true;
        }
        proof {
            assert(self@ =~= old(self)@.uncovered(*pos));
            old(self)@.lemma_uncovered(*pos);
        }
    }

    /// Whether the square in row `row`, column `col` carries a flag.
    pub fn get_flagged(&self, row: usize, col: usize) -> (flagged: bool)
        requires
            self.wf(),
        ensures
            flagged == self@.flagged.contains(Position { x: col, y: row }),
    {
        row < self.height && col < self.width && self.flagged[row][col]
    }

    /// Whether the square at `pos` carries a flag.
    pub fn get_flagged_by_pos(&self, pos: &Position) -> (flagged: bool)
        requires
            self.wf(),
        ensures
            flagged == self@.flagged.contains(*pos),
    {
        self.get_flagged(pos.y, pos.x)
    }

    /// Puts a flag on the square in row `row`, column `col`. An uncovered
    /// square, or one outside the grid, stays as it is.
    pub fn add_flagged(&mut self, row: usize, col: usize)
        requires
            old(self).wf(),
        ensures
            final(self).wf(),
            final(self)@ == old(self)@.with_flag(Position { x: col, y: row }),
    {
        if row < self.height && col < self.width && !self.revealed[row][col] {
            self.flagged[row][col] = true;
        }
        proof {
            assert(self@ =~= old(self)@.with_flag(Position { x: col, y: row }));
            old(self)@.lemma_with_flag(Position { x: col, y: row });
        }
    }

    /// Takes the flag off the square in row `row`, column `col`, if it has one.
    pub fn remove_flagged(&mut self, row: usize, col: usize)
        requires
            old(self).wf(),
        ensures
            final(self).wf(),
            final(self)@ == old(self)@.without_flag(Position { x: col, y: row }),
    {
        if row < self.height && col < self.width {
            self.flagged[row][col] = false;
        }
        proof {
            assert(self@ =~= old(self)@.without_flag(Position { x: col, y: row }));
            old(self)@.lemma_without_flag(Position { x: col, y: row });
        }
    }

    /// Flags a covered square that has no flag, and takes the flag off one
    /// that has. An uncovered square is left alone.
    pub fn toggle_flag(&mut self, coord: Position) -> (r: Result<FlagOutcome, GameError>)
        requires
            old(self).wf(),
        ensures
            final(self).wf(),
            r == old(self)@.toggle_result(coord),
            final(self)@ == old(self)@.after_toggle(coord),
    {
        if !(coord.y < self.height && coord.x < self.width) {
            Err(GameError::OutOfBounds)
        } else if self.revealed[coord.y][coord.x] {
            Ok(FlagOutcome::CannotFlagRevealed)
        } else if self.flagged[coord.y][coord.x] {
            self.remove_flagged(coord.y, coord.x);
            Ok(FlagOutcome::Unflagged)
        } else {
            self.add_flagged(coord.y, coord.x);
            Ok(FlagOutcome::Flagged)
        }
    }

    /// What a player sees of the square at `coord`.
    pub fn query_cell(&self, coord: Position) -> (r: Result<CellState, GameError>)
        requires
            self.wf(),
        ensures
            r == self@.cell_state(coord),
    {
        if !(coord.y < self.height && coord.x < self.width) {
            Err(GameError::OutOfBounds)
        } else if self.revealed[coord.y][coord.x] {
            Ok(CellState::Revealed(self.grid[coord.y][coord.x]))
        } else if self.flagged[coord.y][coord.x] {
            Ok(CellState::Flagged)
        } else {
            Ok(CellState::Covered)
        }
    }

    /// Whether every square without a mine is uncovered. Flags play no part.
    pub fn is_won(&self) -> (won: bool)
        requires
            self.wf(),
        ensures
            won == self@.is_won(),
    {
        proof {
            self@.lemma_won_pointwise();
        }
        let mut r: usize = 0;
        while r < self.height
            invariant
                self.wf(),
                r <= self.height,
                forall|q: Position|
                    self@.in_bounds(q) && !self@.is_mine(q) && q.y < r
                        ==> #[trigger] self@.revealed.contains(q),
            decreases self.height - r,
        {
            let mut c: usize = 0;
            while c < self.width
                invariant
                    self.wf(),
                    r < self.height,
                    c <= self.width,
                    forall|q: Position|
                        self@.in_bounds(q) && !self@.is_mine(q) && q.precedes(Position { x: c, y: r })
                            ==> #[trigger] self@.revealed.contains(q),
                decreases self.width - c,
            {
                if !self.revealed[r][c] && !self.grid[r][c].is_bomb() {
                    proof {
                        let q = Position { x: c, y: r };
                        assert(self@.in_bounds(q) && !self@.is_mine(q) && !self@.revealed.contains(q));
                    }
                    return false;
                }
                c += 1;
            }
            r += 1;
        }
        true
    }

    /// Places a mine on `pos` and raises the count of every safe square
    /// around it. Nothing happens, and the answer is `false`, when `pos` is
    /// outside the grid, holds a mine already, or the board holds all its
    /// mines.
    pub fn place_mine(&mut self, pos: Position) -> (placed: bool)
        requires
            old(self).wf(),
        ensures
            final(self).wf(),
            placed == old(self)@.accepts_mine(pos),
            final(self)@ == if placed {
                old(self)@.with_mine(pos)
            } else {
                old(self)@
            },
    {
        if !(pos.y < self.height && pos.x < self.width) || self.placed >= self.mine_count {
            return false;
        }
        if self.grid[pos.y][pos.x].is_bomb() {
            return false;
        }
        let ghost before = self@;
        let ghost entry = *self;
        let ghost start = self.grid@;
        self.grid[pos.y][pos.x] = Tile::Bomb;
        let around = pos.get_surrounding(self.width, self.height);
        let mut i: usize = 0;
        while i < around.len()
            invariant
                i <= around.len(),
                around@.to_set() == pos.moore_set(before.width, before.height),
                around@.no_duplicates(),
                before.wf(),
                before.in_bounds(pos),
                !before.is_mine(pos),
                self.width == entry.width,
                self.height == entry.height,
                self.mine_count == entry.mine_count,
                self.placed == entry.placed,
                self.revealed == entry.revealed,
                self.flagged == entry.flagged,
                entry.wf(),
                entry@ == before,
                entry.placed < entry.mine_count,
                rectangular(self.grid@, self.width, self.height),
                rectangular(start, self.width, self.height),
                forall|q: Position| before.in_bounds(q) ==> before.tiles[q] == start[q.y as int][q.x as int],
                forall|q: Position|
                    before.in_bounds(q) ==> #[trigger] self.grid[q.y as int][q.x as int] == if q == pos {
                        Tile::Bomb
                    } else if around@.take(i as int).contains(q) {
                        start[q.y as int][q.x as int].plus_one()
                    } else {
                        start[q.y as int][q.x as int]
                    },
            decreases around.len() - i,
        {
            let q = around[i];
            proof {
                assert(around@.to_set().contains(q));
                before.lemma_room_for_one_more(pos, q);
                assert(!around@.take(i as int).contains(q));
                assert(before.in_bounds(q) && q != pos);
                assert(self.grid[q.y as int][q.x as int] == start[q.y as int][q.x as int]);
                assert(before.tiles[q] == start[q.y as int][q.x as int]);
            }
            let ghost mid = self.grid@;
            match self.grid[q.y][q.x] {
                Tile::Adjacent(count) => {
                    self.grid[q.y][q.x] = Tile::Adjacent(count + 1);
                },
                Tile::Bomb => {},
            }
            proof {
                assert(self.grid[q.y as int][q.x as int] == start[q.y as int][q.x as int].plus_one());
                assert forall|t: Position| before.in_bounds(t) implies #[trigger] self.grid[t.y as int][t.x as int]
                    == if t == pos {
                    Tile::Bomb
                } else if around@.take(i + 1).contains(t) {
                    start[t.y as int][t.x as int].plus_one()
                } else {
                    start[t.y as int][t.x as int]
                } by {
                    let done = around@.take(i as int);
                    let done_now = around@.take(i + 1);
                    assert(done_now =~= done.push(q));
                    if t != q {
                        assert(self.grid[t.y as int][t.x as int] == mid[t.y as int][t.x as int]);
                        if done_now.contains(t) {
                            let k = choose|k: int| 0 <= k < done_now.len() && done_now[k] == t;
                            assert(done[k] == t);
                        }
                        if done.contains(t) {
                            let k = choose|k: int| 0 <= k < done.len() && done[k] == t;
                            assert(done_now[k] == t);
                        }
                    } else {
                        assert(done_now[i as int] == q);
                    }
                }
            }
            i += 1;
        }
        self.placed += 1;
        proof {
            assert(around@.take(around.len() as int) =~= around@);
            assert forall|q: Position| before.in_bounds(q) implies (around@.contains(q) <==> pos.touches(q)) by {
                assert(around@.to_set().contains(q) == around@.contains(q));
            }
            assert(self@.tiles =~= before.with_mine(pos).tiles);
            assert(self@.revealed =~= before.revealed);
            assert(self@.flagged =~= before.flagged);
            assert(self@ =~= before.with_mine(pos));
            before.lemma_with_mine(pos);
        }
        true
    }

    /// Every mine on the board, in row-major order.
    pub fn mines_iter(&self) -> (out: Vec<Position>)
        requires
            self.wf(),
        ensures
            out@.to_set() == self@.mines(),
            forall|i: int, j: int| 0 <= i < j < out.len() ==> out[i].precedes(out[j]),
            out@.no_duplicates(),
            out.len() == self@.mines().len(),
    {
        let mut out: Vec<Position> = Vec::new();
        let mut r: usize = 0;
        while r < self.height
            invariant
                self.wf(),
                r <= self.height,
                forall|q: Position| #[trigger] out@.contains(q) <==> self@.is_mine(q) && q.y < r,
                forall|i: int, j: int| 0 <= i < j < out.len() ==> out[i].precedes(out[j]),
            decreases self.height - r,
        {
            let mut c: usize = 0;
            while c < self.width
                invariant
                    self.wf(),
                    r < self.height,
                    c <= self.width,
                    forall|q: Position| #[trigger]
                        out@.contains(q) <==> self@.is_mine(q) && q.precedes(Position { x: c, y: r }),
                    forall|i: int, j: int| 0 <= i < j < out.len() ==> out[i].precedes(out[j]),
                decreases self.width - c,
            {
                if self.grid[r][c].is_bomb() {
                    let cell = Position::new(c, r);
                    let ghost before = out@;
                    out.push(cell);
                    proof {
                        assert forall|q: Position| #[trigger]
                            out@.contains(q) <==> self@.is_mine(q) && q.precedes(
                                Position { x: (c + 1) as usize, y: r },
                            ) by {
                            if out@.contains(q) {
                                let k = choose|k: int| 0 <= k < out@.len() && out@[k] == q;
                                if k < before.len() {
                                    assert(before[k] == q);
                                    assert(before.contains(q));
                                }
                            }
                            if self@.is_mine(q) && q.precedes(Position { x: (c + 1) as usize, y: r }) {
                                if q == cell {
                                    assert(out@[before.len() as int] == q);
                                } else {
                                    assert(before.contains(q));
                                    let k = choose|k: int| 0 <= k < before.len() && before[k] == q;
                                    assert(out@[k] == q);
                                }
                            }
                        }
                        assert forall|i: int, j: int| 0 <= i < j < out.len() implies out[i].precedes(
                            out[j],
                        ) by {
                            if j == before.len() {
                                assert(before.contains(before[i]));
                            } else {
                                assert(out[i] == before[i] && out[j] == before[j]);
                            }
                        }
                    }
                }
                c += 1;
            }
            r += 1;
        }
        proof {
            assert(out@.to_set() =~= self@.mines());
            assert forall|i: int, j: int| 0 <= i < j < out.len() implies out[i] != out[j] by {
                assert(out[i].precedes(out[j]));
            }
            out@.unique_seq_to_set();
        }
        out
    }

    /// The grid as text, mines and counts alike, whether covered or not.
    pub fn to_string(&self) -> (s: String)
        requires
            self.wf(),
        ensures
            s@ == self@.text(),
    {
        proof {
            reveal_strlit("\n");
            reveal_strlit(",");
        }
        let mut s = String::new();
        let mut r: usize = 0;
        while r < self.height
            invariant
                self.wf(),
                r <= self.height,
                s@ == self@.text_upto(r as nat),
                "\n"@ == seq!['\n'],
                ","@ == seq![','],
            decreases self.height - r,
        {
            if r > 0 {
                s.append("\n");
            }
            let ghost head = s@;
            let mut c: usize = 0;
            while c < self.width
                invariant
                    self.wf(),
                    r < self.height,
                    c <= self.width,
                    s@ == head + self@.row_text(r as nat, c as nat),
                    ","@ == seq![','],
                decreases self.width - c,
            {
                let ghost line = s@;
                if c > 0 {
                    s.append(",");
                }
                let label = self.grid[r][c].to_string();
                s.append(label.as_str());
                proof {
                    let here = Position { x: c, y: r };
                    assert(self@.tiles[here] == self.grid[r as int][c as int]);
                    let so_far = self@.row_text(r as nat, c as nat);
                    if c == 0 {
                        assert(so_far =~= Seq::<char>::empty());
                        assert(s@ =~= head + self@.row_text(r as nat, 1));
                    } else {
                        assert(self@.row_text(r as nat, (c + 1) as nat) == so_far + seq![','] + self@.tiles[here].label());
                        assert(s@ =~= head + self@.row_text(r as nat, (c + 1) as nat));
                    }
                }
                c += 1;
            }
            proof {
                let row = self@.row_text(r as nat, self.width as nat);
                if r == 0 {
                    assert(head =~= Seq::<char>::empty());
                    assert(s@ =~= self@.text_upto(1));
                } else {
                    assert(self@.text_upto((r + 1) as nat) == self@.text_upto(r as nat) + seq!['\n'] + row);
                    assert(s@ =~= self@.text_upto((r + 1) as nat));
                }
            }
            r += 1;
        }
        s
    }
}

} // verus!
