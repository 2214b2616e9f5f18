//! The game around a board: menu, play, and the two ways a game ends.

use vstd::prelude::*;
use rand::rngs::StdRng;
use crate::board::Board;
use crate::model::{valid_configuration, BoardView, RevealOutcomeView};
use crate::outcome::{CellState, FlagOutcome, GameError, RevealOutcome};
use crate::position::Position;

verus! {

/// Where a session stands.
#[derive(Debug, Clone, Copy, PartialEq, Eq, Structural)]
pub enum Phase {
    /// No game has been started, or the last one was put away.
    Menu,
    /// A game is under way.
    Playing,
    /// Every safe square is uncovered.
    Won,
    /// A mine was uncovered.
    Lost,
}

/// The three board sizes that the menu offers.
#[derive(Debug, Clone, Copy, PartialEq, Eq, Hash, Structural)]
pub enum Difficulty {
    Easy,
    Medium,
    Hard,
}

impl Difficulty {
    /// Columns, rows and mines of the preset.
    pub open spec fn preset(self) -> (nat, nat, nat) {
        match self {
            Difficulty::Easy => (9, 9, 10),
            Difficulty::Medium => (16, 16, 40),
            Difficulty::Hard => (30, 16, 99),
        }
    }

    /// Columns, rows and mines of the preset.
    pub fn dimensions(&self) -> (dims: (usize, usize, usize))
        ensures
            (dims.0 as nat, dims.1 as nat, dims.2 as nat) == self.preset(),
    {
        match self {
            Difficulty::Easy => (9, 9, 10),
            Difficulty::Medium => (16, 16, 40),
            Difficulty::Hard => (30, 16, 99),
        }
    }
}

/// A session as contracts see it.
#[verifier::ext_equal]
pub struct SessionView {
    pub phase: Phase,
    /// The board in play, or the one that the last game ended on.
    pub board: Option<BoardView>,
}

impl SessionView {
    /// The conditions that every session meets: there is a board exactly
    /// outside the menu; it holds all its mines; while the game is under way
    /// no mine is uncovered and a safe square is still covered; a won game
    /// has every safe square uncovered and no mine; a lost one has an
    /// uncovered mine.
    pub open spec fn wf(self) -> bool {
        &&& self.phase == Phase::Menu <==> self.board is None
        &&& self.board matches Some(board) ==> {
            &&& board.wf()
            &&& board.fully_mined()
            &&& self.phase == Phase::Playing ==> board.revealed.disjoint(board.mines())
                && !board.is_won()
            &&& self.phase == Phase::Won ==> board.revealed.disjoint(board.mines())
                && board.is_won()
            &&& self.phase == Phase::Lost ==> !board.revealed.disjoint(board.mines())
        }
    }

    /// What a reveal of `p` answers in this session.
    pub open spec fn reveal_result(self, p: Position) -> Result<RevealOutcomeView, GameError> {
        if self.phase == Phase::Playing {
            self.board->0.reveal_result(p)
        } else {
            Err(GameError::InvalidPhase)
        }
    }

    /// The session after a reveal of `p`. Outside play, and for an address
    /// outside the grid, nothing changes. A mine ends the game as lost, with
    /// the unflagged mines shown; otherwise the game is won once every square
    /// without a mine is uncovered.
    pub open spec fn after_reveal(self, p: Position) -> SessionView {
        if self.phase == Phase::Playing {
            let board = self.board->0;
            match board.reveal_result(p) {
                Err(_) => self,
                Ok(RevealOutcomeView::HitMine) => SessionView {
                    phase: Phase::Lost,
                    board: Some(board.after_reveal(p).with_mines_shown()),
                },
                Ok(_) => SessionView {
                    phase: if board.after_reveal(p).is_won() {
                        Phase::Won
                    } else {
                        Phase::Playing
                    },
                    board: Some(board.after_reveal(p)),
                },
            }
        } else {
            self
        }
    }

    /// What toggling the flag on `p` answers in this session.
    pub open spec fn flag_result(self, p: Position) -> Result<FlagOutcome, GameError> {
        if self.phase == Phase::Playing {
            self.board->0.toggle_result(p)
        } else {
            Err(GameError::InvalidPhase)
        }
    }

    /// The session after toggling the flag on `p`.
    pub open spec fn after_flag(self, p: Position) -> SessionView {
        if self.phase == Phase::Playing {
            SessionView { board: Some(self.board->0.after_toggle(p)), ..self }
        } else {
            self
        }
    }

    /// What a player sees of square `p`. In the menu there is no board to
    /// look at.
    pub open spec fn cell_state(self, p: Position) -> Result<CellState, GameError> {
        match self.board {
            Some(board) => board.cell_state(p),
            None => Err(GameError::InvalidPhase),
        }
    }
}

/// One player's sitting: at most one board, and the phase of the game on it.
#[derive(Debug)]
pub struct Session {
    pub(crate) phase: Phase,
    pub(crate) board: Option<Board>,
}

impl View for Session {
    type V = SessionView;

    open(crate) spec fn view(&self) -> SessionView {
        SessionView {
            phase: self.phase,
            board: match self.board {
                Some(board) => Some(board@),
                None => None,
            },
        }
    }
}

impl Session {
    /// The conditions that every session meets, on the stored data and on
    /// its view.
    pub open(crate) spec fn wf(&self) -> bool {
        &&& self.board matches Some(board) ==> board.wf()
        &&& self@.wf()
    }

    /// A well-formed session has a well-formed view.
    pub proof fn lemma_view_wf(&self)
        requires
            self.wf(),
        ensures
            self@.wf(),
    {
    }

    /// A session in the menu, without a board.
    pub fn new() -> (session: Session)
        ensures
            session.wf(),
            session@ == (SessionView { phase: Phase::Menu, board: None }),
    {
        Session { phase: Phase::Menu, board: None }
    }

    pub fn phase(&self) -> (phase: Phase)
        ensures
            phase == self@.phase,
    {
        self.phase
    }

    /// The board in play, or the one that the last game ended on.
    pub fn board(&self) -> (board: Option<&Board>)
        requires
            self.wf(),
        ensures
            match board {
                Some(b) => b.wf() && self@.board == Some(b@),
                None => self@.board is None,
            },
    {
        self.board.as_ref()
    }

    /// Puts the board away and goes back to the menu.
    pub fn return_to_menu(&mut self)
        ensures
            final(self).wf(),
            final(self)@ == (SessionView { phase: Phase::Menu, board: None }),
    {
        self.phase = Phase::Menu;
        self.board = None;
    }

    /// Starts a game on a new board of the given size with `mine_count`
    /// mines placed at random. The board of an earlier game is dropped. A
    /// configuration that no board can have is refused, and the session
    /// stays as it is.
    pub fn start_game(&mut self, width: usize, height: usize, mine_count: usize, rng: &mut StdRng) -> (r:
        Result<(), GameError>)
        requires
            old(self).wf(),
        ensures
            final(self).wf(),
            match r {
                Ok(()) => {
                    &&& valid_configuration(width as nat, height as nat, mine_count as nat)
                    &&& final(self)@.phase == Phase::Playing
                    &&& final(self)@.board matches Some(board)
                    &&& board.fresh()
                    &&& board.width == width
                    &&& board.height == height
                    &&& board.mine_count == mine_count
                },
                Err(e) => {
                    &&& e == GameError::InvalidConfiguration
                    &&& !valid_configuration(width as nat, height as nat, mine_count as nat)
                    &&& final(self)@ == old(self)@
                },
            },
    {
        match Board::new(width, height, mine_count) {
            Ok(mut board) => {
                board.place_mines(rng);
                proof {
                    let b = board@;
                    b.lemma_sides();
                    b.lemma_finite();
                    assert(b.revealed =~= Set::<Position>::empty());
                    assert(b.flagged =~= Set::<Position>::empty());
                    if b.is_won() {
                        assert(b.cells() =~= b.mines()) by {
                            assert forall|p: Position| b.cells().contains(p) implies b.mines().contains(
                                p,
                            ) by {
                                assert(!b.revealed.contains(p));
                                assert(!b.cells().difference(b.mines()).contains(p));
                            }
                        }
                    }
                }
                self.phase = Phase::Playing;
                self.board = Some(board);
                Ok(())
            },
            Err(e) => Err(e),
        }
    }

    /// Starts a game on one of the three preset boards.
    pub fn start_preset(&mut self, difficulty: Difficulty, rng: &mut StdRng)
        requires
            old(self).wf(),
        ensures
            final(self).wf(),
            final(self)@.phase == Phase::Playing,
            final(self)@.board matches Some(board) && board.fresh() && (
                board.width,
                board.height,
                board.mine_count,
            ) == difficulty.preset(),
    {
        let (width, height, mine_count) = difficulty.dimensions();
        let started = self.start_game(width, height, mine_count, rng);
        assert(started is Ok) by {
            assert(9 * 9 == 81 && 16 * 16 == 256 && 30 * 16 == 480);
        }
    }

    /// Reveals the square at `coord` in the game under way. Uncovering a mine
    /// loses the game, and the mines without a flag are then shown;
    /// uncovering the last safe square wins it. Outside play the command is
    /// refused with `InvalidPhase` and nothing changes.
    pub fn handle_reveal(&mut self, coord: Position) -> (r: Result<RevealOutcome, GameError>)
        requires
            old(self).wf(),
        ensures
            final(self).wf(),
            final(self)@ == old(self)@.after_reveal(coord),
            match r {
                Ok(outcome) => old(self)@.reveal_result(coord) == Ok::<RevealOutcomeView, GameError>(
                    outcome@,
                ),
                Err(e) => old(self)@.reveal_result(coord) == Err::<RevealOutcomeView, GameError>(e),
            },
            r matches Ok(RevealOutcome::Revealed(cells)) ==> cells@.no_duplicates() && cells@[0]
                == coord,
    {
        match self.phase {
            Phase::Playing => {},
            _ => {
                return Err(GameError::InvalidPhase);
            },
        }
        let mut board = self.board.take().unwrap();
        let ghost before = board@;
        let r = board.reveal_cell(coord);
        proof {
            before.lemma_after_reveal(coord);
            before.lemma_finite();
            assert forall|q: Position| before.fill_region(coord).contains(q) && !before.is_mine(
                coord,
            ) implies !before.is_mine(q) by {
                before.lemma_region_safe(coord, q);
            }
            if before.untouched(coord) {
                before.lemma_region_origin(coord);
            }
        }
        match &r {
            Ok(RevealOutcome::HitMine) => {
                board.uncover_mines();
                proof {
                    let shown = before.after_reveal(coord).with_mines_shown();
                    assert(shown.mines() =~= before.mines());
                    assert(shown.revealed.contains(coord) && shown.mines().contains(coord));
                }
                self.phase = Phase::Lost;
            },
            Ok(_) => {
                if board.is_won() {
                    self.phase = Phase::Won;
                }
            },
            Err(_) => {},
        }
        self.board = Some(board);
        proof {
            assert(self@ =~= old(self)@.after_reveal(coord));
        }
        r
    }

    /// Toggles the flag on the square at `coord` in the game under way.
    /// Outside play the command is refused with `InvalidPhase` and nothing
    /// changes.
    pub fn handle_flag(&mut self, coord: Position) -> (r: Result<FlagOutcome, GameError>)
        requires
            old(self).wf(),
        ensures
            final(self).wf(),
            final(self)@ == old(self)@.after_flag(coord),
            r == old(self)@.flag_result(coord),
    {
        match self.phase {
            Phase::Playing => {},
            _ => {
                return Err(GameError::InvalidPhase);
            },
        }
        let mut board = self.board.take().unwrap();
        let ghost before = board@;
        let r = board.toggle_flag(coord);
        proof {
            before.lemma_after_toggle(coord);
            assert(before.after_toggle(coord).is_won() == before.is_won());
        }
        self.board = Some(board);
        proof {
            assert(self@ =~= old(self)@.after_flag(coord));
        }
        r
    }

    /// What a player sees of the square at `coord`, on the board in play or
    /// on the one that the last game ended on.
    pub fn query_cell(&self, coord: Position) -> (r: Result<CellState, GameError>)
        requires
            self.wf(),
        ensures
            r == self@.cell_state(coord),
    {
        match &self.board {
            Some(board) => board.query_cell(coord),
            None => Err(GameError::InvalidPhase),
        }
    }
}

} // verus!
