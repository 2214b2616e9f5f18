//! What holds of every board and every session, stated over their models.

use vstd::prelude::*;
use vstd::arithmetic::div_mod::{
    lemma_fundamental_div_mod_converse_div,
    lemma_fundamental_div_mod_converse_mod,
};
use crate::model::{BoardView, RevealOutcomeView};
use crate::outcome::{FlagOutcome, GameError};
use crate::position::Position;
use crate::session::{Phase, SessionView};
use crate::tile::Tile;

verus! {

/// On every board, the count on a safe square is the number of mines among
/// the squares around it, and never more than eight.
pub proof fn lemma_counts_exact(board: BoardView, p: Position, count: u8)
    requires
        board.wf(),
        board.in_bounds(p),
        board.tiles[p] == Tile::Adjacent(count),
    ensures
        count == p.moore_set(board.width, board.height).intersect(board.mines()).len(),
        count <= 8,
{
    board.lemma_sides();
    board.lemma_tally(p);
}

/// A mine placed on a square without one is one mine more, on that square;
/// no square comes to hold two. The board stays well-formed, so every count
/// is exact again.
pub proof fn lemma_mine_added(board: BoardView, p: Position)
    requires
        board.wf(),
        board.accepts_mine(p),
    ensures
        !board.mines().contains(p),
        board.with_mine(p).wf(),
        board.with_mine(p).mines() == board.mines().insert(p),
        board.with_mine(p).mines().len() == board.mines().len() + 1,
        board.with_mine(p).revealed == board.revealed,
        board.with_mine(p).flagged == board.flagged,
{
    board.lemma_with_mine(p);
}

/// A board is won exactly when every square of the grid holds a mine or is
/// uncovered.
pub proof fn lemma_won_means(board: BoardView)
    ensures
        board.is_won() <==> forall|p: Position|
            board.in_bounds(p) && !board.is_mine(p) ==> #[trigger] board.revealed.contains(p),
{
    board.lemma_won_pointwise();
}

/// As long as no mine is uncovered, a board is won exactly when the uncovered
/// squares are all the squares but the mines.
pub proof fn lemma_won_covers_the_mines(board: BoardView)
    requires
        board.wf(),
        board.revealed.disjoint(board.mines()),
    ensures
        board.is_won() <==> board.revealed == board.cells().difference(board.mines()),
{
    let safe = board.cells().difference(board.mines());
    if board.is_won() {
        assert(board.revealed =~= safe);
    }
}

/// Flags play no part in winning: a board with any other set of flags is won
/// exactly when this one is, and so is the board after a flag is toggled.
pub proof fn lemma_flags_do_not_win(board: BoardView, flags: Set<Position>, p: Position)
    ensures
        (BoardView { flagged: flags, ..board }).is_won() == board.is_won(),
        board.after_toggle(p).is_won() == board.is_won(),
{
    let other = BoardView { flagged: flags, ..board };
    assert(other.mines() =~= board.mines());
    assert(other.cells() =~= board.cells());
    assert(board.after_toggle(p).mines() =~= board.mines());
    assert(board.after_toggle(p).cells() =~= board.cells());
}

/// Toggling a flag twice gives the board back. On a covered square without a
/// flag the first toggle answers `Flagged` and the second `Unflagged`.
pub proof fn lemma_toggle_twice(board: BoardView, p: Position)
    requires
        board.wf(),
    ensures
        board.after_toggle(p).after_toggle(p) == board,
        board.untouched(p) ==> board.toggle_result(p) == Ok::<FlagOutcome, GameError>(
            FlagOutcome::Flagged,
        ) && board.after_toggle(p).toggle_result(p) == Ok::<FlagOutcome, GameError>(
            FlagOutcome::Unflagged,
        ),
{
    let once = board.after_toggle(p);
    let twice = once.after_toggle(p);
    assert(twice.flagged =~= board.flagged);
    assert(twice =~= board);
}

/// A flagged square cannot be revealed: the reveal answers `Flagged` and
/// changes nothing. Once the flag is taken off again, the reveal uncovers the
/// square.
pub proof fn lemma_flag_blocks_reveal(board: BoardView, p: Position)
    requires
        board.wf(),
        board.untouched(p),
    ensures
        board.after_toggle(p).flagged.contains(p),
        board.after_toggle(p).reveal_result(p) == Ok::<RevealOutcomeView, GameError>(
            RevealOutcomeView::Flagged,
        ),
        board.after_toggle(p).after_reveal(p) == board.after_toggle(p),
        board.after_toggle(p).after_toggle(p) == board,
        board.reveal_result(p) == Ok::<RevealOutcomeView, GameError>(RevealOutcomeView::HitMine)
            || board.reveal_result(p) == Ok::<RevealOutcomeView, GameError>(
            RevealOutcomeView::Revealed(board.fill_region(p)),
        ),
        board.after_reveal(p).revealed.contains(p),
{
    lemma_toggle_twice(board, p);
    board.lemma_region_origin(p);
}

/// What a reveal uncovers hangs together: every square of the region is
/// reached from the origin over squares of the region, each touching the next
/// and each but the last without a mine around it.
pub proof fn lemma_region_connected(board: BoardView, origin: Position, q: Position)
    requires
        board.fill_region(origin).contains(q),
    ensures
        exists|path: Seq<Position>|
            {
                &&& #[trigger] board.fill_path(path)
                &&& path.first() == origin
                &&& path.last() == q
                &&& forall|i: int|
                    0 <= i < path.len() ==> board.fill_region(origin).contains(#[trigger] path[i])
            },
{
    let path = choose|path: Seq<Position>|
        #[trigger] board.fill_path(path) && path.first() == origin && path.last() == q;
    assert forall|i: int| 0 <= i < path.len() implies board.fill_region(origin).contains(
        #[trigger] path[i],
    ) by {
        let part = path.take(i + 1);
        assert forall|k: int| 0 <= k < part.len() - 1 implies board.spreads(#[trigger] part[k])
            && part[k].touches(part[k + 1]) by {
            assert(part[k] == path[k] && part[k + 1] == path[k + 1]);
        }
        assert(board.fill_path(part) && part.first() == origin && part.last() == path[i]);
    }
}

/// What a reveal uncovers is bounded by squares with a mine around them: a
/// square of the region that touches a square still covered and not flagged
/// after the reveal does not spread. And a reveal that starts on a safe
/// square uncovers no mine.
pub proof fn lemma_region_bounded(board: BoardView, origin: Position, inner: Position, outer: Position)
    requires
        board.wf(),
        board.fill_region(origin).contains(inner),
        inner.touches(outer),
    ensures
        board.after_reveal(origin).untouched(outer) ==> !board.spreads(inner),
        !board.is_mine(origin) ==> !board.is_mine(inner),
{
    board.lemma_region_untouched(origin, inner);
    if board.after_reveal(origin).untouched(outer) && board.spreads(inner) {
        board.lemma_region_step(origin, inner, outer);
    }
    if !board.is_mine(origin) {
        board.lemma_region_safe(origin, inner);
    }
}

/// Revealing again what is uncovered changes nothing: on every square that
/// is uncovered after a reveal, a further reveal answers `AlreadyRevealed`
/// and leaves the board as it is.
pub proof fn lemma_reveal_again(board: BoardView, p: Position, q: Position)
    requires
        board.wf(),
        board.after_reveal(p).revealed.contains(q),
    ensures
        board.after_reveal(p).reveal_result(q) == Ok::<RevealOutcomeView, GameError>(
            RevealOutcomeView::AlreadyRevealed,
        ),
        board.after_reveal(p).after_reveal(q) == board.after_reveal(p),
{
    board.lemma_after_reveal(p);
}

/// Outside play a session takes no command: a reveal and a flag are refused
/// with `InvalidPhase` and leave the session as it is.
pub proof fn lemma_commands_need_play(session: SessionView, p: Position)
    requires
        session.phase != Phase::Playing,
    ensures
        session.reveal_result(p) == Err::<RevealOutcomeView, GameError>(GameError::InvalidPhase),
        session.after_reveal(p) == session,
        session.flag_result(p) == Err::<FlagOutcome, GameError>(GameError::InvalidPhase),
        session.after_flag(p) == session,
{
}

/// A reveal and a flag keep a session well-formed: there is a board exactly
/// outside the menu, a game under way has no mine uncovered, a won game has
/// a won board and a lost one an uncovered mine.
pub proof fn lemma_session_stays_wf(session: SessionView, p: Position)
    requires
        session.wf(),
    ensures
        session.after_reveal(p).wf(),
        session.after_flag(p).wf(),
{
    if session.phase == Phase::Playing {
        let board = session.board->0;
        board.lemma_after_reveal(p);
        board.lemma_after_toggle(p);
        lemma_flags_do_not_win(board, board.flagged, p);
        let next = board.after_reveal(p);
        assert forall|q: Position| board.fill_region(p).contains(q) && !board.is_mine(p) implies !board.is_mine(
            q,
        ) by {
            board.lemma_region_safe(p, q);
        }
        if board.untouched(p) {
            board.lemma_region_origin(p);
        }
        let shown = next.with_mines_shown();
        assert(shown.mines() =~= board.mines());
        next.lemma_same_grid(shown);
        if board.reveal_result(p) == Ok::<RevealOutcomeView, GameError>(RevealOutcomeView::HitMine) {
            assert(shown.revealed.contains(p) && shown.mines().contains(p));
        }
    }
}

/// The walk over a board hands out every square once: square `p` has the
/// number `p.y * width + p.x`, which is below the number of squares.
pub proof fn lemma_nth_cell(board: BoardView, p: Position)
    requires
        board.wf(),
        board.in_bounds(p),
    ensures
        p.y * board.width + p.x < board.width * board.height,
        board.nth_cell((p.y * board.width + p.x) as nat) == p,
{
    let w = board.width as int;
    let h = board.height as int;
    let x = p.x as int;
    let y = p.y as int;
    assert(y * w + x < w * h) by (nonlinear_arith)
        requires
            0 <= x < w,
            0 <= y < h,
    ;
    assert(0 <= y * w) by (nonlinear_arith)
        requires
            0 <= y,
            0 <= w,
    ;
    lemma_fundamental_div_mod_converse_div(y * w + x, w, y, x);
    lemma_fundamental_div_mod_converse_mod(y * w + x, w, y, x);
}

} // verus!
