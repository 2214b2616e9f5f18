//! What the commands of the game answer.

use vstd::prelude::*;
use crate::position::Position;
use crate::tile::Tile;

verus! {

/// Why a command was refused.
#[derive(Debug, Clone, Copy, PartialEq, Eq, Structural)]
pub enum GameError {
    /// The grid has no square, or has no room for the mines asked for.
    InvalidConfiguration,
    /// The address lies outside the grid.
    OutOfBounds,
    /// The session is not in the phase that the command needs.
    InvalidPhase,
}

/// What a reveal did.
#[derive(Debug, Clone, PartialEq, Eq)]
pub enum RevealOutcome {
    /// The square was uncovered before; nothing changed.
    AlreadyRevealed,
    /// The square carries a flag; nothing changed.
    Flagged,
    /// The square holds a mine and is now uncovered.
    HitMine,
    /// The squares that this reveal uncovered, the chosen one first.
    Revealed(Vec<Position>),
}

impl View for RevealOutcome {
    type V = crate::model::RevealOutcomeView;

    open spec fn view(&self) -> crate::model::RevealOutcomeView {
        match self {
            RevealOutcome::AlreadyRevealed => crate::model::RevealOutcomeView::AlreadyRevealed,
            RevealOutcome::Flagged => crate::model::RevealOutcomeView::Flagged,
            RevealOutcome::HitMine => crate::model::RevealOutcomeView::HitMine,
            RevealOutcome::Revealed(cells) => crate::model::RevealOutcomeView::Revealed(
                cells@.to_set(),
            ),
        }
    }
}

/// What toggling a flag did.
#[derive(Debug, Clone, Copy, PartialEq, Eq, Structural)]
pub enum FlagOutcome {
    /// The square is uncovered and cannot carry a flag; nothing changed.
    CannotFlagRevealed,
    /// The square now carries a flag.
    Flagged,
    /// The square no longer carries a flag.
    Unflagged,
}

/// What a player sees of one square.
#[derive(Debug, Clone, Copy, PartialEq, Eq, Structural)]
pub enum CellState {
    Covered,
    Revealed(Tile),
    Flagged,
}

} // verus!
