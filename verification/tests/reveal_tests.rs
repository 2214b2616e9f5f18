use minesweeper::{Board, CellState, FlagOutcome, GameError, Position, RevealOutcome, Tile};

fn p(x: usize, y: usize) -> Position {
    Position::new(x, y)
}

fn board_with_mines(width: usize, height: usize, mines: &[(usize, usize)]) -> Board {
    let mut board = Board::new(width, height, mines.len()).unwrap();
    for &(x, y) in mines {
        assert!(board.place_mine(p(x, y)));
    }
    board
}

fn revealed_cells(outcome: Result<RevealOutcome, GameError>) -> Vec<Position> {
    match outcome {
        Ok(RevealOutcome::Revealed(cells)) => cells,
        other => panic!("expected uncovered squares, got {:?}", other),
    }
}

fn sorted(mut cells: Vec<Position>) -> Vec<Position> {
    cells.sort_by_key(|c| (c.y, c.x));
    cells
}

#[test]
fn reveal_from_a_corner_cascades_around_a_centre_mine() {
    let mut board = board_with_mines(5, 5, &[(2, 2)]);
    let cells = revealed_cells(board.reveal_cell(p(0, 0)));
    assert_eq!(cells[0], p(0, 0));
    assert_eq!(cells.len(), 24);
    let mut expected = Vec::new();
    for y in 0..5 {
        for x in 0..5 {
            if (x, y) != (2, 2) {
                expected.push(p(x, y));
            }
        }
    }
    assert_eq!(sorted(cells), expected);
    assert!(board.get_covered(2, 2));
    for y in 0..5 {
        for x in 0..5 {
            if (x, y) != (2, 2) {
                assert!(!board.get_covered(y, x));
            }
        }
    }
    assert_eq!(board.query_cell(p(1, 1)), Ok(CellState::Revealed(Tile::Adjacent(1))));
    assert_eq!(board.query_cell(p(0, 4)), Ok(CellState::Revealed(Tile::Adjacent(0))));
    assert!(board.is_won());
}

#[test]
fn reveal_of_a_numbered_square_uncovers_it_alone() {
    let mut board = board_with_mines(5, 5, &[(2, 2)]);
    let cells = revealed_cells(board.reveal_cell(p(1, 1)));
    assert_eq!(cells, vec![p(1, 1)]);
    for y in 0..5 {
        for x in 0..5 {
            assert_eq!(board.get_covered(y, x), (x, y) != (1, 1));
        }
    }
    assert!(!board.is_won());
}

#[test]
fn cascade_stops_at_numbered_squares() {
    // A wall of numbers in columns 2 to 4 parts the left of the board from
    // the right.
    let mut board = board_with_mines(7, 3, &[(3, 0), (3, 1), (3, 2)]);
    let cells = revealed_cells(board.reveal_cell(p(0, 1)));
    let expected = vec![
        p(0, 0), p(1, 0), p(2, 0),
        p(0, 1), p(1, 1), p(2, 1),
        p(0, 2), p(1, 2), p(2, 2),
    ];
    assert_eq!(sorted(cells), expected);
    assert_eq!(board.get(1, 2), Some(Tile::Adjacent(3)));
    assert_eq!(board.get(0, 2), Some(Tile::Adjacent(2)));
    for y in 0..3 {
        for x in 3..7 {
            assert!(board.get_covered(y, x));
        }
    }
    assert!(!board.is_won());
    let right = revealed_cells(board.reveal_cell(p(6, 2)));
    assert_eq!(right.len(), 9);
    assert!(board.is_won());
}

#[test]
fn cascade_passes_over_flagged_squares() {
    let mut board = board_with_mines(5, 1, &[(4, 0)]);
    assert_eq!(board.toggle_flag(p(1, 0)), Ok(FlagOutcome::Flagged));
    let cells = revealed_cells(board.reveal_cell(p(0, 0)));
    assert_eq!(cells, vec![p(0, 0)]);
    assert!(board.get_covered(0, 1));
    assert!(board.get_flagged(0, 1));
    assert!(board.get_covered(0, 2));
    // With the flag off, the square can be revealed and the cascade goes on.
    assert_eq!(board.toggle_flag(p(1, 0)), Ok(FlagOutcome::Unflagged));
    let rest = revealed_cells(board.reveal_cell(p(1, 0)));
    assert_eq!(sorted(rest), vec![p(1, 0), p(2, 0), p(3, 0)]);
    assert!(board.is_won());
}

#[test]
fn cascade_passes_over_squares_uncovered_before() {
    let mut board = board_with_mines(5, 1, &[(4, 0)]);
    board.remove_covered_by_pos(&p(1, 0));
    let cells = revealed_cells(board.reveal_cell(p(0, 0)));
    assert_eq!(cells, vec![p(0, 0)]);
    assert!(board.get_covered(0, 2));
}

#[test]
fn reveal_again_is_a_no_op() {
    let mut board = board_with_mines(5, 5, &[(4, 4)]);
    let first = revealed_cells(board.reveal_cell(p(0, 0)));
    assert_eq!(first.len(), 24);
    let snapshot: Vec<_> = (0..5)
        .flat_map(|y| (0..5).map(move |x| (x, y)))
        .map(|(x, y)| board.query_cell(p(x, y)))
        .collect();
    for &cell in &first {
        assert_eq!(board.reveal_cell(cell), Ok(RevealOutcome::AlreadyRevealed));
    }
    let after: Vec<_> = (0..5)
        .flat_map(|y| (0..5).map(move |x| (x, y)))
        .map(|(x, y)| board.query_cell(p(x, y)))
        .collect();
    assert_eq!(snapshot, after);
}

#[test]
fn reveal_of_a_mine_hits_it() {
    let mut board = board_with_mines(5, 5, &[(2, 2)]);
    assert_eq!(board.reveal_cell(p(2, 2)), Ok(RevealOutcome::HitMine));
    assert_eq!(board.query_cell(p(2, 2)), Ok(CellState::Revealed(Tile::Bomb)));
    for y in 0..5 {
        for x in 0..5 {
            assert_eq!(board.get_covered(y, x), (x, y) != (2, 2));
        }
    }
    assert_eq!(board.reveal_cell(p(2, 2)), Ok(RevealOutcome::AlreadyRevealed));
    assert!(!board.is_won());
}

#[test]
fn reveal_off_the_grid_is_out_of_bounds() {
    let mut board = board_with_mines(5, 5, &[(2, 2)]);
    assert_eq!(board.reveal_cell(p(5, 0)), Err(GameError::OutOfBounds));
    assert_eq!(board.reveal_cell(p(0, 5)), Err(GameError::OutOfBounds));
    assert_eq!(board.reveal_cell(p(usize::MAX, usize::MAX)), Err(GameError::OutOfBounds));
    for y in 0..5 {
        for x in 0..5 {
            assert!(board.get_covered(y, x));
        }
    }
}

#[test]
fn flagged_square_is_not_revealed_until_unflagged() {
    let mut board = board_with_mines(5, 5, &[(2, 2)]);
    assert_eq!(board.toggle_flag(p(1, 1)), Ok(FlagOutcome::Flagged));
    assert_eq!(board.reveal_cell(p(1, 1)), Ok(RevealOutcome::Flagged));
    assert!(board.get_covered(1, 1));
    assert!(board.get_flagged(1, 1));
    assert_eq!(board.toggle_flag(p(1, 1)), Ok(FlagOutcome::Unflagged));
    assert_eq!(board.reveal_cell(p(1, 1)), Ok(RevealOutcome::Revealed(vec![p(1, 1)])));
    assert!(!board.get_covered(1, 1));
}

#[test]
fn a_flagged_mine_is_not_hit() {
    let mut board = board_with_mines(3, 3, &[(1, 1)]);
    assert_eq!(board.toggle_flag(p(1, 1)), Ok(FlagOutcome::Flagged));
    assert_eq!(board.reveal_cell(p(1, 1)), Ok(RevealOutcome::Flagged));
    assert!(board.get_covered(1, 1));
}

#[test]
fn is_won_needs_every_safe_square() {
    let mut board = board_with_mines(2, 2, &[(0, 0)]);
    assert!(!board.is_won());
    assert_eq!(board.reveal_cell(p(1, 0)), Ok(RevealOutcome::Revealed(vec![p(1, 0)])));
    assert!(!board.is_won());
    assert_eq!(board.reveal_cell(p(0, 1)), Ok(RevealOutcome::Revealed(vec![p(0, 1)])));
    assert!(!board.is_won());
    assert_eq!(board.reveal_cell(p(1, 1)), Ok(RevealOutcome::Revealed(vec![p(1, 1)])));
    assert!(board.is_won());
}

#[test]
fn flags_do_not_change_is_won() {
    let mut board = board_with_mines(2, 1, &[(0, 0)]);
    assert_eq!(board.toggle_flag(p(0, 0)), Ok(FlagOutcome::Flagged));
    assert!(!board.is_won());
    assert_eq!(board.reveal_cell(p(1, 0)), Ok(RevealOutcome::Revealed(vec![p(1, 0)])));
    assert!(board.is_won());
    assert_eq!(board.toggle_flag(p(0, 0)), Ok(FlagOutcome::Unflagged));
    assert!(board.is_won());
    assert_eq!(board.toggle_flag(p(0, 0)), Ok(FlagOutcome::Flagged));
    assert!(board.is_won());
}

#[test]
fn is_won_looks_at_the_safe_squares_only() {
    let mut board = board_with_mines(2, 1, &[(0, 0)]);
    assert_eq!(board.reveal_cell(p(0, 0)), Ok(RevealOutcome::HitMine));
    assert!(!board.is_won());
    assert_eq!(board.reveal_cell(p(1, 0)), Ok(RevealOutcome::Revealed(vec![p(1, 0)])));
    assert!(board.is_won());
}

#[test]
fn a_board_without_mines_is_won_by_one_reveal() {
    let mut board = Board::new(4, 3, 0).unwrap();
    assert!(!board.is_won());
    let cells = revealed_cells(board.reveal_cell(p(2, 1)));
    assert_eq!(cells.len(), 12);
    assert_eq!(cells[0], p(2, 1));
    assert!(board.is_won());
}

#[test]
fn uncover_mines_shows_the_mines_without_a_flag() {
    let mut board = board_with_mines(3, 3, &[(0, 0), (2, 2), (1, 0)]);
    assert_eq!(board.toggle_flag(p(2, 2)), Ok(FlagOutcome::Flagged));
    board.uncover_mines();
    assert!(!board.get_covered(0, 0));
    assert!(!board.get_covered(0, 1));
    assert!(board.get_covered(2, 2));
    assert!(board.get_flagged(2, 2));
    for (x, y) in [(2, 0), (0, 1), (1, 1), (2, 1), (0, 2), (1, 2)] {
        assert!(board.get_covered(y, x));
    }
}

#[test]
fn large_board_cascade_uncovers_everything_safe() {
    let mut board = board_with_mines(60, 40, &[(59, 39)]);
    let cells = revealed_cells(board.reveal_cell(p(0, 0)));
    assert_eq!(cells.len(), 60 * 40 - 1);
    assert!(board.is_won());
}
