use minesweeper::{Board, Position, Tile};
use rand::rngs::StdRng;
use rand::SeedableRng;

fn p(x: usize, y: usize) -> Position {
    Position::new(x, y)
}

/// The number of mines around `(x, y)`, counted from the tiles themselves.
fn mines_around(board: &Board, x: usize, y: usize) -> u8 {
    let mut n = 0;
    for dy in [-1i64, 0, 1] {
        for dx in [-1i64, 0, 1] {
            if dx == 0 && dy == 0 {
                continue;
            }
            let cx = x as i64 + dx;
            let cy = y as i64 + dy;
            if cx < 0 || cy < 0 {
                continue;
            }
            if board.get(cy as usize, cx as usize) == Some(Tile::Bomb) {
                n += 1;
            }
        }
    }
    n
}

fn assert_counts_exact(board: &Board) {
    for y in 0..board.height() {
        for x in 0..board.width() {
            match board.get(y, x).unwrap() {
                Tile::Bomb => {}
                Tile::Adjacent(count) => assert_eq!(count, mines_around(board, x, y)),
            }
        }
    }
}

fn count_bombs(board: &Board) -> usize {
    let mut n = 0;
    for y in 0..board.height() {
        for x in 0..board.width() {
            if board.get(y, x) == Some(Tile::Bomb) {
                n += 1;
            }
        }
    }
    n
}

#[test]
fn place_mines_places_exactly_the_mines_asked_for() {
    for seed in 0..20u64 {
        let mut rng = StdRng::seed_from_u64(seed);
        let mut board = Board::new(9, 9, 10).unwrap();
        board.place_mines(&mut rng);
        assert_eq!(board.mines_placed(), 10);
        assert_eq!(count_bombs(&board), 10);
        let mines = board.mines_iter();
        assert_eq!(mines.len(), 10);
        for pair in mines.windows(2) {
            assert_ne!(pair[0], pair[1]);
        }
        assert_counts_exact(&board);
    }
}

#[test]
fn place_mines_keeps_counts_exact_on_a_wide_board() {
    for seed in [1u64, 7, 99] {
        let mut rng = StdRng::seed_from_u64(seed);
        let mut board = Board::new(30, 16, 99).unwrap();
        board.place_mines(&mut rng);
        assert_eq!(count_bombs(&board), 99);
        assert_counts_exact(&board);
    }
}

#[test]
fn place_mines_fills_a_board_up_to_its_last_free_square() {
    let mut rng = StdRng::seed_from_u64(3);
    let mut board = Board::new(6, 5, 29).unwrap();
    board.place_mines(&mut rng);
    assert_eq!(count_bombs(&board), 29);
    assert_eq!(board.mines_iter().len(), 29);
    assert_counts_exact(&board);
    let free = board.first_free();
    assert!(matches!(board.get(free.y, free.x), Some(Tile::Adjacent(_))));
}

#[test]
fn place_mines_without_mines_leaves_the_board_blank() {
    let mut rng = StdRng::seed_from_u64(5);
    let mut board = Board::new(4, 4, 0).unwrap();
    board.place_mines(&mut rng);
    assert_eq!(count_bombs(&board), 0);
    assert_eq!(board.to_string(), "0,0,0,0\n0,0,0,0\n0,0,0,0\n0,0,0,0");
}

#[test]
fn place_mines_keeps_mines_placed_by_hand() {
    let mut rng = StdRng::seed_from_u64(11);
    let mut board = Board::new(5, 5, 6).unwrap();
    assert!(board.place_mine(p(0, 0)));
    assert!(board.place_mine(p(4, 4)));
    board.place_mines(&mut rng);
    assert_eq!(count_bombs(&board), 6);
    assert_eq!(board.get(0, 0), Some(Tile::Bomb));
    assert_eq!(board.get(4, 4), Some(Tile::Bomb));
    assert_counts_exact(&board);
}

#[test]
fn add_bomb_adds_one_mine_at_a_time() {
    let mut rng = StdRng::seed_from_u64(21);
    let mut board = Board::new(4, 4, 5).unwrap();
    for expected in 1..=5 {
        board.add_bomb(&mut rng);
        assert_eq!(board.mines_placed(), expected);
        assert_eq!(count_bombs(&board), expected);
        assert_counts_exact(&board);
    }
    let before = board.to_string();
    board.add_bomb(&mut rng);
    assert_eq!(board.mines_placed(), 5);
    assert_eq!(board.to_string(), before);
}

#[test]
fn add_bomb_on_one_column_and_one_row_stays_on_the_grid() {
    let mut rng = StdRng::seed_from_u64(8);
    let mut column = Board::new(1, 12, 11).unwrap();
    column.place_mines(&mut rng);
    assert_eq!(count_bombs(&column), 11);
    let mut row = Board::new(12, 1, 11).unwrap();
    row.place_mines(&mut rng);
    assert_eq!(count_bombs(&row), 11);
    assert_counts_exact(&row);
}

#[test]
fn the_same_seed_gives_the_same_board() {
    let mut first = Board::new(16, 16, 40).unwrap();
    first.place_mines(&mut StdRng::seed_from_u64(2024));
    let mut second = Board::new(16, 16, 40).unwrap();
    second.place_mines(&mut StdRng::seed_from_u64(2024));
    assert_eq!(first.to_string(), second.to_string());
    assert_eq!(first.mines_iter(), second.mines_iter());
}

#[test]
fn different_seeds_spread_the_mines() {
    let mut seen = std::collections::HashSet::new();
    for seed in 0..40u64 {
        let mut board = Board::new(3, 3, 1).unwrap();
        board.place_mines(&mut StdRng::seed_from_u64(seed));
        let mines = board.mines_iter();
        assert_eq!(mines.len(), 1);
        seen.insert((mines[0].x, mines[0].y));
    }
    assert!(seen.len() > 1);
}
