use minesweeper::Position;

fn p(x: usize, y: usize) -> Position {
    Position::new(x, y)
}

#[test]
fn position_new_keeps_coordinates() {
    let pos = Position::new(3, 7);
    assert_eq!(pos.x, 3);
    assert_eq!(pos.y, 7);
    assert_eq!(pos, Position { x: 3, y: 7 });
}

#[test]
fn surrounding_of_an_inner_square_is_the_eight_around_it() {
    let around = p(2, 2).get_surrounding(5, 5);
    assert_eq!(
        around,
        vec![p(1, 1), p(2, 1), p(3, 1), p(1, 2), p(3, 2), p(1, 3), p(2, 3), p(3, 3)]
    );
}

#[test]
fn surrounding_never_holds_the_square_itself() {
    for y in 0..4 {
        for x in 0..6 {
            let around = p(x, y).get_surrounding(6, 4);
            assert!(!around.contains(&p(x, y)));
            assert!(around.len() <= 8);
        }
    }
}

#[test]
fn surrounding_of_corners_has_three_squares() {
    assert_eq!(p(0, 0).get_surrounding(4, 3), vec![p(1, 0), p(0, 1), p(1, 1)]);
    assert_eq!(p(3, 0).get_surrounding(4, 3), vec![p(2, 0), p(2, 1), p(3, 1)]);
    assert_eq!(p(0, 2).get_surrounding(4, 3), vec![p(0, 1), p(1, 1), p(1, 2)]);
    assert_eq!(p(3, 2).get_surrounding(4, 3), vec![p(2, 1), p(3, 1), p(2, 2)]);
}

#[test]
fn surrounding_of_an_edge_square_has_five_squares() {
    assert_eq!(
        p(2, 0).get_surrounding(5, 5),
        vec![p(1, 0), p(3, 0), p(1, 1), p(2, 1), p(3, 1)]
    );
    assert_eq!(
        p(0, 2).get_surrounding(5, 5),
        vec![p(0, 1), p(1, 1), p(1, 2), p(0, 3), p(1, 3)]
    );
}

#[test]
fn surrounding_on_a_single_square_grid_is_empty() {
    assert!(p(0, 0).get_surrounding(1, 1).is_empty());
    assert!(p(0, 0).get_surrounding(0, 0).is_empty());
}

#[test]
fn surrounding_of_a_square_off_the_grid_is_clipped() {
    assert_eq!(p(3, 1).get_surrounding(3, 3), vec![p(2, 0), p(2, 1), p(2, 2)]);
    assert!(p(9, 9).get_surrounding(3, 3).is_empty());
    assert_eq!(p(3, 3).get_surrounding(3, 3), vec![p(2, 2)]);
}

#[test]
fn surrounding_at_the_largest_address_does_not_overflow() {
    let far = p(usize::MAX, usize::MAX);
    assert!(far.get_surrounding(10, 10).is_empty());
    assert_eq!(
        far.get_surrounding(usize::MAX, usize::MAX),
        vec![p(usize::MAX - 1, usize::MAX - 1)]
    );
    assert!(far.neighbors_orthogonal(usize::MAX, usize::MAX).is_empty());
}

#[test]
fn orthogonal_of_an_inner_square_is_the_four_beside_it() {
    assert_eq!(
        p(2, 2).neighbors_orthogonal(5, 5),
        vec![p(2, 1), p(1, 2), p(3, 2), p(2, 3)]
    );
}

#[test]
fn orthogonal_is_clipped_at_edges_and_corners() {
    assert_eq!(p(0, 0).neighbors_orthogonal(3, 3), vec![p(1, 0), p(0, 1)]);
    assert_eq!(p(2, 2).neighbors_orthogonal(3, 3), vec![p(2, 1), p(1, 2)]);
    assert_eq!(p(1, 0).neighbors_orthogonal(3, 3), vec![p(0, 0), p(2, 0), p(1, 1)]);
    assert!(p(0, 0).neighbors_orthogonal(1, 1).is_empty());
    assert_eq!(p(3, 1).neighbors_orthogonal(3, 3), vec![p(2, 1)]);
    assert_eq!(p(1, 3).neighbors_orthogonal(3, 3), vec![p(1, 2)]);
}

#[test]
fn orthogonal_squares_are_among_the_surrounding_ones() {
    for y in 0..4 {
        for x in 0..4 {
            let around = p(x, y).get_surrounding(4, 4);
            for q in p(x, y).neighbors_orthogonal(4, 4) {
                assert!(around.contains(&q));
            }
        }
    }
}
