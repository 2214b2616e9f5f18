use minesweeper::Tile;

#[test]
fn bomb_is_shown_as_b() {
    assert_eq!(Tile::Bomb.to_string(), "B");
    assert!(Tile::Bomb.is_bomb());
}

#[test]
fn counts_are_shown_in_decimal() {
    assert_eq!(Tile::Adjacent(0).to_string(), "0");
    assert_eq!(Tile::Adjacent(1).to_string(), "1");
    assert_eq!(Tile::Adjacent(8).to_string(), "8");
    assert_eq!(Tile::Adjacent(9).to_string(), "9");
    assert_eq!(Tile::Adjacent(10).to_string(), "10");
    assert_eq!(Tile::Adjacent(99).to_string(), "99");
    assert_eq!(Tile::Adjacent(100).to_string(), "100");
    assert_eq!(Tile::Adjacent(205).to_string(), "205");
    assert_eq!(Tile::Adjacent(255).to_string(), "255");
    assert!(!Tile::Adjacent(3).is_bomb());
}

#[test]
fn every_count_reads_as_its_number() {
    for n in 0..=255u8 {
        assert_eq!(Tile::Adjacent(n).to_string(), format!("{}", n));
    }
}
