//! What a square holds: a mine, or the number of mines around it.

use vstd::prelude::*;

verus! {

/// The ground truth of one square.
#[derive(Debug, Clone, Copy, PartialEq, Eq, Structural)]
pub enum Tile {
    /// A safe square and the number of mines among its up to eight neighbours.
    Adjacent(u8),
    /// A mine.
    Bomb,
}

/// The character of one decimal digit.
pub open spec fn digit(d: nat) -> char {
    if d == 0 {
        '0'
    } else if d == 1 {
        '1'
    } else if d == 2 {
        '2'
    } else if d == 3 {
        '3'
    } else if d == 4 {
        '4'
    } else if d == 5 {
        '5'
    } else if d == 6 {
        '6'
    } else if d == 7 {
        '7'
    } else if d == 8 {
        '8'
    } else {
        '9'
    }
}

/// The decimal numeral of `n`, without leading zeros.
pub open spec fn decimal(n: nat) -> Seq<char>
    decreases n,
{
    if n < 10 {
        seq![digit(n)]
    } else {
        decimal(n / 10).push(digit(n % 10))
    }
}

fn digit_str(d: u8) -> (s: &'static str)
    requires
        d < 10,
    ensures
        s@ == seq![digit(d as nat)],
{
    proof {
        reveal_strlit("0");
        reveal_strlit("1");
        reveal_strlit("2");
        reveal_strlit("3");
        reveal_strlit("4");
        reveal_strlit("5");
        reveal_strlit("6");
        reveal_strlit("7");
        reveal_strlit("8");
        reveal_strlit("9");
    }
    let s = if d == 0 {
        "0"
    } else if d == 1 {
        "1"
    } else if d == 2 {
        "2"
    } else if d == 3 {
        "3"
    } else if d == 4 {
        "4"
    } else if d == 5 {
        "5"
    } else if d == 6 {
        "6"
    } else if d == 7 {
        "7"
    } else if d == 8 {
        "8"
    } else {
        "9"
    };
    assert(s@ =~= seq![digit(d as nat)]);
    s
}

impl Tile {
    /// The text shown for a tile: `B` for a mine, the count in decimal otherwise.
    pub open spec fn label(self) -> Seq<char> {
        match self {
            Tile::Bomb => seq!['B'],
            Tile::Adjacent(count) => decimal(count as nat),
        }
    }

    /// The tile once one more mine lies next to it: a mine stays a mine, a
    /// count grows by one.
    pub open spec fn plus_one(self) -> Tile {
        match self {
            Tile::Bomb => Tile::Bomb,
            Tile::Adjacent(count) => Tile::Adjacent((count + 1) as u8),
        }
    }

    pub fn is_bomb(&self) -> (b: bool)
        ensures
            b == (*self is Bomb),
    {
        match self {
            Tile::Bomb => true,
            Tile::Adjacent(_) => false,
        }
    }

    /// The tile as text.
    pub fn to_string(&self) -> (s: String)
        ensures
            s@ == self.label(),
    {
        match *self {
            Tile::Bomb => {
                proof {
                    reveal_strlit("B");
                }
                let s = String::from_str("B");
                assert(s@ =~= seq!['B']);
                s
            },
            Tile::Adjacent(count) => {
                let mut s = String::new();
                if count >= 100 {
                    s.append(digit_str(count / 100));
                }
                if count >= 10 {
                    s.append(digit_str((count / 10) % 10));
                }
                s.append(digit_str(count % 10));
                proof {
                    reveal_with_fuel(decimal, 3);
                    assert(s@ =~= decimal(count as nat));
                }
                s
            },
        }
    }
}

} // verus!
