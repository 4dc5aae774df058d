//! Cards: ranks, suits and the role each suit plays in the rules.
use vstd::prelude::*;

verus! {

/// The thirteen ranks, with values from 2 (`Two`) to 14 (`Ace`).
#[derive(Debug, Clone, Copy, PartialEq, Eq, Structural)]
pub enum Rank {
    Ace,
    Two,
    Three,
    Four,
    Five,
    Six,
    Seven,
    Eight,
    Nine,
    Ten,
    Jack,
    Queen,
    King,
}

/// The four suits. Spades and Clubs are monsters, Hearts heal and Diamonds
/// are weapons.
#[derive(Debug, Clone, Copy, PartialEq, Eq, Structural)]
pub enum Suit {
    Spades,
    Hearts,
    Diamonds,
    Clubs,
}

/// A playing card; two cards are equal when rank and suit are.
#[derive(Debug, Clone, Copy, PartialEq, Eq, Structural)]
pub struct Card {
    pub rank: Rank,
    pub suit: Suit,
}

impl Rank {
    /// The numeric value of the rank: 2 to 10 for the number cards, then
    /// 11, 12, 13 and 14 for Jack, Queen, King and Ace.
    pub open spec fn spec_value(self) -> int {
        match self {
            Rank::Two => 2,
            Rank::Three => 3,
            Rank::Four => 4,
            Rank::Five => 5,
            Rank::Six => 6,
            Rank::Seven => 7,
            Rank::Eight => 8,
            Rank::Nine => 9,
            Rank::Ten => 10,
            Rank::Jack => 11,
            Rank::Queen => 12,
            Rank::King => 13,
            Rank::Ace => 14,
        }
    }

    /// The text printed in a card's corner.
    pub open spec fn spec_symbol(self) -> Seq<char> {
        match self {
            Rank::Two => seq!['2'],
            Rank::Three => seq!['3'],
            Rank::Four => seq!['4'],
            Rank::Five => seq!['5'],
            Rank::Six => seq!['6'],
            Rank::Seven => seq!['7'],
            Rank::Eight => seq!['8'],
            Rank::Nine => seq!['9'],
            Rank::Ten => seq!['1', '0'],
            Rank::Jack => seq!['J'],
            Rank::Queen => seq!['Q'],
            Rank::King => seq!['K'],
            Rank::Ace => seq!['A'],
        }
    }

    pub fn symbol(self) -> (r: &'static str)
        ensures
            r@ == self.spec_symbol(),
    {
        match self {
            Rank::Two => {
                proof { reveal_strlit("2"); }
                "2"
            },
            Rank::Three => {
                proof { reveal_strlit("3"); }
                "3"
            },
            Rank::Four => {
                proof { reveal_strlit("4"); }
                "4"
            },
            Rank::Five => {
                proof { reveal_strlit("5"); }
                "5"
            },
            Rank::Six => {
                proof { reveal_strlit("6"); }
                "6"
            },
            Rank::Seven => {
                proof { reveal_strlit("7"); }
                "7"
            },
            Rank::Eight => {
                proof { reveal_strlit("8"); }
                "8"
            },
            Rank::Nine => {
                proof { reveal_strlit("9"); }
                "9"
            },
            Rank::Ten => {
                proof { reveal_strlit("10"); }
                "10"
            },
            Rank::Jack => {
                proof { reveal_strlit("J"); }
                "J"
            },
            Rank::Queen => {
                proof { reveal_strlit("Q"); }
                "Q"
            },
            Rank::King => {
                proof { reveal_strlit("K"); }
                "K"
            },
            Rank::Ace => {
                proof { reveal_strlit("A"); }
                "A"
            },
        }
    }

    pub fn value(self) -> (r: isize)
        ensures
            r == self.spec_value(),
            2 <= r <= 14,
    {
        match self {
            Rank::Two => 2,
            Rank::Three => 3,
            Rank::Four => 4,
            Rank::Five => 5,
            Rank::Six => 6,
            Rank::Seven => 7,
            Rank::Eight => 8,
            Rank::Nine => 9,
            Rank::Ten => 10,
            Rank::Jack => 11,
            Rank::Queen => 12,
            Rank::King => 13,
            Rank::Ace => 14,
        }
    }
}

impl Suit {
    /// Monsters deal damage when fought.
    pub open spec fn is_monster(self) -> bool {
        self is Spades || self is Clubs
    }

    /// The glyph of the suit.
    pub open spec fn spec_symbol(self) -> Seq<char> {
        match self {
            Suit::Spades => seq!['\u{2660}'],
            Suit::Hearts => seq!['\u{2665}'],
            Suit::Diamonds => seq!['\u{2666}'],
            Suit::Clubs => seq!['\u{2663}'],
        }
    }

    pub fn symbol(self) -> (r: &'static str)
        ensures
            r@ == self.spec_symbol(),
    {
        match self {
            Suit::Spades => {
                proof { reveal_strlit("\u{2660}"); }
                "\u{2660}"
            },
            Suit::Hearts => {
                proof { reveal_strlit("\u{2665}"); }
                "\u{2665}"
            },
            Suit::Diamonds => {
                proof { reveal_strlit("\u{2666}"); }
                "\u{2666}"
            },
            Suit::Clubs => {
                proof { reveal_strlit("\u{2663}"); }
                "\u{2663}"
            },
        }
    }
}

impl Card {
    /// The value of the card's rank.
    pub open spec fn value(self) -> int {
        self.rank.spec_value()
    }

    /// Spades and Clubs.
    pub open spec fn is_monster(self) -> bool {
        self.suit.is_monster()
    }
}

} // verus!
