use vstd::prelude::*;

verus! {

/// The four suits. No suit outranks another.
#[derive(Debug, Clone, Copy, PartialEq, Eq, Structural, Hash)]
pub enum Suit {
    Hearts,
    Diamonds,
    Clubs,
    Spades,
}

/// The thirteen ranks, from Two (lowest) to Ace (highest).
#[derive(Debug, Clone, Copy, PartialEq, Eq, Structural, Hash, PartialOrd, Ord)]
pub enum Rank {
    Two,
    Three,
    Four,
    Five,
    Six,
    Seven,
    Eight,
    Nine,
    Ten,
    Jack,
    Queen,
    King,
    Ace,
}

/// Number of distinct ranks.
pub const NUM_RANKS: usize = 13;

/// Number of distinct suits.
pub const NUM_SUITS: usize = 4;

impl Suit {
    /// The suit's position in the order Hearts, Diamonds, Clubs, Spades.
    pub open spec fn index(self) -> int {
        match self {
            Suit::Hearts => 0,
            Suit::Diamonds => 1,
            Suit::Clubs => 2,
            Suit::Spades => 3,
        }
    }

    /// The suit at position `i` (0..4).
    pub open spec fn at(i: int) -> Suit {
        if i == 0 {
            Suit::Hearts
        } else if i == 1 {
            Suit::Diamonds
        } else if i == 2 {
            Suit::Clubs
        } else {
            Suit::Spades
        }
    }

    /// Executable form of `index`.
    pub fn to_index(&self) -> (r: usize)
        ensures
            r as int == self.index(),
            r < NUM_SUITS,
    {
        match self {
            Suit::Hearts => 0,
            Suit::Diamonds => 1,
            Suit::Clubs => 2,
            Suit::Spades => 3,
        }
    }
}

impl Rank {
    /// The rank's ordinal: Two is 0, Ace is 12.
    pub open spec fn ord(self) -> int {
        match self {
            Rank::Two => 0,
            Rank::Three => 1,
            Rank::Four => 2,
            Rank::Five => 3,
            Rank::Six => 4,
            Rank::Seven => 5,
            Rank::Eight => 6,
            Rank::Nine => 7,
            Rank::Ten => 8,
            Rank::Jack => 9,
            Rank::Queen => 10,
            Rank::King => 11,
            Rank::Ace => 12,
        }
    }

    /// The rank whose ordinal is `v`, for `v` in 0..13.
    pub open spec fn at(v: int) -> Rank {
        if v == 0 {
            Rank::Two
        } else if v == 1 {
            Rank::Three
        } else if v == 2 {
            Rank::Four
        } else if v == 3 {
            Rank::Five
        } else if v == 4 {
            Rank::Six
        } else if v == 5 {
            Rank::Seven
        } else if v == 6 {
            Rank::Eight
        } else if v == 7 {
            Rank::Nine
        } else if v == 8 {
            Rank::Ten
        } else if v == 9 {
            Rank::Jack
        } else if v == 10 {
            Rank::Queen
        } else if v == 11 {
            Rank::King
        } else {
            Rank::Ace
        }
    }

    /// The rank with ordinal `value`, or `None` when `value` is 13 or more.
    pub fn from_u8(value: u8) -> (r: Option<Rank>)
        ensures
            value < 13 ==> r == Some(Rank::at(value as int)),
            value >= 13 ==> r.is_none(),
    {
        match value {
            0 => Some(Rank::Two),
            1 => Some(Rank::Three),
            2 => Some(Rank::Four),
            3 => Some(Rank::Five),
            4 => Some(Rank::Six),
            5 => Some(Rank::Seven),
            6 => Some(Rank::Eight),
            7 => Some(Rank::Nine),
            8 => Some(Rank::Ten),
            9 => Some(Rank::Jack),
            10 => Some(Rank::Queen),
            11 => Some(Rank::King),
            12 => Some(Rank::Ace),
            _ => None,
        }
    }

    /// The rank's ordinal, 0 for Two up to 12 for Ace.
    pub fn to_u8(&self) -> (r: u8)
        ensures
            r as int == self.ord(),
            r < 13,
    {
        match self {
            Rank::Two => 0,
            Rank::Three => 1,
            Rank::Four => 2,
            Rank::Five => 3,
            Rank::Six => 4,
            Rank::Seven => 5,
            Rank::Eight => 6,
            Rank::Nine => 7,
            Rank::Ten => 8,
            Rank::Jack => 9,
            Rank::Queen => 10,
            Rank::King => 11,
            Rank::Ace => 12,
        }
    }
}

/// One playing card. When `is_joker` holds, `rank` and `suit` are placeholders
/// that the evaluation ignores.
#[derive(Debug, Clone, Copy, PartialEq, Eq, Structural)]
pub struct Card {
    pub rank: Rank,
    pub suit: Suit,
    pub is_joker: bool,
}

impl Card {
    pub fn new(rank: Rank, suit: Suit, is_joker: bool) -> (c: Card)
        ensures
            c == (Card { rank, suit, is_joker }),
    {
        Card { rank, suit, is_joker }
    }
}

} // verus!
