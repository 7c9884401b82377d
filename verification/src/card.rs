//! The card model: suits, ranks, cards, the position addressing scheme,
//! placement-legality predicates, and the standard 52-card deck.

use vstd::prelude::*;
use vstd::string::StringExecFns;

use crate::text::{dec_spec, u64_string};

verus! {

/// One of the four French suits.
#[derive(Debug, Clone, Copy, PartialEq, Eq, Hash, Structural)]
pub enum Suit {
    Hearts,
    Diamonds,
    Clubs,
    Spades,
}

/// A card rank, Ace (lowest, value 1) through King (value 13).
#[derive(Debug, Clone, Copy, PartialEq, Eq, PartialOrd, Ord, Hash, Structural)]
pub enum Rank {
    Ace,
    Two,
    Three,
    Four,
    Five,
    Six,
    Seven,
    Eight,
    Nine,
    Ten,
    Jack,
    Queen,
    King,
}

/// A playing card: suit, rank, and whether it lies face-up.
#[derive(Debug, Clone, Copy, PartialEq, Eq, Hash, Structural)]
pub struct Card {
    pub suit: Suit,
    pub rank: Rank,
    pub face_up: bool,
}

/// Addresses any card slot of the game.
#[derive(Debug, Clone, Copy, PartialEq, Eq, Structural)]
pub enum Position {
    /// Tableau column (0..6) and index within the column
    Tableau(usize, usize),
    /// Foundation pile index (0..3)
    Foundation(usize),
    /// The stock pile
    Stock,
    /// Index in the waste pile
    Waste(usize),
}

impl Suit {
    /// Red suits are Hearts and Diamonds.
    pub open spec fn spec_is_red(self) -> bool {
        self is Hearts || self is Diamonds
    }

    /// The characters of this suit's symbol.
    pub open spec fn spec_symbol(self) -> Seq<char> {
        match self {
            Suit::Hearts => "\u{2665}"@,
            Suit::Diamonds => "\u{2666}"@,
            Suit::Clubs => "\u{2663}"@,
            Suit::Spades => "\u{2660}"@,
        }
    }

    /// Get all suits in order
    pub fn all() -> (r: [Suit; 4])
        ensures
            r@ == seq![Suit::Hearts, Suit::Diamonds, Suit::Clubs, Suit::Spades],
    {
        let r = [Suit::Hearts, Suit::Diamonds, Suit::Clubs, Suit::Spades];
        proof {
            assert(r@ =~= seq![Suit::Hearts, Suit::Diamonds, Suit::Clubs, Suit::Spades]);
        }
        r
    }

    /// Get the symbol for this suit
    pub fn symbol(&self) -> (r: &'static str)
        ensures
            r@ == self.spec_symbol(),
    {
        match self {
            Suit::Hearts => "\u{2665}",
            Suit::Diamonds => "\u{2666}",
            Suit::Clubs => "\u{2663}",
            Suit::Spades => "\u{2660}",
        }
    }
}

impl Rank {
    /// The numeric value of the rank: Ace is 1, King is 13.
    pub open spec fn spec_value(self) -> int {
        match self {
            Rank::Ace => 1,
            Rank::Two => 2,
            Rank::Three => 3,
            Rank::Four => 4,
            Rank::Five => 5,
            Rank::Six => 6,
            Rank::Seven => 7,
            Rank::Eight => 8,
            Rank::Nine => 9,
            Rank::Ten => 10,
            Rank::Jack => 11,
            Rank::Queen => 12,
            Rank::King => 13,
        }
    }

    /// The characters of this rank's display string.
    pub open spec fn spec_display(self) -> Seq<char> {
        match self {
            Rank::Ace => "A"@,
            Rank::Two => "2"@,
            Rank::Three => "3"@,
            Rank::Four => "4"@,
            Rank::Five => "5"@,
            Rank::Six => "6"@,
            Rank::Seven => "7"@,
            Rank::Eight => "8"@,
            Rank::Nine => "9"@,
            Rank::Ten => "10"@,
            Rank::Jack => "J"@,
            Rank::Queen => "Q"@,
            Rank::King => "K"@,
        }
    }

    /// The numeric value of the rank: Ace is 1, King is 13.
    pub fn value(self) -> (v: u8)
        ensures
            v as int == self.spec_value(),
            1 <= v <= 13,
    {
        match self {
            Rank::Ace => 1,
            Rank::Two => 2,
            Rank::Three => 3,
            Rank::Four => 4,
            Rank::Five => 5,
            Rank::Six => 6,
            Rank::Seven => 7,
            Rank::Eight => 8,
            Rank::Nine => 9,
            Rank::Ten => 10,
            Rank::Jack => 11,
            Rank::Queen => 12,
            Rank::King => 13,
        }
    }

    /// Get all ranks in order
    pub fn all() -> (r: [Rank; 13])
        ensures
            r@ == seq![
                Rank::Ace, Rank::Two, Rank::Three, Rank::Four, Rank::Five,
                Rank::Six, Rank::Seven, Rank::Eight, Rank::Nine, Rank::Ten,
                Rank::Jack, Rank::Queen, Rank::King,
            ],
    {
        let r = [
            Rank::Ace, Rank::Two, Rank::Three, Rank::Four, Rank::Five,
            Rank::Six, Rank::Seven, Rank::Eight, Rank::Nine, Rank::Ten,
            Rank::Jack, Rank::Queen, Rank::King,
        ];
        proof {
            assert(r@ =~= seq![
                Rank::Ace, Rank::Two, Rank::Three, Rank::Four, Rank::Five,
                Rank::Six, Rank::Seven, Rank::Eight, Rank::Nine, Rank::Ten,
                Rank::Jack, Rank::Queen, Rank::King,
            ]);
        }
        r
    }

    /// Get the display string for this rank
    pub fn display(&self) -> (r: &'static str)
        ensures
            r@ == self.spec_display(),
    {
        match self {
            Rank::Ace => "A",
            Rank::Two => "2",
            Rank::Three => "3",
            Rank::Four => "4",
            Rank::Five => "5",
            Rank::Six => "6",
            Rank::Seven => "7",
            Rank::Eight => "8",
            Rank::Nine => "9",
            Rank::Ten => "10",
            Rank::Jack => "J",
            Rank::Queen => "Q",
            Rank::King => "K",
        }
    }
}

impl Card {
    /// Red cards are Hearts and Diamonds.
    pub open spec fn spec_is_red(self) -> bool {
        self.suit.spec_is_red()
    }

    /// A card may rest on a face-up tableau card of the opposite color and
    /// of rank exactly one higher.
    pub open spec fn spec_can_place_on_tableau(self, other: Card) -> bool {
        &&& other.face_up
        &&& self.spec_is_red() != other.spec_is_red()
        &&& self.rank.spec_value() == other.rank.spec_value() - 1
    }

    /// Only an Ace may start an empty foundation; afterwards the next card
    /// must share the suit and be exactly one rank higher than the top.
    pub open spec fn spec_can_place_on_foundation(self, foundation_top: Option<Card>) -> bool {
        match foundation_top {
            None => self.rank is Ace,
            Some(top) => self.suit == top.suit
                && self.rank.spec_value() == top.rank.spec_value() + 1,
        }
    }

    /// The characters a face-up card displays as; a face-down card shows
    /// the card-back symbol.
    pub open spec fn spec_display(self) -> Seq<char> {
        if self.face_up {
            self.rank.spec_display() + self.suit.spec_symbol()
        } else {
            "\u{1F0A0}"@
        }
    }

    pub fn new(suit: Suit, rank: Rank, face_up: bool) -> (c: Card)
        ensures
            c == (Card { suit, rank, face_up }),
    {
        Card { suit, rank, face_up }
    }

    /// Check if this card is red (Hearts or Diamonds)
    pub fn is_red(&self) -> (r: bool)
        ensures
            r == self.spec_is_red(),
    {
        matches!(self.suit, Suit::Hearts | Suit::Diamonds)
    }

    /// Check if this card is black (Clubs or Spades)
    pub fn is_black(&self) -> (r: bool)
        ensures
            r == !self.spec_is_red(),
    {
        matches!(self.suit, Suit::Clubs | Suit::Spades)
    }

    /// Check if this card can be placed on another card in tableau
    /// (alternating colors, descending rank)
    pub fn can_place_on_tableau(&self, other: &Card) -> (r: bool)
        ensures
            r == self.spec_can_place_on_tableau(*other),
    {
        if !other.face_up {
            return false;
        }
        let colors_alternate = (self.is_red() && other.is_black())
            || (self.is_black() && other.is_red());
        let rank_valid = self.rank.value() == other.rank.value() - 1;
        colors_alternate && rank_valid
    }

    /// Check if this card can be placed on a foundation pile
    pub fn can_place_on_foundation(&self, foundation_top: Option<&Card>) -> (r: bool)
        ensures
            r == self.spec_can_place_on_foundation(copied_top(foundation_top)),
    {
        match foundation_top {
            None => matches!(self.rank, Rank::Ace),
            Some(top) => {
                self.suit == top.suit && self.rank.value() == top.rank.value() + 1
            },
        }
    }

    /// Flip the card (change face_up state)
    pub fn flip(&mut self)
        ensures
            *final(self) == (Card { face_up: !old(self).face_up, ..*old(self) }),
    {
        self.face_up = !self.face_up;
    }

    /// Get a flipped version of this card
    pub fn flipped(&self) -> (c: Card)
        ensures
            c == (Card { face_up: !self.face_up, ..*self }),
    {
        Card { suit: self.suit, rank: self.rank, face_up: !self.face_up }
    }

    /// The display string: rank then suit symbol for a face-up card,
    /// the card-back symbol otherwise.
    pub fn display_string(&self) -> (r: String)
        ensures
            r@ == self.spec_display(),
    {
        if self.face_up {
            let mut s = self.rank.display().to_owned();
            s.append(self.suit.symbol());
            s
        } else {
            "\u{1F0A0}".to_owned()
        }
    }
}

/// The card behind an optional reference, by value.
pub open spec fn copied_top(t: Option<&Card>) -> Option<Card> {
    match t {
        None => None,
        Some(c) => Some(*c),
    }
}

impl Position {
    /// The characters of this position's display string.
    pub open spec fn spec_display(self) -> Seq<char> {
        match self {
            Position::Tableau(col, idx) =>
                "Tableau("@ + dec_spec(col as int) + ", "@ + dec_spec(idx as int) + ")"@,
            Position::Foundation(idx) => "Foundation("@ + dec_spec(idx as int) + ")"@,
            Position::Stock => "Stock"@,
            Position::Waste(idx) => "Waste("@ + dec_spec(idx as int) + ")"@,
        }
    }

    /// The display string, e.g. `Tableau(2, 5)` or `Stock`.
    pub fn display_string(&self) -> (r: String)
        ensures
            r@ == self.spec_display(),
    {
        match self {
            Position::Tableau(col, idx) => {
                let mut s = "Tableau(".to_owned();
                s.append(u64_string(*col as u64).as_str());
                s.append(", ");
                s.append(u64_string(*idx as u64).as_str());
                s.append(")");
                s
            },
            Position::Foundation(idx) => {
                let mut s = "Foundation(".to_owned();
                s.append(u64_string(*idx as u64).as_str());
                s.append(")");
                s
            },
            Position::Stock => "Stock".to_owned(),
            Position::Waste(idx) => {
                let mut s = "Waste(".to_owned();
                s.append(u64_string(*idx as u64).as_str());
                s.append(")");
                s
            },
        }
    }
}

/// The suit used for deck index `i / 13`.
pub open spec fn spec_suit_of(i: int) -> Suit {
    if i == 0 {
        Suit::Hearts
    } else if i == 1 {
        Suit::Diamonds
    } else if i == 2 {
        Suit::Clubs
    } else {
        Suit::Spades
    }
}

/// The rank of value `v` (1 is Ace, 13 is King).
pub open spec fn spec_rank_of(v: int) -> Rank {
    if v <= 1 {
        Rank::Ace
    } else if v == 2 {
        Rank::Two
    } else if v == 3 {
        Rank::Three
    } else if v == 4 {
        Rank::Four
    } else if v == 5 {
        Rank::Five
    } else if v == 6 {
        Rank::Six
    } else if v == 7 {
        Rank::Seven
    } else if v == 8 {
        Rank::Eight
    } else if v == 9 {
        Rank::Nine
    } else if v == 10 {
        Rank::Ten
    } else if v == 11 {
        Rank::Jack
    } else if v == 12 {
        Rank::Queen
    } else {
        Rank::King
    }
}

/// Card number `i` of the fixed suit-major deck enumeration, face-down.
pub open spec fn nth_card(i: int) -> Card {
    Card { suit: spec_suit_of(i / 13), rank: spec_rank_of(i % 13 + 1), face_up: false }
}

/// The full 52-card deck in the fixed enumeration order, all face-down.
pub open spec fn full_deck() -> Seq<Card> {
    Seq::new(52, |i: int| nth_card(i))
}

fn suit_of_index(i: usize) -> (s: Suit)
    requires
        i < 4,
    ensures
        s == spec_suit_of(i as int),
{
    match i {
        0 => Suit::Hearts,
        1 => Suit::Diamonds,
        2 => Suit::Clubs,
        _ => Suit::Spades,
    }
}

fn rank_of_value(v: usize) -> (r: Rank)
    requires
        1 <= v <= 13,
    ensures
        r == spec_rank_of(v as int),
{
    match v {
        1 => Rank::Ace,
        2 => Rank::Two,
        3 => Rank::Three,
        4 => Rank::Four,
        5 => Rank::Five,
        6 => Rank::Six,
        7 => Rank::Seven,
        8 => Rank::Eight,
        9 => Rank::Nine,
        10 => Rank::Ten,
        11 => Rank::Jack,
        12 => Rank::Queen,
        _ => Rank::King,
    }
}

/// Create a standard 52-card deck
pub fn create_deck() -> (deck: Vec<Card>)
    ensures
        deck@ == full_deck(),
{
    let mut deck: Vec<Card> = Vec::with_capacity(52);
    let mut s: usize = 0;
    while s < 4
        invariant
            s <= 4,
            deck@.len() == s * 13,
            forall|i: int| 0 <= i < deck@.len() ==> deck@[i] == nth_card(i),
        decreases 4 - s,
    {
        let mut r: usize = 0;
        while r < 13
            invariant
                s < 4,
                r <= 13,
                deck@.len() == s * 13 + r,
                forall|i: int| 0 <= i < deck@.len() ==> deck@[i] == nth_card(i),
            decreases 13 - r,
        {
            let card = Card::new(suit_of_index(s), rank_of_value(r + 1), false);
            proof {
                let i = s * 13 + r;
                vstd::arithmetic::div_mod::lemma_fundamental_div_mod_converse(
                    i as int, 13, s as int, r as int);
                assert(card == nth_card(i as int));
            }
            deck.push(card);
            r = r + 1;
        }
        s = s + 1;
    }
    proof {
        assert(deck@ =~= full_deck());
    }
    deck
}

} // verus!
