//! Card values, suits, cards and deck sizes.

use vstd::prelude::*;

verus! {

/// Number of cards in a full hand. A round holds at most this many attack cards,
/// and a deck seats one player for every full hand it can deal.
pub const CARDS_IN_DECK_COUNT: usize = 6;

/// The value of a card. Values are ordered as declared: `Two` is the lowest,
/// `Ace` the highest ordinary value, and `Joker` outranks them all.
#[derive(Clone, Copy, Debug, PartialEq, Eq, PartialOrd, Ord, Structural)]
pub enum Value {
    Two,
    Three,
    Four,
    Five,
    Six,
    Seven,
    Eight,
    Nine,
    Ten,
    Jack,
    Queen,
    King,
    Ace,
    Joker,
}

impl Value {
    /// The number a value is compared by: 2 for `Two` up to 14 for `Ace`, 15 for `Joker`.
    pub open spec fn spec_rank(&self) -> usize {
        match self {
            Value::Two => 2,
            Value::Three => 3,
            Value::Four => 4,
            Value::Five => 5,
            Value::Six => 6,
            Value::Seven => 7,
            Value::Eight => 8,
            Value::Nine => 9,
            Value::Ten => 10,
            Value::Jack => 11,
            Value::Queen => 12,
            Value::King => 13,
            Value::Ace => 14,
            Value::Joker => 15,
        }
    }

    /// The value that has the given rank; `Two` for a number that is no rank.
    pub open spec fn of_rank(number: int) -> Value {
        if number == 3 {
            Value::Three
        } else if number == 4 {
            Value::Four
        } else if number == 5 {
            Value::Five
        } else if number == 6 {
            Value::Six
        } else if number == 7 {
            Value::Seven
        } else if number == 8 {
            Value::Eight
        } else if number == 9 {
            Value::Nine
        } else if number == 10 {
            Value::Ten
        } else if number == 11 {
            Value::Jack
        } else if number == 12 {
            Value::Queen
        } else if number == 13 {
            Value::King
        } else if number == 14 {
            Value::Ace
        } else if number == 15 {
            Value::Joker
        } else {
            Value::Two
        }
    }

    /// The rank of the value, from 2 to 15.
    #[verifier::when_used_as_spec(spec_rank)]
    pub fn rank(&self) -> (number: usize)
        ensures
            number == self.spec_rank(),
            2 <= number <= 15,
    {
        match self {
            Value::Two => 2,
            Value::Three => 3,
            Value::Four => 4,
            Value::Five => 5,
            Value::Six => 6,
            Value::Seven => 7,
            Value::Eight => 8,
            Value::Nine => 9,
            Value::Ten => 10,
            Value::Jack => 11,
            Value::Queen => 12,
            Value::King => 13,
            Value::Ace => 14,
            Value::Joker => 15,
        }
    }

    /// The value with the given rank.
    pub fn from_usize(number: usize) -> (value: Value)
        requires
            2 <= number <= 15,
        ensures
            value == Value::of_rank(number as int),
            value.rank() == number,
    {
        if number == 2 {
            Value::Two
        } else if number == 3 {
            Value::Three
        } else if number == 4 {
            Value::Four
        } else if number == 5 {
            Value::Five
        } else if number == 6 {
            Value::Six
        } else if number == 7 {
            Value::Seven
        } else if number == 8 {
            Value::Eight
        } else if number == 9 {
            Value::Nine
        } else if number == 10 {
            Value::Ten
        } else if number == 11 {
            Value::Jack
        } else if number == 12 {
            Value::Queen
        } else if number == 13 {
            Value::King
        } else if number == 14 {
            Value::Ace
        } else {
            Value::Joker
        }
    }

    /// Whether this value is strictly higher than `other`.
    pub fn outranks(&self, other: Value) -> (higher: bool)
        ensures
            higher == (self.rank() > other.rank()),
    {
        self.rank() > other.rank()
    }
}

/// The suit of a card. Suits are ordered as declared.
#[derive(Debug, Clone, Copy, PartialEq, Eq, PartialOrd, Ord, Structural)]
pub enum Suit {
    Club,
    Heart,
    Spade,
    Diamond,
}

impl Suit {
    /// Clubs and spades are black; hearts and diamonds are red.
    pub open spec fn is_black(&self) -> bool {
        *self == Suit::Club || *self == Suit::Spade
    }

    /// The place of the suit in the order of suits, from 0 to 3.
    pub open spec fn spec_place(&self) -> usize {
        match self {
            Suit::Club => 0,
            Suit::Heart => 1,
            Suit::Spade => 2,
            Suit::Diamond => 3,
        }
    }

    /// The suit with the given number: 0 club, 1 spade, 2 heart, anything else diamond.
    pub open spec fn of_number(number: int) -> Suit {
        if number == 0 {
            Suit::Club
        } else if number == 1 {
            Suit::Spade
        } else if number == 2 {
            Suit::Heart
        } else {
            Suit::Diamond
        }
    }

    /// Whether both suits have the same color.
    pub fn same_color_as(self, other: Suit) -> (same: bool)
        ensures
            same == (self.is_black() == other.is_black()),
    {
        match self {
            Suit::Club | Suit::Spade => other == Suit::Club || other == Suit::Spade,
            Suit::Heart | Suit::Diamond => other == Suit::Heart || other == Suit::Diamond,
        }
    }

    /// The suit with the given number: 0 club, 1 spade, 2 heart, 3 diamond.
    pub fn from_usize(number: usize) -> (suit: Suit)
        requires
            number < 4,
        ensures
            suit == Suit::of_number(number as int),
    {
        if number == 0 {
            Suit::Club
        } else if number == 1 {
            Suit::Spade
        } else if number == 2 {
            Suit::Heart
        } else {
            Suit::Diamond
        }
    }

    /// The place of the suit in the order of suits.
    #[verifier::when_used_as_spec(spec_place)]
    pub fn place(&self) -> (place: usize)
        ensures
            place == self.spec_place(),
            place < 4,
    {
        match self {
            Suit::Club => 0,
            Suit::Heart => 1,
            Suit::Spade => 2,
            Suit::Diamond => 3,
        }
    }
}

/// A playing card: a value in a suit. A card is never copied: it is in one hand
/// or pile at a time.
#[derive(Debug, PartialEq, Eq, PartialOrd, Ord, Structural)]
pub struct Card {
    suit: Suit,
    value: Value,
}

impl Card {
    /// The value of the card.
    pub closed spec fn spec_value(&self) -> Value {
        self.value
    }

    /// The suit of the card.
    pub closed spec fn spec_suit(&self) -> Suit {
        self.suit
    }

    /// The card of the given value and suit.
    pub closed spec fn of(value: Value, suit: Suit) -> Card {
        Card { suit, value }
    }

    /// Cards sort by suit first and by value within a suit. This is the order of
    /// a hand; it plays no part in which card beats which.
    pub open spec fn sorts_before(&self, other: &Card) -> bool {
        self.suit().place() < other.suit().place() || (self.suit() == other.suit()
            && self.value().rank() <= other.value().rank())
    }

    pub fn new(value: Value, suit: Suit) -> (card: Self)
        ensures
            card == Card::of(value, suit),
            card.value() == value,
            card.suit() == suit,
    {
        Self { suit, value }
    }

    #[verifier::when_used_as_spec(spec_value)]
    pub fn value(&self) -> (value: Value)
        ensures
            value == self.spec_value(),
    {
        self.value
    }

    #[verifier::when_used_as_spec(spec_suit)]
    pub fn suit(&self) -> (suit: Suit)
        ensures
            suit == self.spec_suit(),
    {
        self.suit
    }

    /// Whether this card comes before `other`, or is equal to it, in the order of a hand.
    pub fn comes_before(&self, other: &Card) -> (before: bool)
        ensures
            before == self.sorts_before(other),
    {
        let place: usize = self.suit.place();
        let other_place: usize = other.suit.place();
        place < other_place || (place == other_place && self.value.rank() <= other.value.rank())
    }
}

/// A card is its value and its suit, no more.
pub proof fn lemma_card_is_value_and_suit(a: Card, b: Card)
    ensures
        a == Card::of(a.value(), a.suit()),
        (a.value() == b.value() && a.suit() == b.suit()) ==> a == b,
        forall|value: Value, suit: Suit|
            #![trigger Card::of(value, suit)]
            Card::of(value, suit).value() == value && Card::of(value, suit).suit() == suit,
{
}

/// The order of a hand is total: reflexive, antisymmetric, transitive and connected.
pub proof fn lemma_sorts_before_is_total(a: Card, b: Card, c: Card)
    ensures
        a.sorts_before(&a),
        a.sorts_before(&b) && b.sorts_before(&a) ==> a == b,
        a.sorts_before(&b) && b.sorts_before(&c) ==> a.sorts_before(&c),
        a.sorts_before(&b) || b.sorts_before(&a),
{
}

/// How many cards are in play.
#[derive(Clone, Copy, Debug, PartialEq, Eq, Structural)]
pub enum Deck {
    Reduced,
    Standart,
    Full,
    Extended,
}

impl Deck {
    /// The number of cards: 24, 36, 52 or 54.
    pub open spec fn spec_size(&self) -> usize {
        match self {
            Deck::Reduced => 24,
            Deck::Standart => 36,
            Deck::Full => 52,
            Deck::Extended => 54,
        }
    }

    /// The number of cards in the deck.
    #[verifier::when_used_as_spec(spec_size)]
    pub fn size(&self) -> (size: usize)
        ensures
            size == self.spec_size(),
    {
        match self {
            Deck::Reduced => 24,
            Deck::Standart => 36,
            Deck::Full => 52,
            Deck::Extended => 54,
        }
    }
}

} // verus!
