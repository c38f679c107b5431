//! Which cards a deck of each size is made of.

use vstd::prelude::*;
use crate::cards::{Card, Deck, Suit, Value, lemma_card_is_value_and_suit};

verus! {

impl Deck {
    /// The rank of the lowest value in the deck. A smaller deck leaves out the
    /// low values: it starts at nine with 24 cards, at six with 36, at two otherwise.
    pub open spec fn spec_lowest_rank(&self) -> usize {
        match self {
            Deck::Reduced => 9,
            Deck::Standart => 6,
            Deck::Full => 2,
            Deck::Extended => 2,
        }
    }

    /// How many cards of the deck are jokers: two in the deck of 54, else none.
    pub open spec fn spec_jokers(&self) -> usize {
        match self {
            Deck::Extended => 2,
            _ => 0,
        }
    }

    /// How many cards of the deck are no jokers: every value from the lowest up
    /// to the ace, in each of the four suits.
    pub open spec fn plain_count(&self) -> int {
        4 * (15 - self.spec_lowest_rank())
    }

    /// The card at place `i` of a deck laid out in order: value by value from the
    /// lowest, each as club, spade, heart, diamond; then a black and a red joker.
    pub open spec fn card_at(&self, i: int) -> Card {
        if i < self.plain_count() {
            Card::of(Value::of_rank(self.spec_lowest_rank() + i / 4), Suit::of_number(i % 4))
        } else {
            Card::of(Value::Joker, Suit::of_number(2 * (i - self.plain_count())))
        }
    }

    /// The cards of the deck, laid out in order.
    pub open spec fn spec_cards(&self) -> Seq<Card> {
        Seq::new(self.spec_size() as nat, |i: int| self.card_at(i))
    }

    #[verifier::when_used_as_spec(spec_lowest_rank)]
    pub fn lowest_rank(&self) -> (rank: usize)
        ensures
            rank == self.spec_lowest_rank(),
            2 <= rank <= 14,
    {
        match self {
            Deck::Reduced => 9,
            Deck::Standart => 6,
            Deck::Full => 2,
            Deck::Extended => 2,
        }
    }

    #[verifier::when_used_as_spec(spec_jokers)]
    pub fn jokers(&self) -> (count: usize)
        ensures
            count == self.spec_jokers(),
            count <= 2,
    {
        match self {
            Deck::Extended => 2,
            _ => 0,
        }
    }

    /// A fresh deck, laid out in order.
    pub fn cards(&self) -> (cards: Vec<Card>)
        ensures
            cards@ == self.spec_cards(),
            cards@.len() == self.size(),
            cards@.no_duplicates(),
    {
        let lowest: usize = self.lowest_rank();
        let mut cards: Vec<Card> = Vec::with_capacity(self.size());
        let mut rank: usize = lowest;
        while rank <= 14
            invariant
                lowest == self.spec_lowest_rank(),
                lowest <= rank <= 15,
                cards@.len() == 4 * (rank - lowest),
                forall|i: int| 0 <= i < cards@.len() ==> cards@[i] == self.card_at(i),
            decreases 15 - rank,
        {
            let value = Value::from_usize(rank);
            let mut number: usize = 0;
            while number < 4
                invariant
                    lowest == self.spec_lowest_rank(),
                    lowest <= rank <= 14,
                    number <= 4,
                    value == Value::of_rank(rank as int),
                    cards@.len() == 4 * (rank - lowest) + number,
                    forall|i: int| 0 <= i < cards@.len() ==> cards@[i] == self.card_at(i),
                decreases 4 - number,
            {
                cards.push(Card::new(value, Suit::from_usize(number)));
                number += 1;
            }
            rank += 1;
        }
        let jokers: usize = self.jokers();
        let mut joker: usize = 0;
        while joker < jokers
            invariant
                jokers == self.spec_jokers(),
                joker <= jokers,
                cards@.len() == self.plain_count() + joker,
                forall|i: int| 0 <= i < cards@.len() ==> cards@[i] == self.card_at(i),
            decreases jokers - joker,
        {
            cards.push(Card::new(Value::Joker, Suit::from_usize(2 * joker)));
            joker += 1;
        }
        proof {
            assert(cards@ =~= self.spec_cards());
            lemma_deck_has_each_card_once(*self);
        }
        cards
    }
}

/// A deck holds as many cards as its size says, and no card twice.
pub proof fn lemma_deck_has_each_card_once(deck: Deck)
    ensures
        deck.spec_cards().len() == deck.size(),
        deck.size() == deck.plain_count() + deck.jokers(),
        deck.spec_cards().no_duplicates(),
{
    let cards = deck.spec_cards();
    assert forall|i: int, j: int| 0 <= i < cards.len() && 0 <= j < cards.len() && i != j implies cards[i]
        != cards[j] by {
        lemma_card_is_value_and_suit(cards[i], cards[j]);
        lemma_place_gives_card(deck, i);
        lemma_place_gives_card(deck, j);
    }
}

/// Value and suit of the card at a place of the deck.
proof fn lemma_place_gives_card(deck: Deck, i: int)
    requires
        0 <= i < deck.size(),
    ensures
        i < deck.plain_count() ==> deck.card_at(i).value().rank() == deck.spec_lowest_rank() + i / 4
            && deck.card_at(i).suit() == Suit::of_number(i % 4),
        i >= deck.plain_count() ==> deck.card_at(i).value() == Value::Joker && deck.card_at(i).suit()
            == Suit::of_number(2 * (i - deck.plain_count())),
{
    let low = deck.spec_lowest_rank() as int;
    lemma_card_is_value_and_suit(deck.card_at(i), deck.card_at(i));
    if i < deck.plain_count() {
        assert(Card::of(Value::of_rank(low + i / 4), Suit::of_number(i % 4)).value() == Value::of_rank(
            low + i / 4,
        ));
        assert(Card::of(Value::of_rank(low + i / 4), Suit::of_number(i % 4)).suit() == Suit::of_number(
            i % 4,
        ));
    } else {
        let number = 2 * (i - deck.plain_count());
        assert(Card::of(Value::Joker, Suit::of_number(number)).value() == Value::Joker);
        assert(Card::of(Value::Joker, Suit::of_number(number)).suit() == Suit::of_number(number));
    }
}

} // verus!
