//! The table: the attack and defense piles, the discard pile, the stock and
//! the trump suit, with the rules that say which card may be played.

use vstd::prelude::*;
use crate::cards::{Card, Deck, Suit, Value, CARDS_IN_DECK_COUNT};
use crate::deck::lemma_deck_has_each_card_once;
use crate::random::RandomSource;
use crate::utils::{Error, positive_sub_or_zero};

verus! {

/// What a table holds.
pub struct TableView {
    /// The attack cards of the round, in the order they were played.
    pub attack: Seq<Card>,
    /// The defense cards of the round; the card at a place answers the attack
    /// card at the same place.
    pub defense: Seq<Card>,
    /// The cards of the rounds that were beaten off.
    pub discard: Seq<Card>,
    /// The cards still to be drawn. The last one is on top; the first one lies
    /// at the bottom and shows the trump.
    pub stock: Seq<Card>,
    /// The trump suit.
    pub trump: Suit,
    /// The deck the table plays with.
    pub deck: Deck,
}

/// Whether `defense` beats `attack` when `trump` is the trump suit. A card that
/// is no trump beats a card of its own suit and lower value. A trump beats every
/// card that is no trump, and every trump of lower value.
pub open spec fn beats(defense: Card, attack: Card, trump: Suit) -> bool {
    if defense.suit() != trump {
        defense.suit() == attack.suit() && defense.value().rank() > attack.value().rank()
    } else if attack.suit() != trump {
        true
    } else {
        defense.value().rank() > attack.value().rank()
    }
}

/// Whether a card of this value is among the cards.
pub open spec fn holds_value(cards: Seq<Card>, value: Value) -> bool {
    exists|i: int| 0 <= i < cards.len() && (#[trigger] cards[i]).value() == value
}

impl TableView {
    /// A table without cards. Spades are trump until a stock is laid out.
    pub open spec fn empty(deck: Deck) -> TableView {
        TableView {
            attack: Seq::empty(),
            defense: Seq::empty(),
            discard: Seq::empty(),
            stock: Seq::empty(),
            trump: Suit::Spade,
            deck,
        }
    }

    /// The piles of a round fit together: no more defense cards than attack
    /// cards, and no more attack cards than a hand holds.
    pub open spec fn wf(self) -> bool {
        self.defense.len() <= self.attack.len() <= CARDS_IN_DECK_COUNT
    }

    /// The attack holds as many cards as it can.
    pub open spec fn attack_finished(self) -> bool {
        self.attack.len() >= CARDS_IN_DECK_COUNT
    }

    /// Every attack card has its defense card.
    pub open spec fn attack_beaten(self) -> bool {
        self.attack.len() == self.defense.len()
    }

    /// Whether a card of this value lies on the attack or the defense pile.
    pub open spec fn value_played(self, value: Value) -> bool {
        holds_value(self.defense, value) || holds_value(self.attack, value)
    }

    /// The verdict on `card` as the next attack card. The first card of a
    /// round is free. A later one is turned down where the attack is full, and
    /// else must have the value of a card played in the round.
    pub open spec fn attack_verdict(self, card: Card, is_first_attack: bool) -> Result<(), Error> {
        if is_first_attack {
            Ok(())
        } else if self.attack_finished() {
            Err(Error::TooManyAttackCards)
        } else if self.value_played(card.value()) {
            Ok(())
        } else {
            Err(Error::AbsentCardValue(card.value()))
        }
    }

    /// The verdict on `card` as the answer to the attack card at `index`.
    pub open spec fn defense_verdict(self, card: Card, index: usize) -> Result<(), Error> {
        if self.attack_beaten() {
            Err(Error::NoCardsToBeat)
        } else if index >= self.attack.len() {
            Err(Error::InvalidAttackIndex(index))
        } else if !beats(card, self.attack[index as int], self.trump) {
            Err(Error::IncorrectDefense)
        } else {
            Ok(())
        }
    }

    /// The table once the stock is laid out anew: the piles are empty, and the
    /// card at the bottom of the stock shows the trump.
    pub open spec fn laid_out(self, stock: Seq<Card>) -> TableView {
        TableView {
            attack: Seq::empty(),
            defense: Seq::empty(),
            discard: Seq::empty(),
            stock,
            trump: stock[0].suit(),
            deck: self.deck,
        }
    }

    /// How many cards a draw of `count` takes from the stock.
    pub open spec fn drawn_count(self, count: usize) -> int {
        if count <= self.stock.len() {
            count as int
        } else {
            self.stock.len() as int
        }
    }

    /// The cards that a draw of `count` takes: the topmost ones, in the order
    /// in which they lie in the stock.
    pub open spec fn drawn(self, count: usize) -> Seq<Card> {
        self.stock.subrange(self.stock.len() - self.drawn_count(count), self.stock.len() as int)
    }

    /// The table after a draw of `count` cards.
    pub open spec fn after_draw(self, count: usize) -> TableView {
        TableView { stock: self.stock.subrange(0, self.stock.len() - self.drawn_count(count)), ..self }
    }

    /// The cards played in the round: the attack cards, then the defense cards.
    pub open spec fn played(self) -> Seq<Card> {
        self.attack + self.defense
    }

    /// The table with the piles of the round taken away.
    pub open spec fn cleared(self) -> TableView {
        TableView { attack: Seq::empty(), defense: Seq::empty(), ..self }
    }

    /// The table after the round's cards went to the discard pile.
    pub open spec fn discarded(self) -> TableView {
        TableView { discard: self.discard + self.attack + self.defense, ..self.cleared() }
    }
}

/// The shared play area of a game.
pub struct Table {
    attack_cards: Vec<Card>,
    defense_cards: Vec<Card>,
    discarded_cards: Vec<Card>,
    card_stock: Vec<Card>,
    trump: Suit,
    card_deck: Deck,
}

impl View for Table {
    type V = TableView;

    closed spec fn view(&self) -> TableView {
        TableView {
            attack: self.attack_cards@,
            defense: self.defense_cards@,
            discard: self.discarded_cards@,
            stock: self.card_stock@,
            trump: self.trump,
            deck: self.card_deck,
        }
    }
}

impl Table {
    /// An empty table for the deck. Spades are trump until a stock is laid out.
    pub fn new(card_deck: Deck) -> (table: Self)
        ensures
            table@ == TableView::empty(card_deck),
            table@.wf(),
    {
        let size: usize = card_deck.size();
        Self {
            attack_cards: Vec::with_capacity(CARDS_IN_DECK_COUNT),
            defense_cards: Vec::with_capacity(CARDS_IN_DECK_COUNT),
            discarded_cards: Vec::with_capacity(size),
            card_stock: Vec::with_capacity(size),
            trump: Suit::Spade,
            card_deck,
        }
    }

    /// Lays out a freshly shuffled deck as the stock and empties the piles. The
    /// stock then holds every card of the deck once, in an order that chance
    /// decides, and the card at its bottom shows the trump.
    pub fn reset(&mut self, random: &mut RandomSource)
        ensures
            final(self)@ == old(self)@.laid_out(final(self)@.stock),
            final(self)@.stock.to_multiset() == old(self)@.deck.spec_cards().to_multiset(),
            final(self)@.stock.len() == old(self)@.deck.size(),
            final(self)@.stock.no_duplicates(),
            final(self)@.wf(),
    {
        let mut stock = self.card_deck.cards();
        random.shuffle(&mut stock);
        proof {
            lemma_deck_has_each_card_once(self.card_deck);
        }
        self.lay_out(stock);
    }

    /// Takes `stock` as the new stock and empties the piles. The first card of
    /// `stock` shows the trump.
    pub fn lay_out(&mut self, stock: Vec<Card>)
        requires
            stock@.len() > 0,
        ensures
            final(self)@ == old(self)@.laid_out(stock@),
            final(self)@.wf(),
    {
        self.discarded_cards.clear();
        self.attack_cards.clear();
        self.defense_cards.clear();
        self.trump = stock[0].suit();
        self.card_stock = stock;
    }

    // --- getters ---

    pub fn attack_cards(&self) -> (cards: &Vec<Card>)
        ensures
            cards@ == self@.attack,
    {
        &self.attack_cards
    }

    pub fn defense_cards(&self) -> (cards: &Vec<Card>)
        ensures
            cards@ == self@.defense,
    {
        &self.defense_cards
    }

    pub fn discarded_cards(&self) -> (cards: &Vec<Card>)
        ensures
            cards@ == self@.discard,
    {
        &self.discarded_cards
    }

    pub fn remain_cards_count(&self) -> (count: usize)
        ensures
            count == self@.stock.len(),
    {
        self.card_stock.len()
    }

    pub fn trump(&self) -> (trump: Suit)
        ensures
            trump == self@.trump,
    {
        self.trump
    }

    pub fn card_deck(&self) -> (deck: Deck)
        ensures
            deck == self@.deck,
    {
        self.card_deck
    }

    // --- consume player cards ---

    pub fn is_attack_finished(&self) -> (finished: bool)
        ensures
            finished == self@.attack_finished(),
    {
        self.attack_cards.len() >= CARDS_IN_DECK_COUNT
    }

    /// Whether `attack_card` may be played as the next attack card.
    pub fn check_attack_card(&self, attack_card: &Card, is_first_attack: bool) -> (verdict: Result<
        (),
        Error,
    >)
        ensures
            verdict == self@.attack_verdict(*attack_card, is_first_attack),
    {
        if is_first_attack {
            return Ok(());
        }
        if self.is_attack_finished() {
            return Err(Error::TooManyAttackCards);
        }
        if has_value(&self.defense_cards, attack_card.value()) {
            return Ok(());
        }
        if has_value(&self.attack_cards, attack_card.value()) {
            return Ok(());
        }
        Err(Error::AbsentCardValue(attack_card.value()))
    }

    /// Puts the card on the attack pile. Nothing is checked: ask
    /// [`Table::check_attack_card`] first. The attack must not be full.
    pub fn take_attack_card(&mut self, attack_card: Card)
        requires
            old(self)@.wf(),
            !old(self)@.attack_finished(),
        ensures
            final(self)@ == (TableView { attack: old(self)@.attack.push(attack_card), ..old(self)@ }),
            final(self)@.wf(),
    {
        self.attack_cards.push(attack_card);
    }

    pub fn is_attack_beaten(&self) -> (beaten: bool)
        ensures
            beaten == self@.attack_beaten(),
    {
        self.attack_cards.len() == self.defense_cards.len()
    }

    /// Whether `defense_card` beats the attack card at `attack_card_index`.
    pub fn can_beat(&self, defense_card: &Card, attack_card_index: usize) -> (can: bool)
        requires
            attack_card_index < self@.attack.len(),
        ensures
            can == beats(*defense_card, self@.attack[attack_card_index as int], self@.trump),
    {
        let attack_card = &self.attack_cards[attack_card_index];
        if defense_card.suit() != self.trump {
            defense_card.suit() == attack_card.suit() && defense_card.value().outranks(
                attack_card.value(),
            )
        } else if attack_card.suit() != self.trump {
            true
        } else {
            defense_card.value().outranks(attack_card.value())
        }
    }

    /// Whether `defense_card` may be played on the attack card at `attack_card_index`.
    pub fn check_defense_card(&self, defense_card: &Card, attack_card_index: usize) -> (verdict:
        Result<(), Error>)
        ensures
            verdict == self@.defense_verdict(*defense_card, attack_card_index),
    {
        if self.is_attack_beaten() {
            Err(Error::NoCardsToBeat)
        } else if attack_card_index >= self.attack_cards.len() {
            Err(Error::InvalidAttackIndex(attack_card_index))
        } else if !self.can_beat(defense_card, attack_card_index) {
            Err(Error::IncorrectDefense)
        } else {
            Ok(())
        }
    }

    /// Puts the card into the defense pile at the place of the attack card it
    /// answers. Nothing is checked: ask [`Table::check_defense_card`] first.
    /// An attack card must be open, and the place must lie within the defense
    /// pile or at its end.
    pub fn take_defense_card(&mut self, defense_card: Card, attack_card_index: usize)
        requires
            old(self)@.wf(),
            !old(self)@.attack_beaten(),
            attack_card_index <= old(self)@.defense.len(),
        ensures
            final(self)@ == (TableView {
                defense: old(self)@.defense.insert(attack_card_index as int, defense_card),
                ..old(self)@
            }),
            final(self)@.wf(),
    {
        self.defense_cards.insert(attack_card_index, defense_card);
    }

    // --- transfer cards ---

    /// Moves the cards of the round to the discard pile: the attack cards, then
    /// the defense cards. With no card played the table stays as it is.
    pub fn discard_cards(&mut self)
        ensures
            final(self)@ == old(self)@.discarded(),
            final(self)@.discard.len() == old(self)@.discard.len() + old(self)@.attack.len() + old(
                self,
            )@.defense.len(),
            old(self)@.attack.len() == 0 && old(self)@.defense.len() == 0 ==> final(self)@ == old(
                self,
            )@,
            final(self)@.wf(),
    {
        self.discarded_cards.append(&mut self.attack_cards);
        self.discarded_cards.append(&mut self.defense_cards);
        proof {
            let before = old(self)@;
            if before.attack.len() == 0 && before.defense.len() == 0 {
                assert(before.attack =~= Seq::empty());
                assert(before.defense =~= Seq::empty());
                assert(before.discard + before.attack + before.defense =~= before.discard);
            }
        }
    }

    /// Takes up to `count` cards from the top of the stock. There are fewer
    /// where the stock is short, and none at all (`None`) where it is empty or
    /// `count` is zero.
    pub fn draw_stock_cards(&mut self, count: usize) -> (cards: Option<Vec<Card>>)
        ensures
            cards is None <==> count == 0 || old(self)@.stock.len() == 0,
            cards is None ==> final(self)@ == old(self)@,
            cards matches Some(drawn) ==> drawn@ == old(self)@.drawn(count) && drawn@.len() == old(
                self,
            )@.drawn_count(count) && drawn@.len() > 0 && final(self)@ == old(self)@.after_draw(count),
            final(self)@.wf() == old(self)@.wf(),
    {
        if count == 0 || self.card_stock.is_empty() {
            return None;
        }
        let start: usize = positive_sub_or_zero(self.card_stock.len(), count);
        Some(self.card_stock.split_off(start))
    }

    /// Takes every card of the round off the table: the attack cards, then the
    /// defense cards. There must be an attack card.
    pub fn draw_played_cards(&mut self) -> (cards: Vec<Card>)
        requires
            old(self)@.attack.len() > 0,
        ensures
            cards@ == old(self)@.played(),
            final(self)@ == old(self)@.cleared(),
            final(self)@.wf(),
    {
        let mut cards: Vec<Card> = Vec::new();
        cards.append(&mut self.attack_cards);
        cards.append(&mut self.defense_cards);
        cards
    }
}

/// Whether a card of this value is among the cards.
pub fn has_value(cards: &Vec<Card>, value: Value) -> (found: bool)
    ensures
        found == holds_value(cards@, value),
{
    let mut i: usize = 0;
    while i < cards.len()
        invariant
            i <= cards@.len(),
            forall|j: int| 0 <= j < i ==> (#[trigger] cards@[j]).value() != value,
        decreases cards@.len() - i,
    {
        if cards[i].value() == value {
            return true;
        }
        i += 1;
    }
    false
}

} // verus!
