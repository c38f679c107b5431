use durak::cards::{Card, Deck, Suit, Value};
use durak::random::RandomSource;
use durak::table::{has_value, Table};
use durak::utils::Error;

/// A table whose trump is the suit given: the stock is one card of that suit.
fn table_with_trump(trump: Suit) -> Table {
    let mut table = Table::new(Deck::Standart);
    table.lay_out(vec![Card::new(Value::Six, trump)]);
    table
}

fn all_different(cards: &Vec<Card>) -> bool {
    for i in 0..cards.len() {
        for j in 0..i {
            if cards[i] == cards[j] {
                return false;
            }
        }
    }
    true
}

#[test]
fn new_table_is_empty() {
    let table = Table::new(Deck::Full);
    assert!(table.attack_cards().is_empty());
    assert!(table.defense_cards().is_empty());
    assert!(table.discarded_cards().is_empty());
    assert_eq!(table.remain_cards_count(), 0);
    assert_eq!(table.trump(), Suit::Spade);
    assert_eq!(table.card_deck(), Deck::Full);
    assert!(!table.is_attack_finished());
    assert!(table.is_attack_beaten());
}

#[test]
fn reset_lays_out_the_whole_deck() {
    for deck in [Deck::Reduced, Deck::Standart, Deck::Full, Deck::Extended] {
        let mut table = Table::new(deck);
        let mut random = RandomSource::seeded(11);
        table.take_attack_card(Card::new(Value::Ace, Suit::Club));
        table.reset(&mut random);
        assert_eq!(table.remain_cards_count(), deck.size());
        assert!(table.attack_cards().is_empty());
        assert!(table.defense_cards().is_empty());
        assert!(table.discarded_cards().is_empty());
        let trump = table.trump();
        let mut stock = table.draw_stock_cards(deck.size()).unwrap();
        assert_eq!(stock.len(), deck.size());
        assert!(all_different(&stock));
        assert_eq!(stock[0].suit(), trump);
        let mut fresh = deck.cards();
        stock.sort();
        fresh.sort();
        assert_eq!(stock, fresh);
        assert_eq!(table.remain_cards_count(), 0);
    }
}

#[test]
fn reset_shuffles_and_a_seed_repeats_itself() {
    let mut first = Table::new(Deck::Standart);
    let mut second = Table::new(Deck::Standart);
    let mut other = Table::new(Deck::Standart);
    first.reset(&mut RandomSource::seeded(5));
    second.reset(&mut RandomSource::seeded(5));
    other.reset(&mut RandomSource::seeded(6));
    let first = first.draw_stock_cards(36).unwrap();
    let second = second.draw_stock_cards(36).unwrap();
    let other = other.draw_stock_cards(36).unwrap();
    assert_eq!(first, second);
    assert_ne!(first, other);
    assert_ne!(first, Deck::Standart.cards());
    assert_ne!(other, Deck::Standart.cards());
}

#[test]
fn shuffle_keeps_the_cards() {
    let mut random = RandomSource::from_entropy().unwrap();
    let mut cards = Deck::Full.cards();
    random.shuffle(&mut cards);
    assert_eq!(cards.len(), 52);
    assert!(all_different(&cards));
    cards.sort();
    let mut fresh = Deck::Full.cards();
    fresh.sort();
    assert_eq!(cards, fresh);
}

#[test]
fn pick_stays_below_the_bound() {
    let mut random = RandomSource::seeded(3);
    let mut seen = [false; 4];
    for _ in 0..200 {
        let number = random.pick(4);
        assert!(number < 4);
        seen[number] = true;
    }
    assert_eq!(seen, [true; 4]);
    for _ in 0..20 {
        assert_eq!(random.pick(1), 0);
    }
}

#[test]
fn six_cards_from_a_fresh_stock() {
    let mut table = Table::new(Deck::Standart);
    table.reset(&mut RandomSource::seeded(2));
    assert_eq!(table.remain_cards_count(), 36);
    let cards = table.draw_stock_cards(6).unwrap();
    assert_eq!(cards.len(), 6);
    assert!(all_different(&cards));
    assert_eq!(table.remain_cards_count(), 30);
}

#[test]
fn draw_takes_from_the_top() {
    let mut table = Table::new(Deck::Standart);
    table.lay_out(vec![
        Card::new(Value::Six, Suit::Heart),
        Card::new(Value::Seven, Suit::Heart),
        Card::new(Value::Eight, Suit::Heart),
        Card::new(Value::Nine, Suit::Heart),
    ]);
    assert_eq!(table.trump(), Suit::Heart);
    assert!(table.draw_stock_cards(0).is_none());
    assert_eq!(table.remain_cards_count(), 4);
    assert_eq!(table.draw_stock_cards(1).unwrap(), vec![Card::new(Value::Nine, Suit::Heart)]);
    assert_eq!(
        table.draw_stock_cards(2).unwrap(),
        vec![Card::new(Value::Seven, Suit::Heart), Card::new(Value::Eight, Suit::Heart)]
    );
    assert_eq!(table.remain_cards_count(), 1);
    assert_eq!(table.draw_stock_cards(6).unwrap(), vec![Card::new(Value::Six, Suit::Heart)]);
    assert_eq!(table.remain_cards_count(), 0);
    assert!(table.draw_stock_cards(6).is_none());
    assert!(table.draw_stock_cards(0).is_none());
    assert_eq!(table.trump(), Suit::Heart);
}

#[test]
fn first_attack_card_is_free() {
    let table = table_with_trump(Suit::Club);
    assert_eq!(table.check_attack_card(&Card::new(Value::Seven, Suit::Heart), true), Ok(()));
    assert_eq!(
        table.check_attack_card(&Card::new(Value::Seven, Suit::Heart), false),
        Err(Error::AbsentCardValue(Value::Seven))
    );
}

#[test]
fn later_attack_card_needs_a_played_value() {
    let mut table = table_with_trump(Suit::Club);
    table.take_attack_card(Card::new(Value::Seven, Suit::Heart));
    table.take_defense_card(Card::new(Value::Nine, Suit::Heart), 0);
    assert_eq!(table.check_attack_card(&Card::new(Value::Seven, Suit::Spade), false), Ok(()));
    assert_eq!(table.check_attack_card(&Card::new(Value::Nine, Suit::Diamond), false), Ok(()));
    assert_eq!(
        table.check_attack_card(&Card::new(Value::Eight, Suit::Heart), false),
        Err(Error::AbsentCardValue(Value::Eight))
    );
    assert_eq!(table.check_attack_card(&Card::new(Value::Eight, Suit::Heart), true), Ok(()));
    assert!(has_value(table.attack_cards(), Value::Seven));
    assert!(!has_value(table.attack_cards(), Value::Nine));
    assert!(has_value(table.defense_cards(), Value::Nine));
}

#[test]
fn full_attack_takes_no_card() {
    let mut table = table_with_trump(Suit::Club);
    for suit in [Suit::Club, Suit::Heart, Suit::Spade, Suit::Diamond] {
        assert!(!table.is_attack_finished());
        table.take_attack_card(Card::new(Value::Seven, suit));
    }
    table.take_attack_card(Card::new(Value::Eight, Suit::Heart));
    assert!(!table.is_attack_finished());
    table.take_attack_card(Card::new(Value::Eight, Suit::Spade));
    assert!(table.is_attack_finished());
    assert_eq!(table.attack_cards().len(), 6);
    assert_eq!(
        table.check_attack_card(&Card::new(Value::Seven, Suit::Heart), false),
        Err(Error::TooManyAttackCards)
    );
    assert_eq!(table.check_attack_card(&Card::new(Value::Ace, Suit::Heart), true), Ok(()));
}

#[test]
fn plain_card_beats_lower_card_of_its_suit() {
    let mut table = table_with_trump(Suit::Club);
    table.take_attack_card(Card::new(Value::Seven, Suit::Heart));
    assert!(table.can_beat(&Card::new(Value::Eight, Suit::Heart), 0));
    assert!(table.can_beat(&Card::new(Value::Ace, Suit::Heart), 0));
    assert!(!table.can_beat(&Card::new(Value::Seven, Suit::Heart), 0));
    assert!(!table.can_beat(&Card::new(Value::Six, Suit::Heart), 0));
    assert!(!table.can_beat(&Card::new(Value::Eight, Suit::Spade), 0));
    assert!(!table.can_beat(&Card::new(Value::Ace, Suit::Diamond), 0));
    assert!(!table.can_beat(&Card::new(Value::Seven, Suit::Spade), 0));
}

#[test]
fn trump_beats_every_plain_card() {
    let mut table = table_with_trump(Suit::Club);
    table.take_attack_card(Card::new(Value::Ace, Suit::Heart));
    assert!(table.can_beat(&Card::new(Value::Six, Suit::Club), 0));
    assert!(table.can_beat(&Card::new(Value::Ace, Suit::Club), 0));
    assert!(!table.can_beat(&Card::new(Value::King, Suit::Heart), 0));
}

#[test]
fn trump_beats_lower_trump_only() {
    let mut table = table_with_trump(Suit::Club);
    table.take_attack_card(Card::new(Value::Ten, Suit::Club));
    assert!(table.can_beat(&Card::new(Value::Jack, Suit::Club), 0));
    assert!(!table.can_beat(&Card::new(Value::Ten, Suit::Club), 0));
    assert!(!table.can_beat(&Card::new(Value::Nine, Suit::Club), 0));
    assert!(!table.can_beat(&Card::new(Value::Ace, Suit::Heart), 0));
    assert!(!table.can_beat(&Card::new(Value::Ace, Suit::Spade), 0));
}

#[test]
fn can_beat_over_all_suits_and_values() {
    let suits = [Suit::Club, Suit::Heart, Suit::Spade, Suit::Diamond];
    let values = [Value::Six, Value::Ten, Value::Ace, Value::Joker];
    for trump in suits {
        for attack_suit in suits {
            for attack_value in values {
                for defense_suit in suits {
                    for defense_value in values {
                        let mut table = table_with_trump(trump);
                        table.take_attack_card(Card::new(attack_value, attack_suit));
                        let higher = defense_value.rank() > attack_value.rank();
                        let expected = if defense_suit != trump {
                            defense_suit == attack_suit && higher
                        } else if attack_suit != trump {
                            true
                        } else {
                            higher
                        };
                        let defense = Card::new(defense_value, defense_suit);
                        assert_eq!(table.can_beat(&defense, 0), expected);
                        assert_eq!(
                            table.check_defense_card(&defense, 0),
                            if expected { Ok(()) } else { Err(Error::IncorrectDefense) }
                        );
                    }
                }
            }
        }
    }
}

#[test]
fn defense_verdicts() {
    let mut table = table_with_trump(Suit::Club);
    let eight = Card::new(Value::Eight, Suit::Heart);
    assert_eq!(table.check_defense_card(&eight, 0), Err(Error::NoCardsToBeat));
    table.take_attack_card(Card::new(Value::Seven, Suit::Heart));
    assert!(!table.is_attack_beaten());
    assert_eq!(table.check_defense_card(&eight, 1), Err(Error::InvalidAttackIndex(1)));
    assert_eq!(table.check_defense_card(&eight, 7), Err(Error::InvalidAttackIndex(7)));
    assert_eq!(
        table.check_defense_card(&Card::new(Value::Seven, Suit::Spade), 0),
        Err(Error::IncorrectDefense)
    );
    assert_eq!(table.check_defense_card(&eight, 0), Ok(()));
    table.take_defense_card(Card::new(Value::Eight, Suit::Heart), 0);
    assert!(table.is_attack_beaten());
    assert_eq!(table.check_defense_card(&eight, 0), Err(Error::NoCardsToBeat));
    assert_eq!(table.check_defense_card(&eight, 5), Err(Error::NoCardsToBeat));
}

#[test]
fn defense_cards_lie_by_their_attack_cards() {
    let mut table = table_with_trump(Suit::Club);
    table.take_attack_card(Card::new(Value::Seven, Suit::Heart));
    table.take_defense_card(Card::new(Value::Eight, Suit::Heart), 0);
    table.take_attack_card(Card::new(Value::Eight, Suit::Spade));
    table.take_defense_card(Card::new(Value::Nine, Suit::Spade), 1);
    assert_eq!(
        *table.attack_cards(),
        vec![Card::new(Value::Seven, Suit::Heart), Card::new(Value::Eight, Suit::Spade)]
    );
    assert_eq!(
        *table.defense_cards(),
        vec![Card::new(Value::Eight, Suit::Heart), Card::new(Value::Nine, Suit::Spade)]
    );
    assert!(table.defense_cards().len() <= table.attack_cards().len());
    assert!(table.attack_cards().len() <= 6);
}

#[test]
fn discard_moves_the_round_to_the_discard_pile() {
    let mut table = table_with_trump(Suit::Club);
    table.take_attack_card(Card::new(Value::Seven, Suit::Heart));
    table.take_defense_card(Card::new(Value::Eight, Suit::Heart), 0);
    table.take_attack_card(Card::new(Value::Eight, Suit::Spade));
    table.discard_cards();
    assert!(table.attack_cards().is_empty());
    assert!(table.defense_cards().is_empty());
    assert_eq!(
        *table.discarded_cards(),
        vec![
            Card::new(Value::Seven, Suit::Heart),
            Card::new(Value::Eight, Suit::Spade),
            Card::new(Value::Eight, Suit::Heart),
        ]
    );
    assert_eq!(table.remain_cards_count(), 1);
}

#[test]
fn discard_of_nothing_changes_nothing() {
    let mut table = table_with_trump(Suit::Club);
    table.discard_cards();
    assert!(table.discarded_cards().is_empty());
    table.take_attack_card(Card::new(Value::Seven, Suit::Heart));
    table.discard_cards();
    assert_eq!(*table.discarded_cards(), vec![Card::new(Value::Seven, Suit::Heart)]);
    table.discard_cards();
    table.discard_cards();
    assert_eq!(*table.discarded_cards(), vec![Card::new(Value::Seven, Suit::Heart)]);
    assert!(table.attack_cards().is_empty());
    assert!(table.defense_cards().is_empty());
    assert_eq!(table.remain_cards_count(), 1);
    assert_eq!(table.trump(), Suit::Club);
}

#[test]
fn played_cards_come_attack_first() {
    let mut table = table_with_trump(Suit::Club);
    table.take_attack_card(Card::new(Value::Seven, Suit::Heart));
    table.take_defense_card(Card::new(Value::Eight, Suit::Heart), 0);
    table.take_attack_card(Card::new(Value::Eight, Suit::Spade));
    let cards = table.draw_played_cards();
    assert_eq!(
        cards,
        vec![
            Card::new(Value::Seven, Suit::Heart),
            Card::new(Value::Eight, Suit::Spade),
            Card::new(Value::Eight, Suit::Heart),
        ]
    );
    assert!(table.attack_cards().is_empty());
    assert!(table.defense_cards().is_empty());
    assert!(table.discarded_cards().is_empty());
}

#[test]
fn absent_value_is_turned_down() {
    let mut table = table_with_trump(Suit::Diamond);
    table.take_attack_card(Card::new(Value::Six, Suit::Club));
    table.take_defense_card(Card::new(Value::Ten, Suit::Club), 0);
    assert_eq!(
        table.check_attack_card(&Card::new(Value::Queen, Suit::Club), false),
        Err(Error::AbsentCardValue(Value::Queen))
    );
}

#[test]
fn table_is_drawn_with_defense_over_attack() {
    let mut table = table_with_trump(Suit::Club);
    table.take_attack_card(Card::new(Value::Seven, Suit::Heart));
    table.take_defense_card(Card::new(Value::Eight, Suit::Heart), 0);
    table.take_attack_card(Card::new(Value::Eight, Suit::Spade));
    let expected = "Cards remain: 1, trump: ♣\n ┌────┐  ┌────┐ \n │ 7♡ │  │ 8♠ │ \n │┌───┴┐ │    │ \n └┤ 8♡ │ └────┘ \n  │    │\n  └────┘\n    0       1       2       3       4       5   \n\n";
    assert_eq!(table.picture(), expected);
}

#[test]
fn empty_table_is_drawn_as_its_frame() {
    let table = Table::new(Deck::Standart);
    let expected = "Cards remain: 0, trump: ♠\n\n\n\n\n\n\n    0       1       2       3       4       5   \n\n";
    assert_eq!(table.picture(), expected);
}

#[test]
fn sources_seeded_by_the_system_differ() {
    let mut first = RandomSource::from_entropy().unwrap();
    let mut second = RandomSource::from_entropy().unwrap();
    let mut cards = Deck::Full.cards();
    let mut others = Deck::Full.cards();
    first.shuffle(&mut cards);
    second.shuffle(&mut others);
    assert_ne!(cards, others);
}
