use durak::cards::{Card, Deck, Suit, Value};
use durak::player::{Bot, BotDificulty, Complaint, Decision, Player, Prompt, RealPlayer, Request};
use durak::table::Table;
use durak::utils::{Error, Input};

fn table_with_trump(trump: Suit) -> Table {
    let mut table = Table::new(Deck::Standart);
    table.lay_out(vec![Card::new(Value::Six, trump)]);
    table
}

fn bot_with(cards: Vec<Card>) -> Bot {
    let mut bot = Bot::new(BotDificulty::Easy, 1);
    bot.take_cards(cards);
    bot
}

fn person_with(cards: Vec<Card>) -> RealPlayer {
    let mut person = RealPlayer::new("FOO");
    person.take_cards(cards);
    person
}

fn word(text: &str) -> Input {
    Input::String(text.to_string())
}

fn asks(prompt: Prompt, complaint: Option<Complaint>) -> Request {
    Request { prompt, complaint }
}

#[test]
fn bots_are_named_by_number_and_difficulty() {
    assert_eq!(Bot::new(BotDificulty::Easy, 1).name(), "Bot #1 (Easy)");
    assert_eq!(Bot::new(BotDificulty::Medium, 12).name(), "Bot #12 (Medium)");
    assert_eq!(Bot::new(BotDificulty::Hard, 255).name(), "Bot #255 (Hard)");
    assert_eq!(Bot::new(BotDificulty::Hard, 0).name(), "Bot #0 (Hard)");
    assert_eq!(Bot::new(BotDificulty::Hard, 100).name(), "Bot #100 (Hard)");
    assert_eq!(Bot::new(BotDificulty::Medium, 7).difficulty(), BotDificulty::Medium);
    assert_eq!(BotDificulty::Easy.label(), "Easy");
    assert_eq!(RealPlayer::new("FOO").name(), "FOO");
}

#[test]
fn new_players_hold_no_cards() {
    let bot = Bot::new(BotDificulty::Easy, 1);
    assert_eq!(bot.cards_count(), 0);
    assert!(!bot.has_cards());
    assert_eq!(bot.missing_cards_count(), 6);
    let person = RealPlayer::new("FOO");
    assert!(person.cards().is_empty());
    assert_eq!(person.missing_cards_count(), 6);
}

#[test]
fn missing_cards_count_to_a_full_hand() {
    let mut bot = Bot::new(BotDificulty::Easy, 1);
    bot.take_cards(vec![Card::new(Value::Six, Suit::Club), Card::new(Value::Seven, Suit::Club)]);
    assert_eq!(bot.missing_cards_count(), 4);
    bot.take_cards(vec![
        Card::new(Value::Eight, Suit::Club),
        Card::new(Value::Nine, Suit::Club),
        Card::new(Value::Ten, Suit::Club),
        Card::new(Value::Jack, Suit::Club),
    ]);
    assert_eq!(bot.cards_count(), 6);
    assert_eq!(bot.missing_cards_count(), 0);
    bot.take_cards(vec![Card::new(Value::Queen, Suit::Club)]);
    assert_eq!(bot.cards_count(), 7);
    assert_eq!(bot.missing_cards_count(), 0);
    assert!(bot.has_cards());
}

#[test]
fn taken_cards_are_put_in_order() {
    let mut bot = bot_with(vec![Card::new(Value::Ten, Suit::Spade), Card::new(Value::Six, Suit::Diamond)]);
    bot.take_cards(vec![Card::new(Value::Ace, Suit::Club), Card::new(Value::Seven, Suit::Spade)]);
    assert_eq!(
        *bot.cards(),
        vec![
            Card::new(Value::Ace, Suit::Club),
            Card::new(Value::Seven, Suit::Spade),
            Card::new(Value::Ten, Suit::Spade),
            Card::new(Value::Six, Suit::Diamond),
        ]
    );
    let removed = bot.cards_mut().remove(1);
    assert_eq!(removed, Card::new(Value::Seven, Suit::Spade));
    assert_eq!(bot.cards_count(), 3);
}

#[test]
fn bot_opens_with_its_first_card() {
    let table = table_with_trump(Suit::Club);
    let mut bot = bot_with(vec![Card::new(Value::Nine, Suit::Heart), Card::new(Value::Seven, Suit::Heart)]);
    assert_eq!(
        bot.play_attack_card(&table, true, None),
        Decision::Made(Some(Card::new(Value::Seven, Suit::Heart)))
    );
    assert_eq!(*bot.cards(), vec![Card::new(Value::Nine, Suit::Heart)]);
}

#[test]
fn bot_adds_the_first_card_of_a_played_value() {
    let mut table = table_with_trump(Suit::Club);
    table.take_attack_card(Card::new(Value::Nine, Suit::Spade));
    table.take_defense_card(Card::new(Value::Ten, Suit::Spade), 0);
    let mut bot = bot_with(vec![
        Card::new(Value::Seven, Suit::Heart),
        Card::new(Value::Ten, Suit::Heart),
        Card::new(Value::Nine, Suit::Diamond),
    ]);
    assert_eq!(
        bot.play_attack_card(&table, false, None),
        Decision::Made(Some(Card::new(Value::Ten, Suit::Heart)))
    );
    assert_eq!(bot.cards_count(), 2);
    table.take_attack_card(Card::new(Value::Ten, Suit::Heart));
    table.take_defense_card(Card::new(Value::Jack, Suit::Heart), 1);
    assert_eq!(
        bot.play_attack_card(&table, false, None),
        Decision::Made(Some(Card::new(Value::Nine, Suit::Diamond)))
    );
    assert_eq!(*bot.cards(), vec![Card::new(Value::Seven, Suit::Heart)]);
}

#[test]
fn bot_passes_without_a_fitting_card() {
    let mut table = table_with_trump(Suit::Club);
    table.take_attack_card(Card::new(Value::Nine, Suit::Spade));
    let mut bot = bot_with(vec![Card::new(Value::Seven, Suit::Heart)]);
    assert_eq!(bot.play_attack_card(&table, false, None), Decision::Made(None));
    assert_eq!(bot.cards_count(), 1);
    let mut empty = Bot::new(BotDificulty::Easy, 2);
    assert_eq!(empty.play_attack_card(&table, false, None), Decision::Made(None));
    assert_eq!(empty.play_attack_card(&table, true, None), Decision::Made(None));
}

#[test]
fn bot_ignores_what_a_person_types() {
    let table = table_with_trump(Suit::Club);
    let mut bot = bot_with(vec![Card::new(Value::Seven, Suit::Heart)]);
    assert_eq!(
        bot.play_attack_card(&table, true, Some(&word("pass"))),
        Decision::Made(Some(Card::new(Value::Seven, Suit::Heart)))
    );
}

#[test]
fn bot_defends_with_a_plain_card_before_a_trump() {
    let mut table = table_with_trump(Suit::Club);
    table.take_attack_card(Card::new(Value::Seven, Suit::Heart));
    let mut bot = bot_with(vec![
        Card::new(Value::Six, Suit::Club),
        Card::new(Value::Six, Suit::Heart),
        Card::new(Value::Nine, Suit::Heart),
        Card::new(Value::Ace, Suit::Heart),
        Card::new(Value::Ace, Suit::Spade),
    ]);
    assert_eq!(
        bot.play_defense_card(&table, None),
        Decision::Made(Some((0, Card::new(Value::Nine, Suit::Heart))))
    );
    assert_eq!(bot.cards_count(), 4);
}

#[test]
fn bot_defends_with_its_lowest_trump_if_it_must() {
    let mut table = table_with_trump(Suit::Club);
    table.take_attack_card(Card::new(Value::Seven, Suit::Heart));
    table.take_defense_card(Card::new(Value::Eight, Suit::Heart), 0);
    table.take_attack_card(Card::new(Value::Eight, Suit::Spade));
    let mut bot = bot_with(vec![
        Card::new(Value::Ten, Suit::Club),
        Card::new(Value::Seven, Suit::Club),
        Card::new(Value::Six, Suit::Spade),
        Card::new(Value::Ace, Suit::Diamond),
    ]);
    assert_eq!(
        bot.play_defense_card(&table, None),
        Decision::Made(Some((1, Card::new(Value::Seven, Suit::Club))))
    );
    assert_eq!(
        *bot.cards(),
        vec![
            Card::new(Value::Ten, Suit::Club),
            Card::new(Value::Six, Suit::Spade),
            Card::new(Value::Ace, Suit::Diamond),
        ]
    );
}

#[test]
fn bot_takes_the_cards_if_nothing_beats() {
    let mut table = table_with_trump(Suit::Club);
    table.take_attack_card(Card::new(Value::Seven, Suit::Heart));
    let mut bot = bot_with(vec![Card::new(Value::Seven, Suit::Spade)]);
    assert!(!table.can_beat(&bot.cards()[0], 0));
    assert_eq!(bot.play_defense_card(&table, None), Decision::Made(None));
    assert_eq!(bot.cards_count(), 1);
    bot.take_cards(table.draw_played_cards());
    assert_eq!(
        *bot.cards(),
        vec![Card::new(Value::Seven, Suit::Heart), Card::new(Value::Seven, Suit::Spade)]
    );
    assert!(table.attack_cards().is_empty());
    assert!(table.discarded_cards().is_empty());
}

#[test]
fn person_is_asked_before_deciding() {
    let table = table_with_trump(Suit::Club);
    let mut person = person_with(vec![Card::new(Value::Seven, Suit::Heart)]);
    assert_eq!(
        person.play_attack_card(&table, true, None),
        Decision::Pending(asks(Prompt::AttackCard, None))
    );
    assert_eq!(
        person.play_attack_card(&table, false, None),
        Decision::Pending(asks(Prompt::AttackCardOrPass, None))
    );
    assert_eq!(person.cards_count(), 1);
}

#[test]
fn person_plays_the_card_named() {
    let table = table_with_trump(Suit::Club);
    let mut person = person_with(vec![
        Card::new(Value::Seven, Suit::Heart),
        Card::new(Value::Seven, Suit::Spade),
        Card::new(Value::Seven, Suit::Diamond),
        Card::new(Value::Seven, Suit::Club),
    ]);
    assert_eq!(
        person.play_attack_card(&table, true, Some(&Input::Number(1))),
        Decision::Made(Some(Card::new(Value::Seven, Suit::Heart)))
    );
    assert_eq!(
        person.play_attack_card(&table, true, Some(&Input::Number(2))),
        Decision::Made(Some(Card::new(Value::Seven, Suit::Diamond)))
    );
    assert_eq!(
        *person.cards(),
        vec![Card::new(Value::Seven, Suit::Club), Card::new(Value::Seven, Suit::Spade)]
    );
}

#[test]
fn person_may_pass_but_not_at_first() {
    let mut table = table_with_trump(Suit::Club);
    let mut person = person_with(vec![Card::new(Value::Seven, Suit::Heart)]);
    assert_eq!(
        person.play_attack_card(&table, true, Some(&word("pass"))),
        Decision::Pending(asks(Prompt::AttackCard, Some(Complaint::UnrecognizedAnswer)))
    );
    table.take_attack_card(Card::new(Value::Nine, Suit::Spade));
    assert_eq!(person.play_attack_card(&table, false, Some(&word("pass"))), Decision::Made(None));
    assert_eq!(
        person.play_attack_card(&table, false, Some(&word("take"))),
        Decision::Pending(asks(Prompt::AttackCardOrPass, Some(Complaint::UnrecognizedAnswer)))
    );
    assert_eq!(person.cards_count(), 1);
}

#[test]
fn person_is_asked_again_after_a_wrong_attack() {
    let mut table = table_with_trump(Suit::Club);
    table.take_attack_card(Card::new(Value::Nine, Suit::Spade));
    let mut person = person_with(vec![Card::new(Value::Seven, Suit::Heart), Card::new(Value::Nine, Suit::Heart)]);
    assert_eq!(
        person.play_attack_card(&table, false, Some(&Input::Number(2))),
        Decision::Pending(asks(
            Prompt::AttackCardOrPass,
            Some(Complaint::Refused(Error::InvalidDeckIndex(2)))
        ))
    );
    assert_eq!(
        person.play_attack_card(&table, false, Some(&Input::Number(0))),
        Decision::Pending(asks(
            Prompt::AttackCardOrPass,
            Some(Complaint::Refused(Error::AbsentCardValue(Value::Seven)))
        ))
    );
    assert_eq!(person.cards_count(), 2);
    assert_eq!(
        person.play_attack_card(&table, false, Some(&Input::Number(1))),
        Decision::Made(Some(Card::new(Value::Nine, Suit::Heart)))
    );
    assert_eq!(person.cards_count(), 1);
}

#[test]
fn person_defends_in_two_answers() {
    let mut table = table_with_trump(Suit::Club);
    table.take_attack_card(Card::new(Value::Seven, Suit::Heart));
    let mut person = person_with(vec![Card::new(Value::Six, Suit::Heart), Card::new(Value::Nine, Suit::Heart)]);
    assert_eq!(
        person.play_defense_card(&table, None),
        Decision::Pending(asks(Prompt::DefenseCard, None))
    );
    assert_eq!(
        person.play_defense_card(&table, Some(&Input::Number(5))),
        Decision::Pending(asks(
            Prompt::DefenseCard,
            Some(Complaint::Refused(Error::InvalidDeckIndex(5)))
        ))
    );
    assert_eq!(
        person.play_defense_card(&table, Some(&Input::Number(1))),
        Decision::Pending(asks(Prompt::CardToBeat, None))
    );
    assert_eq!(
        person.play_defense_card(&table, None),
        Decision::Pending(asks(Prompt::CardToBeat, None))
    );
    assert_eq!(
        person.play_defense_card(&table, Some(&Input::Number(3))),
        Decision::Pending(asks(
            Prompt::CardToBeat,
            Some(Complaint::Refused(Error::InvalidAttackIndex(3)))
        ))
    );
    assert_eq!(
        person.play_defense_card(&table, Some(&word("what"))),
        Decision::Pending(asks(Prompt::CardToBeat, Some(Complaint::UnrecognizedAnswer)))
    );
    assert_eq!(
        person.play_defense_card(&table, Some(&Input::Number(0))),
        Decision::Made(Some((0, Card::new(Value::Nine, Suit::Heart))))
    );
    assert_eq!(*person.cards(), vec![Card::new(Value::Six, Suit::Heart)]);
    assert_eq!(
        person.play_defense_card(&table, None),
        Decision::Pending(asks(Prompt::DefenseCard, None))
    );
}

#[test]
fn person_cannot_defend_with_a_card_that_does_not_beat() {
    let mut table = table_with_trump(Suit::Club);
    table.take_attack_card(Card::new(Value::Seven, Suit::Heart));
    let mut person = person_with(vec![Card::new(Value::Seven, Suit::Spade)]);
    assert_eq!(
        person.play_defense_card(&table, Some(&Input::Number(0))),
        Decision::Pending(asks(Prompt::CardToBeat, None))
    );
    assert_eq!(
        person.play_defense_card(&table, Some(&Input::Number(0))),
        Decision::Pending(asks(
            Prompt::CardToBeat,
            Some(Complaint::Refused(Error::IncorrectDefense))
        ))
    );
    assert_eq!(person.cards_count(), 1);
    assert_eq!(person.play_defense_card(&table, Some(&word("take"))), Decision::Made(None));
    assert_eq!(
        person.play_defense_card(&table, None),
        Decision::Pending(asks(Prompt::DefenseCard, None))
    );
}

#[test]
fn person_answers_the_open_attack_card() {
    let mut table = table_with_trump(Suit::Club);
    table.take_attack_card(Card::new(Value::Seven, Suit::Heart));
    table.take_defense_card(Card::new(Value::Eight, Suit::Heart), 0);
    table.take_attack_card(Card::new(Value::Eight, Suit::Spade));
    let mut person = person_with(vec![Card::new(Value::Nine, Suit::Heart), Card::new(Value::Nine, Suit::Spade)]);
    assert_eq!(
        person.play_defense_card(&table, Some(&Input::Number(0))),
        Decision::Pending(asks(Prompt::CardToBeat, None))
    );
    assert_eq!(
        person.play_defense_card(&table, Some(&Input::Number(0))),
        Decision::Pending(asks(Prompt::CardToBeat, Some(Complaint::AnswerOther(1))))
    );
    assert_eq!(
        person.play_defense_card(&table, Some(&Input::Number(1))),
        Decision::Pending(asks(
            Prompt::CardToBeat,
            Some(Complaint::Refused(Error::IncorrectDefense))
        ))
    );
    assert_eq!(person.play_defense_card(&table, Some(&word("take"))), Decision::Made(None));
    assert_eq!(
        person.play_defense_card(&table, Some(&Input::Number(1))),
        Decision::Pending(asks(Prompt::CardToBeat, None))
    );
    assert_eq!(
        person.play_defense_card(&table, Some(&Input::Number(1))),
        Decision::Made(Some((1, Card::new(Value::Nine, Suit::Spade))))
    );
}

#[test]
fn person_takes_at_the_first_question() {
    let mut table = table_with_trump(Suit::Club);
    table.take_attack_card(Card::new(Value::Seven, Suit::Heart));
    let mut person = person_with(vec![Card::new(Value::Nine, Suit::Heart)]);
    assert_eq!(
        person.play_defense_card(&table, Some(&word("pass"))),
        Decision::Pending(asks(Prompt::DefenseCard, Some(Complaint::UnrecognizedAnswer)))
    );
    assert_eq!(person.play_defense_card(&table, Some(&word("take"))), Decision::Made(None));
    assert_eq!(person.cards_count(), 1);
}
