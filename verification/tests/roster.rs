use durak::cards::{Card, Deck, Suit, Value, CARDS_IN_DECK_COUNT};
use durak::game::{Game, SettingsBuilder};
use durak::player::{Bot, BotDificulty, Player};
use durak::random::RandomSource;

fn add_players_to_game(card_deck: Deck) {
    let mut game: Game = Game::new(SettingsBuilder::new().card_deck(card_deck).build());

    for i in 1..=(card_deck.size() / CARDS_IN_DECK_COUNT) {
        let bot = Box::new(Bot::new(BotDificulty::Easy, i as u8));
        assert!(game.add_player(bot).is_ok());
    }
    let bot = Box::new(Bot::new(BotDificulty::Hard, 0));
    assert!(game.add_player(bot).is_err());
    println!("game has {} players", game.players_count());
}

#[test]
fn add_players() {
    add_players_to_game(Deck::Reduced);
    add_players_to_game(Deck::Standart);
    add_players_to_game(Deck::Full);
    add_players_to_game(Deck::Extended);
}

#[test]
fn choose_cards() {
}

#[test]
fn draw_stock_cards() {
    let mut game: Game = Game::new(SettingsBuilder::new().build());
    let mut random = RandomSource::seeded(1);
    game.table().reset(&mut random);
    let mut bot = Bot::new(BotDificulty::Easy, 1);

    bot.take_cards(game.table().draw_stock_cards(6).unwrap());
    assert_eq!(bot.cards_count(), 6);
}

#[test]
fn draw_played_cards() {
    let mut game: Game = Game::new(SettingsBuilder::new().build());
    let mut random = RandomSource::seeded(1);
    game.table().reset(&mut random);
    let mut bot = Bot::new(BotDificulty::Easy, 1);

    let mut cards = vec![
        Card::new(Value::Seven, Suit::Heart),
        Card::new(Value::Seven, Suit::Spade),
        Card::new(Value::Seven, Suit::Diamond),
        Card::new(Value::Seven, Suit::Club),
    ];
    game.table().take_attack_card(cards.remove(0));
    game.table().take_attack_card(cards.remove(0));
    game.table().take_attack_card(cards.remove(0));
    game.table().take_attack_card(cards.remove(0));

    bot.take_cards(game.table().draw_played_cards());
    assert_eq!(bot.cards_count(), 4);
}
