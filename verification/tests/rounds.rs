use durak::cards::{Card, Deck, Suit, Value};
use durak::game::{Game, SettingsBuilder};
use durak::player::{Bot, BotDificulty, Complaint, Player, Prompt, RealPlayer, Request};
use durak::random::RandomSource;
use durak::round::{Phase, RoundInfo, Step};
use durak::utils::{Error, Input};

fn bot_with(number: u8, cards: Vec<Card>) -> Box<Bot> {
    let mut bot = Bot::new(BotDificulty::Easy, number);
    bot.take_cards(cards);
    Box::new(bot)
}

fn person_with(cards: Vec<Card>) -> Box<RealPlayer> {
    let mut person = RealPlayer::new("FOO");
    person.take_cards(cards);
    Box::new(person)
}

fn hearts(values: &[Value]) -> Vec<Card> {
    values.iter().map(|value| Card::new(*value, Suit::Heart)).collect()
}

/// A game of the given hands. Clubs are trump, the stock is as given with a
/// club at the bottom, and the first seat opens the round.
fn game_of(players: Vec<Box<dyn Player>>, stock: Vec<Card>, first_win: bool) -> Game {
    let mut game: Game = Game::new(
        SettingsBuilder::new().card_deck(Deck::Standart).finish_after_first_win(first_win).build(),
    );
    for player in players {
        assert_eq!(game.add_player(player), Ok(()));
    }
    let mut cards = vec![Card::new(Value::Six, Suit::Club)];
    cards.extend(stock);
    game.table().lay_out(cards);
    game.open_round(0);
    game
}

fn all_cards(game: &Game) -> Vec<Card> {
    let mut cards: Vec<Card> = Vec::new();
    for seat in 0..game.players_count() {
        for card in game.player(seat).cards() {
            cards.push(Card::new(card.value(), card.suit()));
        }
    }
    let table = game.table_ref();
    for card in table.attack_cards().iter().chain(table.defense_cards()).chain(table.discarded_cards()) {
        cards.push(Card::new(card.value(), card.suit()));
    }
    cards
}

fn check_order(game: &Game) {
    let table = game.table_ref();
    assert!(table.defense_cards().len() <= table.attack_cards().len());
    assert!(table.attack_cards().len() <= 6);
    let round = game.round_info();
    match game.phase() {
        Phase::Lobby | Phase::Finished => {},
        phase => {
            assert!(round.first_attacking_index < game.players_count());
            assert!(round.attacking_index < game.players_count());
            assert!(round.defending_index < game.players_count());
            assert_ne!(round.first_attacking_index, round.defending_index);
            assert!(round.passes_count <= game.players_count());
            if phase == Phase::FirstAttack {
                assert!(table.attack_cards().is_empty());
                assert!(game.player(round.first_attacking_index).has_cards());
                assert!(game.player(round.defending_index).has_cards());
            }
            if phase == Phase::Defense {
                assert_eq!(table.attack_cards().len(), table.defense_cards().len() + 1);
                assert!(game.player(round.defending_index).has_cards());
            }
            if phase == Phase::AttackContinuation {
                assert_eq!(table.attack_cards().len(), table.defense_cards().len());
                assert!(table.attack_cards().len() < 6);
            }
        },
    }
    let empty = (0..game.players_count()).filter(|seat| !game.player(*seat).has_cards()).count();
    if game.phase() != Phase::Lobby {
        assert!(empty <= game.winners_count());
    }
}

#[test]
fn seats_by_deck() {
    assert_eq!(Game::<Bot>::new(SettingsBuilder::new().card_deck(Deck::Reduced).build()).max_players_count(), 4);
    assert_eq!(Game::<Bot>::new(SettingsBuilder::new().card_deck(Deck::Standart).build()).max_players_count(), 6);
    assert_eq!(Game::<Bot>::new(SettingsBuilder::new().card_deck(Deck::Full).build()).max_players_count(), 8);
    assert_eq!(Game::<Bot>::new(SettingsBuilder::new().card_deck(Deck::Extended).build()).max_players_count(), 9);
}

#[test]
fn settings_are_built_as_set() {
    let usual = SettingsBuilder::new().build();
    assert_eq!(usual.card_deck(), Deck::Standart);
    assert_eq!(usual.max_players_count(), 6);
    assert!(!usual.cheats_allowed());
    assert!(usual.finish_after_first_win());
    let other = SettingsBuilder::new()
        .card_deck(Deck::Full)
        .cheats_allowed(true)
        .finish_after_first_win(false)
        .build();
    assert_eq!(other.card_deck(), Deck::Full);
    assert_eq!(other.max_players_count(), 8);
    assert!(other.cheats_allowed());
    assert!(!other.finish_after_first_win());
}

#[test]
fn one_too_many_is_turned_down() {
    let mut game: Game = Game::new(SettingsBuilder::new().card_deck(Deck::Reduced).build());
    for number in 1..=4 {
        assert_eq!(game.add_player(Box::new(Bot::new(BotDificulty::Easy, number))), Ok(()));
    }
    assert_eq!(game.players_count(), 4);
    assert_eq!(
        game.add_player(Box::new(Bot::new(BotDificulty::Hard, 5))),
        Err(Error::TooManyPlayers(4))
    );
    assert_eq!(game.add_player(Box::new(RealPlayer::new("FOO"))), Err(Error::TooManyPlayers(4)));
    assert_eq!(game.players_count(), 4);
}

#[test]
fn game_needs_two_players() {
    let mut random = RandomSource::seeded(4);
    let mut game: Game = Game::new(SettingsBuilder::new().build());
    assert_eq!(game.start(&mut random), 2);
    assert_eq!(game.phase(), Phase::Lobby);
    assert_eq!(game.play_round(None), Step::Idle);
    game.add_player(Box::new(Bot::new(BotDificulty::Easy, 1))).unwrap();
    assert_eq!(game.start(&mut random), 1);
    assert_eq!(game.phase(), Phase::Lobby);
    assert_eq!(game.table_ref().remain_cards_count(), 0);
    assert_eq!(game.player(0).cards_count(), 0);
    game.add_player(Box::new(Bot::new(BotDificulty::Easy, 2))).unwrap();
    assert_eq!(game.start(&mut random), 0);
    assert_eq!(game.phase(), Phase::FirstAttack);
    assert!(!game.is_finished());
}

#[test]
fn start_serves_six_cards_each() {
    let mut random = RandomSource::seeded(9);
    let mut game: Game = Game::new(SettingsBuilder::new().build());
    for number in 1..=3 {
        game.add_player(Box::new(Bot::new(BotDificulty::Easy, number))).unwrap();
    }
    assert_eq!(game.start(&mut random), 0);
    for seat in 0..3 {
        assert_eq!(game.player(seat).cards_count(), 6);
        let cards = game.player(seat).cards();
        for place in 1..cards.len() {
            assert!(cards[place - 1].comes_before(&cards[place]));
        }
    }
    assert_eq!(game.table_ref().remain_cards_count(), 18);
    assert_eq!(game.winners_count(), 0);
    let round = game.round_info();
    assert!(round.first_attacking_index < 3);
    assert_eq!(round.defending_index, (round.first_attacking_index + 1) % 3);
    assert_eq!(round.attacking_index, round.first_attacking_index);
    let mut cards = all_cards(&game);
    assert_eq!(cards.len(), 18);
    cards.sort();
    cards.dedup();
    assert_eq!(cards.len(), 18);
    check_order(&game);
}

#[test]
fn cards_are_served_from_the_top() {
    let mut game: Game = Game::new(SettingsBuilder::new().build());
    game.add_player(Box::new(Bot::new(BotDificulty::Easy, 1))).unwrap();
    game.add_player(Box::new(Bot::new(BotDificulty::Easy, 2))).unwrap();
    game.table().lay_out(Deck::Standart.cards());
    game.serve_cards();
    let fresh = Deck::Standart.cards();
    assert_eq!(game.player(0).cards_count(), 6);
    assert_eq!(game.player(1).cards_count(), 6);
    for card in &fresh[30..36] {
        assert!(game.player(0).cards().contains(card));
    }
    for card in &fresh[24..30] {
        assert!(game.player(1).cards().contains(card));
    }
    assert_eq!(game.table_ref().remain_cards_count(), 24);
    assert_eq!(game.table_ref().trump(), Suit::Club);
}

#[test]
fn failed_defense_gives_the_defender_the_cards() {
    let mut game = game_of(
        vec![
            bot_with(1, vec![Card::new(Value::Seven, Suit::Heart), Card::new(Value::Nine, Suit::Diamond)]),
            bot_with(2, vec![Card::new(Value::Seven, Suit::Spade)]),
        ],
        hearts(&[Value::Ten, Value::Jack, Value::Queen]),
        true,
    );
    assert_eq!(game.phase(), Phase::FirstAttack);
    assert_eq!(game.play_round(None), Step::Attacked);
    assert_eq!(*game.table_ref().attack_cards(), vec![Card::new(Value::Seven, Suit::Heart)]);
    assert_eq!(game.phase(), Phase::Defense);
    assert!(!game.table_ref().can_beat(&game.player(1).cards()[0], 0));
    assert_eq!(game.play_round(None), Step::Conceded);
    assert_eq!(game.phase(), Phase::Resolution);
    assert!(!game.round_info().is_defense_succeed);
    assert_eq!(game.play_round(None), Step::Resolved);
    assert_eq!(
        *game.player(1).cards(),
        vec![Card::new(Value::Seven, Suit::Heart), Card::new(Value::Seven, Suit::Spade)]
    );
    assert!(game.table_ref().discarded_cards().is_empty());
    assert!(game.table_ref().attack_cards().is_empty());
    assert!(game.table_ref().defense_cards().is_empty());
    assert_eq!(
        *game.player(0).cards(),
        vec![
            Card::new(Value::Six, Suit::Club),
            Card::new(Value::Ten, Suit::Heart),
            Card::new(Value::Jack, Suit::Heart),
            Card::new(Value::Queen, Suit::Heart),
            Card::new(Value::Nine, Suit::Diamond),
        ]
    );
    assert_eq!(game.table_ref().remain_cards_count(), 0);
    assert_eq!(game.winners_count(), 0);
    assert_eq!(game.phase(), Phase::FirstAttack);
    assert_eq!(game.round_info(), RoundInfo {
        is_defense_succeed: true,
        first_attacking_index: 0,
        attacking_index: 0,
        last_not_passed_index: 0,
        defending_index: 1,
        passes_count: 0,
    });
    check_order(&game);
}

#[test]
fn held_defense_discards_and_makes_the_defender_attack() {
    let mut game = game_of(
        vec![
            bot_with(1, vec![Card::new(Value::Seven, Suit::Heart), Card::new(Value::Nine, Suit::Diamond)]),
            bot_with(2, vec![Card::new(Value::Eight, Suit::Heart), Card::new(Value::Ace, Suit::Spade)]),
        ],
        hearts(&[Value::Ten, Value::Jack, Value::Queen, Value::King, Value::Ace, Value::Six, Value::Nine]),
        true,
    );
    assert_eq!(game.play_round(None), Step::Attacked);
    assert_eq!(game.play_round(None), Step::Defended);
    assert_eq!(game.phase(), Phase::AttackContinuation);
    assert_eq!(*game.table_ref().defense_cards(), vec![Card::new(Value::Eight, Suit::Heart)]);
    assert_eq!(game.play_round(None), Step::Passed);
    assert_eq!(game.phase(), Phase::Resolution);
    assert!(game.round_info().is_defense_succeed);
    assert_eq!(game.round_info().passes_count, 1);
    let stock_before = game.table_ref().remain_cards_count();
    let held_before = game.player(0).cards_count() + game.player(1).cards_count();
    assert_eq!(game.play_round(None), Step::Resolved);
    assert_eq!(
        *game.table_ref().discarded_cards(),
        vec![Card::new(Value::Seven, Suit::Heart), Card::new(Value::Eight, Suit::Heart)]
    );
    assert!(game.table_ref().attack_cards().is_empty());
    assert_eq!(game.player(0).cards_count(), 6);
    assert_eq!(game.player(1).cards_count(), 4);
    assert_eq!(game.table_ref().remain_cards_count(), 0);
    let held_after = game.player(0).cards_count() + game.player(1).cards_count();
    assert_eq!(held_after - held_before, stock_before - game.table_ref().remain_cards_count());
    assert_eq!(game.phase(), Phase::FirstAttack);
    assert_eq!(game.round_info().first_attacking_index, 1);
    assert_eq!(game.round_info().defending_index, 0);
    assert!(game.player(0).cards().contains(&Card::new(Value::Nine, Suit::Heart)));
    assert!(game.player(1).cards().contains(&Card::new(Value::Six, Suit::Club)));
    check_order(&game);
}

#[test]
fn attack_goes_on_with_played_values() {
    let mut game = game_of(
        vec![
            bot_with(1, vec![Card::new(Value::Seven, Suit::Heart), Card::new(Value::Eight, Suit::Diamond)]),
            bot_with(2, vec![
                Card::new(Value::Eight, Suit::Heart),
                Card::new(Value::Nine, Suit::Diamond),
                Card::new(Value::Ace, Suit::Spade),
            ]),
        ],
        vec![],
        false,
    );
    assert_eq!(game.play_round(None), Step::Attacked);
    assert_eq!(game.play_round(None), Step::Defended);
    assert_eq!(game.play_round(None), Step::Attacked);
    assert_eq!(game.winners_count(), 1);
    assert_eq!(
        *game.table_ref().attack_cards(),
        vec![Card::new(Value::Seven, Suit::Heart), Card::new(Value::Eight, Suit::Diamond)]
    );
    assert_eq!(game.phase(), Phase::Defense);
    assert_eq!(game.play_round(None), Step::Defended);
    assert_eq!(game.phase(), Phase::AttackContinuation);
    assert_eq!(game.play_round(None), Step::Passed);
    assert_eq!(game.phase(), Phase::Resolution);
    assert_eq!(game.play_round(None), Step::Resolved);
    assert_eq!(game.table_ref().discarded_cards().len(), 4);
    assert_eq!(*game.player(0).cards(), vec![Card::new(Value::Six, Suit::Club)]);
    assert_eq!(*game.player(1).cards(), vec![Card::new(Value::Ace, Suit::Spade)]);
    assert!(game.is_finished());
    assert_eq!(game.play_round(None), Step::Idle);
    assert_eq!(game.phase(), Phase::Finished);
}

#[test]
fn last_card_of_the_defender_ends_the_round() {
    let mut game = game_of(
        vec![
            bot_with(1, vec![Card::new(Value::Seven, Suit::Heart), Card::new(Value::Eight, Suit::Diamond)]),
            bot_with(2, vec![Card::new(Value::Eight, Suit::Heart)]),
        ],
        vec![],
        true,
    );
    assert_eq!(game.play_round(None), Step::Attacked);
    assert_eq!(game.winners_count(), 0);
    assert_eq!(game.play_round(None), Step::Defended);
    assert_eq!(game.winners_count(), 1);
    assert_eq!(game.phase(), Phase::Resolution);
    assert_eq!(game.play_round(None), Step::Resolved);
    assert!(game.is_finished());
    assert_eq!(game.table_ref().discarded_cards().len(), 2);
    assert_eq!(
        *game.player(0).cards(),
        vec![Card::new(Value::Six, Suit::Club), Card::new(Value::Eight, Suit::Diamond)]
    );
    assert!(game.player(1).cards().is_empty());
    assert_eq!(game.table_ref().remain_cards_count(), 0);
}

#[test]
fn turn_goes_round_past_the_defender() {
    let mut game = game_of(
        vec![
            bot_with(1, vec![Card::new(Value::Seven, Suit::Heart), Card::new(Value::Ace, Suit::Diamond)]),
            bot_with(2, vec![Card::new(Value::Eight, Suit::Heart), Card::new(Value::King, Suit::Diamond)]),
            bot_with(3, vec![Card::new(Value::Eight, Suit::Spade), Card::new(Value::Queen, Suit::Diamond)]),
            bot_with(4, vec![Card::new(Value::Jack, Suit::Diamond)]),
        ],
        vec![],
        false,
    );
    assert_eq!(game.play_round(None), Step::Attacked);
    assert_eq!(game.play_round(None), Step::Defended);
    assert_eq!(game.round_info().attacking_index, 0);
    assert_eq!(game.play_round(None), Step::Passed);
    assert_eq!(game.round_info().attacking_index, 1);
    assert_eq!(game.round_info().passes_count, 1);
    assert_eq!(game.phase(), Phase::AttackContinuation);
    assert_eq!(game.play_round(None), Step::Attacked);
    assert_eq!(game.round_info().attacking_index, 2);
    assert_eq!(game.round_info().last_not_passed_index, 2);
    assert_eq!(game.round_info().passes_count, 0);
    assert_eq!(
        *game.table_ref().attack_cards(),
        vec![Card::new(Value::Seven, Suit::Heart), Card::new(Value::Eight, Suit::Spade)]
    );
    assert_eq!(game.play_round(None), Step::Conceded);
    assert_eq!(game.play_round(None), Step::Resolved);
    assert_eq!(game.player(1).cards_count(), 4);
    assert!(game.table_ref().discarded_cards().is_empty());
    assert_eq!(game.round_info().first_attacking_index, 2);
    assert_eq!(game.round_info().defending_index, 3);
    assert_eq!(game.player(0).cards_count(), 2);
    check_order(&game);
}

#[test]
fn everyone_passes_before_the_round_ends() {
    let mut game = game_of(
        vec![
            bot_with(1, vec![Card::new(Value::Seven, Suit::Heart), Card::new(Value::Ace, Suit::Diamond)]),
            bot_with(2, vec![Card::new(Value::Eight, Suit::Heart), Card::new(Value::King, Suit::Diamond)]),
            bot_with(3, vec![Card::new(Value::Queen, Suit::Diamond)]),
        ],
        vec![],
        false,
    );
    assert_eq!(game.play_round(None), Step::Attacked);
    assert_eq!(game.play_round(None), Step::Defended);
    let mut passes = 0;
    while game.phase() == Phase::AttackContinuation {
        assert_eq!(game.play_round(None), Step::Passed);
        passes += 1;
        assert_eq!(game.round_info().passes_count, passes);
        assert!(passes <= 3);
    }
    assert_eq!(passes, 3);
    assert_eq!(game.phase(), Phase::Resolution);
    assert!(game.round_info().is_defense_succeed);
}

#[test]
fn seat_without_cards_is_passed_over() {
    let mut game = game_of(
        vec![
            bot_with(1, vec![Card::new(Value::Seven, Suit::Heart), Card::new(Value::Ace, Suit::Diamond)]),
            bot_with(2, vec![Card::new(Value::Eight, Suit::Heart)]),
            bot_with(3, vec![Card::new(Value::Queen, Suit::Diamond), Card::new(Value::Ten, Suit::Spade)]),
        ],
        vec![],
        false,
    );
    assert_eq!(game.play_round(None), Step::Attacked);
    assert_eq!(game.play_round(None), Step::Defended);
    assert_eq!(game.winners_count(), 1);
    assert_eq!(game.phase(), Phase::Resolution);
    assert_eq!(game.play_round(None), Step::Resolved);
    assert_eq!(*game.player(0).cards(), vec![Card::new(Value::Six, Suit::Club), Card::new(Value::Ace, Suit::Diamond)]);
    assert_eq!(game.player(1).cards_count(), 0);
    assert_eq!(game.phase(), Phase::FirstAttack);
    assert_eq!(game.round_info().first_attacking_index, 2);
    assert_eq!(game.round_info().defending_index, 0);
    assert_eq!(game.find_holder(1, 2), 2);
    assert_eq!(game.find_holder(1, 0), 1);
    assert_eq!(game.find_holder(0, 2), 0);
    check_order(&game);
}

#[test]
fn person_is_asked_through_the_game() {
    let players: Vec<Box<dyn Player>> = vec![
        person_with(vec![Card::new(Value::Seven, Suit::Heart), Card::new(Value::Nine, Suit::Diamond)]),
        bot_with(2, vec![Card::new(Value::Eight, Suit::Heart), Card::new(Value::Ace, Suit::Spade)]),
    ];
    let mut game = game_of(players, vec![], false);
    assert_eq!(
        game.play_round(None),
        Step::Waiting(Request { prompt: Prompt::AttackCard, complaint: None })
    );
    assert_eq!(game.phase(), Phase::FirstAttack);
    assert_eq!(
        game.play_round(Some(&Input::String("pass".to_string()))),
        Step::Waiting(Request { prompt: Prompt::AttackCard, complaint: Some(Complaint::UnrecognizedAnswer) })
    );
    assert_eq!(
        game.play_round(Some(&Input::Number(4))),
        Step::Waiting(Request {
            prompt: Prompt::AttackCard,
            complaint: Some(Complaint::Refused(Error::InvalidDeckIndex(4)))
        })
    );
    assert_eq!(game.player(0).cards_count(), 2);
    assert_eq!(game.play_round(Some(&Input::Number(0))), Step::Attacked);
    assert_eq!(game.play_round(Some(&Input::Number(0))), Step::Defended);
    assert_eq!(
        game.play_round(None),
        Step::Waiting(Request { prompt: Prompt::AttackCardOrPass, complaint: None })
    );
    assert_eq!(
        game.play_round(Some(&Input::Number(0))),
        Step::Waiting(Request {
            prompt: Prompt::AttackCardOrPass,
            complaint: Some(Complaint::Refused(Error::AbsentCardValue(Value::Nine)))
        })
    );
    assert_eq!(game.play_round(Some(&Input::String("pass".to_string()))), Step::Passed);
    assert_eq!(game.phase(), Phase::Resolution);
    assert_eq!(game.play_round(None), Step::Resolved);
    assert_eq!(game.round_info().first_attacking_index, 1);
    assert_eq!(game.play_round(None), Step::Attacked);
    assert_eq!(
        game.play_round(None),
        Step::Waiting(Request { prompt: Prompt::DefenseCard, complaint: None })
    );
    assert_eq!(game.play_round(Some(&Input::String("take".to_string()))), Step::Conceded);
    assert_eq!(game.play_round(None), Step::Resolved);
    assert_eq!(game.player(0).cards_count(), 3);
    check_order(&game);
}

/// Plays a game of bots, and looks at every step whether the game is in good
/// order. Bots that play the first card that fits can hand the same cards
/// round for ever, so a game is given up after many steps. Returns whether
/// the game came to its end.
fn play_and_watch(deck: Deck, players: u8, first_win: bool, seed: u64) -> bool {
    let mut random = RandomSource::seeded(seed);
    let mut game: Game = Game::new(
        SettingsBuilder::new().card_deck(deck).finish_after_first_win(first_win).build(),
    );
    for number in 1..=players {
        game.add_player(Box::new(Bot::new(BotDificulty::Easy, number))).unwrap();
    }
    assert_eq!(game.start(&mut random), 0);
    let mut steps = 0;
    while !game.is_finished() {
        let phase = game.phase();
        let round = game.round_info();
        let discarded = game.table_ref().discarded_cards().len();
        let played = game.table_ref().attack_cards().len() + game.table_ref().defense_cards().len();
        let stock = game.table_ref().remain_cards_count();
        let held: usize = (0..game.players_count()).map(|seat| game.player(seat).cards_count()).sum();
        let defender_held = game.player(round.defending_index).cards_count();
        let step = game.play_round(None);
        assert_ne!(step, Step::Idle);
        check_order(&game);
        let mut cards = all_cards(&game);
        assert_eq!(cards.len() + game.table_ref().remain_cards_count(), deck.size());
        cards.sort();
        cards.dedup();
        assert_eq!(cards.len() + game.table_ref().remain_cards_count(), deck.size());
        if phase == Phase::Resolution {
            assert_eq!(step, Step::Resolved);
            let held_after: usize =
                (0..game.players_count()).map(|seat| game.player(seat).cards_count()).sum();
            if round.is_defense_succeed {
                assert_eq!(game.table_ref().discarded_cards().len(), discarded + played);
                assert_eq!(held_after - held, stock - game.table_ref().remain_cards_count());
                if !game.is_finished() && game.player(round.defending_index).has_cards() {
                    assert_eq!(game.round_info().first_attacking_index, round.defending_index);
                }
            } else {
                assert_eq!(game.table_ref().discarded_cards().len(), discarded);
                assert_eq!(game.player(round.defending_index).cards_count(), defender_held + played);
            }
        }
        steps += 1;
        if steps == 5_000 {
            return false;
        }
    }
    if first_win {
        assert!(game.winners_count() >= 1);
    } else {
        assert!(game.winners_count() + 1 >= game.players_count());
    }
    assert_eq!(game.play_round(None), Step::Idle);
    assert!(game.is_finished());
    true
}

#[test]
fn bots_play_to_the_first_win() {
    let mut ended = 0;
    for seed in 0..20 {
        for (deck, players) in [(Deck::Standart, 2), (Deck::Standart, 4), (Deck::Reduced, 4), (Deck::Extended, 9)] {
            if play_and_watch(deck, players, true, seed) {
                ended += 1;
            }
        }
    }
    assert!(ended >= 40);
}

#[test]
fn bots_play_until_one_is_left() {
    let mut ended = 0;
    for seed in 0..20 {
        for (deck, players) in [(Deck::Standart, 2), (Deck::Standart, 3), (Deck::Full, 5), (Deck::Standart, 6)] {
            if play_and_watch(deck, players, false, seed) {
                ended += 1;
            }
        }
    }
    assert!(ended >= 20);
}

#[test]
fn seat_to_move_follows_the_round() {
    let mut game = game_of(
        vec![
            bot_with(1, vec![Card::new(Value::Seven, Suit::Heart), Card::new(Value::Ace, Suit::Diamond)]),
            bot_with(2, vec![Card::new(Value::Eight, Suit::Heart), Card::new(Value::King, Suit::Diamond)]),
            bot_with(3, vec![Card::new(Value::Queen, Suit::Diamond)]),
        ],
        vec![],
        false,
    );
    assert_eq!(game.seat_to_move(), Some(0));
    assert_eq!(game.play_round(None), Step::Attacked);
    assert_eq!(game.seat_to_move(), Some(1));
    assert_eq!(game.play_round(None), Step::Defended);
    assert_eq!(game.seat_to_move(), Some(0));
    assert_eq!(game.play_round(None), Step::Passed);
    assert_eq!(game.round_info().attacking_index, 1);
    assert_eq!(game.seat_to_move(), Some(2));
    assert_eq!(game.play_round(None), Step::Passed);
    assert_eq!(game.seat_to_move(), Some(0));
    assert_eq!(game.play_round(None), Step::Passed);
    assert_eq!(game.phase(), Phase::Resolution);
    assert_eq!(game.seat_to_move(), None);
    let lobby: Game = Game::new(SettingsBuilder::new().build());
    assert_eq!(lobby.seat_to_move(), None);
}
