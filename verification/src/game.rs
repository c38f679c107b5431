//! The game: its settings, its roster, and the rounds it plays.

use vstd::prelude::*;
use crate::cards::{Card, Deck, CARDS_IN_DECK_COUNT};
use crate::hand::arranged;
use crate::player::{Decision, Player, missing_cards, played_from};
use crate::random::RandomSource;
use crate::round::{Phase, RoundInfo, Step, attack_step_of, defense_step_of, lemma_passes_stay_fit};
use crate::seats::{
    empty_hands,
    holder_from,
    is_empty_hand,
    lemma_empty_hands_bound,
    lemma_empty_hands_update,
    lemma_holder_from,
    lemma_holders_exist,
    lemma_no_empty_hands,
    next_index,
    next_seat,
    seat_after,
    steps_to,
};
use crate::table::{Table, TableView};
use crate::utils::{Error, Input};

verus! {

/// Collects the settings of a game.
pub struct SettingsBuilder {
    pub card_deck: Deck,
    pub cheats_allowed: bool,
    pub finish_after_first_win: bool,
}

impl SettingsBuilder {
    /// The usual settings: 36 cards, no cheats, the game ends with the first win.
    pub fn new() -> (builder: Self)
        ensures
            builder == (SettingsBuilder {
                card_deck: Deck::Standart,
                cheats_allowed: false,
                finish_after_first_win: true,
            }),
    {
        Self { card_deck: Deck::Standart, cheats_allowed: false, finish_after_first_win: true }
    }

    pub fn card_deck(self, card_deck: Deck) -> (builder: Self)
        ensures
            builder == (SettingsBuilder { card_deck, ..self }),
    {
        Self { card_deck, ..self }
    }

    pub fn cheats_allowed(self, cheats_allowed: bool) -> (builder: Self)
        ensures
            builder == (SettingsBuilder { cheats_allowed, ..self }),
    {
        Self { cheats_allowed, ..self }
    }

    pub fn finish_after_first_win(self, finish_after_first_win: bool) -> (builder: Self)
        ensures
            builder == (SettingsBuilder { finish_after_first_win, ..self }),
    {
        Self { finish_after_first_win, ..self }
    }

    /// The settings collected so far. The deck seats one player for every
    /// full hand it holds.
    pub fn build(&self) -> (settings: Settings)
        ensures
            settings.card_deck() == self.card_deck,
            settings.max_players_count() == self.card_deck.size() / CARDS_IN_DECK_COUNT,
            settings.cheats_allowed() == self.cheats_allowed,
            settings.finish_after_first_win() == self.finish_after_first_win,
    {
        Settings {
            card_deck: self.card_deck,
            max_players_count: self.card_deck.size() / CARDS_IN_DECK_COUNT,
            cheats_allowed: self.cheats_allowed,
            finish_after_first_win: self.finish_after_first_win,
        }
    }
}

/// The settings of a game.
#[derive(Clone, Copy)]
pub struct Settings {
    card_deck: Deck,
    max_players_count: usize,
    cheats_allowed: bool,
    finish_after_first_win: bool,
}

impl Settings {
    #[verifier::type_invariant]
    spec fn seats_fit_deck(self) -> bool {
        self.max_players_count == self.card_deck.size() / CARDS_IN_DECK_COUNT
    }

    pub closed spec fn spec_card_deck(&self) -> Deck {
        self.card_deck
    }

    pub closed spec fn spec_max_players_count(&self) -> usize {
        self.max_players_count
    }

    pub closed spec fn spec_cheats_allowed(&self) -> bool {
        self.cheats_allowed
    }

    pub closed spec fn spec_finish_after_first_win(&self) -> bool {
        self.finish_after_first_win
    }

    /// The deck the game is played with.
    #[verifier::when_used_as_spec(spec_card_deck)]
    pub fn card_deck(&self) -> (deck: Deck)
        ensures
            deck == self.spec_card_deck(),
    {
        self.card_deck
    }

    /// How many players the game seats: one for every full hand in the deck.
    #[verifier::when_used_as_spec(spec_max_players_count)]
    pub fn max_players_count(&self) -> (count: usize)
        ensures
            count == self.spec_max_players_count(),
            count == self.card_deck().size() / CARDS_IN_DECK_COUNT,
    {
        proof {
            use_type_invariant(self);
        }
        self.max_players_count
    }

    /// Whether cheats are allowed. No rule asks.
    #[verifier::when_used_as_spec(spec_cheats_allowed)]
    pub fn cheats_allowed(&self) -> (allowed: bool)
        ensures
            allowed == self.spec_cheats_allowed(),
    {
        self.cheats_allowed
    }

    /// Whether the game ends with the first win, or goes on until one player
    /// is left.
    #[verifier::when_used_as_spec(spec_finish_after_first_win)]
    pub fn finish_after_first_win(&self) -> (first_win: bool)
        ensures
            first_win == self.spec_finish_after_first_win(),
    {
        self.finish_after_first_win
    }
}

/// How many cards a player who holds `held` cards draws from a stock of `left`
/// cards: what the hand lacks, as far as the stock goes.
pub open spec fn draw_count(held: nat, left: int) -> int {
    if missing_cards(held) <= left {
        missing_cards(held) as int
    } else {
        left
    }
}

/// The hand after drawing from the top of a stock of which `left` cards are
/// left. A hand that draws nothing stays as it is.
pub open spec fn refill(hand: Seq<Card>, stock: Seq<Card>, left: int) -> Seq<Card> {
    let count = draw_count(hand.len(), left);
    if count == 0 {
        hand
    } else {
        arranged(hand + stock.subrange(left - count, left))
    }
}

/// What a game holds.
pub struct GameView {
    /// The table.
    pub table: TableView,
    /// The hand of each player, by seat.
    pub hands: Seq<Seq<Card>>,
    /// The settings.
    pub settings: Settings,
    /// How often a player has got rid of the last card.
    pub winners_count: usize,
    /// The round under way.
    pub round: RoundInfo,
    /// Where the game stands.
    pub phase: Phase,
}

impl GameView {
    /// The number of players.
    pub open spec fn players(self) -> int {
        self.hands.len() as int
    }

    /// The game is over: somebody has won, where the first win ends the game;
    /// else all players but one have.
    pub open spec fn decided(self) -> bool {
        if self.settings.finish_after_first_win() {
            self.winners_count > 0
        } else {
            self.winners_count + 1 >= self.players()
        }
    }

    /// What holds of a game once the cards are dealt: there are players enough,
    /// every empty hand was counted as a win, and no more wins were counted
    /// than hands were emptied and cards left the stock.
    pub open spec fn counts_fit(self) -> bool {
        &&& self.players() >= 2
        &&& empty_hands(self.hands) <= self.winners_count
        &&& self.winners_count + self.table.stock.len() <= empty_hands(self.hands)
            + self.table.deck.size()
    }

    /// What holds of the round in each phase.
    pub open spec fn round_fits(self) -> bool {
        let round = self.round;
        let table = self.table;
        match self.phase {
            Phase::Lobby => self.winners_count == 0,
            Phase::FirstAttack => {
                &&& self.counts_fit()
                &&& round.seated(self.players())
                &&& round == RoundInfo::opened(round.first_attacking_index, round.defending_index)
                &&& table.attack.len() == 0
                &&& table.defense.len() == 0
                &&& self.hands[round.first_attacking_index as int].len() > 0
                &&& self.hands[round.defending_index as int].len() > 0
            },
            Phase::Defense => {
                &&& self.counts_fit()
                &&& round.seated(self.players())
                &&& round.passes_fit(self.players())
                &&& round.is_defense_succeed
                &&& table.attack.len() == table.defense.len() + 1
                &&& self.hands[round.defending_index as int].len() > 0
            },
            Phase::AttackContinuation => {
                &&& self.counts_fit()
                &&& round.seated(self.players())
                &&& round.passes_fit(self.players())
                &&& round.is_defense_succeed
                &&& table.attack.len() == table.defense.len()
                &&& 0 < table.attack.len() < CARDS_IN_DECK_COUNT
                &&& self.hands[round.defending_index as int].len() > 0
            },
            Phase::Resolution => {
                &&& self.counts_fit()
                &&& round.seated(self.players())
                &&& table.attack.len() > 0
                &&& round.is_defense_succeed ==> table.attack.len() == table.defense.len()
                &&& !round.is_defense_succeed ==> self.hands[round.defending_index as int].len() > 0
            },
            Phase::Finished => self.counts_fit(),
        }
    }

    /// The game is in good order.
    pub open spec fn wf(self) -> bool {
        &&& self.table.wf()
        &&& self.table.deck == self.settings.card_deck()
        &&& self.settings.max_players_count() == self.settings.card_deck().size() / CARDS_IN_DECK_COUNT
        &&& self.players() <= self.settings.max_players_count()
        &&& self.round_fits()
    }

    /// How many cards lie in the stock when the turn to be served comes to `seat`.
    pub open spec fn stock_left_for(self, seat: int) -> int {
        if self.table.stock.len() >= CARDS_IN_DECK_COUNT * seat {
            self.table.stock.len() - CARDS_IN_DECK_COUNT * seat
        } else {
            0
        }
    }

    /// The hand at `seat` once the cards are served: the hand it had, and with
    /// it a full hand from the top of the stock, or what was left of the stock.
    pub open spec fn served_hand(self, seat: int) -> Seq<Card> {
        arranged(
            self.hands[seat] + self.table.stock.subrange(
                self.stock_left_for(seat + 1),
                self.stock_left_for(seat),
            ),
        )
    }

    /// The game after the cards are served, seat by seat.
    pub open spec fn served(self) -> GameView {
        GameView {
            table: TableView {
                stock: self.table.stock.subrange(0, self.stock_left_for(self.players())),
                ..self.table
            },
            hands: Seq::new(self.hands.len(), |seat: int| self.served_hand(seat)),
            ..self
        }
    }

    /// The game at the start of a round that `first` opens against the next seat.
    pub open spec fn opened_by(self, first: usize) -> GameView {
        GameView {
            round: RoundInfo::opened(first, next_seat(first as int, self.players()) as usize),
            phase: Phase::FirstAttack,
            ..self
        }
    }

    /// The game with the stock laid out anew.
    pub open spec fn laid_out(self, stock: Seq<Card>) -> GameView {
        GameView { table: self.table.laid_out(stock), ..self }
    }

    /// Every seat finds a card in the stock when its turn to be served comes.
    pub open spec fn can_serve(self) -> bool {
        self.players() > 0 ==> self.table.stock.len() > CARDS_IN_DECK_COUNT * (self.players() - 1)
    }

    /// The game after the player at `seat` played `card` as an attack card and
    /// kept `rest` in hand. A player who plays the last card has won.
    pub open spec fn with_attack(self, seat: int, rest: Seq<Card>, card: Card) -> GameView {
        GameView {
            table: TableView { attack: self.table.attack.push(card), ..self.table },
            hands: self.hands.update(seat, rest),
            winners_count: (self.winners_count + is_empty_hand(rest)) as usize,
            ..self
        }
    }

    /// The game after the player at `seat` answered the newest attack card with
    /// `card` and kept `rest` in hand. A player who plays the last card has won.
    pub open spec fn with_defense(self, seat: int, rest: Seq<Card>, card: Card) -> GameView {
        GameView {
            table: TableView { defense: self.table.defense.push(card), ..self.table },
            hands: self.hands.update(seat, rest),
            winners_count: (self.winners_count + is_empty_hand(rest)) as usize,
            ..self
        }
    }

    /// What an attacker's turn may come to. `self` is the game before and
    /// `after` the game after it, `seat` the attacker's seat. A card that was
    /// played came from the attacker's hand, and the table accepted it.
    /// Otherwise nothing has changed. Nobody passes on the first attack.
    pub open spec fn attack_turn(self, after: GameView, seat: int, is_first_attack: bool, step: Step) -> bool {
        match step {
            Step::Attacked => exists|card: Card|
                {
                    &&& played_from(self.hands[seat], after.hands[seat], card)
                    &&& self.table.attack_verdict(card, is_first_attack) is Ok
                    &&& after == #[trigger] self.with_attack(seat, after.hands[seat], card)
                },
            Step::Passed => after == self && (!is_first_attack || self.hands[seat].len() == 0),
            Step::Waiting(_) => after == self && self.hands[seat].len() > 0,
            _ => false,
        }
    }

    /// What the defender's turn may come to. `self` is the game before and
    /// `after` the game after it, `seat` the defender's seat. A card that was
    /// played came from the defender's hand and beats the newest attack card.
    /// Otherwise nothing has changed.
    pub open spec fn defense_turn(self, after: GameView, seat: int, step: Step) -> bool {
        match step {
            Step::Defended => exists|card: Card|
                {
                    &&& played_from(self.hands[seat], after.hands[seat], card)
                    &&& self.table.defense_verdict(card, self.table.defense.len() as usize) is Ok
                    &&& after == #[trigger] self.with_defense(seat, after.hands[seat], card)
                },
            Step::Conceded => after == self,
            Step::Waiting(_) => after == self,
            _ => false,
        }
    }

    /// The round and the phase that follow when the turn in this phase came to
    /// `step`. `self` is the game after the player's move.
    pub open spec fn moved_on(self, step: Step) -> GameView {
        let round = self.round;
        let players = self.players();
        match self.phase {
            Phase::FirstAttack => if step is Attacked {
                GameView { phase: Phase::Defense, ..self }
            } else {
                self
            },
            Phase::Defense => match step {
                Step::Defended => GameView {
                    phase: if self.hands[round.defending_index as int].len() == 0
                        || self.table.attack_finished() {
                        Phase::Resolution
                    } else {
                        Phase::AttackContinuation
                    },
                    ..self
                },
                Step::Conceded => GameView {
                    round: RoundInfo { is_defense_succeed: false, ..round },
                    phase: Phase::Resolution,
                    ..self
                },
                _ => self,
            },
            Phase::AttackContinuation => match step {
                Step::Attacked => GameView { round: round.after_attack(), phase: Phase::Defense, ..self },
                Step::Passed => GameView {
                    round: round.after_pass(players),
                    phase: if round.sweep_over(players) {
                        Phase::Resolution
                    } else {
                        Phase::AttackContinuation
                    },
                    ..self
                },
                _ => self,
            },
            _ => self,
        }
    }

    /// The game after the attacker at `seat` decided as given and has `rest` in
    /// hand: a card played lies on the attack pile; else nothing has changed.
    pub open spec fn attack_moved(self, seat: int, decision: Decision<Card>, rest: Seq<Card>) -> GameView {
        match decision {
            Decision::Made(Some(card)) => self.with_attack(seat, rest, card),
            _ => self,
        }
    }

    /// The game after the defender at `seat` decided as given and has `rest`
    /// in hand: a card played lies on the defense pile; else nothing has
    /// changed.
    pub open spec fn defense_moved(self, seat: int, decision: Decision<(usize, Card)>, rest: Seq<Card>) -> GameView {
        match decision {
            Decision::Made(Some(play)) => self.with_defense(seat, rest, play.1),
            _ => self,
        }
    }

    /// The game with the turn to attack moved past the defender's seat.
    pub open spec fn facing(self) -> GameView {
        GameView { round: self.round.facing(self.players()), ..self }
    }

    /// How many cards lie in the stock after the first `visited` seats, counted
    /// from the seat that opened the round, had their turn to draw. Each draws
    /// what its hand lacks, as far as the stock goes; the defender draws later.
    pub open spec fn stock_after(self, visited: nat) -> int
        decreases visited,
    {
        if visited == 0 {
            self.table.stock.len() as int
        } else {
            let left = self.stock_after((visited - 1) as nat);
            let seat = seat_after(self.round.first_attacking_index as int, visited - 1, self.players());
            if seat == self.round.defending_index {
                left
            } else {
                left - draw_count(self.hands[seat].len(), left)
            }
        }
    }

    /// The hand of the attacker at `seat` after the attackers drew.
    pub open spec fn refilled_hand(self, seat: int) -> Seq<Card> {
        let turn = steps_to(self.round.first_attacking_index as int, seat, self.players());
        refill(self.hands[seat], self.table.stock, self.stock_after(turn as nat))
    }

    /// The game after the attackers drew from the stock, in turn from the seat
    /// that opened the round.
    pub open spec fn attackers_refilled(self) -> GameView {
        GameView {
            table: TableView {
                stock: self.table.stock.subrange(0, self.stock_after(self.players() as nat)),
                ..self.table
            },
            hands: Seq::new(
                self.hands.len(),
                |seat: int|
                    if seat == self.round.defending_index {
                        self.hands[seat]
                    } else {
                        self.refilled_hand(seat)
                    },
            ),
            ..self
        }
    }

    /// The game after the defender's part of the end of a round. After a
    /// defense that held, the cards of the round go to the discard pile and the
    /// defender draws from the stock. After one that failed, the defender
    /// takes the cards of the round.
    pub open spec fn defender_settled(self) -> GameView {
        let seat = self.round.defending_index as int;
        if self.round.is_defense_succeed {
            let table = self.table.discarded();
            let drawn = draw_count(self.hands[seat].len(), table.stock.len() as int);
            GameView {
                table: TableView { stock: table.stock.subrange(0, table.stock.len() - drawn), ..table },
                hands: self.hands.update(seat, refill(self.hands[seat], table.stock, table.stock.len() as int)),
                ..self
            }
        } else {
            GameView {
                table: self.table.cleared(),
                hands: self.hands.update(seat, arranged(self.hands[seat] + self.table.played())),
                ..self
            }
        }
    }

    /// The seat that is to open the next round if it holds cards: the
    /// defender's after a defense that held, else the one after it.
    pub open spec fn next_opener(self) -> int {
        if self.round.is_defense_succeed {
            self.round.defending_index as int
        } else {
            next_seat(self.round.defending_index as int, self.players())
        }
    }

    /// The game made ready for its next round, or ended. The seat that is to
    /// open the round does so if it holds cards, else the next seat that does;
    /// the next seat after that which holds cards defends.
    pub open spec fn next_opened(self) -> GameView {
        if self.decided() {
            GameView { phase: Phase::Finished, ..self }
        } else {
            let first = holder_from(self.hands, self.next_opener(), (self.players() - 1) as nat);
            let defender = holder_from(
                self.hands,
                next_seat(first, self.players()),
                (self.players() - 2) as nat,
            );
            GameView {
                round: RoundInfo::opened(first as usize, defender as usize),
                phase: Phase::FirstAttack,
                ..self
            }
        }
    }

    /// The game after the end of a round: the attackers drew, the defender
    /// drew or took the cards of the round, and the next round is made ready,
    /// or the game has ended.
    pub open spec fn resolved(self) -> GameView {
        self.attackers_refilled().defender_settled().next_opened()
    }

    /// What one step of the game may come to. `self` is the game before the
    /// step and `after` the game after it. Before the cards are dealt and after
    /// the game has ended nothing happens. A round that is decided is closed.
    /// Else the player whose turn it is moves, and the round moves on.
    pub open spec fn round_step(self, after: GameView, step: Step) -> bool {
        match self.phase {
            Phase::Lobby | Phase::Finished => step == Step::Idle && after == self,
            Phase::Resolution => step == Step::Resolved && after == self.resolved(),
            Phase::FirstAttack => {
                let played = GameView { round: self.round, phase: self.phase, ..after };
                &&& self.attack_turn(played, self.round.attacking_index as int, true, step)
                &&& after == played.moved_on(step)
            },
            Phase::Defense => {
                let played = GameView { round: self.round, phase: self.phase, ..after };
                &&& self.defense_turn(played, self.round.defending_index as int, step)
                &&& after == played.moved_on(step)
            },
            Phase::AttackContinuation => {
                let facing = self.facing();
                let played = GameView { round: facing.round, phase: self.phase, ..after };
                &&& facing.attack_turn(played, facing.round.attacking_index as int, false, step)
                &&& after == played.moved_on(step)
            },
        }
    }

    /// The seat of the player who is to move, if a player is.
    pub open spec fn mover(self) -> Option<usize> {
        match self.phase {
            Phase::FirstAttack => Some(self.round.attacking_index),
            Phase::Defense => Some(self.round.defending_index),
            Phase::AttackContinuation => Some(self.round.facing(self.players()).attacking_index),
            _ => None,
        }
    }

    /// What becomes of a request to join: the game takes players until it
    /// seats as many as its deck allows.
    pub open spec fn join_verdict(self) -> Result<(), Error> {
        if self.players() == self.settings.max_players_count() {
            Err(Error::TooManyPlayers(self.settings.max_players_count()))
        } else {
            Ok(())
        }
    }
}

/// A game of one table and its players, who sit in the order in which they joined.
pub struct Game<P: Player + ?Sized = dyn Player> {
    table: Table,
    players: Vec<Box<P>>,
    settings: Settings,
    winners_count: usize,
    round_info: RoundInfo,
    phase: Phase,
}

impl<P: Player + ?Sized> View for Game<P> {
    type V = GameView;

    closed spec fn view(&self) -> GameView {
        GameView {
            table: self.table@,
            hands: Seq::new(self.players@.len(), |seat: int| self.players@[seat].hand()),
            settings: self.settings,
            winners_count: self.winners_count,
            round: self.round_info,
            phase: self.phase,
        }
    }
}

impl<P: Player + ?Sized> Game<P> {
    /// The fewest players a game starts with.
    pub const MIN_PLAYERS_COUNT: usize = 2;

    /// The player at the seat.
    pub closed spec fn player_at(&self, seat: int) -> Box<P> {
        self.players@[seat]
    }

    /// What the turn of the attacker at `seat` comes to: the step, and the
    /// game after the attacker's move. An attacker without cards passes. Any
    /// other does what that player does when asked for an attack card, and a
    /// card played goes to the attack pile.
    pub open spec fn after_attack(&self, seat: int, is_first_attack: bool, answer: Option<&Input>) -> (
        Step,
        GameView,
    ) {
        if self@.hands[seat].len() == 0 {
            (Step::Passed, self@)
        } else {
            let moved = self.player_at(seat).attack_move(self@.table, is_first_attack, answer);
            (attack_step_of(moved.0), self@.attack_moved(seat, moved.0, moved.1))
        }
    }

    /// What the turn of the defender at `seat` comes to: the step, and the
    /// game after the defender's move. The defender does what that player does
    /// when asked to defend, and a card played goes to the defense pile.
    pub open spec fn after_defense(&self, seat: int, answer: Option<&Input>) -> (Step, GameView) {
        let moved = self.player_at(seat).defense_move(self@.table, answer);
        (defense_step_of(moved.0), self@.defense_moved(seat, moved.0, moved.1))
    }

    /// What the next step of the game comes to: the step, and the game after
    /// it. Before the cards are dealt and after the game has ended nothing
    /// happens. A round that is decided is closed. Else the player whose turn
    /// it is moves, and the round moves on.
    pub open spec fn stepped(&self, answer: Option<&Input>) -> (Step, GameView) {
        let round = self@.round;
        match self@.phase {
            Phase::Lobby | Phase::Finished => (Step::Idle, self@),
            Phase::Resolution => (Step::Resolved, self@.resolved()),
            Phase::FirstAttack => {
                let turn = self.after_attack(round.attacking_index as int, true, answer);
                (turn.0, turn.1.moved_on(turn.0))
            },
            Phase::Defense => {
                let turn = self.after_defense(round.defending_index as int, answer);
                (turn.0, turn.1.moved_on(turn.0))
            },
            Phase::AttackContinuation => {
                let facing = round.facing(self@.players());
                let turn = self.after_attack(facing.attacking_index as int, false, answer);
                (turn.0, (GameView { round: facing, ..turn.1 }).moved_on(turn.0))
            },
        }
    }

    /// The hands of the game are the hands of its players.
    pub proof fn lemma_hands_of_players(&self)
        ensures
            forall|seat: int|
                0 <= seat < self@.players() ==> #[trigger] self@.hands[seat] == self.player_at(seat).hand(),
    {
    }

    /// A game with these settings, without players yet.
    pub fn new(settings: Settings) -> (game: Self)
        ensures
            game@.settings == settings,
            game@.table == TableView::empty(settings.card_deck()),
            game@.hands.len() == 0,
            game@.winners_count == 0,
            game@.phase == Phase::Lobby,
            game@.wf(),
    {
        proof {
            use_type_invariant(&settings);
        }
        let game = Self {
            table: Table::new(settings.card_deck()),
            players: Vec::new(),
            settings,
            winners_count: 0,
            round_info: RoundInfo {
                is_defense_succeed: false,
                first_attacking_index: 0,
                attacking_index: 0,
                last_not_passed_index: 0,
                defending_index: 0,
                passes_count: 0,
            },
            phase: Phase::Lobby,
        };
        game
    }

    pub fn max_players_count(&self) -> (count: usize)
        ensures
            count == self@.settings.max_players_count(),
            count == self@.settings.card_deck().size() / CARDS_IN_DECK_COUNT,
    {
        self.settings.max_players_count()
    }

    pub fn players_count(&self) -> (count: usize)
        ensures
            count == self@.players(),
    {
        self.players.len()
    }

    /// Seats the player, unless the game is full. Players join before the
    /// cards are dealt.
    pub fn add_player(&mut self, player: Box<P>) -> (joined: Result<(), Error>)
        ensures
            joined == old(self)@.join_verdict(),
            joined is Err ==> final(self)@ == old(self)@,
            joined is Ok ==> final(self)@ == (GameView {
                hands: old(self)@.hands.push(player.hand()),
                ..old(self)@
            }),
            old(self)@.wf() && old(self)@.phase == Phase::Lobby ==> final(self)@.wf(),
    {
        if self.players_count() == self.max_players_count() {
            Err(Error::TooManyPlayers(self.max_players_count()))
        } else {
            self.players.push(player);
            proof {
                assert(self@.hands =~= old(self)@.hands.push(player.hand()));
            }
            Ok(())
        }
    }

    /// The table, to set it up by hand. The game is in good order afterwards
    /// only if what is done to the table leaves it so.
    pub fn table(&mut self) -> (table: &mut Table)
        ensures
            table@ == old(self)@.table,
            final(self)@ == (GameView { table: final(table)@, ..old(self)@ }),
    {
        &mut self.table
    }

    /// The table, to look at.
    pub fn table_ref(&self) -> (table: &Table)
        ensures
            table@ == self@.table,
    {
        &self.table
    }

    /// The player at the seat.
    pub fn player(&self, seat: usize) -> (player: &P)
        requires
            seat < self@.players(),
        ensures
            player.hand() == self@.hands[seat as int],
    {
        &self.players[seat]
    }

    pub fn settings(&self) -> (settings: Settings)
        ensures
            settings == self@.settings,
    {
        self.settings
    }

    /// How often a player has got rid of the last card.
    pub fn winners_count(&self) -> (count: usize)
        ensures
            count == self@.winners_count,
    {
        self.winners_count
    }

    pub fn round_info(&self) -> (round: RoundInfo)
        ensures
            round == self@.round,
    {
        self.round_info
    }

    pub fn phase(&self) -> (phase: Phase)
        ensures
            phase == self@.phase,
    {
        self.phase
    }

    /// Serves the cards: each player in turn takes a full hand from the top of
    /// the stock. The stock must not run out before the last player's turn.
    pub fn serve_cards(&mut self)
        requires
            old(self)@.can_serve(),
        ensures
            final(self)@ == old(self)@.served(),
    {
        let count = self.players.len();
        let mut seat: usize = 0;
        proof {
            assert(old(self)@.table.stock.subrange(0, old(self)@.stock_left_for(0)) =~= old(
                self,
            )@.table.stock);
        }
        while seat < count
            invariant
                seat <= count,
                count == old(self)@.players(),
                old(self)@.can_serve(),
                self@.players() == count,
                self@.settings == old(self)@.settings,
                self@.winners_count == old(self)@.winners_count,
                self@.round == old(self)@.round,
                self@.phase == old(self)@.phase,
                self@.table == (TableView {
                    stock: old(self)@.table.stock.subrange(0, old(self)@.stock_left_for(seat as int)),
                    ..old(self)@.table
                }),
                forall|other: int|
                    0 <= other < seat ==> #[trigger] self@.hands[other] == old(self)@.served_hand(other),
                forall|other: int|
                    seat <= other < count ==> #[trigger] self@.hands[other] == old(self)@.hands[other],
            decreases count - seat,
        {
            let ghost before = self@;
            let drawn = self.table.draw_stock_cards(CARDS_IN_DECK_COUNT);
            proof {
                let stock = old(self)@.table.stock;
                let left = old(self)@.stock_left_for(seat as int);
                let after = old(self)@.stock_left_for(seat + 1);
                assert(before.table.stock.len() == left);
                assert(left > 0);
                assert(before.table.drawn(CARDS_IN_DECK_COUNT) =~= stock.subrange(after, left));
                assert(before.table.after_draw(CARDS_IN_DECK_COUNT).stock =~= stock.subrange(0, after));
            }
            let cards = drawn.unwrap();
            let ghost given = cards@;
            self.players[seat].take_cards(cards);
            proof {
                assert(self@.hands[seat as int] == arranged(before.hands[seat as int] + given));
                assert forall|other: int| 0 <= other < seat + 1 implies #[trigger] self@.hands[other] == old(
                    self,
                )@.served_hand(other) by {
                    if other < seat {
                        assert(self@.hands[other] == before.hands[other]);
                    }
                }
                assert forall|other: int| seat + 1 <= other < count implies #[trigger] self@.hands[other]
                    == old(self)@.hands[other] by {
                    assert(self@.hands[other] == before.hands[other]);
                }
            }
            seat += 1;
        }
        proof {
            assert(self@.hands =~= old(self)@.served().hands);
        }
    }

    /// Opens the first round: `first` attacks, the next seat defends.
    pub fn open_round(&mut self, first: usize)
        requires
            first < old(self)@.players(),
        ensures
            final(self)@ == old(self)@.opened_by(first),
    {
        let defender = next_index(first, self.players.len());
        self.round_info = RoundInfo {
            is_defense_succeed: true,
            first_attacking_index: first,
            attacking_index: first,
            last_not_passed_index: first,
            defending_index: defender,
            passes_count: 0,
        };
        self.phase = Phase::FirstAttack;
    }

    /// Makes the game ready to play: shuffles the deck and lays it out, serves
    /// the cards, and lets chance pick the player who opens the first round.
    /// There must be a player.
    pub fn prepare(&mut self, random: &mut RandomSource)
        requires
            old(self)@.players() > 0,
            old(self)@.wf(),
        ensures
            exists|stock: Seq<Card>, first: usize|
                {
                    &&& stock.to_multiset() == old(self)@.table.deck.spec_cards().to_multiset()
                    &&& stock.no_duplicates()
                    &&& first < old(self)@.players()
                    &&& final(self)@ == old(self)@.laid_out(stock).served().opened_by(first)
                },
            old(self)@.phase == Phase::Lobby && old(self)@.players() >= 2 ==> final(self)@.wf(),
    {
        self.table.reset(random);
        let ghost stock = self@.table.stock;
        proof {
            assert(self@ == old(self)@.laid_out(stock));
            assert(stock.len() == self@.table.deck.size());
            assert(self@.can_serve()) by (nonlinear_arith)
                requires
                    self@.players() <= self@.table.deck.size() / 6,
                    self@.table.stock.len() == self@.table.deck.size(),
                    self@.players() > 0 ==> self@.table.stock.len() > 6 * (self@.players() - 1) <==> self@.can_serve(),
            {
            }
        }
        self.serve_cards();
        assert(self.players@.len() == self@.players());
        let first = random.pick(self.players.len());
        self.open_round(first);
        proof {
            let served = old(self)@.laid_out(stock).served();
            assert(self@ == served.opened_by(first));
            if old(self)@.phase == Phase::Lobby && old(self)@.players() >= 2 {
                assert forall|seat: int| 0 <= seat < self@.hands.len() implies (#[trigger] self@.hands[seat]).len()
                    > 0 by {
                    let given = old(self)@.laid_out(stock);
                    crate::hand::lemma_arranged(
                        given.hands[seat] + given.table.stock.subrange(
                            given.stock_left_for(seat + 1),
                            given.stock_left_for(seat),
                        ),
                    );
                }
                lemma_no_empty_hands(self@.hands);
            }
        }
    }

    /// Starts the game if it has players enough; then it is ready for its
    /// first round. Returns how many players are missing: none where the game
    /// has started.
    pub fn start(&mut self, random: &mut RandomSource) -> (missing: usize)
        requires
            old(self)@.wf(),
            old(self)@.phase == Phase::Lobby,
        ensures
            missing == if old(self)@.players() < 2 {
                2 - old(self)@.players()
            } else {
                0
            },
            missing > 0 ==> final(self)@ == old(self)@,
            missing == 0 ==> exists|stock: Seq<Card>, first: usize|
                {
                    &&& stock.to_multiset() == old(self)@.table.deck.spec_cards().to_multiset()
                    &&& stock.no_duplicates()
                    &&& first < old(self)@.players()
                    &&& final(self)@ == old(self)@.laid_out(stock).served().opened_by(first)
                },
            final(self)@.wf(),
    {
        if self.players_count() < Self::MIN_PLAYERS_COUNT {
            return Self::MIN_PLAYERS_COUNT - self.players_count();
        }
        self.prepare(random);
        0
    }

    /// Carries out what the player at `seat` decided when asked for an attack
    /// card: a card played goes to the attack pile, and the player has won if
    /// it was the last of the hand. The card has left the hand already.
    pub fn settle_attack(&mut self, decision: Decision<Card>, seat: usize) -> (step: Step)
        requires
            seat < old(self)@.players(),
            decision matches Decision::Made(Some(_)) ==> old(self)@.table.wf() && !old(
                self,
            )@.table.attack_finished() && old(self)@.winners_count < usize::MAX,
        ensures
            step == match decision {
                Decision::Made(Some(_)) => Step::Attacked,
                Decision::Made(None) => Step::Passed,
                Decision::Pending(request) => Step::Waiting(request),
            },
            final(self)@ == match decision {
                Decision::Made(Some(card)) => old(self)@.with_attack(
                    seat as int,
                    old(self)@.hands[seat as int],
                    card,
                ),
                _ => old(self)@,
            },
    {
        match decision {
            Decision::Made(Some(card)) => {
                self.table.take_attack_card(card);
                if !self.players[seat].has_cards() {
                    self.winners_count += 1;
                }
                proof {
                    assert(self@.hands =~= old(self)@.hands.update(seat as int, old(self)@.hands[seat as int]));
                }
                Step::Attacked
            },
            Decision::Made(None) => Step::Passed,
            Decision::Pending(request) => Step::Waiting(request),
        }
    }

    /// Carries out what the player at `seat` decided when asked to defend: a
    /// card played goes to the defense pile at the place it names, and the
    /// player has won if it was the last of the hand. The card has left the
    /// hand already.
    pub fn settle_defense(&mut self, decision: Decision<(usize, Card)>, seat: usize) -> (step: Step)
        requires
            seat < old(self)@.players(),
            decision matches Decision::Made(Some(play)) ==> old(self)@.table.wf() && !old(
                self,
            )@.table.attack_beaten() && play.0 == old(self)@.table.defense.len() && old(
                self,
            )@.winners_count < usize::MAX,
        ensures
            step == match decision {
                Decision::Made(Some(_)) => Step::Defended,
                Decision::Made(None) => Step::Conceded,
                Decision::Pending(request) => Step::Waiting(request),
            },
            final(self)@ == match decision {
                Decision::Made(Some(play)) => old(self)@.with_defense(
                    seat as int,
                    old(self)@.hands[seat as int],
                    play.1,
                ),
                _ => old(self)@,
            },
    {
        match decision {
            Decision::Made(Some((attack_card_index, card))) => {
                self.table.take_defense_card(card, attack_card_index);
                if !self.players[seat].has_cards() {
                    self.winners_count += 1;
                }
                proof {
                    assert(self@.hands =~= old(self)@.hands.update(seat as int, old(self)@.hands[seat as int]));
                    assert(old(self)@.table.defense.insert(attack_card_index as int, card) =~= old(
                        self,
                    )@.table.defense.push(card));
                }
                Step::Defended
            },
            Decision::Made(None) => Step::Conceded,
            Decision::Pending(request) => Step::Waiting(request),
        }
    }

    /// Gives the attacker the turn. An attacker without cards passes. Any
    /// other is asked for a card; `answer` is what a person typed, if the
    /// attacker is steered by one. A card that is played goes to the table.
    /// The attack must not be full.
    pub fn process_player_attack(&mut self, is_first_attack: bool, answer: Option<&Input>) -> (step: Step)
        requires
            old(self)@.round.attacking_index < old(self)@.players(),
            old(self)@.table.wf(),
            !old(self)@.table.attack_finished(),
            old(self)@.winners_count < usize::MAX,
        ensures
            (step, final(self)@) == old(self).after_attack(
                old(self)@.round.attacking_index as int,
                is_first_attack,
                answer,
            ),
            old(self)@.attack_turn(
                final(self)@,
                old(self)@.round.attacking_index as int,
                is_first_attack,
                step,
            ),
    {
        let seat = self.round_info.attacking_index;
        if self.players[seat].cards_count() == 0 {
            return Step::Passed;
        }
        let decision = self.players[seat].play_attack_card(&self.table, is_first_attack, answer);
        let ghost asked = self@;
        let ghost decided = decision;
        proof {
            let rest = asked.hands[seat as int];
            assert(asked.hands =~= old(self)@.hands.update(seat as int, rest));
            if !(decision matches Decision::Made(Some(_))) {
                assert(asked.hands =~= old(self)@.hands);
            }
        }
        let step = self.settle_attack(decision, seat);
        proof {
            if let Decision::Made(Some(card)) = decided {
                let rest = asked.hands[seat as int];
                assert(asked.hands.update(seat as int, rest) =~= asked.hands);
                assert(old(self)@.hands.update(seat as int, rest) =~= asked.hands);
                assert(self@ == old(self)@.with_attack(seat as int, self@.hands[seat as int], card));
            }
        }
        step
    }

    /// Gives the defender the turn: the defender is asked to beat the newest
    /// attack card; `answer` is what a person typed, if the defender is
    /// steered by one. A card that is played goes to the table. An attack card
    /// must be open.
    pub fn process_player_defense(&mut self, answer: Option<&Input>) -> (step: Step)
        requires
            old(self)@.round.defending_index < old(self)@.players(),
            old(self)@.table.wf(),
            !old(self)@.table.attack_beaten(),
            old(self)@.winners_count < usize::MAX,
        ensures
            (step, final(self)@) == old(self).after_defense(old(self)@.round.defending_index as int, answer),
            old(self)@.defense_turn(final(self)@, old(self)@.round.defending_index as int, step),
    {
        let seat = self.round_info.defending_index;
        let decision = self.players[seat].play_defense_card(&self.table, answer);
        let ghost asked = self@;
        let ghost decided = decision;
        proof {
            let rest = asked.hands[seat as int];
            assert(asked.hands =~= old(self)@.hands.update(seat as int, rest));
            if !(decision matches Decision::Made(Some(_))) {
                assert(asked.hands =~= old(self)@.hands);
            }
        }
        let step = self.settle_defense(decision, seat);
        proof {
            if let Decision::Made(Some(play)) = decided {
                let rest = asked.hands[seat as int];
                assert(asked.hands.update(seat as int, rest) =~= asked.hands);
                assert(old(self)@.hands.update(seat as int, rest) =~= asked.hands);
                assert(self@ == old(self)@.with_defense(seat as int, self@.hands[seat as int], play.1));
            }
        }
        step
    }

    /// Lets the attackers draw from the stock what their hands lack: every
    /// seat but the defender's, in turn from the seat that opened the round.
    pub fn replenish_attackers(&mut self)
        requires
            old(self)@.round.first_attacking_index < old(self)@.players(),
        ensures
            final(self)@ == old(self)@.attackers_refilled(),
            old(self)@.counts_fit() ==> final(self)@.counts_fit(),
    {
        let count = self.players.len();
        let first = self.round_info.first_attacking_index;
        let defender = self.round_info.defending_index;
        let mut seat: usize = first;
        let mut visited: usize = 0;
        proof {
            assert(old(self)@.table.stock.subrange(0, old(self)@.stock_after(0)) =~= old(
                self,
            )@.table.stock);
        }
        while visited < count
            invariant
                visited <= count,
                count == old(self)@.players(),
                first == old(self)@.round.first_attacking_index,
                defender == old(self)@.round.defending_index,
                first < count,
                seat < count,
                seat == seat_after(first as int, visited as int, count as int),
                self@.players() == count,
                self@.settings == old(self)@.settings,
                self@.winners_count == old(self)@.winners_count,
                self@.round == old(self)@.round,
                self@.phase == old(self)@.phase,
                0 <= old(self)@.stock_after(visited as nat) <= old(self)@.table.stock.len(),
                self@.table == (TableView {
                    stock: old(self)@.table.stock.subrange(0, old(self)@.stock_after(visited as nat)),
                    ..old(self)@.table
                }),
                forall|other: int|
                    0 <= other < count && steps_to(first as int, other, count as int) < visited && other
                        != defender ==> #[trigger] self@.hands[other] == old(self)@.refilled_hand(other),
                forall|other: int|
                    0 <= other < count && (steps_to(first as int, other, count as int) >= visited || other
                        == defender) ==> #[trigger] self@.hands[other] == old(self)@.hands[other],
                old(self)@.counts_fit() ==> self@.counts_fit(),
            decreases count - visited,
        {
            let ghost before = self@;
            if seat != defender {
                let missing = self.players[seat].missing_cards_count();
                let drawn = self.table.draw_stock_cards(missing);
                proof {
                    let stock = old(self)@.table.stock;
                    let left = old(self)@.stock_after(visited as nat);
                    let after = old(self)@.stock_after((visited + 1) as nat);
                    assert(before.table.stock.len() == left);
                    assert(steps_to(first as int, seat as int, count as int) == visited);
                    assert(before.hands[seat as int] == old(self)@.hands[seat as int]);
                    assert(after == left - draw_count(old(self)@.hands[seat as int].len(), left));
                    assert(before.table.drawn(missing) =~= stock.subrange(after, left));
                    assert(before.table.after_draw(missing).stock =~= stock.subrange(0, after));
                }
                if let Some(cards) = drawn {
                    let ghost given = cards@;
                    self.players[seat].take_cards(cards);
                    proof {
                        assert(self@.hands =~= before.hands.update(
                            seat as int,
                            arranged(before.hands[seat as int] + given),
                        ));
                        lemma_empty_hands_update(
                            before.hands,
                            seat as int,
                            arranged(before.hands[seat as int] + given),
                        );
                    }
                } else {
                    proof {
                        assert(self@.hands =~= before.hands);
                    }
                }
            }
            proof {
                assert forall|other: int|
                    0 <= other < count && steps_to(first as int, other, count as int) < visited + 1 && other
                        != defender implies #[trigger] self@.hands[other] == old(self)@.refilled_hand(
                    other,
                ) by {
                    if other != seat {
                        assert(self@.hands[other] == before.hands[other]);
                    }
                }
                assert forall|other: int|
                    0 <= other < count && (steps_to(first as int, other, count as int) >= visited + 1
                        || other == defender) implies #[trigger] self@.hands[other] == old(
                    self,
                )@.hands[other] by {
                    assert(self@.hands[other] == before.hands[other]);
                }
            }
            seat = next_index(seat, count);
            visited += 1;
        }
        proof {
            assert(self@.hands =~= old(self)@.attackers_refilled().hands);
        }
    }

    /// Settles the defender at the end of a round. After a defense that held,
    /// the cards of the round are discarded and the defender draws from the
    /// stock. After one that failed, the defender takes the cards of the round.
    pub fn settle_defender(&mut self)
        requires
            old(self)@.round.defending_index < old(self)@.players(),
            !old(self)@.round.is_defense_succeed ==> old(self)@.table.attack.len() > 0,
        ensures
            final(self)@ == old(self)@.defender_settled(),
            old(self)@.counts_fit() && (!old(self)@.round.is_defense_succeed ==> old(
                self,
            )@.hands[old(self)@.round.defending_index as int].len() > 0) ==> final(self)@.counts_fit(),
            final(self)@.table.attack.len() == 0,
            final(self)@.table.defense.len() == 0,
            final(self)@.table.wf(),
    {
        let seat = self.round_info.defending_index;
        if self.round_info.is_defense_succeed {
            self.table.discard_cards();
            let ghost before = self@;
            let missing = self.players[seat].missing_cards_count();
            let drawn = self.table.draw_stock_cards(missing);
            if let Some(cards) = drawn {
                let ghost given = cards@;
                self.players[seat].take_cards(cards);
                proof {
                    assert(self@.hands =~= before.hands.update(
                        seat as int,
                        arranged(before.hands[seat as int] + given),
                    ));
                    lemma_empty_hands_update(
                        before.hands,
                        seat as int,
                        arranged(before.hands[seat as int] + given),
                    );
                }
            } else {
                proof {
                    assert(self@.hands =~= before.hands.update(seat as int, before.hands[seat as int]));
                    assert(before.table.stock.subrange(0, before.table.stock.len() as int)
                        =~= before.table.stock);
                }
            }
        } else {
            let ghost before = self@;
            let cards = self.table.draw_played_cards();
            let ghost given = cards@;
            self.players[seat].take_cards(cards);
            proof {
                assert(self@.hands =~= before.hands.update(
                    seat as int,
                    arranged(before.hands[seat as int] + given),
                ));
                lemma_empty_hands_update(
                    before.hands,
                    seat as int,
                    arranged(before.hands[seat as int] + given),
                );
            }
        }
    }

    /// The first seat that holds cards, looking from `seat` on round the table
    /// at no more than `tries` further seats.
    pub fn find_holder(&self, seat: usize, tries: usize) -> (holder: usize)
        requires
            seat < self@.players(),
            tries < self@.players(),
        ensures
            holder == holder_from(self@.hands, seat as int, tries as nat),
            holder < self@.players(),
    {
        let count = self.players.len();
        let mut holder = seat;
        let mut left = tries;
        while left > 0 && !self.players[holder].has_cards()
            invariant
                count == self@.players(),
                holder < count,
                left < count,
                holder_from(self@.hands, holder as int, left as nat) == holder_from(
                    self@.hands,
                    seat as int,
                    tries as nat,
                ),
            decreases left,
        {
            holder = next_index(holder, count);
            left -= 1;
        }
        holder
    }

    /// Whether the game is over: somebody has won, where the first win ends
    /// the game; else all players but one have.
    pub fn is_decided(&self) -> (decided: bool)
        requires
            self@.players() >= 1,
        ensures
            decided == self@.decided(),
    {
        if self.settings.finish_after_first_win() {
            self.winners_count > 0
        } else {
            self.winners_count >= self.players.len() - 1
        }
    }

    /// Ends the game if it is decided. Else makes the next round ready: the
    /// seat that is to open it does so if it holds cards, else the next seat
    /// that does; the next seat after that which holds cards defends.
    pub fn seat_next_round(&mut self)
        requires
            old(self)@.players() >= 2,
            old(self)@.round.defending_index < old(self)@.players(),
        ensures
            final(self)@ == old(self)@.next_opened(),
            old(self)@.counts_fit() ==> final(self)@.hands[final(self)@.round.first_attacking_index as int].len()
                > 0 || final(self)@.phase == Phase::Finished,
            old(self)@.counts_fit() ==> final(self)@.hands[final(self)@.round.defending_index as int].len()
                > 0 || final(self)@.phase == Phase::Finished,
            old(self)@.counts_fit() ==> final(self)@.round.seated(final(self)@.players())
                || final(self)@.phase == Phase::Finished,
    {
        if self.is_decided() {
            self.phase = Phase::Finished;
            return ;
        }
        let count = self.players.len();
        let opener = if self.round_info.is_defense_succeed {
            self.round_info.defending_index
        } else {
            next_index(self.round_info.defending_index, count)
        };
        let first = self.find_holder(opener, count - 1);
        let defender = self.find_holder(next_index(first, count), count - 2);
        proof {
            let hands = self@.hands;
            if self@.counts_fit() {
                lemma_holders_exist(hands, first as int);
                lemma_empty_hands_bound(hands);
                assert(empty_hands(hands) + 2 <= hands.len());
                let some = choose|holder: int| 0 <= holder < hands.len() && (#[trigger] hands[holder]).len() > 0;
                lemma_holder_from(hands, opener as int, (count - 1) as nat, some);
                let other = choose|holder: int|
                    0 <= holder < hands.len() && holder != first && (#[trigger] hands[holder]).len() > 0;
                lemma_holder_from(hands, next_seat(first as int, count as int), (count - 2) as nat, other);
            }
        }
        self.round_info = RoundInfo {
            is_defense_succeed: true,
            first_attacking_index: first,
            attacking_index: first,
            last_not_passed_index: first,
            defending_index: defender,
            passes_count: 0,
        };
        self.phase = Phase::FirstAttack;
    }

    /// Closes the round: the attackers draw, the defender draws or takes the
    /// cards of the round, and the next round is made ready, or the game ends.
    pub fn resolve_round(&mut self)
        requires
            old(self)@.wf(),
            old(self)@.phase == Phase::Resolution,
        ensures
            final(self)@ == old(self)@.resolved(),
            final(self)@.wf(),
    {
        self.replenish_attackers();
        self.settle_defender();
        self.seat_next_round();
    }

    /// The seat of the player who is to move next: the attacker or the
    /// defender of the round under way. Nobody is while players join, while a
    /// round is being closed, and after the game.
    pub fn seat_to_move(&self) -> (seat: Option<usize>)
        ensures
            seat == self@.mover(),
    {
        match self.phase {
            Phase::FirstAttack => Some(self.round_info.attacking_index),
            Phase::Defense => Some(self.round_info.defending_index),
            Phase::AttackContinuation => {
                let attacker = self.round_info.attacking_index;
                let count = self.players.len();
                if attacker != self.round_info.defending_index {
                    Some(attacker)
                } else if count == 0 || attacker >= count - 1 {
                    Some(0)
                } else {
                    Some(attacker + 1)
                }
            },
            _ => None,
        }
    }

    /// Whether the game has ended.
    pub fn is_finished(&self) -> (finished: bool)
        ensures
            finished == (self@.phase == Phase::Finished),
    {
        match self.phase {
            Phase::Finished => true,
            _ => false,
        }
    }

    /// Plays the next step of the round under way: the player whose turn it is
    /// attacks or defends, or the round is closed. `answer` is what a person
    /// typed, if that player is steered by one; without it such a player asks.
    /// Whoever runs the game calls this again and again, until the game has ended.
    pub fn play_round(&mut self, answer: Option<&Input>) -> (step: Step)
        requires
            old(self)@.wf(),
        ensures
            (step, final(self)@) == old(self).stepped(answer),
            old(self)@.round_step(final(self)@, step),
            final(self)@.wf(),
    {
        match self.phase {
            Phase::Lobby => Step::Idle,
            Phase::Finished => Step::Idle,
            Phase::Resolution => {
                self.resolve_round();
                Step::Resolved
            },
            Phase::FirstAttack => self.open_attack(answer),
            Phase::Defense => self.defend(answer),
            Phase::AttackContinuation => self.continue_attack(answer),
        }
    }

    /// The first attack of a round: the seat that opens the round must play a
    /// card.
    fn open_attack(&mut self, answer: Option<&Input>) -> (step: Step)
        requires
            old(self)@.wf(),
            old(self)@.phase == Phase::FirstAttack,
        ensures
            (step, final(self)@) == old(self).stepped(answer),
            old(self)@.round_step(final(self)@, step),
            final(self)@.wf(),
    {
        proof {
            lemma_empty_hands_bound(self@.hands);
        }
        let step = self.process_player_attack(true, answer);
        let ghost played = self@;
        proof {
            self.lemma_attack_keeps_count(old(self)@, played, step, true);
        }
        match &step {
            Step::Attacked => {
                self.phase = Phase::Defense;
            },
            _ => {},
        }
        step
    }

    /// The defense: the defender answers the newest attack card or gives up.
    /// The round is decided when the defender gives up, plays the last card of
    /// the hand, or has beaten a full attack.
    fn defend(&mut self, answer: Option<&Input>) -> (step: Step)
        requires
            old(self)@.wf(),
            old(self)@.phase == Phase::Defense,
        ensures
            (step, final(self)@) == old(self).stepped(answer),
            old(self)@.round_step(final(self)@, step),
            final(self)@.wf(),
    {
        proof {
            lemma_empty_hands_bound(self@.hands);
            lemma_passes_stay_fit(self@.round, self@.players());
        }
        let step = self.process_player_defense(answer);
        let ghost played = self@;
        proof {
            self.lemma_defense_keeps_count(old(self)@, played, step);
        }
        match &step {
            Step::Defended => {
                let defender = self.round_info.defending_index;
                if !self.players[defender].has_cards() || self.table.is_attack_finished() {
                    self.phase = Phase::Resolution;
                } else {
                    self.phase = Phase::AttackContinuation;
                }
            },
            Step::Conceded => {
                self.round_info.is_defense_succeed = false;
                self.phase = Phase::Resolution;
            },
            _ => {},
        }
        step
    }

    /// The attack goes on: the turn passes the defender's seat, and the
    /// attacker whose turn it is adds a card or passes. The round is decided
    /// when the turn is back at the seat that played the newest attack card and
    /// every attacker has passed.
    fn continue_attack(&mut self, answer: Option<&Input>) -> (step: Step)
        requires
            old(self)@.wf(),
            old(self)@.phase == Phase::AttackContinuation,
        ensures
            (step, final(self)@) == old(self).stepped(answer),
            old(self)@.round_step(final(self)@, step),
            final(self)@.wf(),
    {
        proof {
            lemma_empty_hands_bound(self@.hands);
            lemma_passes_stay_fit(self@.round, self@.players());
        }
        let count = self.players.len();
        if self.round_info.attacking_index == self.round_info.defending_index {
            self.round_info.attacking_index = next_index(self.round_info.attacking_index, count);
        }
        let ghost facing = self@;
        proof {
            assert(facing == old(self)@.facing());
        }
        let step = self.process_player_attack(false, answer);
        let ghost played = self@;
        proof {
            self.lemma_attack_keeps_count(facing, played, step, false);
            lemma_passes_stay_fit(facing.round, facing.players());
        }
        match &step {
            Step::Attacked => {
                self.round_info.last_not_passed_index = self.round_info.attacking_index;
                self.round_info.passes_count = 0;
                self.phase = Phase::Defense;
            },
            Step::Passed => {
                let over = self.round_info.attacking_index == self.round_info.last_not_passed_index
                    && self.round_info.passes_count + 1 >= count - 1;
                self.round_info.passes_count += 1;
                if over {
                    self.phase = Phase::Resolution;
                } else {
                    self.round_info.attacking_index = next_index(self.round_info.attacking_index, count);
                }
            },
            _ => {},
        }
        step
    }

    /// An attacker's turn keeps the count of wins and of empty hands in step,
    /// and leaves every other hand as it was.
    proof fn lemma_attack_keeps_count(&self, before: GameView, after: GameView, step: Step, is_first_attack: bool)
        requires
            before.counts_fit(),
            before.winners_count < usize::MAX,
            before.round.attacking_index < before.players(),
            before.attack_turn(after, before.round.attacking_index as int, is_first_attack, step),
        ensures
            after.counts_fit(),
            after.players() == before.players(),
            after.settings == before.settings,
            after.round == before.round,
            after.phase == before.phase,
            after.table.deck == before.table.deck,
            after.table.defense == before.table.defense,
            forall|seat: int|
                0 <= seat < before.players() && seat != before.round.attacking_index
                    ==> #[trigger] after.hands[seat] == before.hands[seat],
            step is Attacked ==> after.table.attack.len() == before.table.attack.len() + 1,
            !(step is Attacked) ==> after == before,
    {
        let seat = before.round.attacking_index as int;
        if step is Attacked {
            let card = choose|card: Card|
                {
                    &&& played_from(before.hands[seat], after.hands[seat], card)
                    &&& before.table.attack_verdict(card, is_first_attack) is Ok
                    &&& after == #[trigger] before.with_attack(seat, after.hands[seat], card)
                };
            assert(before.hands[seat].len() > 0);
            lemma_empty_hands_update(before.hands, seat, after.hands[seat]);
        }
    }

    /// The defender's turn keeps the count of wins and of empty hands in step,
    /// and leaves every other hand as it was.
    proof fn lemma_defense_keeps_count(&self, before: GameView, after: GameView, step: Step)
        requires
            before.counts_fit(),
            before.winners_count < usize::MAX,
            before.round.defending_index < before.players(),
            before.defense_turn(after, before.round.defending_index as int, step),
        ensures
            after.counts_fit(),
            after.players() == before.players(),
            after.settings == before.settings,
            after.round == before.round,
            after.phase == before.phase,
            after.table.deck == before.table.deck,
            after.table.attack == before.table.attack,
            forall|seat: int|
                0 <= seat < before.players() && seat != before.round.defending_index
                    ==> #[trigger] after.hands[seat] == before.hands[seat],
            step is Defended ==> after.table.defense.len() == before.table.defense.len() + 1,
            !(step is Defended) ==> after == before,
    {
        let seat = before.round.defending_index as int;
        if step is Defended {
            let card = choose|card: Card|
                {
                    &&& played_from(before.hands[seat], after.hands[seat], card)
                    &&& before.table.defense_verdict(card, before.table.defense.len() as usize) is Ok
                    &&& after == #[trigger] before.with_defense(seat, after.hands[seat], card)
                };
            assert(before.hands[seat].len() > 0);
            lemma_empty_hands_update(before.hands, seat, after.hands[seat]);
        }
    }
}

} // verus!
