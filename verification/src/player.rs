//! Players: what every player can do, the player a person steers, and the bot.

use vstd::prelude::*;
use crate::cards::{Card, CARDS_IN_DECK_COUNT};
use crate::hand::{arranged, sort_cards};
use crate::table::{Table, TableView};
use crate::text::{decimal, decimal_text};
use crate::utils::{Error, Input, positive_sub_or_zero};

verus! {

/// What a person is asked for.
#[derive(Debug, Clone, Copy, PartialEq, Eq, Structural)]
pub enum Prompt {
    /// The card that opens the attack. There is no passing.
    AttackCard,
    /// A further attack card, or the word `pass`.
    AttackCardOrPass,
    /// The card to defend with, or the word `take`.
    DefenseCard,
    /// The attack card to beat, or the word `take`.
    CardToBeat,
}

/// Why the last answer of a person was not taken.
#[derive(Debug, Clone, Copy, PartialEq, Eq, Structural)]
pub enum Complaint {
    /// The word is none that is understood here.
    UnrecognizedAnswer,
    /// The attack card to answer now lies at this place.
    AnswerOther(usize),
    /// The hand or the table turns the move down, for this reason.
    Refused(Error),
}

/// A question to a person, with the reason why it is asked again, if it is.
#[derive(Debug, Clone, Copy, PartialEq, Eq, Structural)]
pub struct Request {
    pub prompt: Prompt,
    pub complaint: Option<Complaint>,
}

/// What comes of asking a player for a move.
#[derive(Debug, PartialEq, Eq)]
pub enum Decision<T> {
    /// The player has decided: on a move, or (`None`) to decline: an attacker
    /// passes, a defender takes the cards.
    Made(Option<T>),
    /// The player needs an answer from outside before deciding.
    Pending(Request),
}

/// `after` is `before` without the card at one place, and that card is `card`.
pub open spec fn played_from(before: Seq<Card>, after: Seq<Card>, card: Card) -> bool {
    exists|i: int| 0 <= i < before.len() && before[i] == card && after == #[trigger] before.remove(i)
}

/// How many cards a hand of `held` cards lacks to be full.
pub open spec fn missing_cards(held: nat) -> nat {
    if held >= CARDS_IN_DECK_COUNT {
        0
    } else {
        (CARDS_IN_DECK_COUNT - held) as nat
    }
}

/// What every player can do: hold a hand, bear a name, and decide on moves.
pub trait Player {
    /// The cards the player holds.
    spec fn hand(&self) -> Seq<Card>;

    /// The name of the player. It stays the same whatever the player does.
    spec fn spec_name(&self) -> Seq<char>;

    /// What the player, as it stands, does when asked for an attack card: the
    /// decision, and the hand afterwards.
    spec fn attack_move(&self, table: TableView, is_first_attack: bool, answer: Option<&Input>) -> (
        Decision<Card>,
        Seq<Card>,
    );

    /// What the player, as it stands, does when asked to defend: the decision,
    /// and the hand afterwards.
    spec fn defense_move(&self, table: TableView, answer: Option<&Input>) -> (
        Decision<(usize, Card)>,
        Seq<Card>,
    );

    // --- getters ---

    fn cards(&self) -> (cards: &Vec<Card>)
        ensures
            cards@ == self.hand(),
    ;

    fn cards_mut(&mut self) -> (cards: &mut Vec<Card>)
        ensures
            cards@ == old(self).hand(),
            final(self).hand() == final(cards)@,
            final(self).spec_name() == old(self).spec_name(),
    ;

    fn name(&self) -> (name: &str)
        ensures
            name@ == self.spec_name(),
    ;

    // --- cards operations ---

    fn cards_count(&self) -> (count: usize)
        ensures
            count == self.hand().len(),
    {
        self.cards().len()
    }

    fn has_cards(&self) -> (has: bool)
        ensures
            has == (self.hand().len() > 0),
    {
        self.cards_count() > 0
    }

    /// How many cards the player lacks to a full hand.
    fn missing_cards_count(&self) -> (missing: usize)
        ensures
            missing == missing_cards(self.hand().len()),
    {
        positive_sub_or_zero(CARDS_IN_DECK_COUNT, self.cards_count())
    }

    /// Adds the cards to the hand and puts the hand in order.
    fn take_cards(&mut self, cards: Vec<Card>)
        ensures
            final(self).hand() == arranged(old(self).hand() + cards@),
            final(self).hand().len() == old(self).hand().len() + cards@.len(),
            final(self).spec_name() == old(self).spec_name(),
    {
        let mut cards = cards;
        let hand = self.cards_mut();
        hand.append(&mut cards);
        sort_cards(hand);
    }

    // --- playing operations ---

    /// Asks the player for an attack card. `answer` is what a person typed, if
    /// the player is steered by one and an answer is there. A card that is
    /// played has left the hand, and the table accepts it. Nobody passes on
    /// the first attack who holds a card.
    fn play_attack_card(&mut self, table: &Table, is_first_attack: bool, answer: Option<&Input>) -> (decision:
        Decision<Card>)
        requires
            !table@.attack_finished(),
        ensures
            (decision, final(self).hand()) == old(self).attack_move(table@, is_first_attack, answer),
            decision matches Decision::Made(Some(card)) ==> played_from(
                old(self).hand(),
                final(self).hand(),
                card,
            ) && table@.attack_verdict(card, is_first_attack) is Ok,
            decision matches Decision::Made(None) ==> final(self).hand() == old(self).hand() && (
            !is_first_attack || old(self).hand().len() == 0),
            decision is Pending ==> final(self).hand() == old(self).hand(),
            final(self).spec_name() == old(self).spec_name(),
    ;

    /// Asks the player for a defense card and the place of the attack card it
    /// answers. A card that is played has left the hand, it beats the attack
    /// card, and that is the first attack card without an answer.
    fn play_defense_card(&mut self, table: &Table, answer: Option<&Input>) -> (decision: Decision<
        (usize, Card),
    >)
        requires
            table@.wf(),
            !table@.attack_beaten(),
        ensures
            (decision, final(self).hand()) == old(self).defense_move(table@, answer),
            decision matches Decision::Made(Some(play)) ==> played_from(
                old(self).hand(),
                final(self).hand(),
                play.1,
            ) && play.0 == table@.defense.len() && table@.defense_verdict(play.1, play.0) is Ok,
            decision matches Decision::Made(None) ==> final(self).hand() == old(self).hand(),
            decision is Pending ==> final(self).hand() == old(self).hand(),
            final(self).spec_name() == old(self).spec_name(),
    ;
}

/// The card at place `i` is the first of the cards that is `wanted`.
pub open spec fn first_where(cards: Seq<Card>, wanted: spec_fn(Card) -> bool, i: int) -> bool {
    &&& 0 <= i < cards.len()
    &&& wanted(cards[i])
    &&& forall|j: int| 0 <= j < i ==> !wanted(#[trigger] cards[j])
}

/// None of the cards is `wanted`.
pub open spec fn none_where(cards: Seq<Card>, wanted: spec_fn(Card) -> bool) -> bool {
    forall|j: int| 0 <= j < cards.len() ==> !wanted(#[trigger] cards[j])
}

impl TableView {
    /// Whether the table accepts `card` as the next attack card.
    pub open spec fn accepts_attack(self, is_first_attack: bool) -> spec_fn(Card) -> bool {
        |card: Card| self.attack_verdict(card, is_first_attack) is Ok
    }

    /// Whether `card` may answer the first attack card that has no answer yet,
    /// and is a trump (`trump` true) or is none (`trump` false).
    pub open spec fn accepts_defense(self, trump: bool) -> spec_fn(Card) -> bool {
        |card: Card|
            self.defense_verdict(card, self.defense.len() as usize) is Ok && (card.suit() == self.trump)
                == trump
    }
}

/// The place of the first of the cards that is `wanted`, if one is.
pub open spec fn first_place(cards: Seq<Card>, wanted: spec_fn(Card) -> bool) -> Option<int> {
    if exists|i: int| first_where(cards, wanted, i) {
        Some(choose|i: int| first_where(cards, wanted, i))
    } else {
        None
    }
}

/// The first of the cards that is wanted is at one place only.
pub proof fn lemma_first_place(cards: Seq<Card>, wanted: spec_fn(Card) -> bool, i: int)
    ensures
        first_where(cards, wanted, i) ==> first_place(cards, wanted) == Some(i),
        none_where(cards, wanted) ==> first_place(cards, wanted) is None,
        first_place(cards, wanted) matches Some(place) ==> first_where(cards, wanted, place),
        first_place(cards, wanted) is None ==> none_where(cards, wanted),
{
    if first_where(cards, wanted, i) {
        let place = choose|k: int| first_where(cards, wanted, k);
        assert(first_where(cards, wanted, place));
        if place < i {
            assert(!wanted(cards[place]));
        }
        if i < place {
            assert(!wanted(cards[i]));
        }
    }
    if first_place(cards, wanted) is None {
        assert forall|j: int| 0 <= j < cards.len() implies !wanted(#[trigger] cards[j]) by {
            if wanted(cards[j]) {
                lemma_some_first(cards, wanted, j);
            }
        }
    }
}

/// Where a card is wanted, a first one is.
proof fn lemma_some_first(cards: Seq<Card>, wanted: spec_fn(Card) -> bool, j: int)
    requires
        0 <= j < cards.len(),
        wanted(cards[j]),
    ensures
        exists|i: int| first_where(cards, wanted, i),
    decreases j,
{
    if exists|k: int| 0 <= k < j && wanted(#[trigger] cards[k]) {
        let k = choose|k: int| 0 <= k < j && wanted(#[trigger] cards[k]);
        lemma_some_first(cards, wanted, k);
    } else {
        assert(first_where(cards, wanted, j));
    }
}

/// What a bot with this hand does when asked for an attack card: it plays
/// the first card that the table accepts, and passes where there is none.
pub open spec fn bot_attacks(hand: Seq<Card>, table: TableView, is_first_attack: bool) -> (
    Decision<Card>,
    Seq<Card>,
) {
    match first_place(hand, table.accepts_attack(is_first_attack)) {
        Some(place) => (Decision::Made(Some(hand[place])), hand.remove(place)),
        None => (Decision::Made(None), hand),
    }
}

/// What a bot with this hand does when asked to defend: on the first attack
/// card without an answer it plays the first card that beats it and is no
/// trump, or else the first trump that beats it, and takes the cards where
/// there is neither.
pub open spec fn bot_defends(hand: Seq<Card>, table: TableView) -> (Decision<(usize, Card)>, Seq<Card>) {
    match first_place(hand, table.accepts_defense(false)) {
        Some(place) => (
            Decision::Made(Some((table.defense.len() as usize, hand[place]))),
            hand.remove(place),
        ),
        None => match first_place(hand, table.accepts_defense(true)) {
            Some(place) => (
                Decision::Made(Some((table.defense.len() as usize, hand[place]))),
                hand.remove(place),
            ),
            None => (Decision::Made(None), hand),
        },
    }
}

// --- the bot ---

/// How well a bot plays. So far every bot plays alike.
#[derive(Debug, Clone, Copy, PartialEq, Eq, Structural)]
pub enum BotDificulty {
    Easy,
    Medium,
    Hard,
}

impl BotDificulty {
    /// The name of the difficulty.
    pub open spec fn spec_label(&self) -> Seq<char> {
        match self {
            BotDificulty::Easy => "Easy"@,
            BotDificulty::Medium => "Medium"@,
            BotDificulty::Hard => "Hard"@,
        }
    }

    /// The name of the difficulty.
    pub fn label(&self) -> (label: &'static str)
        ensures
            label@ == self.spec_label(),
    {
        match self {
            BotDificulty::Easy => "Easy",
            BotDificulty::Medium => "Medium",
            BotDificulty::Hard => "Hard",
        }
    }
}

/// The name of the bot with the given number: `Bot #`, the number, and the
/// difficulty in brackets.
pub open spec fn bot_name(number: u8, difficulty: BotDificulty) -> Seq<char> {
    "Bot #"@ + decimal(number as nat) + " ("@ + difficulty.spec_label() + ")"@
}

fn write_bot_name(number: u8, difficulty: BotDificulty) -> (name: String)
    ensures
        name@ == bot_name(number, difficulty),
{
    let mut name = String::from_str("Bot #");
    let digits = decimal_text(number as usize);
    name.append(digits.as_str());
    name.append(" (");
    name.append(difficulty.label());
    name.append(")");
    name
}

/// A player that picks its moves by itself.
pub struct Bot {
    cards: Vec<Card>,
    name: String,
    bot_difficulty: BotDificulty,
}

impl Bot {
    /// The difficulty of the bot.
    pub closed spec fn spec_difficulty(&self) -> BotDificulty {
        self.bot_difficulty
    }

    /// A bot without cards. The roster counts its bots and hands each its number.
    pub fn new(difficulty: BotDificulty, number: u8) -> (bot: Self)
        ensures
            bot.hand() == Seq::<Card>::empty(),
            bot.spec_name() == bot_name(number, difficulty),
            bot.spec_difficulty() == difficulty,
    {
        Self { cards: Vec::new(), name: write_bot_name(number, difficulty), bot_difficulty: difficulty }
    }

    pub fn difficulty(&self) -> (difficulty: BotDificulty)
        ensures
            difficulty == self.spec_difficulty(),
    {
        self.bot_difficulty
    }
}

impl Player for Bot {
    closed spec fn hand(&self) -> Seq<Card> {
        self.cards@
    }

    closed spec fn spec_name(&self) -> Seq<char> {
        self.name@
    }

    open spec fn attack_move(&self, table: TableView, is_first_attack: bool, answer: Option<&Input>) -> (
        Decision<Card>,
        Seq<Card>,
    ) {
        bot_attacks(self.hand(), table, is_first_attack)
    }

    open spec fn defense_move(&self, table: TableView, answer: Option<&Input>) -> (
        Decision<(usize, Card)>,
        Seq<Card>,
    ) {
        bot_defends(self.hand(), table)
    }

    fn name(&self) -> (name: &str) {
        self.name.as_str()
    }

    fn cards(&self) -> (cards: &Vec<Card>) {
        &self.cards
    }

    fn cards_mut(&mut self) -> (cards: &mut Vec<Card>)
        ensures
            final(self).spec_difficulty() == old(self).spec_difficulty(),
    {
        &mut self.cards
    }

    fn cards_count(&self) -> (count: usize) {
        self.cards.len()
    }

    /// The bot plays the first card of its hand that the table accepts, and
    /// passes where there is none. It never waits for an answer.
    fn play_attack_card(&mut self, table: &Table, is_first_attack: bool, answer: Option<&Input>) -> (decision:
        Decision<Card>)
        ensures
            decision is Made,
            decision matches Decision::Made(Some(card)) ==> exists|i: int|
                first_where(old(self).hand(), table@.accepts_attack(is_first_attack), i) && card == old(
                    self,
                ).hand()[i] && final(self).hand() == #[trigger] old(self).hand().remove(i),
            decision matches Decision::Made(None) ==> none_where(
                old(self).hand(),
                table@.accepts_attack(is_first_attack),
            ),
            final(self).spec_difficulty() == old(self).spec_difficulty(),
    {
        let ghost accepts = table@.accepts_attack(is_first_attack);
        let mut i: usize = 0;
        while i < self.cards.len()
            invariant
                i <= self.cards@.len(),
                self.cards@ == old(self).cards@,
                self.name == old(self).name,
                self.bot_difficulty == old(self).bot_difficulty,
                accepts == table@.accepts_attack(is_first_attack),
                forall|j: int| 0 <= j < i ==> !accepts(#[trigger] self.cards@[j]),
            decreases self.cards@.len() - i,
        {
            if table.check_attack_card(&self.cards[i], is_first_attack).is_ok() {
                let card = self.cards.remove(i);
                proof {
                    assert(accepts(card));
                    assert(first_where(old(self).hand(), accepts, i as int));
                    lemma_first_place(old(self).hand(), accepts, i as int);
                }
                return Decision::Made(Some(card));
            }
            proof {
                assert(!accepts(self.cards@[i as int]));
            }
            i += 1;
        }
        proof {
            if is_first_attack && self.cards@.len() > 0 {
                assert(accepts(self.cards@[0]));
            }
            assert(none_where(old(self).hand(), accepts));
            lemma_first_place(old(self).hand(), accepts, 0);
        }
        Decision::Made(None)
    }

    /// The bot answers the first attack card that has no answer yet. Of the
    /// cards in its hand that beat it, it plays the first that is no trump, or
    /// else the first trump. It takes the cards where no card of its hand
    /// beats the attack card. It never waits for an answer.
    fn play_defense_card(&mut self, table: &Table, answer: Option<&Input>) -> (decision: Decision<
        (usize, Card),
    >)
        ensures
            decision is Made,
            decision matches Decision::Made(Some(play)) ==> exists|i: int|
                {
                    &&& play.1 == old(self).hand()[i]
                    &&& final(self).hand() == #[trigger] old(self).hand().remove(i)
                    &&& (first_where(old(self).hand(), table@.accepts_defense(false), i) || (first_where(
                        old(self).hand(),
                        table@.accepts_defense(true),
                        i,
                    ) && none_where(old(self).hand(), table@.accepts_defense(false))))
                },
            decision matches Decision::Made(None) ==> none_where(
                old(self).hand(),
                table@.accepts_defense(false),
            ) && none_where(old(self).hand(), table@.accepts_defense(true)),
            final(self).spec_difficulty() == old(self).spec_difficulty(),
    {
        let ghost plain = table@.accepts_defense(false);
        let ghost trumps = table@.accepts_defense(true);
        let mut non_trump_index: Option<usize> = None;
        let mut trump_index: Option<usize> = None;

        let attack_card_index: usize = table.defense_cards().len();
        let mut defense_card_index: usize = self.cards.len();
        while defense_card_index > 0
            invariant
                defense_card_index <= self.cards@.len(),
                self.cards@ == old(self).cards@,
                self.name == old(self).name,
                self.bot_difficulty == old(self).bot_difficulty,
                attack_card_index == table@.defense.len(),
                plain == table@.accepts_defense(false),
                trumps == table@.accepts_defense(true),
                match non_trump_index {
                    Some(i) => defense_card_index <= i < self.cards@.len() && plain(self.cards@[i as int])
                        && forall|j: int| defense_card_index <= j < i ==> !plain(#[trigger] self.cards@[j]),
                    None => forall|j: int|
                        defense_card_index <= j < self.cards@.len() ==> !plain(#[trigger] self.cards@[j]),
                },
                match trump_index {
                    Some(i) => defense_card_index <= i < self.cards@.len() && trumps(self.cards@[i as int])
                        && forall|j: int| defense_card_index <= j < i ==> !trumps(#[trigger] self.cards@[j]),
                    None => forall|j: int|
                        defense_card_index <= j < self.cards@.len() ==> !trumps(#[trigger] self.cards@[j]),
                },
            decreases defense_card_index,
        {
            defense_card_index -= 1;
            if table.check_defense_card(&self.cards[defense_card_index], attack_card_index).is_ok() {
                if self.cards[defense_card_index].suit() == table.trump() {
                    trump_index = Some(defense_card_index);
                } else {
                    non_trump_index = Some(defense_card_index);
                }
            }
        }

        match non_trump_index {
            Some(index) => {
                let card = self.cards.remove(index);
                proof {
                    assert(first_where(old(self).hand(), plain, index as int));
                    lemma_first_place(old(self).hand(), plain, index as int);
                }
                Decision::Made(Some((attack_card_index, card)))
            },
            None => match trump_index {
                Some(index) => {
                    let card = self.cards.remove(index);
                    proof {
                        assert(first_where(old(self).hand(), trumps, index as int));
                        assert(none_where(old(self).hand(), plain));
                        lemma_first_place(old(self).hand(), plain, 0);
                        lemma_first_place(old(self).hand(), trumps, index as int);
                    }
                    Decision::Made(Some((attack_card_index, card)))
                },
                None => {
                    proof {
                        assert(none_where(old(self).hand(), plain));
                        assert(none_where(old(self).hand(), trumps));
                        lemma_first_place(old(self).hand(), plain, 0);
                        lemma_first_place(old(self).hand(), trumps, 0);
                    }
                    Decision::Made(None)
                },
            },
        }
    }
}

// --- the player a person steers ---

/// The question for an attack card.
pub open spec fn attack_prompt(is_first_attack: bool) -> Prompt {
    if is_first_attack {
        Prompt::AttackCard
    } else {
        Prompt::AttackCardOrPass
    }
}

/// The place of the card picked for the defense, if one is picked and the hand
/// still has that place.
pub open spec fn picked(hand: Seq<Card>, chosen: Option<usize>) -> Option<usize> {
    match chosen {
        Some(place) => if place < hand.len() {
            chosen
        } else {
            None
        },
        None => None,
    }
}

/// What a person's answer to the question for an attack card comes to: the
/// decision, and the hand afterwards. The word `pass` passes, but not on the
/// first attack. A number plays the card at that place of the hand, if there is
/// one and the table accepts it. Everything else asks again.
pub open spec fn person_attacks(
    hand: Seq<Card>,
    table: TableView,
    is_first_attack: bool,
    answer: Option<&Input>,
) -> (Decision<Card>, Seq<Card>) {
    let prompt = attack_prompt(is_first_attack);
    match answer {
        None => (Decision::Pending(Request { prompt, complaint: None }), hand),
        Some(Input::String(word)) => if !is_first_attack && word@ == "pass"@ {
            (Decision::Made(None), hand)
        } else {
            (Decision::Pending(Request { prompt, complaint: Some(Complaint::UnrecognizedAnswer) }), hand)
        },
        Some(Input::Number(place)) => if *place < hand.len() {
            match table.attack_verdict(hand[*place as int], is_first_attack) {
                Ok(_) => (Decision::Made(Some(hand[*place as int])), hand.remove(*place as int)),
                Err(error) => (
                    Decision::Pending(Request { prompt, complaint: Some(Complaint::Refused(error)) }),
                    hand,
                ),
            }
        } else {
            (
                Decision::Pending(
                    Request { prompt, complaint: Some(Complaint::Refused(Error::InvalidDeckIndex(*place))) },
                ),
                hand,
            )
        },
    }
}

/// What a person's answer in a defense comes to: the decision, the card that
/// is picked afterwards, and the hand afterwards. A defense takes two answers:
/// the first picks a card of the hand, the second names the attack card to
/// beat with it. The word `take` takes the cards, at either question. The
/// attack card to name is the first without an answer, and the picked card
/// must beat it. Everything else asks again.
pub open spec fn person_defends(
    hand: Seq<Card>,
    chosen: Option<usize>,
    table: TableView,
    answer: Option<&Input>,
) -> (Decision<(usize, Card)>, Option<usize>, Seq<Card>) {
    let held = picked(hand, chosen);
    let prompt = if held is Some {
        Prompt::CardToBeat
    } else {
        Prompt::DefenseCard
    };
    match answer {
        None => (Decision::Pending(Request { prompt, complaint: None }), held, hand),
        Some(Input::String(word)) => if word@ == "take"@ {
            (Decision::Made(None), None, hand)
        } else {
            (
                Decision::Pending(Request { prompt, complaint: Some(Complaint::UnrecognizedAnswer) }),
                held,
                hand,
            )
        },
        Some(Input::Number(place)) => match held {
            None => if *place < hand.len() {
                (
                    Decision::Pending(Request { prompt: Prompt::CardToBeat, complaint: None }),
                    Some(*place),
                    hand,
                )
            } else {
                (
                    Decision::Pending(
                        Request {
                            prompt,
                            complaint: Some(Complaint::Refused(Error::InvalidDeckIndex(*place))),
                        },
                    ),
                    held,
                    hand,
                )
            },
            Some(card_place) => if *place >= table.attack.len() {
                (
                    Decision::Pending(
                        Request {
                            prompt,
                            complaint: Some(Complaint::Refused(Error::InvalidAttackIndex(*place))),
                        },
                    ),
                    held,
                    hand,
                )
            } else if *place != table.defense.len() {
                (
                    Decision::Pending(
                        Request {
                            prompt,
                            complaint: Some(Complaint::AnswerOther(table.defense.len() as usize)),
                        },
                    ),
                    held,
                    hand,
                )
            } else {
                match table.defense_verdict(hand[card_place as int], *place) {
                    Ok(_) => (
                        Decision::Made(Some((*place, hand[card_place as int]))),
                        None,
                        hand.remove(card_place as int),
                    ),
                    Err(error) => (
                        Decision::Pending(Request { prompt, complaint: Some(Complaint::Refused(error)) }),
                        held,
                        hand,
                    ),
                }
            },
        },
    }
}

/// Whether the text is this word.
fn is_word(text: &String, word: &str) -> (same: bool)
    ensures
        same == (text@ == word@),
{
    let word = word.to_owned();
    *text == word
}

/// A player steered by a person. The moves come from what the person types;
/// this player turns each answer into a decision or into the next question.
pub struct RealPlayer {
    cards: Vec<Card>,
    name: String,
    chosen: Option<usize>,
}

impl RealPlayer {
    /// The place in the hand of the card that the person picked to defend
    /// with, while the attack card to beat is still to be named.
    pub closed spec fn chosen(&self) -> Option<usize> {
        self.chosen
    }

    pub fn new(name: &str) -> (player: Self)
        ensures
            player.hand() == Seq::<Card>::empty(),
            player.spec_name() == name@,
            player.chosen() is None,
    {
        Self { cards: Vec::with_capacity(CARDS_IN_DECK_COUNT), name: name.to_owned(), chosen: None }
    }
}

impl Player for RealPlayer {
    closed spec fn hand(&self) -> Seq<Card> {
        self.cards@
    }

    closed spec fn spec_name(&self) -> Seq<char> {
        self.name@
    }

    open spec fn attack_move(&self, table: TableView, is_first_attack: bool, answer: Option<&Input>) -> (
        Decision<Card>,
        Seq<Card>,
    ) {
        person_attacks(self.hand(), table, is_first_attack, answer)
    }

    open spec fn defense_move(&self, table: TableView, answer: Option<&Input>) -> (
        Decision<(usize, Card)>,
        Seq<Card>,
    ) {
        (
            person_defends(self.hand(), self.chosen(), table, answer).0,
            person_defends(self.hand(), self.chosen(), table, answer).2,
        )
    }

    fn name(&self) -> (name: &str) {
        self.name.as_str()
    }

    fn cards(&self) -> (cards: &Vec<Card>) {
        &self.cards
    }

    fn cards_mut(&mut self) -> (cards: &mut Vec<Card>)
        ensures
            final(self).chosen() == old(self).chosen(),
    {
        &mut self.cards
    }

    fn cards_count(&self) -> (count: usize) {
        self.cards.len()
    }

    /// Takes a person's answer to the question for an attack card.
    fn play_attack_card(&mut self, table: &Table, is_first_attack: bool, answer: Option<&Input>) -> (decision:
        Decision<Card>)
        ensures
            (decision, final(self).hand()) == person_attacks(
                old(self).hand(),
                table@,
                is_first_attack,
                answer,
            ),
            final(self).chosen() == if decision is Made {
                None
            } else {
                old(self).chosen()
            },
    {
        let prompt = if is_first_attack {
            Prompt::AttackCard
        } else {
            Prompt::AttackCardOrPass
        };
        match answer {
            None => Decision::Pending(Request { prompt, complaint: None }),
            Some(Input::String(word)) => {
                if !is_first_attack && is_word(word, "pass") {
                    self.chosen = None;
                    Decision::Made(None)
                } else {
                    Decision::Pending(Request { prompt, complaint: Some(Complaint::UnrecognizedAnswer) })
                }
            },
            Some(Input::Number(place)) => {
                let place: usize = *place;
                if place < self.cards.len() {
                    match table.check_attack_card(&self.cards[place], is_first_attack) {
                        Ok(_) => {
                            self.chosen = None;
                            let card = self.cards.remove(place);
                            proof {
                                assert(played_from(old(self).hand(), self.hand(), card));
                            }
                            Decision::Made(Some(card))
                        },
                        Err(error) => Decision::Pending(
                            Request { prompt, complaint: Some(Complaint::Refused(error)) },
                        ),
                    }
                } else {
                    Decision::Pending(
                        Request { prompt, complaint: Some(Complaint::Refused(Error::InvalidDeckIndex(place))) },
                    )
                }
            },
        }
    }

    /// Takes a person's answer in a defense.
    fn play_defense_card(&mut self, table: &Table, answer: Option<&Input>) -> (decision: Decision<
        (usize, Card),
    >)
        ensures
            (decision, final(self).chosen(), final(self).hand()) == person_defends(
                old(self).hand(),
                old(self).chosen(),
                table@,
                answer,
            ),
    {
        let held: Option<usize> = match self.chosen {
            Some(place) => if place < self.cards.len() {
                Some(place)
            } else {
                None
            },
            None => None,
        };
        self.chosen = held;
        let prompt = if held.is_some() {
            Prompt::CardToBeat
        } else {
            Prompt::DefenseCard
        };
        match answer {
            None => Decision::Pending(Request { prompt, complaint: None }),
            Some(Input::String(word)) => {
                if is_word(word, "take") {
                    self.chosen = None;
                    Decision::Made(None)
                } else {
                    Decision::Pending(Request { prompt, complaint: Some(Complaint::UnrecognizedAnswer) })
                }
            },
            Some(Input::Number(place)) => {
                let place: usize = *place;
                match held {
                    None => {
                        if place < self.cards.len() {
                            self.chosen = Some(place);
                            Decision::Pending(Request { prompt: Prompt::CardToBeat, complaint: None })
                        } else {
                            Decision::Pending(
                                Request {
                                    prompt,
                                    complaint: Some(Complaint::Refused(Error::InvalidDeckIndex(place))),
                                },
                            )
                        }
                    },
                    Some(card_place) => {
                        if place >= table.attack_cards().len() {
                            Decision::Pending(
                                Request {
                                    prompt,
                                    complaint: Some(Complaint::Refused(Error::InvalidAttackIndex(place))),
                                },
                            )
                        } else if place != table.defense_cards().len() {
                            Decision::Pending(
                                Request {
                                    prompt,
                                    complaint: Some(Complaint::AnswerOther(table.defense_cards().len())),
                                },
                            )
                        } else {
                            match table.check_defense_card(&self.cards[card_place], place) {
                                Ok(_) => {
                                    self.chosen = None;
                                    let card = self.cards.remove(card_place);
                                    proof {
                                        assert(played_from(old(self).hand(), self.hand(), card));
                                    }
                                    Decision::Made(Some((place, card)))
                                },
                                Err(error) => Decision::Pending(
                                    Request { prompt, complaint: Some(Complaint::Refused(error)) },
                                ),
                            }
                        }
                    },
                }
            },
        }
    }
}

} // verus!
