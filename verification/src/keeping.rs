//! No card is lost and none is made: whatever a game does, the cards in the
//! hands, on the table and in the stock stay the same cards.

use vstd::prelude::*;
use vstd::multiset::Multiset;
use crate::cards::Card;
use crate::game::{GameView, draw_count, refill};
use crate::hand::lemma_arranged;
use crate::player::played_from;
use crate::round::{Phase, Step};
use crate::seats::{seat_after, steps_to};
use crate::table::TableView;

verus! {

/// The cards in the hands, each as often as it is held.
pub open spec fn cards_in_hands(hands: Seq<Seq<Card>>) -> Multiset<Card>
    decreases hands.len(),
{
    if hands.len() == 0 {
        Multiset::empty()
    } else {
        cards_in_hands(hands.drop_last()).add(hands.last().to_multiset())
    }
}

impl TableView {
    /// The cards on the table and in the stock, each as often as it is there.
    pub open spec fn cards(self) -> Multiset<Card> {
        self.attack.to_multiset().add(self.defense.to_multiset()).add(self.discard.to_multiset()).add(
            self.stock.to_multiset(),
        )
    }
}

impl GameView {
    /// The cards of the game, each as often as it is there: those in the
    /// hands, those on the table and those in the stock.
    pub open spec fn cards(self) -> Multiset<Card> {
        cards_in_hands(self.hands).add(self.table.cards())
    }
}

/// A change of one hand changes the cards in the hands by that hand alone.
pub proof fn lemma_cards_in_hands_update(hands: Seq<Seq<Card>>, seat: int, hand: Seq<Card>)
    requires
        0 <= seat < hands.len(),
    ensures
        cards_in_hands(hands.update(seat, hand)).add(hands[seat].to_multiset()) == cards_in_hands(hands).add(
            hand.to_multiset(),
        ),
    decreases hands.len(),
{
    broadcast use vstd::multiset::group_multiset_axioms;

    let changed = hands.update(seat, hand);
    if seat == hands.len() - 1 {
        assert(changed.drop_last() =~= hands.drop_last());
    } else {
        lemma_cards_in_hands_update(hands.drop_last(), seat, hand);
        assert(changed.drop_last() =~= hands.drop_last().update(seat, hand));
        let rest = cards_in_hands(hands.drop_last());
        let other = cards_in_hands(hands.drop_last().update(seat, hand));
        assert(other.add(hands[seat].to_multiset()) == rest.add(hand.to_multiset()));
        assert(other.add(hands.last().to_multiset()).add(hands[seat].to_multiset()) =~= other.add(
            hands[seat].to_multiset(),
        ).add(hands.last().to_multiset()));
        assert(rest.add(hand.to_multiset()).add(hands.last().to_multiset()) =~= rest.add(
            hands.last().to_multiset(),
        ).add(hand.to_multiset()));
    }
    assert(cards_in_hands(changed).add(hands[seat].to_multiset()) =~= cards_in_hands(hands).add(
        hand.to_multiset(),
    ));
}

/// A card played from a hand is what the hand lost.
proof fn lemma_played_card(before: Seq<Card>, after: Seq<Card>, card: Card)
    requires
        played_from(before, after, card),
    ensures
        before.to_multiset() == after.to_multiset().insert(card),
{
    broadcast use vstd::multiset::group_multiset_axioms;

    let i = choose|i: int| 0 <= i < before.len() && before[i] == card && after == #[trigger] before.remove(i);
    vstd::seq_lib::to_multiset_remove(before, i);
    vstd::seq_lib::to_multiset_contains(before, card);
    assert(before.contains(card));
    assert(before.to_multiset() =~= after.to_multiset().insert(card));
}

/// A card that a player plays goes from the hand to the table.
proof fn lemma_move_keeps_cards(before: GameView, seat: int, rest: Seq<Card>, card: Card)
    requires
        0 <= seat < before.players(),
        played_from(before.hands[seat], rest, card),
    ensures
        before.with_attack(seat, rest, card).cards() == before.cards(),
        before.with_defense(seat, rest, card).cards() == before.cards(),
{
    broadcast use vstd::multiset::group_multiset_axioms;
    broadcast use vstd::seq_lib::to_multiset_build;

    lemma_played_card(before.hands[seat], rest, card);
    lemma_cards_in_hands_update(before.hands, seat, rest);
    let hands = before.hands.update(seat, rest);
    assert(cards_in_hands(before.hands) =~= cards_in_hands(hands).insert(card)) by {
        assert(cards_in_hands(hands).add(before.hands[seat].to_multiset()) == cards_in_hands(
            before.hands,
        ).add(rest.to_multiset()));
        assert forall|any: Card|
            cards_in_hands(before.hands).count(any) == #[trigger] cards_in_hands(hands).insert(card).count(
                any,
            ) by {
            assert(cards_in_hands(hands).add(before.hands[seat].to_multiset()).count(any)
                == cards_in_hands(before.hands).add(rest.to_multiset()).count(any));
        }
    }
    assert(before.with_attack(seat, rest, card).cards() =~= before.cards());
    assert(before.with_defense(seat, rest, card).cards() =~= before.cards());
}

/// No cards are no cards.
proof fn lemma_no_cards()
    ensures
        Seq::<Card>::empty().to_multiset() == Multiset::<Card>::empty(),
{
    broadcast use vstd::multiset::group_multiset_axioms;

    vstd::seq_lib::to_multiset_len(Seq::<Card>::empty());
    assert(Seq::<Card>::empty().to_multiset() =~= Multiset::<Card>::empty());
}

/// A hand that draws from the top of the stock holds what it held and what it
/// drew, and the stock holds the rest.
proof fn lemma_refill_keeps_cards(hand: Seq<Card>, stock: Seq<Card>, left: int)
    requires
        0 <= left <= stock.len(),
    ensures
        refill(hand, stock, left).to_multiset().add(
            stock.subrange(0, left - draw_count(hand.len(), left)).to_multiset(),
        ) == hand.to_multiset().add(stock.subrange(0, left).to_multiset()),
{
    broadcast use vstd::multiset::group_multiset_axioms;

    let drawn = draw_count(hand.len(), left);
    let taken = stock.subrange(left - drawn, left);
    let rest = stock.subrange(0, left - drawn);
    if drawn > 0 {
        lemma_arranged(hand + taken);
        vstd::seq_lib::lemma_multiset_commutative(hand, taken);
        vstd::seq_lib::lemma_multiset_commutative(rest, taken);
        assert(stock.subrange(0, left) =~= rest + taken);
        assert(refill(hand, stock, left).to_multiset().add(rest.to_multiset()) =~= hand.to_multiset().add(
            stock.subrange(0, left).to_multiset(),
        ));
    } else {
        assert(rest =~= stock.subrange(0, left));
    }
}

/// While the attackers draw, the cards in the hands and in the stock stay the
/// same cards.
proof fn lemma_attackers_keep_cards(game: GameView, visited: nat) -> (hands: Seq<Seq<Card>>)
    requires
        game.round.first_attacking_index < game.players(),
        visited <= game.players(),
    ensures
        hands.len() == game.hands.len(),
        forall|seat: int|
            0 <= seat < game.players() ==> #[trigger] hands[seat] == if steps_to(
                game.round.first_attacking_index as int,
                seat,
                game.players(),
            ) < visited && seat != game.round.defending_index {
                game.refilled_hand(seat)
            } else {
                game.hands[seat]
            },
        0 <= game.stock_after(visited) <= game.table.stock.len(),
        cards_in_hands(hands).add(game.table.stock.subrange(0, game.stock_after(visited)).to_multiset())
            == cards_in_hands(game.hands).add(game.table.stock.to_multiset()),
    decreases visited,
{
    let first = game.round.first_attacking_index as int;
    let count = game.players();
    let stock = game.table.stock;
    if visited == 0 {
        assert(stock.subrange(0, game.stock_after(0)) =~= stock);
        game.hands
    } else {
        let before = lemma_attackers_keep_cards(game, (visited - 1) as nat);
        let seat = seat_after(first, visited - 1, count);
        assert(steps_to(first, seat, count) == visited - 1);
        if seat == game.round.defending_index {
            before
        } else {
            let hand = game.refilled_hand(seat);
            let left = game.stock_after((visited - 1) as nat);
            let drawn = draw_count(game.hands[seat].len(), left);
            lemma_refill_keeps_cards(game.hands[seat], stock, left);
            lemma_cards_in_hands_update(before, seat, hand);
            let after = before.update(seat, hand);
            lemma_sums(
                cards_in_hands(after),
                before[seat].to_multiset(),
                cards_in_hands(before),
                hand.to_multiset(),
                stock.subrange(0, left - drawn).to_multiset(),
                stock.subrange(0, left).to_multiset(),
            );
            after
        }
    }
}

/// If `a` with `x` is `b` with `y`, and `y` with `p` is `x` with `q`, then `a`
/// with `p` is `b` with `q`.
proof fn lemma_sums(
    a: Multiset<Card>,
    x: Multiset<Card>,
    b: Multiset<Card>,
    y: Multiset<Card>,
    p: Multiset<Card>,
    q: Multiset<Card>,
)
    requires
        a.add(x) == b.add(y),
        y.add(p) == x.add(q),
    ensures
        a.add(p) == b.add(q),
{
    broadcast use vstd::multiset::group_multiset_axioms;

    assert forall|any: Card| #[trigger] a.add(p).count(any) == b.add(q).count(any) by {
        assert(a.add(x).count(any) == a.count(any) + x.count(any));
        assert(b.add(y).count(any) == b.count(any) + y.count(any));
        assert(y.add(p).count(any) == y.count(any) + p.count(any));
        assert(x.add(q).count(any) == x.count(any) + q.count(any));
        assert(a.add(p).count(any) == a.count(any) + p.count(any));
        assert(b.add(q).count(any) == b.count(any) + q.count(any));
    }
    assert(a.add(p) =~= b.add(q));
}

/// The draw of the attackers keeps the cards of the game.
proof fn lemma_attackers_refilled_keep_cards(game: GameView)
    requires
        game.round.first_attacking_index < game.players(),
    ensures
        game.attackers_refilled().cards() == game.cards(),
{
    broadcast use vstd::multiset::group_multiset_axioms;

    let drawn = lemma_attackers_keep_cards(game, game.players() as nat);
    let refilled = game.attackers_refilled();
    assert(refilled.hands =~= drawn);
    let rest = refilled.table.stock.to_multiset();
    assert forall|any: Card| #[trigger] refilled.cards().count(any) == game.cards().count(any) by {
        assert(cards_in_hands(drawn).add(rest).count(any) == cards_in_hands(game.hands).add(
            game.table.stock.to_multiset(),
        ).count(any));
    }
    assert(refilled.cards() =~= game.cards());
}

/// Settling the defender keeps the cards of the game.
proof fn lemma_defender_settled_keeps_cards(game: GameView)
    requires
        game.round.defending_index < game.players(),
    ensures
        game.defender_settled().cards() == game.cards(),
{
    broadcast use vstd::multiset::group_multiset_axioms;

    let seat = game.round.defending_index as int;
    let settled = game.defender_settled();
    lemma_no_cards();
    if game.round.is_defense_succeed {
        let table = game.table.discarded();
        let left = table.stock.len() as int;
        let hand = refill(game.hands[seat], table.stock, left);
        lemma_refill_keeps_cards(game.hands[seat], table.stock, left);
        assert(table.stock.subrange(0, left) =~= table.stock);
        lemma_cards_in_hands_update(game.hands, seat, hand);
        lemma_sums(
            cards_in_hands(settled.hands),
            game.hands[seat].to_multiset(),
            cards_in_hands(game.hands),
            hand.to_multiset(),
            settled.table.stock.to_multiset(),
            table.stock.to_multiset(),
        );
        vstd::seq_lib::lemma_multiset_commutative(game.table.discard, game.table.attack);
        vstd::seq_lib::lemma_multiset_commutative(game.table.discard + game.table.attack, game.table.defense);
        assert forall|any: Card| #[trigger] settled.cards().count(any) == game.cards().count(any) by {
            assert(cards_in_hands(settled.hands).add(settled.table.stock.to_multiset()).count(any)
                == cards_in_hands(game.hands).add(table.stock.to_multiset()).count(any));
        }
    } else {
        let hand = settled.hands[seat];
        let played = game.table.played();
        lemma_arranged(game.hands[seat] + played);
        vstd::seq_lib::lemma_multiset_commutative(game.hands[seat], played);
        vstd::seq_lib::lemma_multiset_commutative(game.table.attack, game.table.defense);
        lemma_cards_in_hands_update(game.hands, seat, hand);
        assert forall|any: Card| #[trigger] settled.cards().count(any) == game.cards().count(any) by {
            assert(cards_in_hands(settled.hands).add(game.hands[seat].to_multiset()).count(any)
                == cards_in_hands(game.hands).add(hand.to_multiset()).count(any));
        }
    }
    assert(settled.cards() =~= game.cards());
}

/// The end of a round keeps the cards of the game.
proof fn lemma_resolution_keeps_cards(game: GameView)
    requires
        game.wf(),
        game.phase == Phase::Resolution,
    ensures
        game.resolved().cards() == game.cards(),
{
    let refilled = game.attackers_refilled();
    let settled = refilled.defender_settled();
    lemma_attackers_refilled_keep_cards(game);
    lemma_defender_settled_keeps_cards(refilled);
    assert(game.resolved().hands == settled.hands);
    assert(game.resolved().table == settled.table);
}

/// While the cards are served, the cards in the hands and in the stock stay
/// the same cards.
proof fn lemma_served_so_far(game: GameView, served: nat) -> (hands: Seq<Seq<Card>>)
    requires
        served <= game.players(),
    ensures
        hands.len() == game.hands.len(),
        forall|seat: int|
            0 <= seat < game.players() ==> #[trigger] hands[seat] == if seat < served {
                game.served_hand(seat)
            } else {
                game.hands[seat]
            },
        cards_in_hands(hands).add(
            game.table.stock.subrange(0, game.stock_left_for(served as int)).to_multiset(),
        ) == cards_in_hands(game.hands).add(game.table.stock.to_multiset()),
    decreases served,
{
    let stock = game.table.stock;
    if served == 0 {
        assert(stock.subrange(0, game.stock_left_for(0)) =~= stock);
        game.hands
    } else {
        let before = lemma_served_so_far(game, (served - 1) as nat);
        let seat = served - 1;
        let hand = game.served_hand(seat);
        let left = game.stock_left_for(seat);
        let rest = game.stock_left_for(seat + 1);
        let taken = stock.subrange(rest, left);
        lemma_arranged(game.hands[seat] + taken);
        vstd::seq_lib::lemma_multiset_commutative(game.hands[seat], taken);
        vstd::seq_lib::lemma_multiset_commutative(stock.subrange(0, rest), taken);
        assert(stock.subrange(0, left) =~= stock.subrange(0, rest) + taken);
        assert(hand.to_multiset().add(stock.subrange(0, rest).to_multiset()) == game.hands[seat].to_multiset().add(
            stock.subrange(0, left).to_multiset(),
        )) by {
            broadcast use vstd::multiset::group_multiset_axioms;

            assert(hand.to_multiset().add(stock.subrange(0, rest).to_multiset())
                =~= game.hands[seat].to_multiset().add(stock.subrange(0, left).to_multiset()));
        }
        lemma_cards_in_hands_update(before, seat, hand);
        let after = before.update(seat, hand);
        lemma_sums(
            cards_in_hands(after),
            before[seat].to_multiset(),
            cards_in_hands(before),
            hand.to_multiset(),
            stock.subrange(0, rest).to_multiset(),
            stock.subrange(0, left).to_multiset(),
        );
        after
    }
}

/// Serving the cards keeps the cards of the game: what the stock loses, the
/// hands gain.
pub proof fn lemma_serving_keeps_cards(game: GameView)
    ensures
        game.served().cards() == game.cards(),
{
    broadcast use vstd::multiset::group_multiset_axioms;

    let hands = lemma_served_so_far(game, game.players() as nat);
    let served = game.served();
    assert(served.hands =~= hands);
    assert forall|any: Card| #[trigger] served.cards().count(any) == game.cards().count(any) by {
        assert(cards_in_hands(hands).add(served.table.stock.to_multiset()).count(any) == cards_in_hands(
            game.hands,
        ).add(game.table.stock.to_multiset()).count(any));
    }
    assert(served.cards() =~= game.cards());
}

/// A game that starts with empty hands plays with the cards of its deck, each
/// once: after the deck is laid out and served, the hands and the stock hold
/// just these cards.
pub proof fn lemma_game_starts_with_its_deck(game: GameView, stock: Seq<Card>, first: usize)
    requires
        forall|seat: int| 0 <= seat < game.players() ==> (#[trigger] game.hands[seat]).len() == 0,
        stock.to_multiset() == game.table.deck.spec_cards().to_multiset(),
    ensures
        game.laid_out(stock).served().opened_by(first).cards() == game.table.deck.spec_cards().to_multiset(),
        forall|card: Card| game.laid_out(stock).served().opened_by(first).cards().count(card) <= 1,
{
    broadcast use vstd::multiset::group_multiset_axioms;

    crate::deck::lemma_deck_has_each_card_once(game.table.deck);
    game.table.deck.spec_cards().lemma_multiset_has_no_duplicates();
    let laid = game.laid_out(stock);
    lemma_serving_keeps_cards(laid);
    lemma_no_cards();
    lemma_empty_hands_hold_nothing(game.hands);
    assert(laid.cards() =~= stock.to_multiset());
}

/// Empty hands hold no cards.
proof fn lemma_empty_hands_hold_nothing(hands: Seq<Seq<Card>>)
    requires
        forall|seat: int| 0 <= seat < hands.len() ==> (#[trigger] hands[seat]).len() == 0,
    ensures
        cards_in_hands(hands) == Multiset::<Card>::empty(),
    decreases hands.len(),
{
    broadcast use vstd::multiset::group_multiset_axioms;

    if hands.len() > 0 {
        let rest = hands.drop_last();
        assert forall|seat: int| 0 <= seat < rest.len() implies (#[trigger] rest[seat]).len() == 0 by {
            assert(rest[seat] == hands[seat]);
        }
        lemma_empty_hands_hold_nothing(rest);
        assert(hands.last() == hands[hands.len() - 1]);
        assert(hands.last() =~= Seq::<Card>::empty());
        lemma_no_cards();
        assert(cards_in_hands(hands) =~= Multiset::<Card>::empty());
    }
}

/// No step of a game loses a card or makes one: the cards in the hands, on the
/// table and in the stock are the same cards after the step as before it.
pub proof fn lemma_step_keeps_cards(before: GameView, after: GameView, step: Step)
    requires
        before.wf(),
        before.round_step(after, step),
    ensures
        after.cards() == before.cards(),
{
    match before.phase {
        Phase::Lobby | Phase::Finished => {},
        Phase::Resolution => {
            lemma_resolution_keeps_cards(before);
        },
        Phase::FirstAttack => {
            let played = GameView { round: before.round, phase: before.phase, ..after };
            let seat = before.round.attacking_index as int;
            if step is Attacked {
                let card = choose|card: Card|
                    {
                        &&& played_from(before.hands[seat], played.hands[seat], card)
                        &&& before.table.attack_verdict(card, true) is Ok
                        &&& played == #[trigger] before.with_attack(seat, played.hands[seat], card)
                    };
                lemma_move_keeps_cards(before, seat, played.hands[seat], card);
            }
        },
        Phase::Defense => {
            let played = GameView { round: before.round, phase: before.phase, ..after };
            let seat = before.round.defending_index as int;
            if step is Defended {
                let card = choose|card: Card|
                    {
                        &&& played_from(before.hands[seat], played.hands[seat], card)
                        &&& before.table.defense_verdict(card, before.table.defense.len() as usize) is Ok
                        &&& played == #[trigger] before.with_defense(seat, played.hands[seat], card)
                    };
                lemma_move_keeps_cards(before, seat, played.hands[seat], card);
            }
        },
        Phase::AttackContinuation => {
            let facing = before.facing();
            let played = GameView { round: facing.round, phase: before.phase, ..after };
            let seat = facing.round.attacking_index as int;
            crate::round::lemma_passes_stay_fit(before.round, before.players());
            if step is Attacked {
                let card = choose|card: Card|
                    {
                        &&& played_from(facing.hands[seat], played.hands[seat], card)
                        &&& facing.table.attack_verdict(card, false) is Ok
                        &&& played == #[trigger] facing.with_attack(seat, played.hands[seat], card)
                    };
                lemma_move_keeps_cards(facing, seat, played.hands[seat], card);
            }
        },
    }
}

} // verus!
