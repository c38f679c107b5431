//! What holds of every game, stated once and proved.

use vstd::prelude::*;
use crate::cards::{Card, Suit, CARDS_IN_DECK_COUNT};
use crate::game::{GameView, draw_count, refill};
use crate::hand::{arranged, lemma_arranged};
use crate::round::Phase;
use crate::seats::{cards_held, lemma_cards_held_update, seat_after, steps_to};
use crate::table::{TableView, beats};
use crate::utils::Error;

verus! {

/// A game seats one player for every full hand in its deck. It takes players
/// as long as a seat is free, and turns down whoever asks when none is.
pub proof fn lemma_seats_by_deck(game: GameView)
    requires
        game.wf(),
    ensures
        game.settings.max_players_count() == game.settings.card_deck().size() / CARDS_IN_DECK_COUNT,
        game.players() < game.settings.max_players_count() ==> game.join_verdict() is Ok,
        game.players() == game.settings.max_players_count() ==> game.join_verdict() == Err::<(), Error>(
            Error::TooManyPlayers(game.settings.max_players_count()),
        ),
{
}

/// Which card beats which. Between two cards that are no trumps, and between
/// two trumps, the higher value beats the lower, and only within one suit. A
/// trump beats every card that is none, and no such card beats a trump.
pub proof fn lemma_beats_by_trump(defense: Card, attack: Card, trump: Suit)
    ensures
        defense.suit() != trump && attack.suit() != trump ==> (beats(defense, attack, trump) <==> defense.suit()
            == attack.suit() && defense.value().rank() > attack.value().rank()),
        defense.suit() == trump && attack.suit() != trump ==> beats(defense, attack, trump),
        defense.suit() == trump && attack.suit() == trump ==> (beats(defense, attack, trump)
            <==> defense.value().rank() > attack.value().rank()),
        defense.suit() != trump && attack.suit() == trump ==> !beats(defense, attack, trump),
{
}

/// At every point of a game there are no more defense cards than attack cards
/// on the table, and no more attack cards than a hand holds.
pub proof fn lemma_piles_fit(game: GameView)
    requires
        game.wf(),
    ensures
        game.table.defense.len() <= game.table.attack.len() <= CARDS_IN_DECK_COUNT,
{
}

/// Discarding with nothing played changes nothing.
pub proof fn lemma_discard_nothing(table: TableView)
    requires
        table.attack.len() == 0,
        table.defense.len() == 0,
    ensures
        table.discarded() == table,
        table.discarded().discarded() == table.discarded(),
{
    assert(table.attack =~= Seq::empty());
    assert(table.defense =~= Seq::empty());
    assert(table.discard + table.attack + table.defense =~= table.discard);
}

/// A draw takes the topmost cards of the stock, as many as asked for or as
/// there are, and leaves the rest. Of a stock that holds no card twice the
/// cards drawn hold none twice.
pub proof fn lemma_draw_from_top(table: TableView, count: usize)
    ensures
        table.drawn(count).len() == table.drawn_count(count),
        table.after_draw(count).stock.len() == table.stock.len() - table.drawn_count(count),
        table.after_draw(count).stock + table.drawn(count) == table.stock,
        table.stock.no_duplicates() ==> table.drawn(count).no_duplicates() && table.after_draw(
            count,
        ).stock.no_duplicates(),
{
    assert(table.after_draw(count).stock + table.drawn(count) =~= table.stock);
}

/// While the attackers draw, no card is lost: what the hands gain, the stock
/// loses.
proof fn lemma_attackers_draw(game: GameView, visited: nat) -> (hands: Seq<Seq<Card>>)
    requires
        game.round.first_attacking_index < game.players(),
        visited <= game.players(),
    ensures
        hands.len() == game.hands.len(),
        forall|seat: int|
            0 <= seat < game.players() ==> #[trigger] hands[seat] == if steps_to(
                game.round.first_attacking_index as int,
                seat,
                game.players(),
            ) < visited && seat != game.round.defending_index {
                game.refilled_hand(seat)
            } else {
                game.hands[seat]
            },
        0 <= game.stock_after(visited) <= game.table.stock.len(),
        cards_held(hands) + game.stock_after(visited) == cards_held(game.hands) + game.table.stock.len(),
    decreases visited,
{
    let first = game.round.first_attacking_index as int;
    let count = game.players();
    if visited == 0 {
        game.hands
    } else {
        let before = lemma_attackers_draw(game, (visited - 1) as nat);
        let seat = seat_after(first, visited - 1, count);
        assert(steps_to(first, seat, count) == visited - 1);
        if seat == game.round.defending_index {
            before
        } else {
            let hand = game.refilled_hand(seat);
            let left = game.stock_after((visited - 1) as nat);
            let drawn = draw_count(game.hands[seat].len(), left);
            assert(hand.len() == game.hands[seat].len() + drawn) by {
                if drawn > 0 {
                    lemma_arranged(game.hands[seat] + game.table.stock.subrange(left - drawn, left));
                }
            }
            lemma_cards_held_update(before, seat, hand);
            before.update(seat, hand)
        }
    }
}

/// A round that ends with the defense held. The cards of the round go to the
/// discard pile, which grows by their number. What the hands gain in the end,
/// the stock loses. And the defender opens the next round, if the game goes on
/// and the defender holds a card.
pub proof fn lemma_defense_held(game: GameView)
    requires
        game.wf(),
        game.phase == Phase::Resolution,
        game.round.is_defense_succeed,
    ensures
        game.resolved().table.discard == game.table.discard + game.table.attack + game.table.defense,
        game.resolved().table.discard.len() == game.table.discard.len() + game.table.attack.len()
            + game.table.defense.len(),
        game.resolved().table.attack.len() == 0,
        game.resolved().table.defense.len() == 0,
        game.resolved().table.stock.len() <= game.table.stock.len(),
        cards_held(game.resolved().hands) - cards_held(game.hands) == game.table.stock.len()
            - game.resolved().table.stock.len(),
        game.resolved().phase == Phase::FirstAttack || game.resolved().phase == Phase::Finished,
        game.resolved().phase == Phase::FirstAttack && game.resolved().hands[game.round.defending_index as int].len()
            > 0 ==> game.resolved().round.first_attacking_index == game.round.defending_index,
{
    let drawn = lemma_attackers_draw(game, game.players() as nat);
    let refilled = game.attackers_refilled();
    assert(refilled.hands =~= drawn);
    let seat = game.round.defending_index as int;
    let table = refilled.table.discarded();
    let count = draw_count(refilled.hands[seat].len(), table.stock.len() as int);
    let hand = refill(refilled.hands[seat], table.stock, table.stock.len() as int);
    assert(hand.len() == refilled.hands[seat].len() + count) by {
        if count > 0 {
            lemma_arranged(
                refilled.hands[seat] + table.stock.subrange(table.stock.len() - count, table.stock.len() as int),
            );
        }
    }
    lemma_cards_held_update(refilled.hands, seat, hand);
    let settled = refilled.defender_settled();
    assert(settled.hands == refilled.hands.update(seat, hand));
    assert(game.resolved().hands == settled.hands);
    assert(game.resolved().table == settled.table);
}

/// A round that ends with the defense failed. The defender holds the cards of
/// the round with the cards held before, the discard pile is as it was, and
/// the seat after the defender's opens the next round, if the game goes on and
/// that seat holds a card.
pub proof fn lemma_defense_failed(game: GameView)
    requires
        game.wf(),
        game.phase == Phase::Resolution,
        !game.round.is_defense_succeed,
    ensures
        game.resolved().hands[game.round.defending_index as int] == arranged(
            game.hands[game.round.defending_index as int] + game.table.attack + game.table.defense,
        ),
        game.resolved().hands[game.round.defending_index as int].to_multiset() == (
        game.hands[game.round.defending_index as int] + game.table.attack
            + game.table.defense).to_multiset(),
        game.resolved().hands[game.round.defending_index as int].len()
            == game.hands[game.round.defending_index as int].len() + game.table.attack.len()
            + game.table.defense.len(),
        game.resolved().table.discard == game.table.discard,
        game.resolved().table.attack.len() == 0,
        game.resolved().table.defense.len() == 0,
        game.resolved().phase == Phase::FirstAttack || game.resolved().phase == Phase::Finished,
        game.resolved().phase == Phase::FirstAttack && game.resolved().hands[crate::seats::next_seat(
            game.round.defending_index as int,
            game.players(),
        )].len() > 0 ==> game.resolved().round.first_attacking_index == crate::seats::next_seat(
            game.round.defending_index as int,
            game.players(),
        ),
{
    let seat = game.round.defending_index as int;
    let refilled = game.attackers_refilled();
    let settled = refilled.defender_settled();
    assert(refilled.hands[seat] == game.hands[seat]);
    assert(game.hands[seat] + (game.table.attack + game.table.defense) =~= game.hands[seat]
        + game.table.attack + game.table.defense);
    lemma_arranged(game.hands[seat] + game.table.attack + game.table.defense);
    assert(game.resolved().hands == settled.hands);
    assert(game.resolved().table == settled.table);
}

} // verus!
