//! The order in which a hand of cards is kept.

use vstd::prelude::*;
use crate::cards::{Card, lemma_sorts_before_is_total};

verus! {

/// The cards lie in the order of a hand: by suit, and by value within a suit.
pub open spec fn in_order(cards: Seq<Card>) -> bool {
    forall|i: int, j: int|
        #![trigger cards[i], cards[j]]
        0 <= i < j < cards.len() ==> cards[i].sorts_before(&cards[j])
}

/// The first `count` of the cards lie in the order of a hand.
pub open spec fn in_order_up_to(cards: Seq<Card>, count: int) -> bool {
    forall|i: int, j: int|
        #![trigger cards[i], cards[j]]
        0 <= i < j < count ==> cards[i].sorts_before(&cards[j])
}

/// The cards, which lie in order, with `card` put in where it belongs: behind
/// every card that sorts before it or is equal to it.
pub open spec fn with_card(cards: Seq<Card>, card: Card) -> Seq<Card>
    decreases cards.len(),
{
    if cards.len() == 0 {
        seq![card]
    } else if cards.last().sorts_before(&card) {
        cards.push(card)
    } else {
        with_card(cards.drop_last(), card).push(cards.last())
    }
}

/// The cards put into the order of a hand.
pub open spec fn arranged(cards: Seq<Card>) -> Seq<Card>
    decreases cards.len(),
{
    if cards.len() == 0 {
        Seq::empty()
    } else {
        with_card(arranged(cards.drop_last()), cards.last())
    }
}

/// Putting a card in keeps the order and adds just that card.
pub proof fn lemma_with_card(cards: Seq<Card>, card: Card)
    requires
        in_order(cards),
    ensures
        in_order(with_card(cards, card)),
        with_card(cards, card).to_multiset() == cards.to_multiset().insert(card),
        with_card(cards, card).len() == cards.len() + 1,
    decreases cards.len(),
{
    broadcast use vstd::seq_lib::to_multiset_build;

    let result = with_card(cards, card);
    if cards.len() == 0 {
        assert(cards =~= Seq::empty());
        assert(result =~= Seq::<Card>::empty().push(card));
    } else if cards.last().sorts_before(&card) {
        assert forall|i: int, j: int|
            #![trigger result[i], result[j]]
            0 <= i < j < result.len() implies result[i].sorts_before(&result[j]) by {
            if j == cards.len() {
                lemma_sorts_before_is_total(cards[i], cards.last(), card);
            }
        }
    } else {
        let rest = cards.drop_last();
        let last = cards.last();
        assert(in_order(rest));
        lemma_with_card(rest, card);
        let inner = with_card(rest, card);
        assert(cards =~= rest.push(last));
        assert(result == inner.push(last));
        lemma_sorts_before_is_total(card, last, last);
        assert forall|i: int| 0 <= i < inner.len() implies (#[trigger] inner[i]).sorts_before(&last) by {
            vstd::seq_lib::to_multiset_contains(inner, inner[i]);
            vstd::seq_lib::to_multiset_contains(rest, inner[i]);
            assert(inner.contains(inner[i]));
            if inner[i] != card {
                assert(rest.to_multiset().insert(card).count(inner[i]) > 0);
                assert(rest.contains(inner[i]));
                let k = choose|k: int| 0 <= k < rest.len() && rest[k] == inner[i];
                assert(cards[k].sorts_before(&cards[cards.len() - 1]));
            }
        }
        assert forall|i: int, j: int|
            #![trigger result[i], result[j]]
            0 <= i < j < result.len() implies result[i].sorts_before(&result[j]) by {
            if j < inner.len() {
                assert(inner[i].sorts_before(&inner[j]));
            }
        }
        assert(result.to_multiset() =~= cards.to_multiset().insert(card));
    }
}

/// The arranged cards lie in order and are the same cards.
pub proof fn lemma_arranged(cards: Seq<Card>)
    ensures
        in_order(arranged(cards)),
        arranged(cards).to_multiset() == cards.to_multiset(),
        arranged(cards).len() == cards.len(),
    decreases cards.len(),
{
    broadcast use vstd::seq_lib::to_multiset_build;

    if cards.len() == 0 {
        assert(cards =~= Seq::empty());
    } else {
        lemma_arranged(cards.drop_last());
        lemma_with_card(arranged(cards.drop_last()), cards.last());
        assert(cards =~= cards.drop_last().push(cards.last()));
    }
}

/// Cards in order that are the same cards as `cards` are `cards` arranged.
pub proof fn lemma_arranged_is(cards: Seq<Card>, sorted: Seq<Card>)
    requires
        in_order(sorted),
        sorted.to_multiset() == cards.to_multiset(),
    ensures
        sorted == arranged(cards),
{
    lemma_arranged(cards);
    lemma_order_is_unique(sorted, arranged(cards));
}

/// The place among the first `limit` cards, which lie in order, where `card`
/// belongs: behind every card that sorts before it or is equal to it.
fn place_for(cards: &Vec<Card>, limit: usize, card: &Card) -> (place: usize)
    requires
        limit <= cards@.len(),
        in_order_up_to(cards@, limit as int),
    ensures
        place <= limit,
        forall|i: int| 0 <= i < place ==> (#[trigger] cards@[i]).sorts_before(card),
        forall|i: int| #![trigger cards@[i]] place <= i < limit ==> card.sorts_before(&cards@[i]),
{
    let mut place: usize = 0;
    while place < limit
        invariant
            place <= limit <= cards@.len(),
            in_order_up_to(cards@, limit as int),
            forall|i: int| 0 <= i < place ==> (#[trigger] cards@[i]).sorts_before(card),
        decreases limit - place,
    {
        if !cards[place].comes_before(card) {
            proof {
                assert forall|i: int| #![trigger cards@[i]] place <= i < limit implies card.sorts_before(
                    &cards@[i],
                ) by {
                    lemma_sorts_before_is_total(*card, cards@[place as int], cards@[i]);
                    if place < i {
                        assert(cards@[place as int].sorts_before(&cards@[i]));
                    }
                }
            }
            return place;
        }
        place += 1;
    }
    place
}

/// Puts the cards into the order of a hand. The cards stay the same.
pub fn sort_cards(cards: &mut Vec<Card>)
    ensures
        final(cards)@ == arranged(old(cards)@),
        in_order(final(cards)@),
        final(cards)@.to_multiset() == old(cards)@.to_multiset(),
        final(cards)@.len() == old(cards)@.len(),
{
    broadcast use vstd::multiset::group_multiset_axioms;

    let mut done: usize = 0;
    while done < cards.len()
        invariant
            done <= cards@.len(),
            cards@.len() == old(cards)@.len(),
            in_order_up_to(cards@, done as int),
            cards@.to_multiset() == old(cards)@.to_multiset(),
        decreases cards@.len() - done,
    {
        let ghost before = cards@;
        let card = cards.remove(done);
        let ghost without = cards@;
        assert(in_order_up_to(without, done as int)) by {
            assert forall|i: int, j: int|
                #![trigger without[i], without[j]]
                0 <= i < j < done implies without[i].sorts_before(&without[j]) by {
                assert(without[i] == before[i]);
                assert(without[j] == before[j]);
            }
        }
        let place = place_for(cards, done, &card);
        cards.insert(place, card);
        proof {
            let after = cards@;
            assert(after.to_multiset() =~= before.to_multiset()) by {
                vstd::seq_lib::to_multiset_remove(before, done as int);
                vstd::seq_lib::to_multiset_insert(without, place as int, card);
                assert(without == before.remove(done as int));
                assert(after == without.insert(place as int, card));
                assert(before.to_multiset().count(card) > 0) by {
                    assert(before[done as int] == card);
                    vstd::seq_lib::to_multiset_contains(before, card);
                    assert(before.contains(card));
                }
            }
            assert forall|i: int, j: int|
                #![trigger after[i], after[j]]
                0 <= i < j < done + 1 implies after[i].sorts_before(&after[j]) by {
                if j < place {
                    assert(after[i] == without[i] && after[j] == without[j]);
                } else if j == place {
                    assert(after[i] == without[i]);
                } else if i < place {
                    assert(after[i] == without[i] && after[j] == without[j - 1]);
                    lemma_sorts_before_is_total(without[i], card, without[j - 1]);
                } else if i == place {
                    assert(after[j] == without[j - 1]);
                } else {
                    assert(after[i] == without[i - 1] && after[j] == without[j - 1]);
                }
            }
        }
        done += 1;
    }
    proof {
        assert(in_order(cards@));
        lemma_arranged_is(old(cards)@, cards@);
    }
}

/// A hand has one order only: two sequences in order that hold the same cards,
/// each as often as the other, are the same sequence.
pub proof fn lemma_order_is_unique(a: Seq<Card>, b: Seq<Card>)
    requires
        in_order(a),
        in_order(b),
        a.to_multiset() == b.to_multiset(),
    ensures
        a == b,
{
    let leq = |x: Card, y: Card| x.sorts_before(&y);
    assert(vstd::relations::total_ordering(leq)) by {
        assert forall|x: Card| #[trigger] leq(x, x) by {
            lemma_sorts_before_is_total(x, x, x);
        }
        assert forall|x: Card, y: Card| #[trigger] leq(x, y) && #[trigger] leq(y, x) implies x == y by {
            lemma_sorts_before_is_total(x, y, x);
        }
        assert forall|x: Card, y: Card, z: Card| #[trigger] leq(x, y) && #[trigger] leq(y, z) implies leq(
            x,
            z,
        ) by {
            lemma_sorts_before_is_total(x, y, z);
        }
        assert forall|x: Card, y: Card| #[trigger] leq(x, y) || #[trigger] leq(y, x) by {
            lemma_sorts_before_is_total(x, y, x);
        }
    }
    assert(vstd::relations::sorted_by(a, leq));
    assert(vstd::relations::sorted_by(b, leq));
    vstd::seq_lib::lemma_sorted_unique(a, b, leq);
}

} // verus!
