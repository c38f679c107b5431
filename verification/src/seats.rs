//! The seats round the table: whose turn comes next, and who still holds cards.

use vstd::prelude::*;
use crate::cards::Card;

verus! {

/// The seat after `seat` at a table of `count` seats.
pub open spec fn next_seat(seat: int, count: int) -> int {
    if seat + 1 >= count {
        0
    } else {
        seat + 1
    }
}

/// How many seats further round the table `target` is than `seat`.
pub open spec fn steps_to(seat: int, target: int, count: int) -> int {
    if target >= seat {
        target - seat
    } else {
        target + count - seat
    }
}

/// The seat `steps` seats after `first`, for `steps` up to the number of seats.
pub open spec fn seat_after(first: int, steps: int, count: int) -> int {
    if first + steps >= count {
        first + steps - count
    } else {
        first + steps
    }
}

/// How many of the hands are empty.
pub open spec fn empty_hands(hands: Seq<Seq<Card>>) -> nat
    decreases hands.len(),
{
    if hands.len() == 0 {
        0
    } else {
        empty_hands(hands.drop_last()) + if hands.last().len() == 0 {
            1nat
        } else {
            0nat
        }
    }
}

/// How many cards the hands hold together.
pub open spec fn cards_held(hands: Seq<Seq<Card>>) -> nat
    decreases hands.len(),
{
    if hands.len() == 0 {
        0
    } else {
        cards_held(hands.drop_last()) + hands.last().len()
    }
}

/// A change of one hand changes the number of cards held by that hand alone.
pub proof fn lemma_cards_held_update(hands: Seq<Seq<Card>>, seat: int, hand: Seq<Card>)
    requires
        0 <= seat < hands.len(),
    ensures
        cards_held(hands.update(seat, hand)) + hands[seat].len() == cards_held(hands) + hand.len(),
    decreases hands.len(),
{
    let changed = hands.update(seat, hand);
    if seat == hands.len() - 1 {
        assert(changed.drop_last() =~= hands.drop_last());
    } else {
        lemma_cards_held_update(hands.drop_last(), seat, hand);
        assert(changed.drop_last() =~= hands.drop_last().update(seat, hand));
    }
}

/// One for an empty hand, zero for any other.
pub open spec fn is_empty_hand(hand: Seq<Card>) -> nat {
    if hand.len() == 0 {
        1
    } else {
        0
    }
}

/// The first seat that holds cards, looking from `seat` on round the table at
/// no more than `tries` further seats.
pub open spec fn holder_from(hands: Seq<Seq<Card>>, seat: int, tries: nat) -> int
    decreases tries,
{
    if tries == 0 || hands[seat].len() > 0 {
        seat
    } else {
        holder_from(hands, next_seat(seat, hands.len() as int), (tries - 1) as nat)
    }
}

/// No more hands are empty than there are hands.
pub proof fn lemma_empty_hands_bound(hands: Seq<Seq<Card>>)
    ensures
        empty_hands(hands) <= hands.len(),
    decreases hands.len(),
{
    if hands.len() > 0 {
        lemma_empty_hands_bound(hands.drop_last());
    }
}

/// A change of one hand changes the count by that hand alone.
pub proof fn lemma_empty_hands_update(hands: Seq<Seq<Card>>, seat: int, hand: Seq<Card>)
    requires
        0 <= seat < hands.len(),
    ensures
        empty_hands(hands.update(seat, hand)) + is_empty_hand(hands[seat]) == empty_hands(hands)
            + is_empty_hand(hand),
    decreases hands.len(),
{
    let changed = hands.update(seat, hand);
    if seat == hands.len() - 1 {
        assert(changed.drop_last() =~= hands.drop_last());
    } else {
        lemma_empty_hands_update(hands.drop_last(), seat, hand);
        assert(changed.drop_last() =~= hands.drop_last().update(seat, hand));
    }
}

/// Where every hand but the one at `seat` is empty, all hands but one count.
proof fn lemma_lonely_holder(hands: Seq<Seq<Card>>, seat: int)
    requires
        forall|other: int| 0 <= other < hands.len() && other != seat ==> (#[trigger] hands[other]).len() == 0,
    ensures
        empty_hands(hands) + 1 >= hands.len(),
        !(0 <= seat < hands.len()) ==> empty_hands(hands) == hands.len(),
    decreases hands.len(),
{
    if hands.len() > 0 {
        let rest = hands.drop_last();
        assert forall|other: int| 0 <= other < rest.len() && other != seat implies (#[trigger] rest[other]).len()
            == 0 by {
            assert(rest[other] == hands[other]);
        }
        lemma_lonely_holder(rest, seat);
        if seat != hands.len() - 1 {
            assert(hands[hands.len() - 1].len() == 0);
        }
    }
}

/// Where not every hand is empty, some seat holds cards. Where two hands or
/// more are not empty, some seat other than `seat` holds cards.
pub proof fn lemma_holders_exist(hands: Seq<Seq<Card>>, seat: int)
    ensures
        empty_hands(hands) < hands.len() ==> exists|holder: int|
            0 <= holder < hands.len() && (#[trigger] hands[holder]).len() > 0,
        empty_hands(hands) + 2 <= hands.len() ==> exists|holder: int|
            0 <= holder < hands.len() && holder != seat && (#[trigger] hands[holder]).len() > 0,
        empty_hands(hands) == 0 ==> forall|any: int|
            0 <= any < hands.len() ==> (#[trigger] hands[any]).len() > 0,
{
    if empty_hands(hands) < hands.len() {
        if forall|holder: int| 0 <= holder < hands.len() ==> (#[trigger] hands[holder]).len() == 0 {
            lemma_lonely_holder(hands, -1);
        }
    }
    if empty_hands(hands) + 2 <= hands.len() {
        if forall|holder: int|
            0 <= holder < hands.len() && holder != seat ==> (#[trigger] hands[holder]).len() == 0 {
            lemma_lonely_holder(hands, seat);
        }
    }
    if empty_hands(hands) == 0 {
        assert forall|any: int| 0 <= any < hands.len() implies (#[trigger] hands[any]).len() > 0 by {
            if hands[any].len() == 0 {
                lemma_empty_hands_update(hands, any, hands[any]);
                lemma_one_empty(hands, any);
            }
        }
    }
}

/// An empty hand counts.
proof fn lemma_one_empty(hands: Seq<Seq<Card>>, seat: int)
    requires
        0 <= seat < hands.len(),
        hands[seat].len() == 0,
    ensures
        empty_hands(hands) >= 1,
    decreases hands.len(),
{
    if seat < hands.len() - 1 {
        assert(hands.drop_last()[seat] == hands[seat]);
        lemma_one_empty(hands.drop_last(), seat);
    }
}

/// The search for a seat with cards stays at the table and goes no further
/// than it may; and it finds such a seat where one is near enough.
pub proof fn lemma_holder_from(hands: Seq<Seq<Card>>, seat: int, tries: nat, target: int)
    requires
        0 <= seat < hands.len(),
        tries < hands.len(),
    ensures
        0 <= holder_from(hands, seat, tries) < hands.len(),
        steps_to(seat, holder_from(hands, seat, tries), hands.len() as int) <= tries,
        forall|nearer: int|
            0 <= nearer < hands.len() && steps_to(seat, nearer, hands.len() as int) < steps_to(
                seat,
                holder_from(hands, seat, tries),
                hands.len() as int,
            ) ==> (#[trigger] hands[nearer]).len() == 0,
        0 <= target < hands.len() && hands[target].len() > 0 && steps_to(
            seat,
            target,
            hands.len() as int,
        ) <= tries ==> hands[holder_from(hands, seat, tries)].len() > 0,
    decreases tries,
{
    let count = hands.len() as int;
    if tries == 0 || hands[seat].len() > 0 {
    } else {
        let next = next_seat(seat, count);
        lemma_holder_from(hands, next, (tries - 1) as nat, target);
        let found = holder_from(hands, next, (tries - 1) as nat);
        assert(found == holder_from(hands, seat, tries));
        assert forall|nearer: int|
            0 <= nearer < hands.len() && steps_to(seat, nearer, count) < steps_to(
                seat,
                found,
                count,
            ) implies (#[trigger] hands[nearer]).len() == 0 by {
            if nearer != seat {
                assert(steps_to(next, nearer, count) < steps_to(next, found, count));
            }
        }
    }
}

/// Where every seat holds cards, no hand is empty.
pub proof fn lemma_no_empty_hands(hands: Seq<Seq<Card>>)
    requires
        forall|seat: int| 0 <= seat < hands.len() ==> (#[trigger] hands[seat]).len() > 0,
    ensures
        empty_hands(hands) == 0,
    decreases hands.len(),
{
    if hands.len() > 0 {
        let rest = hands.drop_last();
        assert forall|seat: int| 0 <= seat < rest.len() implies (#[trigger] rest[seat]).len() > 0 by {
            assert(rest[seat] == hands[seat]);
        }
        lemma_no_empty_hands(rest);
    }
}

/// The seat after `seat` at a table of `count` seats.
pub fn next_index(seat: usize, count: usize) -> (next: usize)
    requires
        seat < count,
    ensures
        next == next_seat(seat as int, count as int),
        next < count,
{
    if seat + 1 == count {
        0
    } else {
        seat + 1
    }
}

} // verus!
