//! The source of chance: it shuffles the deck and picks who starts.

use vstd::prelude::*;
use rand::Rng;
use rand::SeedableRng;
use rand::rngs::StdRng;
use rand::seq::SliceRandom;
use crate::cards::Card;

verus! {

/// `rand::rngs::StdRng`, the generator behind a [`RandomSource`]. Nothing is
/// known of its state.
#[verifier::external_type_specification]
#[verifier::external_body]
pub struct ExStdRng(rand::rngs::StdRng);

/// `SeedableRng::seed_from_u64` for `StdRng`: a generator made from a seed.
#[verifier::external_body]
fn generator_from_seed(seed: u64) -> StdRng {
    StdRng::seed_from_u64(seed)
}

/// `SeedableRng::from_rng` for `StdRng`, fed by `rand::rngs::OsRng`: a
/// generator seeded by the system, or none where the system's source of
/// randomness reports an error.
#[verifier::external_body]
fn generator_from_system() -> Option<StdRng> {
    StdRng::from_rng(rand::rngs::OsRng).ok()
}

/// `SliceRandom::shuffle` on the cards: it swaps cards among the places of the
/// slice, so the same cards are there afterwards, each as often as before.
/// Nothing is claimed of their order.
#[verifier::external_body]
fn shuffle_slice(cards: &mut Vec<Card>, generator: &mut StdRng)
    ensures
        final(cards)@.to_multiset() == old(cards)@.to_multiset(),
{
    cards.shuffle(generator);
}

/// `Rng::gen_range` on the range from 0 up to, not including, `bound`: a number
/// of that range. The call panics on an empty range, so `bound` is positive.
#[verifier::external_body]
fn number_below(generator: &mut StdRng, bound: usize) -> (number: usize)
    requires
        bound > 0,
    ensures
        number < bound,
{
    generator.gen_range(0..bound)
}

/// A source of random numbers. One made from a seed repeats itself: the same
/// seed gives the same shuffles and picks.
pub struct RandomSource {
    generator: StdRng,
}

impl RandomSource {
    /// A source that repeats what every source of the same seed does.
    pub fn seeded(seed: u64) -> Self {
        RandomSource { generator: generator_from_seed(seed) }
    }

    /// A source seeded by the system, different each time; none where the
    /// system has no randomness to give.
    pub fn from_entropy() -> Option<Self> {
        match generator_from_system() {
            Some(generator) => Some(RandomSource { generator }),
            None => None,
        }
    }

    /// Puts the cards in a random order. The cards stay the same.
    pub fn shuffle(&mut self, cards: &mut Vec<Card>)
        ensures
            final(cards)@.to_multiset() == old(cards)@.to_multiset(),
            final(cards)@.len() == old(cards)@.len(),
            old(cards)@.no_duplicates() ==> final(cards)@.no_duplicates(),
    {
        let ghost before = cards@;
        shuffle_slice(cards, &mut self.generator);
        proof {
            lemma_same_cards(before, cards@);
        }
    }

    /// A random number below `bound`.
    pub fn pick(&mut self, bound: usize) -> (number: usize)
        requires
            bound > 0,
        ensures
            number < bound,
    {
        number_below(&mut self.generator, bound)
    }
}

/// Two sequences that hold the same cards, each as often as the other, are
/// equally long, and if one holds no card twice neither does the other.
pub proof fn lemma_same_cards(a: Seq<Card>, b: Seq<Card>)
    requires
        a.to_multiset() == b.to_multiset(),
    ensures
        a.len() == b.len(),
        a.no_duplicates() ==> b.no_duplicates(),
        forall|card: Card| a.contains(card) <==> b.contains(card),
{
    broadcast use vstd::seq_lib::to_multiset_len, vstd::seq_lib::to_multiset_contains;

    assert(a.len() == b.len()) by {
        assert(a.to_multiset().len() == a.len());
        assert(b.to_multiset().len() == b.len());
    }
    assert forall|card: Card| a.contains(card) <==> b.contains(card) by {
        assert(a.contains(card) <==> a.to_multiset().count(card) > 0);
        assert(b.contains(card) <==> b.to_multiset().count(card) > 0);
    }
    if a.no_duplicates() {
        a.lemma_multiset_has_no_duplicates();
        b.lemma_multiset_has_no_duplicates_conv();
    }
}

} // verus!
