//! Errors of the game, answers typed by a person, and a small helper.

use vstd::prelude::*;
use crate::cards::Value;

verus! {

/// Why a move or a request was turned down.
#[derive(Debug, Clone, Copy, PartialEq, Eq, Structural)]
pub enum Error {
    /// The game already seats as many players as its deck allows (the number given).
    TooManyPlayers(usize),
    /// The attack already holds a full hand of cards.
    TooManyAttackCards,
    /// No card of this value has been played in the round yet.
    AbsentCardValue(Value),
    /// Every attack card is beaten already.
    NoCardsToBeat,
    /// There is no attack card at this place.
    InvalidAttackIndex(usize),
    /// The player holds no card at this place.
    InvalidDeckIndex(usize),
    /// The defense card cannot beat the attack card.
    IncorrectDefense,
}

/// What a person typed: a word or a number.
#[derive(Debug, PartialEq, Eq)]
pub enum Input {
    String(String),
    Number(usize),
}

/// `num::traits::Zero::zero` for `usize`: the additive identity, which is 0.
#[verifier::external_body]
fn zero() -> (nothing: usize)
    ensures
        nothing == 0,
{
    num::traits::Zero::zero()
}

/// `lhs - rhs` where that is positive, else zero.
pub fn positive_sub_or_zero(lhs: usize, rhs: usize) -> (difference: usize)
    ensures
        lhs <= rhs ==> difference == 0,
        lhs > rhs ==> difference == lhs - rhs,
{
    if lhs <= rhs {
        return zero();
    }
    lhs - rhs
}

} // verus!
