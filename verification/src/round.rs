//! The course of one round: who attacks, who defends, and how the round moves
//! from the first attack to its end.

use vstd::prelude::*;
use crate::cards::Card;
use crate::player::{Decision, Request};
use crate::seats::{next_seat, steps_to};

verus! {

/// Where a game stands.
#[derive(Debug, Clone, Copy, PartialEq, Eq, Structural)]
pub enum Phase {
    /// Players are joining; no card is dealt yet.
    Lobby,
    /// The first attacker of the round must play a card.
    FirstAttack,
    /// The defender must answer the newest attack card or take the cards.
    Defense,
    /// The attack is beaten for now; the attackers may add cards in turn.
    AttackContinuation,
    /// The round is decided; the cards are still to be handed round.
    Resolution,
    /// The game is over.
    Finished,
}

/// What one step of a game did.
#[derive(Debug, Clone, Copy, PartialEq, Eq, Structural)]
pub enum Step {
    /// Nothing: a person has to answer first.
    Waiting(Request),
    /// The attacker played a card.
    Attacked,
    /// The attacker passed.
    Passed,
    /// The defender beat the newest attack card.
    Defended,
    /// The defender gave up and will take the cards.
    Conceded,
    /// The round was closed and the cards were handed round.
    Resolved,
    /// Nothing: no round is under way.
    Idle,
}

/// The step that an attacker's decision makes: a card played is an attack, a
/// decision against one is a pass, and no decision yet is a wait.
pub open spec fn attack_step_of(decision: Decision<Card>) -> Step {
    match decision {
        Decision::Made(Some(_)) => Step::Attacked,
        Decision::Made(None) => Step::Passed,
        Decision::Pending(request) => Step::Waiting(request),
    }
}

/// The step that the defender's decision makes: a card played is a defense, a
/// decision against one gives the round up, and no decision yet is a wait.
pub open spec fn defense_step_of(decision: Decision<(usize, Card)>) -> Step {
    match decision {
        Decision::Made(Some(_)) => Step::Defended,
        Decision::Made(None) => Step::Conceded,
        Decision::Pending(request) => Step::Waiting(request),
    }
}

/// The bookkeeping of a round.
#[derive(Debug, Clone, Copy, PartialEq, Eq, Structural)]
pub struct RoundInfo {
    /// Whether the defender has beaten every attack so far.
    pub is_defense_succeed: bool,
    /// The seat that opened the round.
    pub first_attacking_index: usize,
    /// The seat whose turn it is to attack.
    pub attacking_index: usize,
    /// The seat that played the newest attack card.
    pub last_not_passed_index: usize,
    /// The seat that defends.
    pub defending_index: usize,
    /// How many attackers in a row have passed since the newest attack card.
    pub passes_count: usize,
}

impl RoundInfo {
    /// A round that `first` opens against `defender`.
    pub open spec fn opened(first: usize, defender: usize) -> RoundInfo {
        RoundInfo {
            is_defense_succeed: true,
            first_attacking_index: first,
            attacking_index: first,
            last_not_passed_index: first,
            defending_index: defender,
            passes_count: 0,
        }
    }

    /// The round with the turn to attack moved past the defender's seat.
    pub open spec fn facing(self, players: int) -> RoundInfo {
        if self.attacking_index == self.defending_index {
            RoundInfo { attacking_index: next_seat(self.attacking_index as int, players) as usize, ..self }
        } else {
            self
        }
    }

    /// The round after the attacker played a card: the passes start anew.
    pub open spec fn after_attack(self) -> RoundInfo {
        RoundInfo { last_not_passed_index: self.attacking_index, passes_count: 0, ..self }
    }

    /// With one more pass the attack is over: the turn is back at the seat that
    /// played the newest attack card, and everyone who may attack has passed.
    pub open spec fn sweep_over(self, players: int) -> bool {
        self.attacking_index == self.last_not_passed_index && self.passes_count + 1 >= players - 1
    }

    /// The round after the attacker passed: the turn moves on, unless the
    /// attack is over.
    pub open spec fn after_pass(self, players: int) -> RoundInfo {
        RoundInfo {
            passes_count: (self.passes_count + 1) as usize,
            attacking_index: if self.sweep_over(players) {
                self.attacking_index
            } else {
                next_seat(self.attacking_index as int, players) as usize
            },
            ..self
        }
    }

    /// The seats of the round are seats of the table, and attacker and
    /// defender are two.
    pub open spec fn seated(self, players: int) -> bool {
        &&& self.first_attacking_index < players
        &&& self.attacking_index < players
        &&& self.last_not_passed_index < players
        &&& self.defending_index < players
        &&& self.defending_index != self.last_not_passed_index
        &&& self.defending_index != self.first_attacking_index
    }

    /// The passes count the seats that the turn went by since the newest
    /// attack card, but for the defender's.
    pub open spec fn passes_fit(self, players: int) -> bool {
        let gone = steps_to(self.last_not_passed_index as int, self.attacking_index as int, players);
        let defender = steps_to(self.last_not_passed_index as int, self.defending_index as int, players);
        if gone == 0 {
            self.passes_count == 0 || self.passes_count == players - 1
        } else if defender < gone {
            self.passes_count == gone - 1
        } else {
            self.passes_count == gone
        }
    }
}

/// While attackers pass, the count of passes stays right, and it never
/// exceeds the number of players: after that many passes the attack is over.
pub proof fn lemma_passes_stay_fit(round: RoundInfo, players: int)
    requires
        2 <= players <= usize::MAX,
        round.seated(players),
        round.passes_fit(players),
    ensures
        round.passes_count <= players,
        round.facing(players).seated(players),
        round.facing(players).passes_fit(players),
        round.facing(players).attacking_index != round.defending_index,
        round.after_attack().seated(players) || round.attacking_index == round.defending_index,
        round.after_attack().passes_fit(players),
        round.attacking_index != round.defending_index && !round.sweep_over(players) ==> round.after_pass(
            players,
        ).seated(players) && round.after_pass(players).passes_fit(players),
        round.sweep_over(players) ==> round.after_pass(players).seated(players),
        RoundInfo::opened(round.first_attacking_index, round.defending_index).seated(players),
        RoundInfo::opened(round.first_attacking_index, round.defending_index).passes_fit(players),
{
}

} // verus!
