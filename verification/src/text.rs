//! How values, suits, cards and errors are written.

use vstd::prelude::*;
use crate::cards::{Card, Suit, Value};
use crate::utils::Error;

verus! {

/// The character of a decimal digit.
pub open spec fn digit_char(digit: nat) -> char {
    if digit == 0 {
        '0'
    } else if digit == 1 {
        '1'
    } else if digit == 2 {
        '2'
    } else if digit == 3 {
        '3'
    } else if digit == 4 {
        '4'
    } else if digit == 5 {
        '5'
    } else if digit == 6 {
        '6'
    } else if digit == 7 {
        '7'
    } else if digit == 8 {
        '8'
    } else {
        '9'
    }
}

/// The number written in decimal digits, without leading zeros.
pub open spec fn decimal(number: nat) -> Seq<char>
    decreases number,
{
    if number < 10 {
        seq![digit_char(number)]
    } else {
        decimal(number / 10).push(digit_char(number % 10))
    }
}

fn digit_text(digit: usize) -> (text: &'static str)
    requires
        digit < 10,
    ensures
        text@ == seq![digit_char(digit as nat)],
{
    proof {
        reveal_strlit("0");
        reveal_strlit("1");
        reveal_strlit("2");
        reveal_strlit("3");
        reveal_strlit("4");
        reveal_strlit("5");
        reveal_strlit("6");
        reveal_strlit("7");
        reveal_strlit("8");
        reveal_strlit("9");
    }
    let text = if digit == 0 {
        "0"
    } else if digit == 1 {
        "1"
    } else if digit == 2 {
        "2"
    } else if digit == 3 {
        "3"
    } else if digit == 4 {
        "4"
    } else if digit == 5 {
        "5"
    } else if digit == 6 {
        "6"
    } else if digit == 7 {
        "7"
    } else if digit == 8 {
        "8"
    } else {
        "9"
    };
    assert(text@ =~= seq![digit_char(digit as nat)]);
    text
}

/// The number written in decimal digits.
pub fn decimal_text(number: usize) -> (text: String)
    ensures
        text@ == decimal(number as nat),
    decreases number,
{
    if number < 10 {
        String::from_str(digit_text(number))
    } else {
        let mut text = decimal_text(number / 10);
        text.append(digit_text(number % 10));
        assert(text@ =~= decimal(number as nat));
        text
    }
}

impl Value {
    /// The two characters that stand for the value on a card.
    pub open spec fn spec_symbol(&self) -> Seq<char> {
        match self {
            Value::Two => " 2"@,
            Value::Three => " 3"@,
            Value::Four => " 4"@,
            Value::Five => " 5"@,
            Value::Six => " 6"@,
            Value::Seven => " 7"@,
            Value::Eight => " 8"@,
            Value::Nine => " 9"@,
            Value::Ten => "10"@,
            Value::Jack => " J"@,
            Value::Queen => " Q"@,
            Value::King => " K"@,
            Value::Ace => " A"@,
            Value::Joker => "🃏"@,
        }
    }

    /// What stands for the value on a card.
    pub fn symbol(&self) -> (symbol: &'static str)
        ensures
            symbol@ == self.spec_symbol(),
    {
        match self {
            Value::Two => " 2",
            Value::Three => " 3",
            Value::Four => " 4",
            Value::Five => " 5",
            Value::Six => " 6",
            Value::Seven => " 7",
            Value::Eight => " 8",
            Value::Nine => " 9",
            Value::Ten => "10",
            Value::Jack => " J",
            Value::Queen => " Q",
            Value::King => " K",
            Value::Ace => " A",
            Value::Joker => "🃏",
        }
    }
}

impl Suit {
    /// The sign of the suit.
    pub open spec fn spec_symbol(&self) -> Seq<char> {
        match self {
            Suit::Club => "♣"@,
            Suit::Spade => "♠"@,
            Suit::Heart => "♡"@,
            Suit::Diamond => "♢"@,
        }
    }

    /// The sign of the suit.
    pub fn symbol(&self) -> (symbol: &'static str)
        ensures
            symbol@ == self.spec_symbol(),
    {
        match self {
            Suit::Club => "♣",
            Suit::Spade => "♠",
            Suit::Heart => "♡",
            Suit::Diamond => "♢",
        }
    }
}

impl Card {
    /// The card in writing: its value, then its suit.
    pub open spec fn spec_text(&self) -> Seq<char> {
        self.value().spec_symbol() + self.suit().spec_symbol()
    }

    /// The card in writing: its value, then its suit.
    pub fn text(&self) -> (text: String)
        ensures
            text@ == self.spec_text(),
    {
        let mut text = String::from_str(self.value().symbol());
        text.append(self.suit().symbol());
        text
    }
}

impl Error {
    /// The error in words.
    pub open spec fn spec_message(&self) -> Seq<char> {
        match self {
            Error::TooManyPlayers(max_count) => "Can't add more than "@ + decimal(*max_count as nat)
                + " players to this game"@,
            Error::TooManyAttackCards => "Maximum 6 attack cards"@,
            Error::AbsentCardValue(value) => "There isn't such cards with value '"@ + value.spec_symbol()
                + "' on the table"@,
            Error::NoCardsToBeat => "There isn't any card to beat"@,
            Error::InvalidAttackIndex(index) => "There isn't attack card at #"@ + decimal(*index as nat),
            Error::InvalidDeckIndex(index) => "You haven't card at #"@ + decimal(*index as nat),
            Error::IncorrectDefense => "Given defense card can't beat given attack card"@,
        }
    }

    /// The error in words.
    pub fn message(&self) -> (message: String)
        ensures
            message@ == self.spec_message(),
    {
        match self {
            Error::TooManyPlayers(max_count) => {
                let mut message = String::from_str("Can't add more than ");
                message.append(decimal_text(*max_count).as_str());
                message.append(" players to this game");
                message
            },
            Error::TooManyAttackCards => String::from_str("Maximum 6 attack cards"),
            Error::AbsentCardValue(value) => {
                let mut message = String::from_str("There isn't such cards with value '");
                message.append(value.symbol());
                message.append("' on the table");
                message
            },
            Error::NoCardsToBeat => String::from_str("There isn't any card to beat"),
            Error::InvalidAttackIndex(index) => {
                let mut message = String::from_str("There isn't attack card at #");
                message.append(decimal_text(*index).as_str());
                message
            },
            Error::InvalidDeckIndex(index) => {
                let mut message = String::from_str("You haven't card at #");
                message.append(decimal_text(*index).as_str());
                message
            },
            Error::IncorrectDefense => String::from_str(
                "Given defense card can't beat given attack card",
            ),
        }
    }
}

} // verus!
