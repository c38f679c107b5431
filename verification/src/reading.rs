//! Reading what a person typed: a line becomes a number or a word.

use vstd::prelude::*;
use crate::utils::Input;

verus! {

/// Whether the character is white space: a blank, a tab, a line break, or one
/// of the other spaces of the character set.
pub open spec fn is_blank(c: char) -> bool {
    ||| '\u{9}' <= c <= '\u{D}'
    ||| c == ' '
    ||| c == '\u{85}'
    ||| c == '\u{A0}'
    ||| c == '\u{1680}'
    ||| '\u{2000}' <= c <= '\u{200A}'
    ||| c == '\u{2028}'
    ||| c == '\u{2029}'
    ||| c == '\u{202F}'
    ||| c == '\u{205F}'
    ||| c == '\u{3000}'
}

/// The characters without the blanks among them.
pub open spec fn without_blanks(text: Seq<char>) -> Seq<char>
    decreases text.len(),
{
    if text.len() == 0 {
        Seq::empty()
    } else if is_blank(text.last()) {
        without_blanks(text.drop_last())
    } else {
        without_blanks(text.drop_last()).push(text.last())
    }
}

/// The digit that the character stands for, if it is one of `0` to `9`.
pub open spec fn digit_of(c: char) -> Option<nat> {
    if '0' <= c <= '9' {
        Some((c as u32 - '0' as u32) as nat)
    } else {
        None
    }
}

/// What a text without blanks reads as.
pub enum Reading {
    /// A number that a `usize` holds.
    Number(usize),
    /// No number: the text as it stands.
    Word,
    /// Nothing to go by: no text at all, or a number too large to hold.
    Nothing,
}

/// What the digits read as, after digits that came to `so_far`. The first
/// character that is no digit makes a word of it, unless the number has grown
/// too large by then.
pub open spec fn read_digits(digits: Seq<char>, so_far: nat) -> Reading
    decreases digits.len(),
{
    if digits.len() == 0 {
        if so_far <= usize::MAX {
            Reading::Number(so_far as usize)
        } else {
            Reading::Nothing
        }
    } else {
        match digit_of(digits.first()) {
            None => Reading::Word,
            Some(digit) => if so_far * 10 + digit > usize::MAX {
                Reading::Nothing
            } else {
                read_digits(digits.drop_first(), so_far * 10 + digit)
            },
        }
    }
}

/// What a text without blanks reads as: a number if it is made of digits,
/// with or without a plus sign before them, and a word otherwise.
pub open spec fn read(text: Seq<char>) -> Reading {
    if text.len() == 0 {
        Reading::Nothing
    } else if text.first() == '+' {
        if text.len() == 1 {
            Reading::Word
        } else {
            read_digits(text.drop_first(), 0)
        }
    } else {
        read_digits(text, 0)
    }
}

fn blank(c: char) -> (blank: bool)
    ensures
        blank == is_blank(c),
{
    (c >= '\u{9}' && c <= '\u{D}') || c == ' ' || c == '\u{85}' || c == '\u{A0}' || c == '\u{1680}' || (c
        >= '\u{2000}' && c <= '\u{200A}') || c == '\u{2028}' || c == '\u{2029}' || c == '\u{202F}' || c
        == '\u{205F}' || c == '\u{3000}'
}

fn digit(c: char) -> (digit: Option<usize>)
    ensures
        digit is Some <==> digit_of(c) is Some,
        digit matches Some(value) ==> digit_of(c) == Some(value as nat) && value < 10,
{
    if c >= '0' && c <= '9' {
        Some((c as u32 - '0' as u32) as usize)
    } else {
        None
    }
}

/// The line without its blanks.
pub fn strip_blanks(line: &str) -> (text: String)
    ensures
        text@ == without_blanks(line@),
{
    let mut text = String::new();
    let count = line.unicode_len();
    let mut i: usize = 0;
    while i < count
        invariant
            i <= count,
            count == line@.len(),
            text@ == without_blanks(line@.subrange(0, i as int)),
        decreases count - i,
    {
        let c = line.get_char(i);
        proof {
            assert(line@.subrange(0, i + 1).drop_last() =~= line@.subrange(0, i as int));
            assert(line@.subrange(i as int, i + 1) =~= seq![c]);
        }
        if !blank(c) {
            text.append(line.substring_char(i, i + 1));
        }
        i += 1;
    }
    proof {
        assert(line@.subrange(0, count as int) =~= line@);
    }
    text
}

/// Reads the digits of the text from place `from` on.
fn read_number(text: &str, from: usize) -> (reading: Reading)
    requires
        from <= text@.len(),
    ensures
        reading == read_digits(text@.subrange(from as int, text@.len() as int), 0),
{
    let count = text.unicode_len();
    let mut number: usize = 0;
    let mut i: usize = from;
    while i < count
        invariant
            from <= i <= count,
            count == text@.len(),
            read_digits(text@.subrange(i as int, count as int), number as nat) == read_digits(
                text@.subrange(from as int, count as int),
                0,
            ),
        decreases count - i,
    {
        let c = text.get_char(i);
        proof {
            assert(text@.subrange(i as int, count as int).first() == c);
            assert(text@.subrange(i as int, count as int).drop_first() =~= text@.subrange(
                i + 1,
                count as int,
            ));
        }
        match digit(c) {
            None => {
                return Reading::Word;
            },
            Some(value) => {
                if number > (usize::MAX - value) / 10 {
                    return Reading::Nothing;
                }
                number = number * 10 + value;
            },
        }
        i += 1;
    }
    Reading::Number(number)
}

impl Input {
    /// Reads a line that a person typed. Blanks do not count. Digits, with or
    /// without a plus sign before them, make a number; anything else is a
    /// word. There is nothing to read (`None`) in a line without text and in a
    /// number too large to hold.
    pub fn from_line(line: &str) -> (input: Option<Input>)
        ensures
            match read(without_blanks(line@)) {
                Reading::Number(number) => input == Some(Input::Number(number)),
                Reading::Word => input matches Some(Input::String(word)) && word@ == without_blanks(line@),
                Reading::Nothing => input is None,
            },
    {
        let text = strip_blanks(line);
        let count = text.as_str().unicode_len();
        if count == 0 {
            return None;
        }
        let from: usize = if text.as_str().get_char(0) == '+' {
            1
        } else {
            0
        };
        if from == count {
            return Some(Input::String(text));
        }
        proof {
            assert(text@.subrange(0, count as int) =~= text@);
            assert(text@.subrange(1, count as int) =~= text@.drop_first());
        }
        match read_number(text.as_str(), from) {
            Reading::Number(number) => Some(Input::Number(number)),
            Reading::Word => Some(Input::String(text)),
            Reading::Nothing => None,
        }
    }
}

} // verus!
