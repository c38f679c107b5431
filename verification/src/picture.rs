//! Pictures in writing of a row of cards and of the table.

use vstd::prelude::*;
use crate::cards::{Card, CARDS_IN_DECK_COUNT};
use crate::table::{Table, TableView};
use crate::text::{decimal, decimal_text};

verus! {

/// The piece written `times` times in a row.
pub open spec fn repeated(piece: Seq<char>, times: nat) -> Seq<char>
    decreases times,
{
    if times == 0 {
        Seq::empty()
    } else {
        repeated(piece, (times - 1) as nat) + piece
    }
}

/// The cards in a row, each written between `left` and `right`.
pub open spec fn framed_cards(cards: Seq<Card>, left: Seq<char>, right: Seq<char>) -> Seq<char>
    decreases cards.len(),
{
    if cards.len() == 0 {
        Seq::empty()
    } else {
        framed_cards(cards.drop_last(), left, right) + left + cards.last().spec_text() + right
    }
}

/// The number of a place, two characters wide where it is below ten.
pub open spec fn place_label(place: nat) -> Seq<char> {
    if place < 10 {
        seq![' '] + decimal(place)
    } else {
        decimal(place)
    }
}

/// The numbers of the first `count` places in a row, each written between
/// `left` and `right`.
pub open spec fn framed_places(count: nat, left: Seq<char>, right: Seq<char>) -> Seq<char>
    decreases count,
{
    if count == 0 {
        Seq::empty()
    } else {
        framed_places((count - 1) as nat, left, right) + left + place_label((count - 1) as nat) + right
    }
}

/// The picture of a row of cards: five lines that draw the cards side by side,
/// and below each card its place in the row.
pub open spec fn cards_drawn(cards: Seq<Card>) -> Seq<char> {
    repeated("┌────┐"@, cards.len()) + "\n"@ + framed_cards(cards, "│"@, " │"@) + "\n"@ + repeated(
        "│    │"@,
        cards.len(),
    ) + "\n"@ + repeated("└────┘"@, cards.len()) + "\n"@ + framed_places(cards.len(), "  "@, "  "@)
        + "\n\n"@
}

impl TableView {
    /// How many attack cards have no defense card.
    pub open spec fn open_cards(self) -> nat {
        if self.attack.len() >= self.defense.len() {
            (self.attack.len() - self.defense.len()) as nat
        } else {
            0
        }
    }

    /// The picture of the table: a line on the stock and the trump, the attack
    /// cards side by side, each defense card laid over its attack card, and
    /// the places of the attack below.
    pub open spec fn drawn_table(self) -> Seq<char> {
        "Cards remain: "@ + decimal(self.stock.len()) + ", trump: "@ + self.trump.spec_symbol() + "\n"@
            + repeated(" ┌────┐ "@, self.attack.len()) + "\n"@ + framed_cards(
            self.attack,
            " │"@,
            " │ "@,
        ) + "\n"@ + repeated(" │┌───┴┐"@, self.defense.len()) + repeated(
            " │    │ "@,
            self.open_cards(),
        ) + "\n"@ + framed_cards(self.defense, " └┤"@, " │"@) + repeated(
            " └────┘ "@,
            self.open_cards(),
        ) + "\n"@ + repeated("  │    │"@, self.defense.len()) + "\n"@ + repeated(
            "  └────┘"@,
            self.defense.len(),
        ) + "\n"@ + framed_places(CARDS_IN_DECK_COUNT as nat, "   "@, "   "@) + "\n\n"@
    }
}

fn write_repeated(text: &mut String, piece: &str, times: usize)
    ensures
        final(text)@ == old(text)@ + repeated(piece@, times as nat),
{
    let mut i: usize = 0;
    proof {
        assert(text@ =~= old(text)@ + repeated(piece@, 0));
    }
    while i < times
        invariant
            i <= times,
            text@ == old(text)@ + repeated(piece@, i as nat),
        decreases times - i,
    {
        text.append(piece);
        i += 1;
        proof {
            assert(text@ =~= old(text)@ + repeated(piece@, i as nat));
        }
    }
}

fn write_cards(text: &mut String, cards: &Vec<Card>, left: &str, right: &str)
    ensures
        final(text)@ == old(text)@ + framed_cards(cards@, left@, right@),
{
    let mut i: usize = 0;
    proof {
        assert(cards@.subrange(0, 0) =~= Seq::empty());
        assert(text@ =~= old(text)@ + framed_cards(cards@.subrange(0, 0), left@, right@));
    }
    while i < cards.len()
        invariant
            i <= cards@.len(),
            text@ == old(text)@ + framed_cards(cards@.subrange(0, i as int), left@, right@),
        decreases cards@.len() - i,
    {
        text.append(left);
        let card = cards[i].text();
        text.append(card.as_str());
        text.append(right);
        i += 1;
        proof {
            let shown = cards@.subrange(0, i as int);
            assert(shown.drop_last() =~= cards@.subrange(0, i - 1));
            assert(shown.last() == cards@[i - 1]);
            assert(text@ =~= old(text)@ + framed_cards(shown, left@, right@));
        }
    }
    proof {
        assert(cards@.subrange(0, cards@.len() as int) =~= cards@);
    }
}

fn write_places(text: &mut String, count: usize, left: &str, right: &str)
    ensures
        final(text)@ == old(text)@ + framed_places(count as nat, left@, right@),
{
    let mut i: usize = 0;
    proof {
        assert(text@ =~= old(text)@ + framed_places(0, left@, right@));
    }
    while i < count
        invariant
            i <= count,
            text@ == old(text)@ + framed_places(i as nat, left@, right@),
        decreases count - i,
    {
        text.append(left);
        if i < 10 {
            text.append(" ");
        }
        let number = decimal_text(i);
        text.append(number.as_str());
        text.append(right);
        i += 1;
        proof {
            reveal_strlit(" ");
            assert(" "@ =~= seq![' ']);
            assert(text@ =~= old(text)@ + framed_places(i as nat, left@, right@));
        }
    }
}

/// Draws the cards side by side, with their places in the row below them.
pub fn cards_picture(cards: &Vec<Card>) -> (picture: String)
    ensures
        picture@ == cards_drawn(cards@),
{
    let mut picture = String::new();
    write_repeated(&mut picture, "┌────┐", cards.len());
    picture.append("\n");
    write_cards(&mut picture, cards, "│", " │");
    picture.append("\n");
    write_repeated(&mut picture, "│    │", cards.len());
    picture.append("\n");
    write_repeated(&mut picture, "└────┘", cards.len());
    picture.append("\n");
    write_places(&mut picture, cards.len(), "  ", "  ");
    picture.append("\n\n");
    proof {
        assert(picture@ =~= cards_drawn(cards@));
    }
    picture
}

impl Table {
    /// Draws the table.
    pub fn picture(&self) -> (picture: String)
        ensures
            picture@ == self@.drawn_table(),
    {
        let attack = self.attack_cards();
        let defense = self.defense_cards();
        let open: usize = if attack.len() >= defense.len() {
            attack.len() - defense.len()
        } else {
            0
        };
        let mut picture = String::from_str("Cards remain: ");
        let remain = decimal_text(self.remain_cards_count());
        picture.append(remain.as_str());
        picture.append(", trump: ");
        picture.append(self.trump().symbol());
        picture.append("\n");
        write_repeated(&mut picture, " ┌────┐ ", attack.len());
        picture.append("\n");
        write_cards(&mut picture, attack, " │", " │ ");
        picture.append("\n");
        write_repeated(&mut picture, " │┌───┴┐", defense.len());
        write_repeated(&mut picture, " │    │ ", open);
        picture.append("\n");
        write_cards(&mut picture, defense, " └┤", " │");
        write_repeated(&mut picture, " └────┘ ", open);
        picture.append("\n");
        write_repeated(&mut picture, "  │    │", defense.len());
        picture.append("\n");
        write_repeated(&mut picture, "  └────┘", defense.len());
        picture.append("\n");
        write_places(&mut picture, CARDS_IN_DECK_COUNT, "   ", "   ");
        picture.append("\n\n");
        proof {
            assert(picture@ =~= self@.drawn_table());
        }
        picture
    }
}

} // verus!
