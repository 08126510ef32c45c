//! The text form of a card: a rank token followed by one suit letter.
//!
//! Ranks two to nine are written as their digit, ten as `t` (read also as
//! `10`), and the court cards and the ace as `j`, `q`, `k`, `a`. The suit
//! letters are `k` for clubs, `r` for diamonds, `h` for hearts and `s` for
//! spades.

use crate::deck::{Card, Rank, Suit};
use crate::text::{decimal_string, decimal_text};
use vstd::prelude::*;
use vstd::string::{StrSliceExecFns, StringExecFns};

verus! {

/// Why a text is not a card.
#[derive(Clone, Copy, Debug, PartialEq, Eq, Structural)]
pub enum DecodeFailure {
    /// The text is shorter than two or longer than three characters.
    Format,
    /// What stands before the last character is no rank token.
    Rank,
    /// The last character is no suit letter.
    Suit,
}

/// A text that could not be read as a card.
#[derive(Clone, Debug)]
pub struct CardDecodeError {
    /// What was wrong with the text.
    pub failure: DecodeFailure,
    /// The offending text.
    pub text: String,
}

/// The letter of a suit.
pub open spec fn suit_char(suit: Suit) -> char {
    match suit {
        Suit::Clubs => 'k',
        Suit::Diamonds => 'r',
        Suit::Hearts => 'h',
        Suit::Spades => 's',
    }
}

/// The token of a rank.
pub open spec fn rank_text(rank: Rank) -> Seq<char> {
    match rank {
        Rank::Numeral(n) => if n == 10 {
            seq!['t']
        } else {
            decimal_text(n as nat)
        },
        Rank::Jack => seq!['j'],
        Rank::Queen => seq!['q'],
        Rank::King => seq!['k'],
        Rank::Ace => seq!['a'],
    }
}

/// The text of a card.
pub open spec fn card_text(card: Card) -> Seq<char> {
    rank_text(card.rank).push(suit_char(card.suit))
}

/// The suit that a letter stands for.
pub open spec fn parse_suit(letter: char) -> Option<Suit> {
    if letter == 'k' {
        Some(Suit::Clubs)
    } else if letter == 'r' {
        Some(Suit::Diamonds)
    } else if letter == 'h' {
        Some(Suit::Hearts)
    } else if letter == 's' {
        Some(Suit::Spades)
    } else {
        None
    }
}

/// The rank that a one-character token stands for.
pub open spec fn parse_rank_char(token: char) -> Option<Rank> {
    if token == '2' {
        Some(Rank::Numeral(2))
    } else if token == '3' {
        Some(Rank::Numeral(3))
    } else if token == '4' {
        Some(Rank::Numeral(4))
    } else if token == '5' {
        Some(Rank::Numeral(5))
    } else if token == '6' {
        Some(Rank::Numeral(6))
    } else if token == '7' {
        Some(Rank::Numeral(7))
    } else if token == '8' {
        Some(Rank::Numeral(8))
    } else if token == '9' {
        Some(Rank::Numeral(9))
    } else if token == 't' {
        Some(Rank::Numeral(10))
    } else if token == 'j' {
        Some(Rank::Jack)
    } else if token == 'q' {
        Some(Rank::Queen)
    } else if token == 'k' {
        Some(Rank::King)
    } else if token == 'a' {
        Some(Rank::Ace)
    } else {
        None
    }
}

/// The rank that a token stands for.
pub open spec fn parse_rank(token: Seq<char>) -> Option<Rank> {
    if token.len() == 1 {
        parse_rank_char(token[0])
    } else if token.len() == 2 && token[0] == '1' && token[1] == '0' {
        Some(Rank::Numeral(10))
    } else {
        None
    }
}

/// The card that a text stands for, or why it stands for none. The length
/// is looked at first, then the rank token, then the suit letter.
pub open spec fn parse_card(text: Seq<char>) -> Result<Card, DecodeFailure> {
    if text.len() < 2 || text.len() > 3 {
        Err(DecodeFailure::Format)
    } else {
        match parse_rank(text.drop_last()) {
            None => Err(DecodeFailure::Rank),
            Some(rank) => match parse_suit(text.last()) {
                None => Err(DecodeFailure::Suit),
                Some(suit) => Ok(Card { suit, rank }),
            },
        }
    }
}

/// Reading back the text of a standard card gives the card, and writing
/// that card again gives the same text.
pub proof fn lemma_decode_inverts_encode(card: Card)
    requires
        card.is_standard(),
    ensures
        parse_card(card_text(card)) == Ok::<Card, DecodeFailure>(card),
        parse_card(card_text(card)) matches Ok(back) && card_text(back) == card_text(card),
{
    let text = card_text(card);
    assert(text.drop_last() =~= rank_text(card.rank));
    assert(text.last() == suit_char(card.suit));
}

/// Every card that a text stands for is a standard card, and its own text
/// is the text it was read from, with `10` written as `t`.
pub proof fn lemma_decoded_card(text: Seq<char>, card: Card)
    requires
        parse_card(text) == Ok::<Card, DecodeFailure>(card),
    ensures
        card.is_standard(),
        parse_card(card_text(card)) == Ok::<Card, DecodeFailure>(card),
        text.len() == 2 ==> card_text(card) == text,
        text.len() == 3 ==> card_text(card) == seq!['t', text[2]],
{
    lemma_decode_inverts_encode(card);
    if text.len() == 2 {
        assert(text.drop_last() =~= seq![text[0]]);
        assert(card_text(card) =~= text);
    } else {
        assert(card_text(card) =~= seq!['t', text[2]]);
    }
}

fn rank_from_char(token: char) -> (rank: Option<Rank>)
    ensures
        rank == parse_rank_char(token),
{
    if token == '2' {
        Some(Rank::Numeral(2))
    } else if token == '3' {
        Some(Rank::Numeral(3))
    } else if token == '4' {
        Some(Rank::Numeral(4))
    } else if token == '5' {
        Some(Rank::Numeral(5))
    } else if token == '6' {
        Some(Rank::Numeral(6))
    } else if token == '7' {
        Some(Rank::Numeral(7))
    } else if token == '8' {
        Some(Rank::Numeral(8))
    } else if token == '9' {
        Some(Rank::Numeral(9))
    } else if token == 't' {
        Some(Rank::Numeral(10))
    } else if token == 'j' {
        Some(Rank::Jack)
    } else if token == 'q' {
        Some(Rank::Queen)
    } else if token == 'k' {
        Some(Rank::King)
    } else if token == 'a' {
        Some(Rank::Ace)
    } else {
        None
    }
}

fn suit_from_char(letter: char) -> (suit: Option<Suit>)
    ensures
        suit == parse_suit(letter),
{
    if letter == 'k' {
        Some(Suit::Clubs)
    } else if letter == 'r' {
        Some(Suit::Diamonds)
    } else if letter == 'h' {
        Some(Suit::Hearts)
    } else if letter == 's' {
        Some(Suit::Spades)
    } else {
        None
    }
}

impl CardDecodeError {
    /// A short description of the failure.
    pub fn message(&self) -> (message: String)
        ensures
            message@ == match self.failure {
                DecodeFailure::Format => "Invalid card format"@,
                DecodeFailure::Rank => "Invalid rank"@,
                DecodeFailure::Suit => "Invalid suit"@,
            },
    {
        match self.failure {
            DecodeFailure::Format => String::from_str("Invalid card format"),
            DecodeFailure::Rank => String::from_str("Invalid rank"),
            DecodeFailure::Suit => String::from_str("Invalid suit"),
        }
    }
}

impl Card {
    /// Writes the card as text. Every card has a text.
    pub fn encode(&self) -> (text: String)
        ensures
            text@ == card_text(*self),
    {
        proof {
            reveal_strlit("t");
            reveal_strlit("j");
            reveal_strlit("q");
            reveal_strlit("k");
            reveal_strlit("a");
            reveal_strlit("r");
            reveal_strlit("h");
            reveal_strlit("s");
        }
        let mut text = match self.rank {
            Rank::Numeral(n) => if n == 10 {
                String::from_str("t")
            } else {
                decimal_string(n)
            },
            Rank::Jack => String::from_str("j"),
            Rank::Queen => String::from_str("q"),
            Rank::King => String::from_str("k"),
            Rank::Ace => String::from_str("a"),
        };
        let suit = match self.suit {
            Suit::Clubs => "k",
            Suit::Diamonds => "r",
            Suit::Hearts => "h",
            Suit::Spades => "s",
        };
        assert(suit@ =~= seq![suit_char(self.suit)]);
        assert(text@ =~= rank_text(self.rank));
        text.append(suit);
        assert(text@ =~= card_text(*self));
        text
    }

    /// Reads a card from its text, or says why the text is none.
    pub fn decode(text: &str) -> (decoded: Result<Card, CardDecodeError>)
        ensures
            match decoded {
                Ok(card) => parse_card(text@) == Ok::<Card, DecodeFailure>(card),
                Err(error) => parse_card(text@) == Err::<Card, DecodeFailure>(error.failure)
                    && error.text@ == text@,
            },
    {
        let len: usize = text.unicode_len();
        if len < 2 || len > 3 {
            return Err(CardDecodeError { failure: DecodeFailure::Format, text: text.to_owned() });
        }
        let first = text.get_char(0);
        let parsed = if len == 2 {
            rank_from_char(first)
        } else if first == '1' && text.get_char(1) == '0' {
            Some(Rank::Numeral(10))
        } else {
            None
        };
        let rank = match parsed {
            Some(rank) => rank,
            None => {
                return Err(CardDecodeError { failure: DecodeFailure::Rank, text: text.to_owned() });
            },
        };
        match suit_from_char(text.get_char(len - 1)) {
            Some(suit) => Ok(Card { suit, rank }),
            None => Err(CardDecodeError { failure: DecodeFailure::Suit, text: text.to_owned() }),
        }
    }
}

} // verus!
