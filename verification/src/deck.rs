//! Cards of the French-suited 52-card deck.

use core::cmp::Ordering;
use vstd::prelude::*;
use vstd::std_specs::cmp::PartialOrdSpecImpl;

verus! {

/// Number of cards in a full deck.
pub const DECK_SIZE: usize = 52;

/// A deck is an ordered sequence of cards.
pub type Deck = Vec<Card>;

/// Rank of a card, independent of its suit.
#[derive(Clone, Copy, Debug, PartialEq, Eq, Hash, Ord, Structural)]
pub enum Rank {
    /// The pip cards two to ten.
    Numeral(usize),
    Jack,
    Queen,
    King,
    Ace,
}

impl Rank {
    /// Numeric strength of the rank: pip cards count their pips, the court
    /// cards follow, and the ace is always high.
    pub open spec fn spec_value(&self) -> usize {
        match self {
            Rank::Numeral(n) => *n,
            Rank::Jack => 11,
            Rank::Queen => 12,
            Rank::King => 13,
            Rank::Ace => 14,
        }
    }

    /// A rank of the standard deck: a pip card carries two to ten pips.
    pub open spec fn is_standard(self) -> bool {
        self matches Rank::Numeral(n) ==> 2 <= n <= 10
    }

    /// Numeric strength of the rank, from 2 for the two to 14 for the ace.
    #[verifier::when_used_as_spec(spec_value)]
    pub fn value(&self) -> (v: usize)
        ensures
            v == self.spec_value(),
    {
        match self {
            Rank::Numeral(n) => *n,
            Rank::Jack => 11,
            Rank::Queen => 12,
            Rank::King => 13,
            Rank::Ace => 14,
        }
    }
}

/// The order of two numbers.
pub open spec fn number_order(a: usize, b: usize) -> Ordering {
    if a < b {
        Ordering::Less
    } else if a > b {
        Ordering::Greater
    } else {
        Ordering::Equal
    }
}

/// The order of two ranks: pip cards come before court cards and the ace,
/// and among themselves go by their pips. On the ranks of the standard deck
/// this is the order of their values.
pub open spec fn rank_order(a: Rank, b: Rank) -> Ordering {
    match (a, b) {
        (Rank::Numeral(m), Rank::Numeral(n)) => number_order(m, n),
        (Rank::Numeral(_), _) => Ordering::Less,
        (_, Rank::Numeral(_)) => Ordering::Greater,
        _ => number_order(a.value(), b.value()),
    }
}

/// Standard ranks are ordered by their value.
pub proof fn lemma_standard_ranks_go_by_value(a: Rank, b: Rank)
    requires
        a.is_standard(),
        b.is_standard(),
    ensures
        rank_order(a, b) == number_order(a.value(), b.value()),
        a.value() == b.value() <==> a == b,
{
}

impl PartialOrdSpecImpl for Rank {
    open spec fn obeys_partial_cmp_spec() -> bool {
        true
    }

    open spec fn partial_cmp_spec(&self, other: &Self) -> Option<Ordering> {
        Some(rank_order(*self, *other))
    }
}

impl PartialOrd for Rank {
    fn partial_cmp(&self, other: &Self) -> (order: Option<Ordering>) {
        let by_value = if self.value() < other.value() {
            Ordering::Less
        } else if self.value() > other.value() {
            Ordering::Greater
        } else {
            Ordering::Equal
        };
        Some(
            match (self, other) {
                (Rank::Numeral(_), Rank::Numeral(_)) => by_value,
                (Rank::Numeral(_), _) => Ordering::Less,
                (_, Rank::Numeral(_)) => Ordering::Greater,
                _ => by_value,
            },
        )
    }
}

/// Suit of a card.
#[derive(Clone, Copy, Debug, PartialEq, Eq, Hash, Structural)]
pub enum Suit {
    Clubs,
    Diamonds,
    Hearts,
    Spades,
}

/// A playing card.
#[derive(Clone, Copy, Debug, PartialEq, Eq, Hash, Structural)]
pub struct Card {
    pub suit: Suit,
    pub rank: Rank,
}

impl Card {
    /// A card of the standard deck.
    pub open spec fn is_standard(self) -> bool {
        self.rank.is_standard()
    }
}

} // verus!
