//! The nine ranking categories of five-card poker and what decides between
//! two hands of one category.
//!
//! A *group of n* is a rank held by exactly `n` cards of the hand. Five
//! cards fall into groups in one of seven ways; which one it is can be read
//! from how many cards sit in groups of four, of three and of two. All
//! definitions here read the hand's rank values in ascending order.

use crate::deck::{Card, Rank};
use crate::order::{lemma_lex_swap, lemma_lex_tie, lemma_lex_transitive, lex_greater};
use crate::sorting::{
    lemma_sort_by_rank, lemma_sorted_values_unique, rank_values, sort_by_rank, sort_cards,
};
use core::cmp::Ordering;
use vstd::prelude::*;
use vstd::std_specs::cmp::PartialOrdSpecImpl;

verus! {

/// Ranking category of a five-card hand, strongest first.
#[derive(Clone, Copy, Debug, PartialEq, Eq, Hash, Structural)]
pub enum RankingCategory {
    StraightFlush,
    FourOfAKind,
    FullHouse,
    Flush,
    Straight,
    ThreeOfAKind,
    TwoPair,
    OnePair,
    HighCard,
}

/// The rank values of `ranks`, position by position.
pub open spec fn values_of(ranks: Seq<Rank>) -> Seq<int> {
    Seq::new(ranks.len(), |i: int| ranks[i].value() as int)
}

/// All cards share one suit.
pub open spec fn is_flush(cards: Seq<Card>) -> bool {
    forall|i: int| 0 <= i < cards.len() ==> (#[trigger] cards[i]).suit == cards[0].suit
}

/// Every value is exactly one more than the value before it.
pub open spec fn is_straight(values: Seq<int>) -> bool {
    forall|i: int, j: int|
        0 <= i && j == i + 1 && j < values.len() ==> #[trigger] values[j] - #[trigger] values[i]
            == 1
}

/// The test "is the value `x`".
pub open spec fn equal_to(x: int) -> spec_fn(int) -> bool {
    |y: int| y == x
}

/// How many of `values` are `x`.
pub open spec fn occurrences(values: Seq<int>, x: int) -> nat {
    values.filter(equal_to(x)).len()
}

/// The test "occurs exactly `n` times among `values`".
pub open spec fn in_group_of(values: Seq<int>, n: nat) -> spec_fn(int) -> bool {
    |x: int| occurrences(values, x) == n
}

/// The values that sit in groups of `n`, each as often and in the order as
/// it stands in `values`.
pub open spec fn members(values: Seq<int>, n: nat) -> Seq<int> {
    values.filter(in_group_of(values, n))
}

/// The test "is none of `excluded`".
pub open spec fn not_among(excluded: Seq<int>) -> spec_fn(int) -> bool {
    |x: int| !excluded.contains(x)
}

/// The values outside the `excluded` groups, highest first.
pub open spec fn kicker_values(values: Seq<int>, excluded: Seq<int>) -> Seq<int> {
    values.reverse().filter(not_among(excluded))
}

/// The highest value that forms a group of `n`, for ascending `values`.
pub open spec fn highest_group(values: Seq<int>, n: nat) -> int {
    members(values, n).last()
}

/// The lowest value that forms a group of `n`, for ascending `values`.
pub open spec fn lowest_group(values: Seq<int>, n: nat) -> int {
    members(values, n).first()
}

/// How many of `values` sit in groups of `n`.
pub open spec fn cards_in_groups(values: Seq<int>, n: nat) -> nat {
    members(values, n).len()
}

/// The category of five cards that stand in ascending order of rank.
///
/// Suit and sequence are looked at before groups: a flush or straight is
/// never reported as a hand of pairs or triples. Of the groups, a four and
/// a single make four of a kind, a three and a two a full house, a three
/// and two singles three of a kind, two twos and a single two pair, a two
/// and three singles one pair. Five singles, or five cards of one rank,
/// are a high card.
pub open spec fn category_of(sorted: Seq<Card>) -> RankingCategory {
    let values = rank_values(sorted);
    if is_straight(values) && is_flush(sorted) {
        RankingCategory::StraightFlush
    } else if is_flush(sorted) {
        RankingCategory::Flush
    } else if is_straight(values) {
        RankingCategory::Straight
    } else if cards_in_groups(values, 4) == 4 {
        RankingCategory::FourOfAKind
    } else if cards_in_groups(values, 3) == 3 && cards_in_groups(values, 2) == 2 {
        RankingCategory::FullHouse
    } else if cards_in_groups(values, 3) == 3 {
        RankingCategory::ThreeOfAKind
    } else if cards_in_groups(values, 2) == 4 {
        RankingCategory::TwoPair
    } else if cards_in_groups(values, 2) == 2 {
        RankingCategory::OnePair
    } else {
        RankingCategory::HighCard
    }
}

/// The category of five cards in any order.
pub open spec fn classify(cards: Seq<Card>) -> RankingCategory {
    category_of(sort_by_rank(cards))
}

/// A group's value followed by the kickers beside it.
pub open spec fn group_then_kickers(values: Seq<int>, n: nat) -> Seq<int> {
    seq![highest_group(values, n)] + kicker_values(values, seq![highest_group(values, n)])
}

/// What decides between two hands of the category of `sorted`, most
/// significant value first: the ranks from the top down for a hand without
/// groups that count; the group and then the kickers for four of a kind,
/// three of a kind and one pair; the triple and then the pair for a full
/// house; the higher pair, the lower pair and then the kicker for two pair.
pub open spec fn tie_break(sorted: Seq<Card>) -> Seq<int> {
    let values = rank_values(sorted);
    match category_of(sorted) {
        RankingCategory::FourOfAKind => group_then_kickers(values, 4),
        RankingCategory::ThreeOfAKind => group_then_kickers(values, 3),
        RankingCategory::OnePair => group_then_kickers(values, 2),
        RankingCategory::FullHouse => seq![highest_group(values, 3), highest_group(values, 2)],
        RankingCategory::TwoPair => seq![highest_group(values, 2), lowest_group(values, 2)]
            + kicker_values(values, members(values, 2)),
        _ => values.reverse(),
    }
}

/// The strength of five cards that stand in ascending order of rank: the
/// category's priority, then the tie-break values. Hands are ordered by
/// comparing their strengths lexicographically.
pub open spec fn strength_of(sorted: Seq<Card>) -> Seq<int> {
    seq![category_of(sorted).priority()] + tie_break(sorted)
}

/// The strength of five cards in any order.
pub open spec fn strength(cards: Seq<Card>) -> Seq<int> {
    strength_of(sort_by_rank(cards))
}

/// The first hand is stronger than the second.
pub open spec fn outranks(a: Seq<Card>, b: Seq<Card>) -> bool {
    lex_greater(strength(a), strength(b))
}

/// Neither hand is stronger than the other.
pub open spec fn ties_with(a: Seq<Card>, b: Seq<Card>) -> bool {
    strength(a) == strength(b)
}

/// Of two hands, one is stronger or they tie, and never both.
pub proof fn lemma_hands_are_comparable(a: Seq<Card>, b: Seq<Card>)
    ensures
        outranks(a, b) || outranks(b, a) || ties_with(a, b),
        !(outranks(a, b) && outranks(b, a)),
        ties_with(a, b) ==> !outranks(a, b) && !outranks(b, a),
{
    lemma_lex_tie(strength(a), strength(b));
    lemma_lex_swap(strength(a), strength(b));
}

/// A hand that beats another beats every hand that the other beats or ties
/// with.
pub proof fn lemma_outranking_is_transitive(a: Seq<Card>, b: Seq<Card>, c: Seq<Card>)
    requires
        outranks(a, b),
        outranks(b, c) || ties_with(b, c),
    ensures
        outranks(a, c),
{
    lemma_lex_swap(strength(a), strength(b));
    lemma_lex_swap(strength(b), strength(c));
    lemma_lex_swap(strength(a), strength(c));
    lemma_lex_tie(strength(c), strength(b));
    lemma_lex_transitive(strength(c), strength(b), strength(a));
}

/// Suits decide nothing beyond whether the hand is a flush: hands with the
/// same ranks that agree on being a flush are of the same strength.
pub proof fn lemma_suits_do_not_rank(a: Seq<Card>, b: Seq<Card>)
    requires
        rank_values(sort_by_rank(a)) == rank_values(sort_by_rank(b)),
        is_flush(sort_by_rank(a)) == is_flush(sort_by_rank(b)),
    ensures
        classify(a) == classify(b),
        ties_with(a, b),
{
}

/// The order in which five cards are given changes neither their category
/// nor their strength.
pub proof fn lemma_card_order_is_irrelevant(a: Seq<Card>, b: Seq<Card>)
    requires
        a.to_multiset() == b.to_multiset(),
    ensures
        classify(a) == classify(b),
        strength(a) == strength(b),
{
    broadcast use vstd::seq_lib::group_to_multiset_ensures;

    let x = sort_by_rank(a);
    let y = sort_by_rank(b);
    lemma_sort_by_rank(a);
    lemma_sort_by_rank(b);
    lemma_sorted_values_unique(a, b);
    assert(x.len() == y.len()) by {
        vstd::seq_lib::to_multiset_len(x);
        vstd::seq_lib::to_multiset_len(y);
    }
    assert(is_flush(x) == is_flush(y)) by {
        if x.len() > 0 {
            assert(x.contains(x[0]));
            assert(y.contains(y[0]));
            assert(y.to_multiset().count(x[0]) > 0);
            assert(x.to_multiset().count(y[0]) > 0);
            assert(y.contains(x[0]));
            assert(x.contains(y[0]));
            if is_flush(x) {
                assert forall|i: int| 0 <= i < y.len() implies (#[trigger] y[i]).suit
                    == y[0].suit by {
                    assert(y.contains(y[i]));
                    assert(x.to_multiset().count(y[i]) > 0);
                    assert(x.contains(y[i]));
                }
            }
            if is_flush(y) {
                assert forall|i: int| 0 <= i < x.len() implies (#[trigger] x[i]).suit
                    == x[0].suit by {
                    assert(x.contains(x[i]));
                    assert(y.to_multiset().count(x[i]) > 0);
                    assert(y.contains(x[i]));
                }
            }
        }
    }
}

impl RankingCategory {
    /// Priority of the category; a higher priority beats a lower one.
    pub open spec fn spec_rank_value(&self) -> u8 {
        match self {
            Self::StraightFlush => 9,
            Self::FourOfAKind => 8,
            Self::FullHouse => 7,
            Self::Flush => 6,
            Self::Straight => 5,
            Self::ThreeOfAKind => 4,
            Self::TwoPair => 3,
            Self::OnePair => 2,
            Self::HighCard => 1,
        }
    }

    /// The priority as a mathematical integer.
    pub open spec fn priority(&self) -> int {
        self.rank_value() as int
    }

    #[verifier::when_used_as_spec(spec_rank_value)]
    pub fn rank_value(&self) -> (priority: u8)
        ensures
            priority == self.spec_rank_value(),
    {
        match self {
            Self::StraightFlush => 9,
            Self::FourOfAKind => 8,
            Self::FullHouse => 7,
            Self::Flush => 6,
            Self::Straight => 5,
            Self::ThreeOfAKind => 4,
            Self::TwoPair => 3,
            Self::OnePair => 2,
            Self::HighCard => 1,
        }
    }

    /// Classifies five cards, whatever order they come in.
    pub fn from_cards(cards: &[Card; 5]) -> (category: Self)
        ensures
            category == classify(cards@),
    {
        let sorted = sort_cards(cards);
        Self::from_sorted(&sorted)
    }

    /// Classifies five cards by the order they stand in.
    pub(crate) fn from_sorted(cards: &[Card; 5]) -> (category: Self)
        ensures
            category == category_of(cards@),
    {
        let straight = follows(cards, 0) && follows(cards, 1) && follows(cards, 2) && follows(
            cards,
            3,
        );
        let flush = same_suit(cards);
        let fours = count_in_groups(cards, 4);
        let threes = count_in_groups(cards, 3);
        let twos = count_in_groups(cards, 2);
        if straight && flush {
            Self::StraightFlush
        } else if flush {
            Self::Flush
        } else if straight {
            Self::Straight
        } else if fours == 4 {
            Self::FourOfAKind
        } else if threes == 3 && twos == 2 {
            Self::FullHouse
        } else if threes == 3 {
            Self::ThreeOfAKind
        } else if twos == 4 {
            Self::TwoPair
        } else if twos == 2 {
            Self::OnePair
        } else {
            Self::HighCard
        }
    }
}

/// The order of two categories by priority.
pub open spec fn category_order(a: RankingCategory, b: RankingCategory) -> Ordering {
    if a.priority() < b.priority() {
        Ordering::Less
    } else if a.priority() > b.priority() {
        Ordering::Greater
    } else {
        Ordering::Equal
    }
}

impl RankingCategory {
    /// Orders two categories by priority; the stronger category is greater.
    pub fn cmp(&self, other: &Self) -> (order: Ordering)
        ensures
            order == category_order(*self, *other),
    {
        let mine: u8 = self.rank_value();
        let theirs: u8 = other.rank_value();
        if mine < theirs {
            Ordering::Less
        } else if mine > theirs {
            Ordering::Greater
        } else {
            Ordering::Equal
        }
    }
}

impl PartialOrdSpecImpl for RankingCategory {
    open spec fn obeys_partial_cmp_spec() -> bool {
        true
    }

    open spec fn partial_cmp_spec(&self, other: &Self) -> Option<Ordering> {
        Some(category_order(*self, *other))
    }
}

impl PartialOrd for RankingCategory {
    fn partial_cmp(&self, other: &Self) -> (order: Option<Ordering>) {
        Some(self.cmp(other))
    }
}

/// Whether the card behind position `i` is exactly one rank higher.
fn follows(cards: &[Card; 5], i: usize) -> (yes: bool)
    requires
        i < 4,
    ensures
        yes == (rank_values(cards@)[i + 1] - rank_values(cards@)[i as int] == 1),
{
    let low: usize = cards[i].rank.value();
    let high: usize = cards[i + 1].rank.value();
    high > low && high - low == 1
}

/// Whether all five cards share one suit.
fn same_suit(cards: &[Card; 5]) -> (yes: bool)
    ensures
        yes == is_flush(cards@),
{
    let mut i: usize = 1;
    while i < 5
        invariant
            1 <= i <= 5,
            forall|k: int| 0 <= k < i ==> (#[trigger] cards@[k]).suit == cards@[0].suit,
        decreases 5 - i,
    {
        if cards[i].suit != cards[0].suit {
            return false;
        }
        i += 1;
    }
    true
}

/// How many of the five cards have the rank value `value`.
pub fn count_value(cards: &[Card; 5], value: usize) -> (count: usize)
    ensures
        count == occurrences(rank_values(cards@), value as int),
        count <= 5,
{
    let ghost values = rank_values(cards@);
    let mut count: usize = 0;
    let mut i: usize = 0;
    while i < 5
        invariant
            i <= 5,
            count <= i,
            values == rank_values(cards@),
            count == occurrences(values.take(i as int), value as int),
        decreases 5 - i,
    {
        proof {
            assert(values.take(i + 1) =~= values.take(i as int).push(values[i as int]));
            values.take(i as int).lemma_filter_push(values[i as int], equal_to(value as int));
        }
        if cards[i].rank.value() == value {
            count += 1;
        }
        i += 1;
    }
    assert(values.take(5) =~= values);
    count
}

/// How many of the five cards sit in groups of `n`.
fn count_in_groups(cards: &[Card; 5], n: usize) -> (count: usize)
    ensures
        count == members(rank_values(cards@), n as nat).len(),
        count <= 5,
{
    let ghost values = rank_values(cards@);
    let mut count: usize = 0;
    let mut i: usize = 0;
    while i < 5
        invariant
            i <= 5,
            count <= i,
            values == rank_values(cards@),
            count == values.take(i as int).filter(in_group_of(values, n as nat)).len(),
        decreases 5 - i,
    {
        proof {
            assert(values.take(i + 1) =~= values.take(i as int).push(values[i as int]));
            values.take(i as int).lemma_filter_push(
                values[i as int],
                in_group_of(values, n as nat),
            );
        }
        if count_value(cards, cards[i].rank.value()) == n {
            count += 1;
        }
        i += 1;
    }
    assert(values.take(5) =~= values);
    count
}

} // verus!
