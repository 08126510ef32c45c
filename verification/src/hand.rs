//! A poker hand: five cards held in ascending order of rank, with their
//! ranking category.

use crate::deck::{Card, Rank};
use crate::order::{compare_ranks, lemma_lex_cons, lemma_lex_equal, lex_order, order_of};
use crate::ranking::{
    category_of, category_order, classify, count_value, group_then_kickers, highest_group,
    in_group_of, kicker_values, lowest_group, members, not_among, strength_of, tie_break,
    values_of, RankingCategory,
};
use crate::sorting::{ascending, lemma_sort_by_rank, rank_values, sort_by_rank, sort_cards};
use core::cmp::Ordering;
use vstd::prelude::*;
use vstd::std_specs::cmp::{PartialEqSpecImpl, PartialOrdSpecImpl};
use vstd::std_specs::convert::FromSpecImpl;

verus! {

/// The best five cards a player holds.
///
/// The cards are kept in ascending order of rank value and the category is
/// the one they classify as; neither can be set separately.
#[derive(Debug)]
pub struct Hand {
    ranking_category: RankingCategory,
    cards: [Card; 5],
}

impl View for Hand {
    type V = Seq<Card>;

    /// The five cards as they are stored, lowest rank first.
    closed spec fn view(&self) -> Seq<Card> {
        self.cards@
    }
}

/// The array that holds the five cards of `cards`.
spec fn array_of(cards: Seq<Card>) -> [Card; 5] {
    [cards[0], cards[1], cards[2], cards[3], cards[4]]
}

impl Hand {
    #[verifier::type_invariant]
    spec fn well_formed(self) -> bool {
        &&& ascending(rank_values(self.cards@))
        &&& self.ranking_category == category_of(self.cards@)
    }

    /// The category of the hand.
    pub closed spec fn category(&self) -> RankingCategory {
        self.ranking_category
    }

    /// The category of the hand.
    pub fn ranking_category(&self) -> (category: RankingCategory)
        ensures
            category == self.category(),
            category == category_of(self@),
    {
        proof {
            use_type_invariant(self);
        }
        self.ranking_category
    }

    /// The five cards, lowest rank first.
    pub fn cards(&self) -> (cards: &[Card; 5])
        ensures
            cards@ == self@,
            ascending(rank_values(cards@)),
    {
        proof {
            use_type_invariant(self);
        }
        &self.cards
    }
}

impl FromSpecImpl<[Card; 5]> for Hand {
    open spec fn obeys_from_spec() -> bool {
        true
    }

    closed spec fn from_spec(cards: [Card; 5]) -> Hand {
        Hand {
            ranking_category: classify(cards@),
            cards: array_of(sort_by_rank(cards@)),
        }
    }
}

impl From<[Card; 5]> for Hand {
    /// Builds the hand of five cards given in any order.
    fn from(cards: [Card; 5]) -> (hand: Hand)
        ensures
            hand@ == sort_by_rank(cards@),
            hand.category() == classify(cards@),
    {
        let sorted = sort_cards(&cards);
        proof {
            lemma_sort_by_rank(cards@);
            assert(sorted =~= array_of(sort_by_rank(cards@)));
        }
        Hand { ranking_category: RankingCategory::from_sorted(&sorted), cards: sorted }
    }
}

/// One of `cards` has the rank `rank`.
pub open spec fn held_in(rank: Rank, cards: Seq<Card>) -> bool {
    exists|b: int| 0 <= b < cards.len() && (#[trigger] cards[b]).rank == rank
}

/// Whether one of `ranks` has the rank value `value`.
fn holds_value(ranks: &[Rank], value: usize) -> (found: bool)
    ensures
        found == values_of(ranks@).contains(value as int),
{
    let ghost values = values_of(ranks@);
    let mut i: usize = 0;
    while i < ranks.len()
        invariant
            i <= ranks@.len(),
            values == values_of(ranks@),
            forall|k: int| 0 <= k < i ==> values[k] != value,
        decreases ranks@.len() - i,
    {
        if ranks[i].value() == value {
            assert(values[i as int] == value);
            return true;
        }
        i += 1;
    }
    false
}

/// `distinct` lists, highest first and each once, the values of `listed`,
/// which ascends.
#[verifier::opaque]
spec fn lists_distinct(distinct: Seq<int>, listed: Seq<int>) -> bool {
    &&& distinct.len() > 0 <==> listed.len() > 0
    &&& distinct.len() > 0 ==> distinct.first() == listed.last() && distinct.last()
        == listed.first()
    &&& forall|x: int| distinct.contains(x) <==> listed.contains(x)
    &&& forall|a: int, b: int| 0 <= a < b < distinct.len() ==> distinct[a] > distinct[b]
}

/// A value below all that are listed is a new distinct value.
proof fn lemma_lists_new_value(distinct: Seq<int>, listed: Seq<int>, x: int)
    requires
        lists_distinct(distinct, listed),
        listed.len() > 0 ==> x < listed.first(),
    ensures
        lists_distinct(distinct.push(x), seq![x] + listed),
{
    reveal(lists_distinct);
    let now = distinct.push(x);
    let below = seq![x] + listed;
    assert forall|y: int| now.contains(y) <==> below.contains(y) by {
        if now.contains(y) {
            let k = choose|k: int| 0 <= k < now.len() && now[k] == y;
            if k < distinct.len() {
                assert(distinct[k] == y);
                assert(distinct.contains(y));
                let m = choose|m: int| 0 <= m < listed.len() && listed[m] == y;
                assert(below[m + 1] == y);
            } else {
                assert(below[0] == y);
            }
        }
        if below.contains(y) {
            let m = choose|m: int| 0 <= m < below.len() && below[m] == y;
            if m == 0 {
                assert(now[now.len() - 1] == y);
            } else {
                assert(listed[m - 1] == y);
                assert(listed.contains(y));
                let k = choose|k: int| 0 <= k < distinct.len() && distinct[k] == y;
                assert(now[k] == y);
            }
        }
    }
}

/// One more of the lowest listed value adds no distinct value.
proof fn lemma_lists_same_value(distinct: Seq<int>, listed: Seq<int>, x: int)
    requires
        lists_distinct(distinct, listed),
        listed.len() > 0,
        listed.first() == x,
    ensures
        lists_distinct(distinct, seq![x] + listed),
{
    reveal(lists_distinct);
    let below = seq![x] + listed;
    assert forall|y: int| distinct.contains(y) <==> below.contains(y) by {
        if listed.contains(y) {
            let m = choose|m: int| 0 <= m < listed.len() && listed[m] == y;
            assert(below[m + 1] == y);
        }
        if below.contains(y) {
            let m = choose|m: int| 0 <= m < below.len() && below[m] == y;
            if m == 0 {
                assert(listed[0] == y);
            } else {
                assert(listed[m - 1] == y);
            }
        }
    }
}

/// What the values from place `from` on add to the members of a group, and
/// that the lowest of them is no lower than the value at `from`.
proof fn lemma_members_from(values: Seq<int>, grouped: spec_fn(int) -> bool, from: int)
    requires
        0 <= from < values.len(),
        ascending(values),
    ensures
        values.skip(from).filter(grouped) == (if grouped(values[from]) {
            seq![values[from]]
        } else {
            Seq::empty()
        }) + values.skip(from + 1).filter(grouped),
        values.skip(from).filter(grouped).len() > 0 ==> values[from] <= values.skip(
            from,
        ).filter(grouped).first(),
{
    let rest = values.skip(from + 1);
    assert(values.skip(from) =~= seq![values[from]] + rest);
    rest.lemma_filter_prepend(values[from], grouped);
    let here = values.skip(from);
    let listed = here.filter(grouped);
    if listed.len() > 0 {
        assert(listed.contains(listed[0]));
        here.lemma_filter_contains_rev(grouped, listed[0]);
        let t = choose|t: int| 0 <= t < here.len() && here[t] == listed[0];
        assert(values[from + t] == listed[0]);
    }
}

impl Hand {
    /// The ranks that form groups of `count`, highest first, each once.
    fn find_all_ranks_with_count(&self, count: usize) -> (ranks: Vec<Rank>)
        ensures
            ranks@.len() > 0 <==> members(rank_values(self@), count as nat).len() > 0,
            ranks@.len() > 0 ==> {
                &&& values_of(ranks@).first() == members(rank_values(self@), count as nat).last()
                &&& values_of(ranks@).last() == members(rank_values(self@), count as nat).first()
            },
            forall|x: int|
                values_of(ranks@).contains(x) <==> members(
                    rank_values(self@),
                    count as nat,
                ).contains(x),
            forall|a: int, b: int|
                0 <= a < b < ranks@.len() ==> values_of(ranks@)[a] > values_of(ranks@)[b],
            forall|a: int| 0 <= a < ranks@.len() ==> held_in(#[trigger] ranks@[a], self@),
    {
        proof {
            use_type_invariant(self);
        }
        let ghost values = rank_values(self@);
        let ghost grouped = in_group_of(values, count as nat);
        let mut ranks: Vec<Rank> = Vec::new();
        let mut i: usize = 5;
        proof {
            assert(values.skip(5) =~= Seq::<int>::empty());
            values.skip(5).lemma_filter_len(grouped);
            assert(lists_distinct(values_of(ranks@), values.skip(5).filter(grouped))) by {
                reveal(lists_distinct);
            }
        }
        while i > 0
            invariant
                i <= 5,
                self@.len() == 5,
                values == rank_values(self@),
                grouped == in_group_of(values, count as nat),
                ascending(values),
                lists_distinct(values_of(ranks@), values.skip(i as int).filter(grouped)),
                forall|a: int| 0 <= a < ranks@.len() ==> held_in(#[trigger] ranks@[a], self@),
            decreases i,
        {
            let j: usize = i - 1;
            let rank = self.cards[j].rank;
            let value: usize = rank.value();
            let in_group = count_value(&self.cards, value) == count;
            let top = j == 4 || self.cards[j + 1].rank.value() != value;
            let ghost above = values.skip(i as int).filter(grouped);
            let ghost before = values_of(ranks@);
            proof {
                lemma_members_from(values, grouped, j as int);
                assert(in_group == grouped(values[j as int]));
                if in_group && !top {
                    lemma_members_from(values, grouped, i as int);
                    assert(above.first() == values[j as int]);
                    lemma_lists_same_value(before, above, value as int);
                }
                if in_group && top {
                    if above.len() > 0 {
                        lemma_members_from(values, grouped, i as int);
                        assert(values[j as int] <= values[i as int]);
                    }
                    lemma_lists_new_value(before, above, value as int);
                }
                if !in_group {
                    assert(Seq::<int>::empty() + above =~= above);
                }
            }
            if in_group && top {
                ranks.push(rank);
                proof {
                    assert(values_of(ranks@) =~= before.push(value as int));
                    assert(self@[j as int].rank == rank);
                }
            }
            i = j;
        }
        proof {
            assert(values.skip(0) =~= values);
            reveal(lists_distinct);
        }
        ranks
    }

    /// The highest rank that forms a group of `count`.
    fn find_rank_with_count(&self, count: usize) -> (rank: Rank)
        requires
            members(rank_values(self@), count as nat).len() > 0,
        ensures
            rank.value() == members(rank_values(self@), count as nat).last(),
            held_in(rank, self@),
    {
        let ranks = self.find_all_ranks_with_count(count);
        assert(values_of(ranks@)[0] == ranks@[0].value());
        ranks[0]
    }

    /// The ranks of the cards outside the `exclude`d groups, highest first.
    fn kickers(&self, exclude: &[Rank]) -> (ranks: Vec<Rank>)
        ensures
            values_of(ranks@) == kicker_values(rank_values(self@), values_of(exclude@)),
            forall|a: int| 0 <= a < ranks@.len() ==> held_in(#[trigger] ranks@[a], self@),
    {
        let ghost descending = rank_values(self@).reverse();
        let ghost kept = not_among(values_of(exclude@));
        let mut ranks: Vec<Rank> = Vec::new();
        let mut k: usize = 0;
        while k < 5
            invariant
                k <= 5,
                self@.len() == 5,
                descending == rank_values(self@).reverse(),
                kept == not_among(values_of(exclude@)),
                values_of(ranks@) == descending.take(k as int).filter(kept),
                forall|a: int| 0 <= a < ranks@.len() ==> held_in(#[trigger] ranks@[a], self@),
            decreases 5 - k,
        {
            let rank = self.cards[4 - k].rank;
            let ghost before = values_of(ranks@);
            proof {
                assert(descending[k as int] == rank.value());
                assert(descending.take(k + 1) =~= descending.take(k as int).push(
                    descending[k as int],
                ));
                descending.take(k as int).lemma_filter_push(descending[k as int], kept);
            }
            if !holds_value(exclude, rank.value()) {
                ranks.push(rank);
                proof {
                    assert(values_of(ranks@) =~= before.push(rank.value() as int));
                    assert(self@[4 - k].rank == rank);
                }
            }
            k += 1;
        }
        proof {
            assert(descending.take(5) =~= descending);
        }
        ranks
    }
}

impl Hand {
    /// The hand holds a group of `size`.
    spec fn has_group(&self, size: usize) -> bool {
        members(rank_values(self@), size as nat).len() > 0
    }

    /// The value of the hand's highest group of `size`.
    spec fn group_value(&self, size: usize) -> int {
        highest_group(rank_values(self@), size as nat)
    }

    /// The value of the hand's lowest group of `size`.
    spec fn low_group_value(&self, size: usize) -> int {
        lowest_group(rank_values(self@), size as nat)
    }

    /// The values that sit in the hand's groups of `size`.
    spec fn group_members(&self, size: usize) -> Seq<int> {
        members(rank_values(self@), size as nat)
    }

    /// The value of the highest group of `size`, then the kickers beside it.
    spec fn group_key(&self, size: usize) -> Seq<int> {
        group_then_kickers(rank_values(self@), size as nat)
    }

    /// Compares two hands by their highest group of `group_size`, then by
    /// the cards outside it, highest first.
    fn compare_n_of_a_kind(&self, other: &Self, group_size: usize) -> (order: Ordering)
        requires
            self.has_group(group_size),
            other.has_group(group_size),
        ensures
            order == lex_order(self.group_key(group_size), other.group_key(group_size)),
    {
        let self_n = self.find_rank_with_count(group_size);
        let other_n = other.find_rank_with_count(group_size);
        let self_group = [self_n];
        let other_group = [other_n];
        let self_kickers = self.kickers(&self_group);
        let other_kickers = other.kickers(&other_group);
        proof {
            assert(values_of(self_group@) =~= seq![self.group_value(group_size)]);
            assert(values_of(other_group@) =~= seq![other.group_value(group_size)]);
            lemma_lex_cons(
                self.group_value(group_size),
                values_of(self_kickers@),
                other.group_value(group_size),
                values_of(other_kickers@),
            );
        }
        match order_of(self_n.value(), other_n.value()) {
            Ordering::Equal => compare_ranks(&self_kickers, &other_kickers),
            ord => ord,
        }
    }

    /// Compares the ranks of two hands from the highest card down.
    fn compare_high_to_low(&self, other: &Self) -> (order: Ordering)
        ensures
            order == lex_order(rank_values(self@).reverse(), rank_values(other@).reverse()),
    {
        let ghost mine = rank_values(self@).reverse();
        let ghost theirs = rank_values(other@).reverse();
        let ghost done: int = 0;
        let mut k: usize = 0;
        proof {
            assert(mine.skip(0) =~= mine);
            assert(theirs.skip(0) =~= theirs);
        }
        while k < 5
            invariant
                k <= 5,
                done == k,
                self@.len() == 5,
                other@.len() == 5,
                mine == rank_values(self@).reverse(),
                theirs == rank_values(other@).reverse(),
                lex_order(mine, theirs) == lex_order(mine.skip(done), theirs.skip(done)),
            decreases 5 - k,
        {
            let x: usize = self.cards[4 - k].rank.value();
            let y: usize = other.cards[4 - k].rank.value();
            proof {
                assert(mine.skip(done)[0] == x);
                assert(theirs.skip(done)[0] == y);
                assert(mine.skip(done).drop_first() =~= mine.skip(done + 1));
                assert(theirs.skip(done).drop_first() =~= theirs.skip(done + 1));
            }
            if x < y {
                return Ordering::Less;
            }
            if x > y {
                return Ordering::Greater;
            }
            k += 1;
            proof {
                done = done + 1;
            }
        }
        Ordering::Equal
    }

    /// Decides between two hands of one category.
    fn compare_same_category(&self, other: &Self) -> (order: Ordering)
        requires
            self.category() == other.category(),
        ensures
            order == lex_order(tie_break(self@), tie_break(other@)),
    {
        proof {
            use_type_invariant(self);
            use_type_invariant(other);
        }
        match self.ranking_category {
            RankingCategory::Flush
            | RankingCategory::HighCard
            | RankingCategory::StraightFlush
            | RankingCategory::Straight => self.compare_high_to_low(other),
            RankingCategory::FourOfAKind => {
                assert(self.has_group(4) && other.has_group(4));
                assert(self.group_key(4) == tie_break(self@));
                assert(other.group_key(4) == tie_break(other@));
                self.compare_n_of_a_kind(other, 4)
            },
            RankingCategory::ThreeOfAKind => {
                assert(self.has_group(3) && other.has_group(3));
                assert(self.group_key(3) == tie_break(self@));
                assert(other.group_key(3) == tie_break(other@));
                self.compare_n_of_a_kind(other, 3)
            },
            RankingCategory::OnePair => {
                assert(self.has_group(2) && other.has_group(2));
                assert(self.group_key(2) == tie_break(self@));
                assert(other.group_key(2) == tie_break(other@));
                self.compare_n_of_a_kind(other, 2)
            },
            RankingCategory::FullHouse => {
                assert(self.has_group(3) && other.has_group(3));
                assert(self.has_group(2) && other.has_group(2));
                let self_three = self.find_rank_with_count(3);
                let other_three = other.find_rank_with_count(3);
                proof {
                    lemma_lex_cons(
                        self.group_value(3),
                        seq![self.group_value(2)],
                        other.group_value(3),
                        seq![other.group_value(2)],
                    );
                    lemma_lex_cons(
                        self.group_value(2),
                        Seq::empty(),
                        other.group_value(2),
                        Seq::empty(),
                    );
                    assert(tie_break(self@) =~= seq![self.group_value(3)] + seq![
                        self.group_value(2),
                    ]);
                    assert(tie_break(other@) =~= seq![other.group_value(3)] + seq![
                        other.group_value(2),
                    ]);
                    assert(seq![self.group_value(2)] =~= seq![self.group_value(2)]
                        + Seq::<int>::empty());
                    assert(seq![other.group_value(2)] =~= seq![other.group_value(2)]
                        + Seq::<int>::empty());
                }
                match order_of(self_three.value(), other_three.value()) {
                    Ordering::Equal => {
                        let self_pair = self.find_rank_with_count(2);
                        let other_pair = other.find_rank_with_count(2);
                        order_of(self_pair.value(), other_pair.value())
                    },
                    ord => ord,
                }
            },
            RankingCategory::TwoPair => {
                assert(self.has_group(2) && other.has_group(2));
                let self_pairs = self.find_all_ranks_with_count(2);
                let other_pairs = other.find_all_ranks_with_count(2);
                let self_kickers = self.kickers(self_pairs.as_slice());
                let other_kickers = other.kickers(other_pairs.as_slice());
                proof {
                    assert(not_among(values_of(self_pairs@)) =~= not_among(self.group_members(2)));
                    assert(not_among(values_of(other_pairs@)) =~= not_among(
                        other.group_members(2),
                    ));
                    let self_rest = seq![self.low_group_value(2)] + values_of(self_kickers@);
                    let other_rest = seq![other.low_group_value(2)] + values_of(other_kickers@);
                    lemma_lex_cons(
                        self.group_value(2),
                        self_rest,
                        other.group_value(2),
                        other_rest,
                    );
                    lemma_lex_cons(
                        self.low_group_value(2),
                        values_of(self_kickers@),
                        other.low_group_value(2),
                        values_of(other_kickers@),
                    );
                    assert(tie_break(self@) =~= seq![self.group_value(2)] + self_rest);
                    assert(tie_break(other@) =~= seq![other.group_value(2)] + other_rest);
                }
                let ord = order_of(self_pairs[0].value(), other_pairs[0].value());
                if !matches!(ord, Ordering::Equal) {
                    return ord;
                }
                let ord = order_of(
                    self_pairs[self_pairs.len() - 1].value(),
                    other_pairs[other_pairs.len() - 1].value(),
                );
                if !matches!(ord, Ordering::Equal) {
                    return ord;
                }
                compare_ranks(&self_kickers, &other_kickers)
            },
        }
    }

    /// Orders two hands: the stronger category wins, and within one
    /// category its tie-break decides. Suits never matter.
    pub fn cmp(&self, other: &Self) -> (order: Ordering)
        ensures
            order == lex_order(strength_of(self@), strength_of(other@)),
    {
        proof {
            use_type_invariant(self);
            use_type_invariant(other);
            lemma_lex_cons(
                category_of(self@).priority(),
                tie_break(self@),
                category_of(other@).priority(),
                tie_break(other@),
            );
        }
        match self.ranking_category.cmp(&other.ranking_category) {
            Ordering::Equal => self.compare_same_category(other),
            ord => ord,
        }
    }
}

impl PartialEqSpecImpl for Hand {
    open spec fn obeys_eq_spec() -> bool {
        true
    }

    /// Two hands are equal when nothing decides between them.
    open spec fn eq_spec(&self, other: &Self) -> bool {
        strength_of(self@) == strength_of(other@)
    }
}

impl PartialEq for Hand {
    fn eq(&self, other: &Self) -> (equal: bool) {
        proof {
            use_type_invariant(self);
            use_type_invariant(other);
            lemma_lex_equal(tie_break(self@), tie_break(other@));
            assert(strength_of(self@).drop_first() =~= tie_break(self@));
            assert(strength_of(other@).drop_first() =~= tie_break(other@));
            assert(strength_of(self@)[0] == category_of(self@).priority());
            assert(strength_of(other@)[0] == category_of(other@).priority());
        }
        self.ranking_category == other.ranking_category && matches!(
            self.compare_same_category(other),
            Ordering::Equal
        )
    }
}

impl Eq for Hand {

}

impl PartialOrdSpecImpl for Hand {
    open spec fn obeys_partial_cmp_spec() -> bool {
        true
    }

    open spec fn partial_cmp_spec(&self, other: &Self) -> Option<Ordering> {
        Some(lex_order(strength_of(self@), strength_of(other@)))
    }
}

impl PartialOrd for Hand {
    fn partial_cmp(&self, other: &Self) -> (order: Option<Ordering>) {
        Some(self.cmp(other))
    }
}

} // verus!
