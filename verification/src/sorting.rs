//! Ordering five cards by rank.
//!
//! Cards are ordered by rank value, lowest first; cards of equal rank keep
//! the order in which they were given.

use crate::deck::Card;
use vstd::prelude::*;

verus! {

/// The rank values of `cards`, position by position.
pub open spec fn rank_values(cards: Seq<Card>) -> Seq<int> {
    Seq::new(cards.len(), |i: int| cards[i].rank.value() as int)
}

/// No value is followed by a smaller one.
pub open spec fn ascending(values: Seq<int>) -> bool {
    forall|i: int, j: int| 0 <= i <= j < values.len() ==> values[i] <= values[j]
}

/// `sorted` with `card` placed behind every card that does not outrank it.
pub open spec fn insert_by_rank(sorted: Seq<Card>, card: Card) -> Seq<Card>
    decreases sorted.len(),
{
    if sorted.len() == 0 || sorted.last().rank.value() <= card.rank.value() {
        sorted.push(card)
    } else {
        insert_by_rank(sorted.drop_last(), card).push(sorted.last())
    }
}

/// `cards` in ascending order of rank value; cards of equal rank stay in
/// the order in which they were given.
pub open spec fn sort_by_rank(cards: Seq<Card>) -> Seq<Card>
    decreases cards.len(),
{
    if cards.len() == 0 {
        cards
    } else {
        insert_by_rank(sort_by_rank(cards.drop_last()), cards.last())
    }
}

/// Inserting into an ascending sequence keeps it ascending and adds exactly
/// the inserted card.
pub proof fn lemma_insert_by_rank(sorted: Seq<Card>, card: Card)
    requires
        ascending(rank_values(sorted)),
    ensures
        insert_by_rank(sorted, card).len() == sorted.len() + 1,
        ascending(rank_values(insert_by_rank(sorted, card))),
        insert_by_rank(sorted, card).to_multiset() == sorted.to_multiset().insert(card),
    decreases sorted.len(),
{
    broadcast use vstd::seq_lib::group_to_multiset_ensures;

    let out = insert_by_rank(sorted, card);
    if sorted.len() == 0 || sorted.last().rank.value() <= card.rank.value() {
        assert forall|i: int, j: int| 0 <= i <= j < out.len() implies rank_values(out)[i]
            <= rank_values(out)[j] by {
            if j < sorted.len() {
                assert(rank_values(sorted)[i] <= rank_values(sorted)[j]);
            } else if i < sorted.len() {
                assert(rank_values(sorted)[i] <= rank_values(sorted)[sorted.len() - 1]);
            }
        }
    } else {
        let front = sorted.drop_last();
        assert forall|i: int, j: int| 0 <= i <= j < front.len() implies rank_values(front)[i]
            <= rank_values(front)[j] by {
            assert(rank_values(sorted)[i] <= rank_values(sorted)[j]);
        }
        lemma_insert_by_rank(front, card);
        let inner = insert_by_rank(front, card);
        assert(inner.to_multiset().contains(card));
        assert forall|i: int| 0 <= i < inner.len() implies inner[i].rank.value()
            <= sorted.last().rank.value() by {
            assert(inner.to_multiset().contains(inner[i]));
            if inner[i] != card {
                assert(front.to_multiset().contains(inner[i]));
                let k = choose|k: int| 0 <= k < front.len() && front[k] == inner[i];
                assert(rank_values(sorted)[k] <= rank_values(sorted)[sorted.len() - 1]);
            }
        }
        assert forall|i: int, j: int| 0 <= i <= j < out.len() implies rank_values(out)[i]
            <= rank_values(out)[j] by {
            if j < inner.len() {
                assert(rank_values(inner)[i] <= rank_values(inner)[j]);
            }
        }
        assert(sorted =~= front.push(sorted.last()));
        assert(out.to_multiset() =~= sorted.to_multiset().insert(card));
    }
}

/// Sorting yields an ascending arrangement of exactly the given cards.
pub proof fn lemma_sort_by_rank(cards: Seq<Card>)
    ensures
        sort_by_rank(cards).len() == cards.len(),
        ascending(rank_values(sort_by_rank(cards))),
        sort_by_rank(cards).to_multiset() == cards.to_multiset(),
    decreases cards.len(),
{
    broadcast use vstd::seq_lib::group_to_multiset_ensures;

    if cards.len() > 0 {
        lemma_sort_by_rank(cards.drop_last());
        lemma_insert_by_rank(sort_by_rank(cards.drop_last()), cards.last());
        assert(cards =~= cards.drop_last().push(cards.last()));
    }
}

/// A card that every card from `pos` on outranks, and that none before `pos`
/// does, is inserted at `pos`.
pub proof fn lemma_insert_position(sorted: Seq<Card>, card: Card, pos: int)
    requires
        0 <= pos <= sorted.len(),
        forall|k: int| pos <= k < sorted.len() ==> sorted[k].rank.value() > card.rank.value(),
        pos > 0 ==> sorted[pos - 1].rank.value() <= card.rank.value(),
    ensures
        insert_by_rank(sorted, card) == sorted.insert(pos, card),
    decreases sorted.len(),
{
    if pos == sorted.len() {
        assert(sorted.insert(pos, card) =~= sorted.push(card));
    } else {
        let front = sorted.drop_last();
        lemma_insert_position(front, card, pos);
        assert(sorted.insert(pos, card) =~= front.insert(pos, card).push(sorted.last()));
    }
}

/// Sorts five cards by rank value, lowest first, keeping cards of equal
/// rank in the order given.
pub fn sort_cards(cards: &[Card; 5]) -> (sorted: [Card; 5])
    ensures
        sorted@ == sort_by_rank(cards@),
{
    let mut out: Vec<Card> = Vec::new();
    let mut i: usize = 0;
    while i < 5
        invariant
            i <= 5,
            out@.len() == i,
            out@ == sort_by_rank(cards@.take(i as int)),
        decreases 5 - i,
    {
        let card = cards[i];
        let mut pos: usize = out.len();
        while pos > 0 && out[pos - 1].rank.value() > card.rank.value()
            invariant
                pos <= out@.len(),
                forall|k: int| pos <= k < out@.len() ==> out@[k].rank.value() > card.rank.value(),
            decreases pos,
        {
            pos -= 1;
        }
        proof {
            lemma_insert_position(out@, card, pos as int);
            assert(cards@.take(i + 1).drop_last() =~= cards@.take(i as int));
        }
        out.insert(pos, card);
        i += 1;
    }
    assert(cards@.take(5) =~= cards@);
    [out[0], out[1], out[2], out[3], out[4]]
}

/// The same cards hold the same rank values, whatever order they are in.
pub proof fn lemma_same_cards_same_values(a: Seq<Card>, b: Seq<Card>)
    requires
        a.to_multiset() == b.to_multiset(),
    ensures
        rank_values(a).to_multiset() == rank_values(b).to_multiset(),
    decreases a.len(),
{
    broadcast use vstd::seq_lib::group_to_multiset_ensures;

    assert(a.len() == b.len()) by {
        vstd::seq_lib::to_multiset_len(a);
        vstd::seq_lib::to_multiset_len(b);
    }
    if a.len() == 0 {
        assert(rank_values(a) =~= rank_values(b));
    } else {
        let card = a.last();
        assert(a.contains(card));
        assert(b.to_multiset().count(card) > 0);
        assert(b.contains(card));
        let at = choose|at: int| 0 <= at < b.len() && b[at] == card;
        let a_rest = a.drop_last();
        let b_rest = b.remove(at);
        assert(a_rest =~= a.remove(a.len() - 1));
        assert(a_rest.to_multiset() == b_rest.to_multiset());
        lemma_same_cards_same_values(a_rest, b_rest);
        let value = card.rank.value() as int;
        assert(rank_values(a) =~= rank_values(a_rest).push(value));
        assert(rank_values(b) =~= rank_values(b_rest).insert(at, value));
    }
}

/// Sorting any two arrangements of the same cards yields the same sequence
/// of rank values.
pub proof fn lemma_sorted_values_unique(a: Seq<Card>, b: Seq<Card>)
    requires
        a.to_multiset() == b.to_multiset(),
    ensures
        rank_values(sort_by_rank(a)) == rank_values(sort_by_rank(b)),
{
    let at_most = |x: int, y: int| x <= y;
    lemma_sort_by_rank(a);
    lemma_sort_by_rank(b);
    lemma_same_cards_same_values(sort_by_rank(a), sort_by_rank(b));
    assert(vstd::relations::total_ordering(at_most));
    vstd::seq_lib::lemma_sorted_unique(
        rank_values(sort_by_rank(a)),
        rank_values(sort_by_rank(b)),
        at_most,
    );
}

} // verus!
