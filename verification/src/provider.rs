//! The reference deck and seeded shuffles of it.

use crate::codec::{card_text, lemma_decode_inverts_encode, parse_card, DecodeFailure};
use crate::deck::{Card, Deck, Rank, Suit, DECK_SIZE};
use core::hash::Hash;
use rand::seq::SliceRandom;
use rand::SeedableRng;
use rand_chacha::ChaCha20Rng;
use rand_seeder::Seeder;
use vstd::prelude::*;

verus! {

/// The rank at place `index` of the thirteen ranks, lowest first.
pub open spec fn rank_in_order(index: int) -> Rank {
    if index < 9 {
        Rank::Numeral((index + 2) as usize)
    } else if index == 9 {
        Rank::Jack
    } else if index == 10 {
        Rank::Queen
    } else if index == 11 {
        Rank::King
    } else {
        Rank::Ace
    }
}

/// The suit at place `index` of the four suits.
pub open spec fn suit_in_order(index: int) -> Suit {
    if index == 0 {
        Suit::Clubs
    } else if index == 1 {
        Suit::Diamonds
    } else if index == 2 {
        Suit::Hearts
    } else {
        Suit::Spades
    }
}

/// The reference deck: the ranks ascending, and within each rank the four
/// suits in their fixed order.
pub open spec fn canonical_cards() -> Seq<Card> {
    Seq::new(
        DECK_SIZE as nat,
        |i: int| Card { suit: suit_in_order(i % 4), rank: rank_in_order(i / 4) },
    )
}

/// A full deck: 52 cards, each standard card exactly once.
pub open spec fn is_full_deck(deck: Seq<Card>) -> bool {
    &&& deck.len() == DECK_SIZE
    &&& deck.no_duplicates()
    &&& forall|card: Card| #[trigger] deck.contains(card) <==> card.is_standard()
}

/// The place of a rank among the thirteen ranks.
pub open spec fn rank_index(rank: Rank) -> int {
    match rank {
        Rank::Numeral(n) => n - 2,
        Rank::Jack => 9,
        Rank::Queen => 10,
        Rank::King => 11,
        Rank::Ace => 12,
    }
}

/// The place of a suit among the four suits.
pub open spec fn suit_index(suit: Suit) -> int {
    match suit {
        Suit::Clubs => 0,
        Suit::Diamonds => 1,
        Suit::Hearts => 2,
        Suit::Spades => 3,
    }
}

/// The reference deck is a full deck.
pub proof fn lemma_canonical_deck_is_full()
    ensures
        is_full_deck(canonical_cards()),
{
    let deck = canonical_cards();
    assert forall|i: int, j: int| 0 <= i < deck.len() && 0 <= j < deck.len() && i != j implies
        deck[i] != deck[j] by {
        if deck[i] == deck[j] {
            assert(rank_index(deck[i].rank) == i / 4);
            assert(rank_index(deck[j].rank) == j / 4);
            assert(suit_index(deck[i].suit) == i % 4);
            assert(suit_index(deck[j].suit) == j % 4);
        }
    }
    assert forall|card: Card| #[trigger] deck.contains(card) <==> card.is_standard() by {
        if card.is_standard() {
            let at = 4 * rank_index(card.rank) + suit_index(card.suit);
            assert(deck[at] == card);
        }
        if deck.contains(card) {
            let at = choose|at: int| 0 <= at < deck.len() && deck[at] == card;
            assert(card.rank == rank_in_order(at / 4));
        }
    }
}

/// Every card of a full deck survives being written as text and read back.
pub proof fn lemma_deck_cards_round_trip(deck: Seq<Card>, i: int)
    requires
        is_full_deck(deck),
        0 <= i < deck.len(),
    ensures
        parse_card(card_text(deck[i])) == Ok::<Card, DecodeFailure>(deck[i]),
{
    assert(deck.contains(deck[i]));
    lemma_decode_inverts_encode(deck[i]);
}

/// Every arrangement of the cards of a full deck is a full deck.
pub proof fn lemma_rearranged_deck_is_full(deck: Seq<Card>, rearranged: Seq<Card>)
    requires
        is_full_deck(deck),
        rearranged.to_multiset() == deck.to_multiset(),
    ensures
        is_full_deck(rearranged),
{
    broadcast use vstd::seq_lib::group_to_multiset_ensures;

    vstd::seq_lib::to_multiset_len(deck);
    vstd::seq_lib::to_multiset_len(rearranged);
    deck.lemma_multiset_has_no_duplicates();
    rearranged.lemma_multiset_has_no_duplicates_conv();
    assert forall|card: Card| #[trigger] rearranged.contains(card) <==> card.is_standard() by {
        assert(rearranged.contains(card) <==> rearranged.to_multiset().count(card) > 0);
        assert(deck.contains(card) <==> deck.to_multiset().count(card) > 0);
    }
}

/// The arrangement that the ChaCha20 generator seeded with `key` gives to
/// `cards` when they are shuffled with it.
pub uninterp spec fn shuffled_cards(cards: Seq<Card>, key: Seq<u8>) -> Seq<Card>;

/// Shuffles `cards` in place with a ChaCha20 generator made from `key`.
///
/// Calls `ChaCha20Rng::from_seed` of rand_chacha and `SliceRandom::shuffle`
/// of rand. Taken on trust: the shuffle only swaps elements of the slice,
/// so the cards after the call are the cards before it, and the generator's
/// stream depends on nothing but the key, so cards and key fix the outcome.
#[verifier::external_body]
fn shuffle_with_key(cards: &mut Vec<Card>, key: &[u8; 32])
    ensures
        final(cards)@ == shuffled_cards(old(cards)@, key@),
        final(cards)@.to_multiset() == old(cards)@.to_multiset(),
{
    let mut rng = ChaCha20Rng::from_seed(*key);
    cards.shuffle(&mut rng);
}

/// Hashes `seed` into a generator key.
///
/// Calls `Seeder::from` and `Seeder::make_seed` of rand_seeder. Nothing is
/// claimed of the key: it is whatever the seed's `Hash` feeds the hasher.
#[verifier::external_body]
fn seed_key<H: Hash>(seed: H) -> (key: [u8; 32]) {
    Seeder::from(seed).make_seed()
}

fn rank_at(index: usize) -> (rank: Rank)
    requires
        index < 13,
    ensures
        rank == rank_in_order(index as int),
{
    if index < 9 {
        Rank::Numeral(index + 2)
    } else if index == 9 {
        Rank::Jack
    } else if index == 10 {
        Rank::Queen
    } else if index == 11 {
        Rank::King
    } else {
        Rank::Ace
    }
}

/// Builds the reference deck.
pub fn canonical_deck() -> (deck: Deck)
    ensures
        deck@ == canonical_cards(),
        is_full_deck(deck@),
{
    let mut deck: Vec<Card> = Vec::new();
    let mut r: usize = 0;
    while r < 13
        invariant
            r <= 13,
            deck@.len() == 4 * r,
            forall|i: int| 0 <= i < deck@.len() ==> deck@[i] == canonical_cards()[i],
        decreases 13 - r,
    {
        let rank = rank_at(r);
        deck.push(Card { suit: Suit::Clubs, rank });
        deck.push(Card { suit: Suit::Diamonds, rank });
        deck.push(Card { suit: Suit::Hearts, rank });
        deck.push(Card { suit: Suit::Spades, rank });
        r += 1;
    }
    proof {
        assert(deck@ =~= canonical_cards());
        lemma_canonical_deck_is_full();
    }
    deck
}

/// Hands out shuffled decks.
pub struct DeckProvider {
    sorted_deck: Deck,
}

impl View for DeckProvider {
    type V = Seq<Card>;

    /// The deck that every shuffle starts from.
    closed spec fn view(&self) -> Seq<Card> {
        self.sorted_deck@
    }
}

impl Default for DeckProvider {
    fn default() -> (provider: Self)
        ensures
            provider@ == canonical_cards(),
    {
        Self { sorted_deck: canonical_deck() }
    }
}

impl DeckProvider {
    #[verifier::type_invariant]
    spec fn holds_reference_deck(self) -> bool {
        self.sorted_deck@ == canonical_cards()
    }

    /// Returns the deck shuffled by the generator that `key` seeds. The
    /// same key gives the same deck; the provider's own deck is untouched.
    pub fn get_with_key(&self, key: &[u8; 32]) -> (deck: Deck)
        ensures
            deck@ == shuffled_cards(canonical_cards(), key@),
            deck@.to_multiset() == canonical_cards().to_multiset(),
            is_full_deck(deck@),
    {
        proof {
            use_type_invariant(self);
        }
        let mut deck_copy: Vec<Card> = Vec::new();
        let mut i: usize = 0;
        while i < self.sorted_deck.len()
            invariant
                i <= self.sorted_deck@.len(),
                deck_copy@ == self.sorted_deck@.take(i as int),
            decreases self.sorted_deck@.len() - i,
        {
            deck_copy.push(self.sorted_deck[i]);
            assert(self.sorted_deck@.take(i + 1) =~= self.sorted_deck@.take(i as int).push(
                self.sorted_deck@[i as int],
            ));
            i += 1;
        }
        assert(deck_copy@ =~= canonical_cards());
        shuffle_with_key(&mut deck_copy, key);
        proof {
            lemma_canonical_deck_is_full();
            lemma_rearranged_deck_is_full(canonical_cards(), deck_copy@);
        }
        deck_copy
    }

    /// Returns the deck in the order that `seed` determines: a full deck,
    /// whatever the seed.
    pub fn get_with_seed<H: Hash>(&self, seed: H) -> (deck: Deck)
        ensures
            deck@.to_multiset() == canonical_cards().to_multiset(),
            is_full_deck(deck@),
            exists|key: Seq<u8>| deck@ == shuffled_cards(canonical_cards(), key),
    {
        let key = seed_key(seed);
        self.get_with_key(&key)
    }
}

} // verus!
