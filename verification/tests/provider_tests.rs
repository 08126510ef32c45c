use std::collections::HashSet;

use pokerhaand::provider::canonical_deck;
use pokerhaand::{Card, DeckProvider, Rank, Suit, DECK_SIZE};

#[test]
fn test_deck_provider_generates_valid_decks() {
    let deck_provider = DeckProvider::default();
    let deck = deck_provider.get_with_seed(0);

    assert_eq!(deck.len(), DECK_SIZE);
    assert_eq!(
        deck.iter()
            .filter(|card| matches!(
                card,
                Card {
                    rank: Rank::Numeral(10),
                    ..
                }
            ))
            .count(),
        4
    );
}

#[test]
fn test_deck_has_no_duplicates() {
    let deck_provider = DeckProvider::default();
    let deck = deck_provider.get_with_seed("any seed");

    let unique: HashSet<_> = deck.iter().collect();

    assert_eq!(
        unique.len(),
        DECK_SIZE,
        "Kortstokken inneholder duplikater!"
    );
}

#[test]
fn test_deck_provider_randomizations_are_stable() {
    let deck_provider = DeckProvider::default();
    let deck = deck_provider.get_with_seed(1339);

    assert_eq!(
        deck[0],
        Card {
            rank: Rank::Jack,
            suit: Suit::Spades
        }
    );
}

#[test]
fn canonical_deck_has_ranks_ascending_and_suits_in_order() {
    let deck = canonical_deck();
    assert_eq!(deck.len(), 52);
    let card = |rank, suit| Card { rank, suit };
    assert_eq!(deck[0], card(Rank::Numeral(2), Suit::Clubs));
    assert_eq!(deck[1], card(Rank::Numeral(2), Suit::Diamonds));
    assert_eq!(deck[2], card(Rank::Numeral(2), Suit::Hearts));
    assert_eq!(deck[3], card(Rank::Numeral(2), Suit::Spades));
    assert_eq!(deck[4], card(Rank::Numeral(3), Suit::Clubs));
    assert_eq!(deck[35], card(Rank::Numeral(10), Suit::Spades));
    assert_eq!(deck[36], card(Rank::Jack, Suit::Clubs));
    assert_eq!(deck[40], card(Rank::Queen, Suit::Clubs));
    assert_eq!(deck[44], card(Rank::King, Suit::Clubs));
    assert_eq!(deck[48], card(Rank::Ace, Suit::Clubs));
    assert_eq!(deck[51], card(Rank::Ace, Suit::Spades));
    let unique: HashSet<_> = deck.iter().collect();
    assert_eq!(unique.len(), 52);
}

#[test]
fn same_seed_gives_the_same_deck() {
    let provider = DeckProvider::default();
    assert_eq!(provider.get_with_seed(7u64), provider.get_with_seed(7u64));
    assert_eq!(
        provider.get_with_seed("stripy zebra"),
        provider.get_with_seed("stripy zebra")
    );
    let other = DeckProvider::default();
    assert_eq!(provider.get_with_seed(1339), other.get_with_seed(1339));
}

#[test]
fn every_seed_gives_a_full_deck() {
    let provider = DeckProvider::default();
    let reference: HashSet<Card> = canonical_deck().into_iter().collect();
    for seed in 0..40u32 {
        let deck = provider.get_with_seed(seed);
        assert_eq!(deck.len(), 52);
        let cards: HashSet<Card> = deck.into_iter().collect();
        assert_eq!(cards, reference);
    }
}

#[test]
fn shuffling_rearranges_the_deck() {
    let provider = DeckProvider::default();
    assert_ne!(provider.get_with_seed(1339), canonical_deck());
    assert_ne!(provider.get_with_seed(1), provider.get_with_seed(2));
}

#[test]
fn same_key_gives_the_same_deck() {
    let provider = DeckProvider::default();
    let key = [7u8; 32];
    let deck = provider.get_with_key(&key);
    assert_eq!(deck, provider.get_with_key(&key));
    assert_ne!(deck, canonical_deck());
    assert_ne!(deck, provider.get_with_key(&[8u8; 32]));
    let cards: HashSet<Card> = deck.into_iter().collect();
    assert_eq!(cards.len(), 52);
}

#[test]
fn shuffling_leaves_the_reference_deck_alone() {
    let provider = DeckProvider::default();
    let first = provider.get_with_seed("a");
    let _ = provider.get_with_seed("b");
    assert_eq!(first, provider.get_with_seed("a"));
}
