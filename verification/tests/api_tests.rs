use pokerhaand::api::{
    compare_hands, history, list_hands, rank_winners, HISTORY_PAGE_SIZE, LIST_HANDS_LIMIT,
    LIST_HANDS_PAGE_SIZE,
};
use pokerhaand::options::{default_address, default_database_url};
use pokerhaand::provider::canonical_deck;
use pokerhaand::{
    ApiError, Card, CompareHandsRequest, DeckProvider, HandDto, HistoryItem, Pagination,
    RankingCategory,
};
use uuid::Uuid;

fn cards(texts: [&str; 5]) -> [Card; 5] {
    texts.map(|text| Card::decode(text).unwrap())
}

fn entry(id: &str, texts: [&str; 5]) -> HandDto {
    HandDto {
        external_id: id.to_string(),
        hand: cards(texts),
    }
}

fn ids(winners: &[HandDto]) -> Vec<&str> {
    winners.iter().map(|w| w.external_id.as_str()).collect()
}

fn visits(count: usize) -> Vec<HistoryItem> {
    (0..count)
        .map(|i| HistoryItem {
            deck: 7,
            offset: i as i64,
            time: 1000 - i as u64,
        })
        .collect()
}

#[test]
fn test_list_hands_returns_five_cards_and_next_offset() {
    let deck_id = Uuid::parse_str("3b783e86-9390-495a-8cd0-e5a9a93032c0").unwrap();
    let deck = DeckProvider::default().get_with_seed(*deck_id.as_bytes());
    let page = list_hands(&deck, &Pagination { offset: 0 }).unwrap();

    assert_eq!(page.hand.cards().len(), 5);
    assert_eq!(page.hand.ranking_category(), RankingCategory::StraightFlush);
    assert_eq!(page.next_offset, Some(5));
}

#[test]
fn test_list_hands_invalid_offset_returns_error() {
    let deck = DeckProvider::default().get_with_seed(Uuid::from_u128(99));
    let error = list_hands(&deck, &Pagination { offset: 1000 }).err().unwrap();

    assert_eq!(error.status_code(), 422);
    match error {
        ApiError::UserInput { description } => {
            assert!(description.contains("Invalid offset"));
            assert_eq!(
                description,
                "Invalid offset. Expected a number between 0 and 47, got 1000"
            );
        }
        other => panic!("unexpected error {:?}", other),
    }
}

#[test]
fn test_fetch_all_hands_pagination() {
    let deck = DeckProvider::default().get_with_seed(Uuid::from_u128(12345));
    let mut offset = 0usize;
    let mut all_cards = Vec::new();

    loop {
        let page = list_hands(&deck, &Pagination { offset }).unwrap();
        all_cards.extend(page.hand.cards().iter().copied());

        if let Some(next_offset) = page.next_offset {
            offset = next_offset;
        } else {
            break;
        }
    }

    assert_eq!(all_cards.len(), 50);
}

#[test]
fn test_compare_hands_single_winner() {
    let request = CompareHandsRequest {
        hands: vec![
            entry("a", ["ah", "kh", "qh", "jh", "th"]),
            entry("b", ["2k", "3k", "4k", "5k", "6k"]),
        ],
    };

    let response = compare_hands(&request);

    assert_eq!(ids(&response.winners), vec!["a"]);
    assert_eq!(response.winners[0].hand, cards(["ah", "kh", "qh", "jh", "th"]));
}

#[test]
fn test_compare_hands_tie_between_two_winners() {
    let request = CompareHandsRequest {
        hands: vec![
            entry("a", ["ah", "kh", "qh", "jh", "th"]),
            entry("b", ["as", "ks", "qs", "js", "ts"]),
            entry("c", ["2k", "3k", "4k", "5k", "6k"]),
        ],
    };

    let response = compare_hands(&request);

    let winners = &response.winners;
    assert_eq!(winners.len(), 2);

    let external_ids = ids(winners);
    assert!(external_ids.contains(&"a"));
    assert!(external_ids.contains(&"b"));
    assert_eq!(external_ids, vec!["a", "b"]);
}

#[test]
fn test_compare_hands_empty_hands_list_returns_empty_winners() {
    let request = CompareHandsRequest { hands: vec![] };

    let response = compare_hands(&request);

    assert!(response.winners.is_empty());
}

#[test]
fn rank_winners_of_nothing_is_nothing() {
    assert!(rank_winners(&Vec::new()).is_empty());
}

#[test]
fn rank_winners_of_one_is_that_one() {
    let winners = rank_winners(&vec![entry("only", ["2k", "4r", "7h", "js", "kk"])]);
    assert_eq!(ids(&winners), vec!["only"]);
}

#[test]
fn rank_winners_keeps_the_order_of_the_entries() {
    let entries = vec![
        entry("low", ["2k", "4r", "7h", "js", "kk"]),
        entry("pair-1", ["9h", "9r", "3s", "jk", "qs"]),
        entry("worse-pair", ["9k", "9s", "3r", "th", "qr"]),
        entry("pair-2", ["qh", "3k", "jr", "9s", "9k"]),
        entry("lower", ["2s", "3r", "7k", "jr", "kh"]),
        entry("pair-3", ["9r", "9h", "jh", "qk", "3h"]),
    ];
    let winners = rank_winners(&entries);
    assert_eq!(ids(&winners), vec!["pair-1", "pair-2", "pair-3"]);
    assert_eq!(winners[1].hand, entries[3].hand);
}

#[test]
fn rank_winners_finds_a_winner_that_comes_last() {
    let entries = vec![
        entry("a", ["2k", "4r", "7h", "js", "kk"]),
        entry("b", ["9h", "9r", "3s", "jk", "qs"]),
        entry("c", ["3k", "3s", "3h", "jk", "jr"]),
    ];
    assert_eq!(ids(&rank_winners(&entries)), vec!["c"]);
}

#[test]
fn list_hands_shows_the_cards_at_the_offset() {
    let deck = canonical_deck();
    let page = list_hands(&deck, &Pagination { offset: 4 }).unwrap();
    assert_eq!(*page.hand.cards(), cards(["3k", "3r", "3h", "3s", "4k"]));
    assert_eq!(page.hand.ranking_category(), RankingCategory::FourOfAKind);
    assert_eq!(page.next_offset, Some(9));
}

#[test]
fn list_hands_stops_offering_pages_near_the_end() {
    let deck = canonical_deck();
    let next = |offset| list_hands(&deck, &Pagination { offset }).unwrap().next_offset;
    assert_eq!(next(0), Some(5));
    assert_eq!(next(40), Some(45));
    assert_eq!(next(41), Some(46));
    assert_eq!(next(42), None);
    assert_eq!(next(45), None);
    assert_eq!(next(47), None);
    let last = list_hands(&deck, &Pagination { offset: 47 }).unwrap();
    assert_eq!(*last.hand.cards(), cards(["ks", "ak", "ar", "ah", "as"]));
}

#[test]
fn list_hands_refuses_offsets_behind_the_last_page() {
    let deck = canonical_deck();
    for offset in [48, 52, usize::MAX] {
        match list_hands(&deck, &Pagination { offset }) {
            Err(ApiError::UserInput { description }) => assert_eq!(
                description,
                format!("Invalid offset. Expected a number between 0 and 47, got {}", offset)
            ),
            _ => panic!("offset {} was not refused", offset),
        }
    }
}

#[test]
fn list_hands_reports_a_deck_that_is_too_short() {
    let mut deck = canonical_deck();
    deck.truncate(12);
    assert!(list_hands(&deck, &Pagination { offset: 7 }).is_ok());
    let error = list_hands(&deck, &Pagination { offset: 8 }).err().unwrap();
    assert!(matches!(error, ApiError::InternalServer));
    assert_eq!(error.status_code(), 500);
}

#[test]
fn page_sizes_are_five_and_ten() {
    assert_eq!(LIST_HANDS_PAGE_SIZE, 5);
    assert_eq!(LIST_HANDS_LIMIT, 47);
    assert_eq!(HISTORY_PAGE_SIZE, 10);
}

#[test]
fn history_of_nothing_is_an_empty_page() {
    let page = history(Vec::new(), &Pagination { offset: 0 });
    assert!(page.items.is_empty());
    assert_eq!(page.next_offset, None);
}

#[test]
fn history_shows_a_short_page_whole() {
    let page = history(visits(10), &Pagination { offset: 30 });
    assert_eq!(page.items, visits(10));
    assert_eq!(page.next_offset, None);
}

#[test]
fn history_cuts_a_long_page_and_names_the_next() {
    let page = history(visits(11), &Pagination { offset: 0 });
    assert_eq!(page.items, visits(10));
    assert_eq!(page.next_offset, Some(10));
    let later = history(visits(11), &Pagination { offset: 20 });
    assert_eq!(later.items.len(), 10);
    assert_eq!(later.next_offset, Some(30));
}

#[test]
fn errors_map_to_their_status() {
    let input = ApiError::UserInput {
        description: "x".to_string(),
    };
    let parsing = ApiError::JsonParsing {
        description: "y".to_string(),
    };
    assert_eq!(input.status_code(), 422);
    assert_eq!(ApiError::InternalServer.status_code(), 500);
    assert_eq!(parsing.status_code(), 400);
}

#[test]
fn defaults_are_all_interfaces_and_memory() {
    assert_eq!(default_address(), "0.0.0.0:3000");
    assert_eq!(default_database_url(), "sqlite::memory:");
}
