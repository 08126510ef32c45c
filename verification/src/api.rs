//! The rules behind the service's requests: which five cards a page of a
//! deck shows, which of several hands win, and how a history is paged.

use crate::deck::{Card, Deck, DECK_SIZE};
use crate::hand::Hand;
use crate::order::{lemma_lex_swap, lemma_lex_tie, lemma_lex_transitive};
use crate::ranking::{classify, outranks, strength};
use crate::sorting::sort_by_rank;
use crate::text::{decimal_string, decimal_text};
use vstd::prelude::*;
use vstd::string::StringExecFns;

verus! {

/// Number of cards on one page of a deck.
pub const LIST_HANDS_PAGE_SIZE: usize = 5;

/// The highest offset at which a page of a deck starts.
pub const LIST_HANDS_LIMIT: usize = DECK_SIZE - LIST_HANDS_PAGE_SIZE;

/// Number of entries on one page of the history.
pub const HISTORY_PAGE_SIZE: usize = 10;

/// Where a page starts.
pub struct Pagination {
    pub offset: usize,
}

/// One page of a deck: the hand at the offset, and where the next page
/// starts if there is one.
pub struct ListHandsResponse {
    pub hand: Hand,
    pub next_offset: Option<usize>,
}

/// A hand with the name its sender gave it.
#[derive(Debug)]
pub struct HandDto {
    pub external_id: String,
    pub hand: [Card; 5],
}

impl Clone for HandDto {
    fn clone(&self) -> (copy: Self)
        ensures
            copy == *self,
    {
        HandDto { external_id: self.external_id.clone(), hand: self.hand }
    }
}

/// The hands to be compared.
pub struct CompareHandsRequest {
    pub hands: Vec<HandDto>,
}

/// The hands that won.
pub struct CompareHandsResponse {
    pub winners: Vec<HandDto>,
}

/// One visit of a page of a deck.
#[derive(Clone, Copy, Debug, PartialEq, Eq, Structural)]
pub struct HistoryItem {
    pub deck: u128,
    pub offset: i64,
    pub time: u64,
}

/// One page of the history, and where the next page starts if there is one.
pub struct HistoryResponse {
    pub items: Vec<HistoryItem>,
    pub next_offset: Option<usize>,
}

/// What can go wrong with a request.
#[derive(Debug)]
pub enum ApiError {
    /// The request asks for something that does not exist.
    UserInput { description: String },
    /// The service failed.
    InternalServer,
    /// The request's body could not be read.
    JsonParsing { description: String },
}

impl ApiError {
    /// The HTTP status that reports the error.
    pub fn status_code(&self) -> (status: u16)
        ensures
            status == match self {
                ApiError::UserInput { .. } => 422u16,
                ApiError::InternalServer => 500u16,
                ApiError::JsonParsing { .. } => 400u16,
            },
    {
        match self {
            ApiError::UserInput { .. } => 422,
            ApiError::InternalServer => 500,
            ApiError::JsonParsing { .. } => 400,
        }
    }
}

/// What is said of an offset beyond the last page.
pub open spec fn invalid_offset_text(offset: nat) -> Seq<char> {
    "Invalid offset. Expected a number between 0 and "@ + decimal_text(LIST_HANDS_LIMIT as nat)
        + ", got "@ + decimal_text(offset)
}

/// The five cards of `deck` from `offset` on.
pub open spec fn page_cards(deck: Seq<Card>, offset: int) -> Seq<Card> {
    deck.subrange(offset, offset + LIST_HANDS_PAGE_SIZE)
}

/// Where the page behind the one at `offset` starts, if it is shown.
pub open spec fn next_page(offset: int) -> Option<usize> {
    if offset + LIST_HANDS_PAGE_SIZE < DECK_SIZE - LIST_HANDS_PAGE_SIZE {
        Some((offset + LIST_HANDS_PAGE_SIZE) as usize)
    } else {
        None
    }
}

/// Shows the hand that `deck` holds at the page's offset.
///
/// An offset behind the last page is the sender's mistake; a deck too short
/// to hold the page is the service's.
pub fn list_hands(deck: &Deck, pagination: &Pagination) -> (page: Result<
    ListHandsResponse,
    ApiError,
>)
    ensures
        pagination.offset > LIST_HANDS_LIMIT ==> (page matches Err(
            ApiError::UserInput { description },
        ) && description@ == invalid_offset_text(pagination.offset as nat)),
        pagination.offset <= LIST_HANDS_LIMIT && deck@.len() < pagination.offset
            + LIST_HANDS_PAGE_SIZE ==> page == Err::<ListHandsResponse, ApiError>(
            ApiError::InternalServer,
        ),
        pagination.offset <= LIST_HANDS_LIMIT && deck@.len() >= pagination.offset
            + LIST_HANDS_PAGE_SIZE ==> (page matches Ok(shown) && shown.hand@ == sort_by_rank(
            page_cards(deck@, pagination.offset as int),
        ) && shown.hand.category() == classify(page_cards(deck@, pagination.offset as int))
            && shown.next_offset == next_page(pagination.offset as int)),
{
    let offset: usize = pagination.offset;
    if offset > LIST_HANDS_LIMIT {
        let mut description = String::from_str("Invalid offset. Expected a number between 0 and ");
        description.append(decimal_string(LIST_HANDS_LIMIT).as_str());
        description.append(", got ");
        description.append(decimal_string(offset).as_str());
        return Err(ApiError::UserInput { description });
    }
    let next_offset: usize = offset + LIST_HANDS_PAGE_SIZE;
    if deck.len() < next_offset {
        return Err(ApiError::InternalServer);
    }
    let cards: [Card; 5] = [
        deck[offset],
        deck[offset + 1],
        deck[offset + 2],
        deck[offset + 3],
        deck[offset + 4],
    ];
    assert(cards@ =~= page_cards(deck@, offset as int));
    Ok(
        ListHandsResponse {
            hand: Hand::from(cards),
            next_offset: if next_offset < DECK_SIZE - LIST_HANDS_PAGE_SIZE {
                Some(next_offset)
            } else {
                None
            },
        },
    )
}

/// No hand among `entries` is stronger than that of `entry`.
pub open spec fn is_winner(entries: Seq<HandDto>, entry: HandDto) -> bool {
    forall|j: int| 0 <= j < entries.len() ==> !outranks((#[trigger] entries[j]).hand@, entry.hand@)
}

/// The test "wins among `entries`".
pub open spec fn winner_among(entries: Seq<HandDto>) -> spec_fn(HandDto) -> bool {
    |entry: HandDto| is_winner(entries, entry)
}

/// The entries with the strongest hand, in the order they came in.
pub open spec fn winners_of(entries: Seq<HandDto>) -> Seq<HandDto> {
    entries.filter(winner_among(entries))
}

/// Finds the entries whose hand no other entry's hand beats. Hands of equal
/// strength win together; the winners keep the order they came in.
pub fn rank_winners(hands: &Vec<HandDto>) -> (winners: Vec<HandDto>)
    ensures
        winners@ == winners_of(hands@),
        winners@.len() == 0 <==> hands@.len() == 0,
{
    let mut winners: Vec<HandDto> = Vec::new();
    if hands.len() == 0 {
        assert(hands@.filter(winner_among(hands@)).len() == 0) by {
            hands@.lemma_filter_len(winner_among(hands@));
        }
        assert(winners@ =~= winners_of(hands@));
        return winners;
    }
    let mut best: usize = 0;
    let mut i: usize = 1;
    proof {
        lemma_lex_tie(strength(hands@[0].hand@), strength(hands@[0].hand@));
    }
    while i < hands.len()
        invariant
            1 <= i <= hands@.len(),
            best < i,
            forall|j: int|
                0 <= j < i ==> !outranks((#[trigger] hands@[j]).hand@, hands@[best as int].hand@),
        decreases hands@.len() - i,
    {
        let challenger = Hand::from(hands[i].hand);
        let holder = Hand::from(hands[best].hand);
        let ghost old_best = best;
        proof {
            lemma_lex_swap(strength(hands@[i as int].hand@), strength(hands@[best as int].hand@));
            lemma_lex_tie(strength(hands@[i as int].hand@), strength(hands@[i as int].hand@));
        }
        if !(holder > challenger) {
            best = i;
            proof {
                assert forall|j: int| 0 <= j < i + 1 implies !outranks(
                    (#[trigger] hands@[j]).hand@,
                    hands@[best as int].hand@,
                ) by {
                    if j < i {
                        lemma_lex_transitive(
                            strength(hands@[j].hand@),
                            strength(hands@[old_best as int].hand@),
                            strength(hands@[i as int].hand@),
                        );
                    }
                }
            }
        }
        i += 1;
    }
    let top = Hand::from(hands[best].hand);
    let ghost wins = winner_among(hands@);
    let mut k: usize = 0;
    while k < hands.len()
        invariant
            k <= hands@.len(),
            best < hands@.len(),
            wins == winner_among(hands@),
            top@ == sort_by_rank(hands@[best as int].hand@),
            is_winner(hands@, hands@[best as int]),
            winners@ == hands@.take(k as int).filter(wins),
            k > best ==> winners@.len() > 0,
        decreases hands@.len() - k,
    {
        let hand = Hand::from(hands[k].hand);
        proof {
            let mine = strength(hands@[k as int].hand@);
            let tops = strength(hands@[best as int].hand@);
            lemma_lex_tie(mine, tops);
            lemma_lex_swap(mine, tops);
            if mine == tops {
                assert(is_winner(hands@, hands@[k as int]));
            }
            if is_winner(hands@, hands@[k as int]) {
                assert(!outranks(hands@[best as int].hand@, hands@[k as int].hand@));
            }
            assert(hands@.take(k + 1) =~= hands@.take(k as int).push(hands@[k as int]));
            hands@.take(k as int).lemma_filter_push(hands@[k as int], wins);
        }
        if hand == top {
            winners.push(hands[k].clone());
        }
        k += 1;
    }
    assert(hands@.take(hands@.len() as int) =~= hands@);
    winners
}

/// Answers which of the request's hands win.
pub fn compare_hands(request: &CompareHandsRequest) -> (response: CompareHandsResponse)
    ensures
        response.winners@ == winners_of(request.hands@),
        response.winners@.len() == 0 <==> request.hands@.len() == 0,
{
    CompareHandsResponse { winners: rank_winners(&request.hands) }
}

/// Cuts what was fetched for a history page down to the page: at most
/// `HISTORY_PAGE_SIZE` entries, and the offset of the next page where more
/// were fetched.
pub fn history(items: Vec<HistoryItem>, pagination: &Pagination) -> (page: HistoryResponse)
    requires
        items@.len() > HISTORY_PAGE_SIZE ==> pagination.offset + HISTORY_PAGE_SIZE <= usize::MAX,
    ensures
        items@.len() <= HISTORY_PAGE_SIZE ==> page.items@ == items@ && page.next_offset
            == None::<usize>,
        items@.len() > HISTORY_PAGE_SIZE ==> page.items@ == items@.take(HISTORY_PAGE_SIZE as int)
            && page.next_offset == Some((pagination.offset + HISTORY_PAGE_SIZE) as usize),
{
    let mut items = items;
    let next_offset = if items.len() > HISTORY_PAGE_SIZE {
        Some(pagination.offset + HISTORY_PAGE_SIZE)
    } else {
        None
    };
    items.truncate(HISTORY_PAGE_SIZE);
    HistoryResponse { items, next_offset }
}

} // verus!
