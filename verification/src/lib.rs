//! A French-suited card deck, five-card poker hand ranking, and the
//! request-level rules of a small poker service built on them.

pub mod api;
pub mod codec;
pub mod deck;
pub mod hand;
pub mod options;
pub mod order;
pub mod provider;
pub mod ranking;
pub mod sorting;
pub mod text;

pub use api::{
    ApiError, CompareHandsRequest, CompareHandsResponse, HandDto, HistoryItem, HistoryResponse,
    ListHandsResponse, Pagination,
};
pub use codec::{CardDecodeError, DecodeFailure};
pub use deck::{Card, Deck, Rank, Suit, DECK_SIZE};
pub use hand::Hand;
pub use options::Config;
pub use provider::DeckProvider;
pub use ranking::RankingCategory;
