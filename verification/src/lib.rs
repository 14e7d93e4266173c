//! A continuous double-auction order book: resting bids and asks kept in
//! price-time priority, a crossing engine that turns them into trades, and
//! the service that owns one book and offers both to its callers.
//!
//! Beside the book stand the helpers of its ledger settlement and of the
//! contract build.

pub mod order;
pub mod priority;
pub mod matching;
pub mod book;
pub mod service;
pub mod settlement;
pub mod deploy;

pub use book::{BookSnapshot, InvalidOrder, OrderBook};
pub use matching::{match_orders, MatchOutcome, Trade};
pub use order::{ContentAddress, Order, PredicateAddress, Side};
pub use service::BookService;
pub use settlement::{
    create_bid, extract_state, get_key, CustomKey, QueryState, ORDER_AMOUNT_KEY, PRICE_KEY,
    TOKEN_A_KEY, TOKEN_B_KEY,
};
