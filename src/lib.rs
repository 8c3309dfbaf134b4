//! A single-asset order-matching engine: resting sell orders wait in a book
//! ordered by price and id, and incoming buy orders are matched against them.
pub mod book;
pub mod engine;
pub mod order;
pub mod parse;
pub mod sequence;

pub use book::OrderBook;
pub use engine::{MatchOutcome, MatchReport, MatchingEngine, SubmitError};
pub use order::{Order, OrderType, Trade};
pub use parse::ParseOrderError;
pub use sequence::IdSequence;
