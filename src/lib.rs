//! A pari-mutuel prediction-market ledger.
//!
//! Markets hold a list of options with pooled stakes; bets are priced from the
//! pools when placed and settled exactly once, either by a claim after the
//! market is resolved or by a refund when it is cancelled.
pub mod types;
pub mod settlement;
pub mod ledger;
pub mod markets;
pub mod betting;
pub mod queries;
pub mod operations;

pub use types::{
    Amount, Bet, BetId, LedgerError, LivePredictAbi, Market, MarketId, MarketOption, MarketStatus,
    Message, Operation, OperationResponse, Timestamp,
};
pub use settlement::{checked_gross, fee_for};
pub use ledger::LivePredictState;
