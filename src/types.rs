//! The data model: markets, their options, bets, operations and outcomes.
use vstd::prelude::*;

verus! {

broadcast use vstd::string::to_string_from_display_ensures_for_str;

/// Marker type naming this application's interface.
pub struct LivePredictAbi;

/// Unique identifier for a market.
pub type MarketId = u64;

/// Unique identifier for a bet.
pub type BetId = u64;

/// Amount in tokens.
pub type Amount = u128;

/// Milliseconds since a fixed epoch.
pub type Timestamp = u64;

/// Lifecycle state of a market.
#[derive(Debug, Clone, Copy, PartialEq, Eq, Structural)]
pub enum MarketStatus {
    /// Accepting bets.
    Open,
    /// No more bets accepted.
    Locked,
    /// Terminal: an outcome was chosen and winners may claim.
    Resolved,
    /// Terminal: every unsettled bet was refunded.
    Cancelled,
}

/// One outcome of a market.
#[derive(Debug, Clone)]
pub struct MarketOption {
    /// Position of the option in its market (0, 1, 2, ...).
    pub id: u8,
    /// Human-readable label.
    pub label: String,
    /// Total amount staked on this option.
    pub pool: Amount,
}

/// A prediction opportunity.
#[derive(Debug, Clone)]
pub struct Market {
    pub id: MarketId,
    /// External match or event this market belongs to.
    pub match_id: String,
    /// Category of the market (e.g. "round_winner").
    pub market_type: String,
    pub title: String,
    pub options: Vec<MarketOption>,
    pub status: MarketStatus,
    pub created_at: Timestamp,
    /// Bets are accepted strictly before this time.
    pub locks_at: Timestamp,
    /// The winning option, once resolved.
    pub winning_option: Option<u8>,
}

/// A single wager.
#[derive(Debug, Clone)]
pub struct Bet {
    pub id: BetId,
    /// Identity of the bettor.
    pub owner: String,
    pub market_id: MarketId,
    pub option_id: u8,
    /// Amount staked.
    pub amount: Amount,
    /// Odds recorded at placement, scaled by 1000 (1500 is 1.5x).
    pub odds: u32,
    pub placed_at: Timestamp,
    pub settled: bool,
    /// What was credited at settlement.
    pub payout: Option<Amount>,
}

/// The operations a caller can submit.
#[derive(Debug)]
pub enum Operation {
    CreateMarket {
        match_id: String,
        market_type: String,
        title: String,
        options: Vec<String>,
        locks_at: Timestamp,
    },
    PlaceBet { market_id: MarketId, option_id: u8, amount: Amount },
    LockMarket { market_id: MarketId },
    ResolveMarket { market_id: MarketId, winning_option: u8 },
    CancelMarket { market_id: MarketId },
    ClaimWinnings { bet_id: BetId },
    Deposit { amount: Amount },
    Withdraw { amount: Amount },
}

/// The outcome of an operation.
#[derive(Debug)]
pub enum OperationResponse {
    MarketCreated { market_id: MarketId },
    BetPlaced { bet_id: BetId, odds: u32 },
    MarketLocked { market_id: MarketId },
    MarketResolved { market_id: MarketId, winning_option: u8 },
    MarketCancelled { market_id: MarketId },
    WinningsClaimed { bet_id: BetId, amount: Amount },
    Deposited { amount: Amount, new_balance: Amount },
    Withdrawn { amount: Amount, new_balance: Amount },
    Error { message: String },
}

/// Notices exchanged with other replicas of the ledger.
#[derive(Debug)]
pub enum Message {
    /// A market snapshot, stored over any local copy.
    SyncMarket { market: Market },
    /// A resolution decided elsewhere.
    MarketResolved { market_id: MarketId, winning_option: u8 },
}

/// Why an operation was rejected. A rejected operation changes nothing.
#[derive(Debug, Clone, Copy, PartialEq, Eq, Structural)]
pub enum LedgerError {
    InvalidOptionCount,
    LockTimeNotInFuture,
    InvalidAmount,
    MarketNotFound,
    MarketNotOpen,
    MarketLocked,
    InvalidOption,
    InsufficientBalance,
    AlreadyResolved,
    /// A cancelled market can no longer be resolved.
    MarketCancelled,
    InvalidWinningOption,
    CannotCancelResolvedMarket,
    BetNotFound,
    NotBetOwner,
    AlreadySettled,
    MarketNotResolved,
    /// An amount or an identifier counter would exceed its range.
    Overflow,
}

/// The human-readable description of an error.
pub open spec fn error_text(e: LedgerError) -> Seq<char> {
    match e {
        LedgerError::InvalidOptionCount => "Market must have 2-10 options"@,
        LedgerError::LockTimeNotInFuture => "Lock time must be in the future"@,
        LedgerError::InvalidAmount => "Bet amount must be greater than 0"@,
        LedgerError::MarketNotFound => "Market not found"@,
        LedgerError::MarketNotOpen => "Market is not open"@,
        LedgerError::MarketLocked => "Market has been locked"@,
        LedgerError::InvalidOption => "Invalid option"@,
        LedgerError::InsufficientBalance => "Insufficient balance"@,
        LedgerError::AlreadyResolved => "Market already resolved"@,
        LedgerError::MarketCancelled => "Market was cancelled"@,
        LedgerError::InvalidWinningOption => "Invalid winning option"@,
        LedgerError::CannotCancelResolvedMarket => "Cannot cancel resolved market"@,
        LedgerError::BetNotFound => "Bet not found"@,
        LedgerError::NotBetOwner => "Not your bet"@,
        LedgerError::AlreadySettled => "Bet already settled"@,
        LedgerError::MarketNotResolved => "Market not yet resolved"@,
        LedgerError::Overflow => "Amount or counter overflow"@,
    }
}

/// The description of an error that rejected a bet.
pub open spec fn bet_error_text(e: LedgerError) -> Seq<char> {
    if e == LedgerError::MarketNotOpen {
        "Market is not open for betting"@
    } else {
        error_text(e)
    }
}

impl LedgerError {
    /// A human-readable description of the error when it rejects a bet.
    pub fn bet_message(&self) -> (r: String)
        ensures
            r@ == bet_error_text(*self),
    {
        match self {
            LedgerError::MarketNotOpen => "Market is not open for betting".to_string(),
            _ => self.message(),
        }
    }

    /// A human-readable description of the error.
    pub fn message(&self) -> (r: String)
        ensures
            r@ == error_text(*self),
    {
        let s = match self {
            LedgerError::InvalidOptionCount => "Market must have 2-10 options",
            LedgerError::LockTimeNotInFuture => "Lock time must be in the future",
            LedgerError::InvalidAmount => "Bet amount must be greater than 0",
            LedgerError::MarketNotFound => "Market not found",
            LedgerError::MarketNotOpen => "Market is not open",
            LedgerError::MarketLocked => "Market has been locked",
            LedgerError::InvalidOption => "Invalid option",
            LedgerError::InsufficientBalance => "Insufficient balance",
            LedgerError::AlreadyResolved => "Market already resolved",
            LedgerError::MarketCancelled => "Market was cancelled",
            LedgerError::InvalidWinningOption => "Invalid winning option",
            LedgerError::CannotCancelResolvedMarket => "Cannot cancel resolved market",
            LedgerError::BetNotFound => "Bet not found",
            LedgerError::NotBetOwner => "Not your bet",
            LedgerError::AlreadySettled => "Bet already settled",
            LedgerError::MarketNotResolved => "Market not yet resolved",
            LedgerError::Overflow => "Amount or counter overflow",
        };
        s.to_string()
    }
}

} // verus!
