//! Dispatching operations and notices from other replicas to the ledger.
use vstd::prelude::*;
use crate::betting::{cancel_post, claim_post, place_bet_post};
use crate::ledger::{deposit_post, market_wf, withdraw_post, without, LivePredictState};
use crate::markets::{create_post, lock_post, resolve_error, resolve_post};
use crate::types::{
    bet_error_text, error_text, BetId, LedgerError, Market, MarketId, MarketStatus, Message, Operation,
    OperationResponse, Timestamp,
};

verus! {

/// `r` reports a rejection with the description `text`.
pub open spec fn reports(r: OperationResponse, text: Seq<char>) -> bool {
    r matches OperationResponse::Error { message } && message@ == text
}

/// A market may move from `a` to `b`: stay, leave Open for any other status,
/// or go from Locked to Resolved or Cancelled.
pub open spec fn legal_transition(a: MarketStatus, b: MarketStatus) -> bool {
    ||| a == b
    ||| a == MarketStatus::Open
    ||| (a == MarketStatus::Locked && (b == MarketStatus::Resolved || b
        == MarketStatus::Cancelled))
}

/// Every market of `s` is still in `t`, in the same or a later status.
pub open spec fn markets_progress(s: LivePredictState, t: LivePredictState) -> bool {
    forall|id: MarketId| #[trigger]
        s.market_map().dom().contains(id) ==> t.market_map().dom().contains(id)
            && legal_transition(s.market_map()[id].status, t.market_map()[id].status)
}

/// What a market snapshot from another replica does to ledger `s`, ending in
/// `t`: a well-formed snapshot is stored over any local copy, the open-market
/// list follows its status, and the id counter moves past its id so that
/// local ids stay fresh. A malformed snapshot changes nothing.
pub open spec fn sync_post(s: LivePredictState, t: LivePredictState, m: Market, applied: bool) -> bool {
    &&& applied == (market_wf(m) && m.id < u64::MAX)
    &&& !applied ==> t == s
    &&& applied ==> {
        &&& t.market_map() == s.market_map().insert(m.id, m)
        &&& t.active_markets@ == if m.status == MarketStatus::Open {
            without(s.active_markets@, m.id).push(m.id)
        } else {
            without(s.active_markets@, m.id)
        }
        &&& t.next_market_id == if m.id < s.next_market_id {
            s.next_market_id
        } else {
            (m.id + 1) as u64
        }
        &&& t.same_funds(&s)
        &&& t.same_accounts(&s)
    }
}

impl LivePredictState {
    /// Applies a notice from another replica (see `sync_post` and
    /// `resolve_post`). Returns whether the notice was applied; if not,
    /// nothing changes.
    pub fn execute_message(&mut self, message: Message) -> (applied: bool)
        requires
            old(self).wf(),
        ensures
            final(self).wf(),
            !applied ==> *final(self) == *old(self),
            message matches Message::SyncMarket { market } ==> sync_post(
                *old(self),
                *final(self),
                market,
                applied,
            ),
            message matches Message::MarketResolved { market_id, winning_option } ==> {
                &&& applied == resolve_error(*old(self), market_id, winning_option) is None
                &&& applied ==> resolve_post(
                    *old(self),
                    *final(self),
                    market_id,
                    winning_option,
                    Ok(()),
                )
            },
    {
        match message {
            Message::SyncMarket { market } => {
                if Self::market_is_valid(&market) && market.id < u64::MAX {
                    let ghost a = *self;
                    let ghost x = market;
                    let id = market.id;
                    let open = market.status == MarketStatus::Open;
                    self.put_market(market);
                    let ghost mid = *self;
                    self.remove_active_market(id);
                    if open {
                        self.active_markets.push(id);
                    }
                    let ghost listed = *self;
                    if id >= self.next_market_id {
                        self.next_market_id = id + 1;
                    }
                    proof {
                        Self::lemma_same_markets(&mid, &listed);
                        Self::lemma_same_markets(&listed, self);
                        Self::lemma_active_reset(&a, &listed, id, x);
                        assert forall|k: MarketId| #[trigger]
                            self.market_map().dom().contains(k) implies k < self.next_market_id by {
                            if k != id {
                                assert(a.market_map().dom().contains(k));
                            }
                        }
                    }
                    true
                } else {
                    false
                }
            },
            Message::MarketResolved { market_id, winning_option } => {
                self.resolve_market(market_id, winning_option).is_ok()
            },
        }
    }

    /// Runs one operation for `caller` at time `now` and reports its outcome:
    /// each operation does exactly what the method of the same name does, and
    /// a rejected operation changes nothing and is reported as an error.
    pub fn execute_operation(&mut self, caller: &str, now: Timestamp, operation: Operation) -> (r:
        OperationResponse)
        requires
            old(self).wf(),
        ensures
            final(self).wf(),
            r is Error ==> *final(self) == *old(self),
            final(self).fee_rate_bps == old(self).fee_rate_bps,
            old(self).settled_bets_kept(final(self)),
            markets_progress(*old(self), *final(self)),
            final(self).next_market_id >= old(self).next_market_id,
            final(self).next_bet_id >= old(self).next_bet_id,
            operation matches Operation::CreateMarket {
                match_id,
                market_type,
                title,
                options,
                locks_at,
            } ==> exists|res: Result<MarketId, LedgerError>|
                #[trigger] create_post(
                    *old(self),
                    *final(self),
                    now,
                    match_id,
                    market_type,
                    title,
                    options@,
                    locks_at,
                    res,
                ) && match res {
                    Ok(market_id) => r == OperationResponse::MarketCreated { market_id },
                    Err(e) => reports(r, error_text(e)),
                },
            operation matches Operation::PlaceBet { market_id, option_id, amount } ==> exists|
                res: Result<(BetId, u32), LedgerError>,
            |
                #[trigger] place_bet_post(
                    *old(self),
                    *final(self),
                    caller@,
                    now,
                    market_id,
                    option_id,
                    amount,
                    res,
                ) && match res {
                    Ok((bet_id, odds)) => r == OperationResponse::BetPlaced { bet_id, odds },
                    Err(e) => reports(r, bet_error_text(e)),
                },
            operation matches Operation::LockMarket { market_id } ==> exists|
                res: Result<(), LedgerError>,
            |
                #[trigger] lock_post(*old(self), *final(self), market_id, res) && match res {
                    Ok(()) => r == OperationResponse::MarketLocked { market_id },
                    Err(e) => reports(r, error_text(e)),
                },
            operation matches Operation::ResolveMarket { market_id, winning_option } ==> exists|
                res: Result<(), LedgerError>,
            |
                #[trigger] resolve_post(*old(self), *final(self), market_id, winning_option, res)
                    && match res {
                    Ok(()) => r == OperationResponse::MarketResolved { market_id, winning_option },
                    Err(e) => reports(r, error_text(e)),
                },
            operation matches Operation::CancelMarket { market_id } ==> exists|
                res: Result<(), LedgerError>,
            |
                #[trigger] cancel_post(*old(self), *final(self), market_id, res) && match res {
                    Ok(()) => r == OperationResponse::MarketCancelled { market_id },
                    Err(e) => reports(r, error_text(e)),
                },
            operation matches Operation::ClaimWinnings { bet_id } ==> exists|
                res: Result<u128, LedgerError>,
            |
                #[trigger] claim_post(*old(self), *final(self), caller@, bet_id, res) && match res {
                    Ok(amount) => r == OperationResponse::WinningsClaimed { bet_id, amount },
                    Err(e) => reports(r, error_text(e)),
                },
            operation matches Operation::Deposit { amount } ==> exists|
                res: Result<u128, LedgerError>,
            |
                #[trigger] deposit_post(*old(self), *final(self), caller@, amount, res) && match res {
                    Ok(new_balance) => r == OperationResponse::Deposited { amount, new_balance },
                    Err(e) => reports(r, error_text(e)),
                },
            operation matches Operation::Withdraw { amount } ==> exists|
                res: Result<u128, LedgerError>,
            |
                #[trigger] withdraw_post(*old(self), *final(self), caller@, amount, res)
                    && match res {
                    Ok(new_balance) => r == OperationResponse::Withdrawn { amount, new_balance },
                    Err(e) => reports(r, error_text(e)),
                },
    {
        let ghost a = *self;
        let r = match operation {
            Operation::CreateMarket { match_id, market_type, title, options, locks_at } => {
                match self.create_market(now, match_id, market_type, title, options, locks_at) {
                    Ok(market_id) => OperationResponse::MarketCreated { market_id },
                    Err(e) => OperationResponse::Error { message: e.message() },
                }
            },
            Operation::PlaceBet { market_id, option_id, amount } => {
                match self.place_bet(caller, now, market_id, option_id, amount) {
                    Ok((bet_id, odds)) => OperationResponse::BetPlaced { bet_id, odds },
                    Err(e) => OperationResponse::Error { message: e.bet_message() },
                }
            },
            Operation::LockMarket { market_id } => match self.lock_market(market_id) {
                Ok(()) => OperationResponse::MarketLocked { market_id },
                Err(e) => OperationResponse::Error { message: e.message() },
            },
            Operation::ResolveMarket { market_id, winning_option } => {
                match self.resolve_market(market_id, winning_option) {
                    Ok(()) => OperationResponse::MarketResolved { market_id, winning_option },
                    Err(e) => OperationResponse::Error { message: e.message() },
                }
            },
            Operation::CancelMarket { market_id } => match self.cancel_market(market_id) {
                Ok(()) => OperationResponse::MarketCancelled { market_id },
                Err(e) => OperationResponse::Error { message: e.message() },
            },
            Operation::ClaimWinnings { bet_id } => match self.claim_winnings(caller, bet_id) {
                Ok(amount) => OperationResponse::WinningsClaimed { bet_id, amount },
                Err(e) => OperationResponse::Error { message: e.message() },
            },
            Operation::Deposit { amount } => match self.deposit(caller, amount) {
                Ok(new_balance) => OperationResponse::Deposited { amount, new_balance },
                Err(e) => OperationResponse::Error { message: e.message() },
            },
            Operation::Withdraw { amount } => match self.withdraw(caller, amount) {
                Ok(new_balance) => OperationResponse::Withdrawn { amount, new_balance },
                Err(e) => OperationResponse::Error { message: e.message() },
            },
        };
        proof {
            if self.markets@ == a.markets@ {
                Self::lemma_same_markets(&a, self);
            }
        }
        r
    }

}

} // verus!
