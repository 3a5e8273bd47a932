//! Placing bets, cancelling markets with refunds, and settling claims.
use vstd::prelude::*;
use crate::ledger::{
    balances_set, lemma_balance_range, lemma_sum_push, lemma_sum_update, market_wf, outstanding_amounts, without,
    LivePredictState,
};
use crate::settlement::{checked_gross, fee_for, fee_of, gross_of, odds_of, payout_of};
use crate::types::{Amount, Bet, BetId, LedgerError, Market, MarketId, MarketOption, MarketStatus, Timestamp};

verus! {

broadcast use vstd::string::to_string_from_display_ensures_for_str;

/// Sum of the pools of a list of options.
pub open spec fn pool_total(s: Seq<MarketOption>) -> int
    decreases s.len(),
{
    if s.len() == 0 {
        0
    } else {
        pool_total(s.drop_last()) + s.last().pool
    }
}

/// `after` is `before` with the pool of option `k` set to `pool`.
pub open spec fn pool_updated(before: Market, after: Market, k: int, pool: int) -> bool {
    &&& after.id == before.id
    &&& after.match_id == before.match_id
    &&& after.market_type == before.market_type
    &&& after.title == before.title
    &&& after.status == before.status
    &&& after.created_at == before.created_at
    &&& after.locks_at == before.locks_at
    &&& after.winning_option == before.winning_option
    &&& after.options@.len() == before.options@.len()
    &&& forall|j: int|
        0 <= j < before.options@.len() && j != k ==> #[trigger] after.options@[j]
            == before.options@[j]
    &&& after.options@[k].id == before.options@[k].id
    &&& after.options@[k].label == before.options@[k].label
    &&& after.options@[k].pool == pool
}

proof fn lemma_pool_total_bound(s: Seq<MarketOption>, k: int)
    requires
        0 <= k < s.len(),
    ensures
        s[k].pool <= pool_total(s),
    decreases s.len(),
{
    lemma_pool_total_nonneg(s.drop_last());
    if k < s.len() - 1 {
        lemma_pool_total_bound(s.drop_last(), k);
    }
}

proof fn lemma_pool_total_nonneg(s: Seq<MarketOption>)
    ensures
        pool_total(s) >= 0,
    decreases s.len(),
{
    if s.len() > 0 {
        lemma_pool_total_nonneg(s.drop_last());
    }
}

/// `b` after cancelling market `market_id`: refunded in full if it was an
/// unsettled bet on that market, untouched otherwise.
pub open spec fn refunded(b: Bet, market_id: MarketId) -> Bet {
    if b.market_id == market_id && !b.settled {
        Bet { settled: true, payout: Some(b.amount), ..b }
    } else {
        b
    }
}

/// What cancelling market `market_id` refunds to `owner` from the bets `s`.
pub open spec fn refund_total(s: Seq<Bet>, market_id: MarketId, owner: Seq<char>) -> int
    decreases s.len(),
{
    if s.len() == 0 {
        0
    } else {
        let b = s.last();
        refund_total(s.drop_last(), market_id, owner) + if b.market_id == market_id && !b.settled
            && b.owner@ == owner {
            b.amount as int
        } else {
            0
        }
    }
}

/// Whether `b` backed the winning option of `m`.
pub open spec fn bet_won(b: Bet, m: Market) -> bool {
    m.winning_option == Some(b.option_id)
}

/// What settling `b` on the resolved market `m` credits at `fee_rate_bps`.
pub open spec fn settlement_of(b: Bet, m: Market, fee_rate_bps: u32) -> int {
    if bet_won(b, m) {
        payout_of(b.amount as int, b.odds as int, fee_rate_bps as int)
    } else {
        0
    }
}

/// The fee collected when settling `b` on the resolved market `m`.
pub open spec fn settlement_fee(b: Bet, m: Market, fee_rate_bps: u32) -> int {
    if bet_won(b, m) {
        fee_of(gross_of(b.amount as int, b.odds as int), fee_rate_bps as int)
    } else {
        0
    }
}

/// Why `caller` placing `amount` on option `option_id` of market `market_id`
/// at time `now` is rejected by ledger `s`, if it is.
pub open spec fn place_bet_error(
    s: LivePredictState,
    caller: Seq<char>,
    now: Timestamp,
    market_id: MarketId,
    option_id: u8,
    amount: Amount,
) -> Option<LedgerError> {
    let m = s.market(market_id);
    if amount == 0 {
        Some(LedgerError::InvalidAmount)
    } else if amount > s.balance_of(caller) {
        Some(LedgerError::InsufficientBalance)
    } else if !s.has_market(market_id) {
        Some(LedgerError::MarketNotFound)
    } else if m.status != MarketStatus::Open {
        Some(LedgerError::MarketNotOpen)
    } else if now >= m.locks_at {
        Some(LedgerError::MarketLocked)
    } else if option_id >= m.options.len() {
        Some(LedgerError::InvalidOption)
    } else if pool_total(m.options@) + amount > u128::MAX || s.total_volume + amount > u128::MAX
        || s.next_bet_id == u64::MAX {
        Some(LedgerError::Overflow)
    } else {
        None
    }
}

/// Why cancelling market `market_id` is rejected by ledger `s`, if it is.
pub open spec fn cancel_error(s: LivePredictState, market_id: MarketId) -> Option<LedgerError> {
    if !s.has_market(market_id) {
        Some(LedgerError::MarketNotFound)
    } else if s.market(market_id).status == MarketStatus::Resolved {
        Some(LedgerError::CannotCancelResolvedMarket)
    } else if s.market(market_id).status == MarketStatus::Cancelled {
        Some(LedgerError::MarketNotOpen)
    } else if refund_overflows(s, market_id) {
        Some(LedgerError::Overflow)
    } else {
        None
    }
}

/// Whether `b` is refunded when market `market_id` is cancelled.
pub open spec fn refundable(b: Bet, market_id: MarketId) -> bool {
    b.market_id == market_id && !b.settled
}

/// Whether refunding the bets of market `market_id` would take some owner's
/// balance past the largest amount.
pub open spec fn refund_overflows(s: LivePredictState, market_id: MarketId) -> bool {
    exists|o: Seq<char>|
        s.balance_of(o) + #[trigger] refund_total(s.bets@, market_id, o) > u128::MAX
}

proof fn lemma_refund_prefix(s: Seq<Bet>, n: int, market_id: MarketId, owner: Seq<char>)
    requires
        0 <= n <= s.len(),
    ensures
        0 <= refund_total(s.subrange(0, n), market_id, owner) <= refund_total(s, market_id, owner),
    decreases s.len() - n,
{
    if n < s.len() {
        lemma_refund_prefix(s, n + 1, market_id, owner);
        assert(s.subrange(0, n + 1).drop_last() =~= s.subrange(0, n));
        lemma_refund_nonneg(s.subrange(0, n), market_id, owner);
    } else {
        assert(s.subrange(0, n) =~= s);
        lemma_refund_nonneg(s, market_id, owner);
    }
}

proof fn lemma_refund_nonneg(s: Seq<Bet>, market_id: MarketId, owner: Seq<char>)
    ensures
        refund_total(s, market_id, owner) >= 0,
    decreases s.len(),
{
    if s.len() > 0 {
        lemma_refund_nonneg(s.drop_last(), market_id, owner);
    }
}

proof fn lemma_refund_absent(s: Seq<Bet>, market_id: MarketId, owner: Seq<char>)
    requires
        forall|j: int|
            0 <= j < s.len() && refundable(#[trigger] s[j], market_id) ==> s[j].owner@ != owner,
    ensures
        refund_total(s, market_id, owner) == 0,
    decreases s.len(),
{
    if s.len() > 0 {
        assert(s[s.len() - 1] == s.last());
        lemma_refund_absent(s.drop_last(), market_id, owner);
    }
}

/// What `caller` placing `amount` on option `option_id` of market
/// `market_id` at time `now` does to ledger `s`, ending in `t` with outcome
/// `r`: the stake moves from the caller's balance into the option's pool and
/// a new unsettled bet records it at the odds of the pools after the stake.
pub open spec fn place_bet_post(
    s: LivePredictState,
    t: LivePredictState,
    caller: Seq<char>,
    now: Timestamp,
    market_id: MarketId,
    option_id: u8,
    amount: Amount,
    r: Result<(BetId, u32), LedgerError>,
) -> bool {
    &&& r is Ok <==> place_bet_error(s, caller, now, market_id, option_id, amount) is None
    &&& r matches Err(e) ==> place_bet_error(s, caller, now, market_id, option_id, amount)
        == Some(e) && t == s
    &&& r matches Ok((bet_id, odds)) ==> {
        let m = s.market(market_id);
        let k = option_id as int;
        let b = t.bet(bet_id);
        &&& bet_id == s.next_bet_id
        &&& odds == odds_of(pool_total(m.options@) + amount, m.options@[k].pool + amount)
        &&& t.bets@.len() == s.bets@.len() + 1
        &&& t.bets@.drop_last() == s.bets@
        &&& b.id == bet_id && b.owner@ == caller && b.market_id == market_id
        &&& b.option_id == option_id && b.amount == amount && b.odds == odds
        &&& b.placed_at == now && !b.settled && b.payout is None
        &&& t.next_bet_id == bet_id + 1
        &&& balances_set(s, t, caller, s.balance_of(caller) - amount)
        &&& t.market_map() == s.market_map().insert(market_id, t.market(market_id))
        &&& pool_updated(m, t.market(market_id), k, m.options@[k].pool + amount)
        &&& t.total_volume == s.total_volume + amount
        &&& t.protocol_fees == s.protocol_fees
        &&& t.fee_rate_bps == s.fee_rate_bps
        &&& t.active_markets@ == s.active_markets@
        &&& t.next_market_id == s.next_market_id
        &&& t.same_accounts(&s)
        &&& t.value_held() == s.value_held()
    }
}

/// What cancelling market `market_id` does to ledger `s`, ending in `t` with
/// outcome `r`: every unsettled bet on it is settled with its stake refunded
/// to its owner, and the market becomes cancelled and leaves the open-market
/// list.
pub open spec fn cancel_post(
    s: LivePredictState,
    t: LivePredictState,
    market_id: MarketId,
    r: Result<(), LedgerError>,
) -> bool {
    &&& r is Ok <==> cancel_error(s, market_id) is None
    &&& r matches Err(e) ==> cancel_error(s, market_id) == Some(e) && t == s
    &&& r is Ok ==> {
        &&& t.bets@.len() == s.bets@.len()
        &&& forall|k: int|
            0 <= k < s.bets@.len() ==> #[trigger] t.bets@[k] == refunded(s.bets@[k], market_id)
        &&& forall|o: Seq<char>| #[trigger]
            t.balance_of(o) == s.balance_of(o) + refund_total(s.bets@, market_id, o)
        &&& t.market_map() == s.market_map().insert(
            market_id,
            Market { status: MarketStatus::Cancelled, ..s.market(market_id) },
        )
        &&& t.active_markets@ == without(s.active_markets@, market_id)
        &&& t.value_held() == s.value_held()
        &&& t.protocol_fees == s.protocol_fees
        &&& t.fee_rate_bps == s.fee_rate_bps
        &&& t.total_volume == s.total_volume
        &&& t.next_market_id == s.next_market_id
        &&& t.next_bet_id == s.next_bet_id
        &&& t.same_accounts(&s)
    }
}

/// What `caller` claiming bet `bet_id` does to ledger `s`, ending in `t` with
/// outcome `r`: the bet is settled with its payout (nothing for a losing
/// bet), which is credited to the caller, and the fee is collected.
pub open spec fn claim_post(
    s: LivePredictState,
    t: LivePredictState,
    caller: Seq<char>,
    bet_id: BetId,
    r: Result<Amount, LedgerError>,
) -> bool {
    &&& r is Ok <==> claim_error(s, caller, bet_id) is None
    &&& r matches Err(e) ==> claim_error(s, caller, bet_id) == Some(e) && t == s
    &&& r matches Ok(payout) ==> {
        let b = s.bet(bet_id);
        let m = s.market(b.market_id);
        let rate = s.fee_rate_bps;
        &&& payout == settlement_of(b, m, rate)
        &&& t.bets@ == s.bets@.update(bet_id - 1, Bet { settled: true, payout: Some(payout), ..b })
        &&& balances_set(s, t, caller, s.balance_of(caller) + payout)
        &&& t.protocol_fees == s.protocol_fees + settlement_fee(b, m, rate)
        &&& t.value_held() == s.value_held() - b.amount + payout + settlement_fee(b, m, rate)
        &&& t.claimed_net@ == s.claimed_net@ - b.amount + payout + settlement_fee(b, m, rate)
        &&& t.deposited == s.deposited
        &&& t.withdrawn == s.withdrawn
        &&& t.markets@ == s.markets@
        &&& t.active_markets@ == s.active_markets@
        &&& t.fee_rate_bps == s.fee_rate_bps
        &&& t.total_volume == s.total_volume
        &&& t.next_market_id == s.next_market_id
        &&& t.next_bet_id == s.next_bet_id
    }
}

/// Why `caller` claiming bet `bet_id` is rejected by ledger `s`, if it is.
pub open spec fn claim_error(s: LivePredictState, caller: Seq<char>, bet_id: BetId) -> Option<
    LedgerError,
> {
    let b = s.bet(bet_id);
    let m = s.market(b.market_id);
    let gross = gross_of(b.amount as int, b.odds as int);
    if !s.has_bet(bet_id) {
        Some(LedgerError::BetNotFound)
    } else if b.owner@ != caller {
        Some(LedgerError::NotBetOwner)
    } else if b.settled {
        Some(LedgerError::AlreadySettled)
    } else if !s.has_market(b.market_id) {
        Some(LedgerError::MarketNotFound)
    } else if m.status != MarketStatus::Resolved {
        Some(LedgerError::MarketNotResolved)
    } else if bet_won(b, m) && (gross > u128::MAX || s.balance_of(caller) + settlement_of(
        b,
        m,
        s.fee_rate_bps,
    ) > u128::MAX || s.protocol_fees + settlement_fee(b, m, s.fee_rate_bps) > u128::MAX) {
        Some(LedgerError::Overflow)
    } else {
        None
    }
}

/// `t` follows from `s` by one successful bet on market `market_id`.
pub open spec fn is_bet_step(s: LivePredictState, t: LivePredictState, market_id: MarketId) -> bool {
    exists|c: Seq<char>, now: Timestamp, opt: u8, amt: Amount, placed: (BetId, u32)|
        #[trigger] place_bet_post(s, t, c, now, market_id, opt, amt, Ok(placed))
}

/// A bet on market `market_id` moves its stake from the bettor's balance into
/// what cancelling that market would refund: for every owner, balance plus
/// pending refund stays the same.
pub proof fn lemma_bet_keeps_refundable_value(
    s: LivePredictState,
    t: LivePredictState,
    caller: Seq<char>,
    now: Timestamp,
    market_id: MarketId,
    option_id: u8,
    amount: Amount,
    placed: (BetId, u32),
)
    requires
        s.wf(),
        place_bet_post(s, t, caller, now, market_id, option_id, amount, Ok(placed)),
    ensures
        forall|o: Seq<char>| #[trigger]
            t.balance_of(o) + refund_total(t.bets@, market_id, o) == s.balance_of(o)
                + refund_total(s.bets@, market_id, o),
{
    let bet_id = placed.0;
    assert(t.bets@.drop_last() == s.bets@);
    assert(t.bets@.last() == t.bet(bet_id));
    assert forall|o: Seq<char>| #[trigger]
        t.balance_of(o) + refund_total(t.bets@, market_id, o) == s.balance_of(o) + refund_total(
            s.bets@,
            market_id,
            o,
        ) by {
        assert(t.balance_of(o) == if o == caller {
            s.balance_of(caller) - amount
        } else {
            s.balance_of(o)
        });
    }
}

/// Successful bets on market `market_id` carry each step of `run` to the
/// next; every owner's balance plus pending refund stays what it was at the
/// start of the run.
proof fn lemma_bet_run(run: Seq<LivePredictState>, market_id: MarketId, i: int)
    requires
        0 <= i < run.len(),
        forall|k: int| 0 <= k < run.len() ==> (#[trigger] run[k]).wf(),
        forall|k: int|
            0 <= k < run.len() - 1 ==> #[trigger] is_bet_step(run[k], run[k + 1], market_id),
    ensures
        forall|o: Seq<char>| #[trigger]
            run[i].balance_of(o) + refund_total(run[i].bets@, market_id, o) == run[0].balance_of(o)
                + refund_total(run[0].bets@, market_id, o),
    decreases i,
{
    if i > 0 {
        lemma_bet_run(run, market_id, i - 1);
        let k = i - 1;
        assert(is_bet_step(run[k], run[k + 1], market_id));
        let (c, now, opt, amt, placed) = choose|
            c: Seq<char>,
            now: Timestamp,
            opt: u8,
            amt: Amount,
            placed: (BetId, u32),
        | #[trigger] place_bet_post(run[k], run[k + 1], c, now, market_id, opt, amt, Ok(placed));
        lemma_bet_keeps_refundable_value(run[k], run[k + 1], c, now, market_id, opt, amt, placed);
        assert forall|o: Seq<char>| #[trigger]
            run[i].balance_of(o) + refund_total(run[i].bets@, market_id, o) == run[0].balance_of(o)
                + refund_total(run[0].bets@, market_id, o) by {
            assert(run[k].balance_of(o) + refund_total(run[k].bets@, market_id, o)
                == run[0].balance_of(o) + refund_total(run[0].bets@, market_id, o));
        }
    }
}

/// Cancelling a market after any run of successful bets on it, starting when
/// it held no unsettled bets, gives every owner back exactly the balance they
/// had before the run.
pub proof fn lemma_bets_then_cancel_restore(
    run: Seq<LivePredictState>,
    market_id: MarketId,
    after: LivePredictState,
)
    requires
        run.len() >= 1,
        forall|k: int| 0 <= k < run.len() ==> (#[trigger] run[k]).wf(),
        forall|k: int|
            0 <= k < run.len() - 1 ==> #[trigger] is_bet_step(run[k], run[k + 1], market_id),
        forall|j: int|
            0 <= j < run[0].bets.len() ==> !refundable(#[trigger] run[0].bets@[j], market_id),
        cancel_post(run.last(), after, market_id, Ok(())),
    ensures
        forall|o: Seq<char>| #[trigger] after.balance_of(o) == run[0].balance_of(o),
{
    let n = run.len() - 1;
    lemma_bet_run(run, market_id, n);
    assert forall|o: Seq<char>| #[trigger] after.balance_of(o) == run[0].balance_of(o) by {
        lemma_refund_absent(run[0].bets@, market_id, o);
        assert(run[n].balance_of(o) + refund_total(run[n].bets@, market_id, o)
            == run[0].balance_of(o) + refund_total(run[0].bets@, market_id, o));
        assert(after.balance_of(o) == run.last().balance_of(o) + refund_total(
            run.last().bets@,
            market_id,
            o,
        ));
    }
}

/// A bet on a market that is locked, resolved or cancelled is always
/// rejected, and a rejected bet changes nothing (see `place_bet`).
pub proof fn lemma_closed_market_rejects_bets(
    s: LivePredictState,
    caller: Seq<char>,
    now: Timestamp,
    market_id: MarketId,
    option_id: u8,
    amount: Amount,
)
    requires
        s.has_market(market_id),
        s.market(market_id).status != MarketStatus::Open,
    ensures
        place_bet_error(s, caller, now, market_id, option_id, amount) is Some,
{
}

/// A resolved market can never be cancelled.
pub proof fn lemma_resolved_market_not_cancellable(s: LivePredictState, market_id: MarketId)
    requires
        s.has_market(market_id),
        s.market(market_id).status == MarketStatus::Resolved,
    ensures
        cancel_error(s, market_id) == Some(LedgerError::CannotCancelResolvedMarket),
{
}

/// A settled bet is settled for good: every further claim on it is rejected
/// (leaving the ledger unchanged), and cancelling its market neither changes
/// it nor refunds it again.
pub proof fn lemma_settled_bet_is_final(
    s: LivePredictState,
    caller: Seq<char>,
    bet_id: BetId,
    market_id: MarketId,
)
    requires
        s.has_bet(bet_id),
        s.bet(bet_id).settled,
    ensures
        claim_error(s, caller, bet_id) is Some,
        refunded(s.bet(bet_id), market_id) == s.bet(bet_id),
{
}

impl LivePredictState {
    /// Sum of the pools of `options`, or `None` if it overflows.
    fn sum_pools(options: &Vec<MarketOption>) -> (r: Option<u128>)
        ensures
            r is Some <==> pool_total(options@) <= u128::MAX,
            r matches Some(t) ==> t == pool_total(options@),
    {
        let mut acc: u128 = 0;
        let mut i: usize = 0;
        while i < options.len()
            invariant
                i <= options.len(),
                acc == pool_total(options@.subrange(0, i as int)),
            decreases options.len() - i,
        {
            proof {
                assert(options@.subrange(0, i as int + 1).drop_last() =~= options@.subrange(
                    0,
                    i as int,
                ));
            }
            match acc.checked_add(options[i].pool) {
                Some(v) => {
                    acc = v;
                },
                None => {
                    proof {
                        Self::lemma_pool_prefix(options@, i as int + 1);
                    }
                    return None;
                },
            }
            i = i + 1;
        }
        proof {
            assert(options@.subrange(0, i as int) =~= options@);
        }
        Some(acc)
    }

    /// A prefix of a list of options pools no more than the whole list.
    proof fn lemma_pool_prefix(s: Seq<MarketOption>, n: int)
        requires
            0 <= n <= s.len(),
        ensures
            pool_total(s.subrange(0, n)) <= pool_total(s),
        decreases s.len() - n,
    {
        if n < s.len() {
            Self::lemma_pool_prefix(s, n + 1);
            assert(s.subrange(0, n + 1).drop_last() =~= s.subrange(0, n));
        } else {
            assert(s.subrange(0, n) =~= s);
        }
    }

    /// Hands out the next bet id and advances the counter.
    fn allocate_bet_id(&mut self) -> (id: BetId)
        requires
            old(self).next_bet_id < u64::MAX,
        ensures
            id == old(self).next_bet_id,
            final(self).next_bet_id == id + 1,
            final(self).balances@ == old(self).balances@,
            final(self).bets@ == old(self).bets@,
            final(self).markets@ == old(self).markets@,
            final(self).active_markets@ == old(self).active_markets@,
            final(self).next_market_id == old(self).next_market_id,
            final(self).total_volume == old(self).total_volume,
            final(self).fee_rate_bps == old(self).fee_rate_bps,
            final(self).protocol_fees == old(self).protocol_fees,
            final(self).deposited == old(self).deposited,
            final(self).withdrawn == old(self).withdrawn,
            final(self).claimed_net == old(self).claimed_net,
    {
        let id = self.next_bet_id;
        self.next_bet_id = id + 1;
        id
    }

    /// Stakes `amount` of the caller's balance on option `option_id` of an
    /// open market, at odds computed from the pools as they stand once the
    /// stake is added. Returns the new bet's id and its odds.
    pub fn place_bet(
        &mut self,
        caller: &str,
        now: Timestamp,
        market_id: MarketId,
        option_id: u8,
        amount: Amount,
    ) -> (r: Result<(BetId, u32), LedgerError>)
        requires
            old(self).wf(),
        ensures
            final(self).wf(),
            old(self).settled_bets_kept(final(self)),
            place_bet_post(*old(self), *final(self), caller@, now, market_id, option_id, amount, r),
    {
        if amount == 0 {
            return Err(LedgerError::InvalidAmount);
        }
        let balance = self.get_balance(caller);
        if balance < amount {
            return Err(LedgerError::InsufficientBalance);
        }
        let i = match self.find_market(market_id) {
            Some(i) => i,
            None => {
                return Err(LedgerError::MarketNotFound);
            },
        };
        if self.markets[i].status != MarketStatus::Open {
            return Err(LedgerError::MarketNotOpen);
        }
        if now >= self.markets[i].locks_at {
            return Err(LedgerError::MarketLocked);
        }
        let k = option_id as usize;
        if k >= self.markets[i].options.len() {
            return Err(LedgerError::InvalidOption);
        }
        let total_pool = match Self::sum_pools(&self.markets[i].options) {
            Some(t) => t,
            None => {
                return Err(LedgerError::Overflow);
            },
        };
        if total_pool > u128::MAX - amount || self.total_volume > u128::MAX - amount
            || self.next_bet_id == u64::MAX {
            return Err(LedgerError::Overflow);
        }
        proof {
            lemma_pool_total_bound(self.markets@[i as int].options@, k as int);
        }
        let option_pool = self.markets[i].options[k].pool + amount;
        let odds = Self::calculate_odds(total_pool + amount, option_pool);
        let ghost a = *self;

        self.set_balance(caller, balance - amount);
        let ghost after_balance = *self;

        self.markets[i].options[k].pool = option_pool;
        proof {
            let before = a.markets@[i as int];
            let after = self.markets@[i as int];
            assert(self.markets@ =~= a.markets@.update(i as int, after));
            assert(market_wf(before));
            assert forall|j: int| 0 <= j < after.options@.len() implies (
            #[trigger] after.options@[j]).id == j by {
                if j != k {
                    assert(after.options@[j] == before.options@[j]);
                }
            }
            Self::lemma_market_replaced(&after_balance, self, i as int, after);
        }
        let ghost updated = *self;

        let bet_id = self.allocate_bet_id();
        let bet = Bet {
            id: bet_id,
            owner: caller.to_string(),
            market_id,
            option_id,
            amount,
            odds,
            placed_at: now,
            settled: false,
            payout: None,
        };
        let ghost old_bets = self.bets@;
        let ghost before_push = *self;
        self.bets.push(bet);
        self.total_volume = self.total_volume + amount;
        proof {
            assert(outstanding_amounts(self.bets@) =~= outstanding_amounts(old_bets).push(
                amount as int,
            ));
            lemma_sum_push(outstanding_amounts(old_bets), amount as int);
            assert(self.bets@.drop_last() =~= old_bets);
            assert forall|o: Seq<char>| #[trigger]
                self.balance_of(o) == after_balance.balance_of(o) by {
                assert(before_push.balance_of(o) == after_balance.balance_of(o));
            }
            Self::lemma_same_markets(&after_balance, &a);
            Self::lemma_same_markets(&updated, self);
            Self::lemma_active_same_status(&a, self, market_id, self.market(market_id));
        }
        Ok((bet_id, odds))
    }

    /// Whether refunding the bets of market `market_id` keeps every owner's
    /// balance within range.
    fn refunds_fit(&self, market_id: MarketId) -> (r: bool)
        requires
            self.wf(),
        ensures
            r == !refund_overflows(*self, market_id),
    {
        let n = self.bets.len();
        let mut j: usize = 0;
        while j < n
            invariant
                self.wf(),
                n == self.bets.len(),
                j <= n,
                forall|q: int|
                    0 <= q < j && refundable(#[trigger] self.bets@[q], market_id) ==> self.balance_of(
                        self.bets@[q].owner@,
                    ) + refund_total(self.bets@, market_id, self.bets@[q].owner@) <= u128::MAX,
            decreases n - j,
        {
            if self.bets[j].market_id == market_id && !self.bets[j].settled {
                let owner = &self.bets[j].owner;
                let mut acc: u128 = self.get_balance(owner.as_str());
                let mut k: usize = 0;
                while k < n
                    invariant
                        self.wf(),
                        n == self.bets.len(),
                        j < n,
                        k <= n,
                        *owner == self.bets@[j as int].owner,
                        acc == self.balance_of(owner@) + refund_total(
                            self.bets@.subrange(0, k as int),
                            market_id,
                            owner@,
                        ),
                    decreases n - k,
                {
                    proof {
                        assert(self.bets@.subrange(0, k as int + 1).drop_last()
                            =~= self.bets@.subrange(0, k as int));
                    }
                    if self.bets[k].market_id == market_id && !self.bets[k].settled
                        && self.bets[k].owner == *owner {
                        match acc.checked_add(self.bets[k].amount) {
                            Some(v) => {
                                acc = v;
                            },
                            None => {
                                proof {
                                    lemma_refund_prefix(self.bets@, k as int + 1, market_id, owner@);
                                    assert(self.balance_of(owner@) + refund_total(
                                        self.bets@,
                                        market_id,
                                        owner@,
                                    ) > u128::MAX);
                                }
                                return false;
                            },
                        }
                    }
                    k = k + 1;
                }
                proof {
                    assert(self.bets@.subrange(0, n as int) =~= self.bets@);
                }
            }
            j = j + 1;
        }
        proof {
            assert forall|o: Seq<char>|
                self.balance_of(o) + #[trigger] refund_total(self.bets@, market_id, o)
                    <= u128::MAX by {
                lemma_balance_range(self.balances@, o);
                if exists|q: int|
                    0 <= q < n && refundable(#[trigger] self.bets@[q], market_id)
                        && self.bets@[q].owner@ == o {
                    let q = choose|q: int|
                        0 <= q < n && refundable(#[trigger] self.bets@[q], market_id)
                            && self.bets@[q].owner@ == o;
                } else {
                    lemma_refund_absent(self.bets@, market_id, o);
                }
            }
        }
        true
    }

    /// Cancels a market that is open or locked: every unsettled bet on it is
    /// settled with its full stake refunded to its owner.
    pub fn cancel_market(&mut self, market_id: MarketId) -> (r: Result<(), LedgerError>)
        requires
            old(self).wf(),
        ensures
            final(self).wf(),
            old(self).settled_bets_kept(final(self)),
            cancel_post(*old(self), *final(self), market_id, r),
    {
        let i = match self.find_market(market_id) {
            Some(i) => i,
            None => {
                return Err(LedgerError::MarketNotFound);
            },
        };
        if self.markets[i].status == MarketStatus::Resolved {
            return Err(LedgerError::CannotCancelResolvedMarket);
        }
        if self.markets[i].status == MarketStatus::Cancelled {
            return Err(LedgerError::MarketNotOpen);
        }
        if !self.refunds_fit(market_id) {
            return Err(LedgerError::Overflow);
        }
        let ghost a = *self;
        let mut j: usize = 0;
        while j < self.bets.len()
            invariant
                self.wf(),
                j <= self.bets.len(),
                self.bets@.len() == a.bets@.len(),
                forall|k: int| 0 <= k < j ==> #[trigger] self.bets@[k] == refunded(a.bets@[k], market_id),
                forall|k: int| j <= k < a.bets@.len() ==> #[trigger] self.bets@[k] == a.bets@[k],
                forall|o: Seq<char>| #[trigger]
                    self.balance_of(o) == a.balance_of(o) + refund_total(
                        a.bets@.subrange(0, j as int),
                        market_id,
                        o,
                    ),
                self.markets@ == a.markets@,
                i < self.markets.len(),
                self.active_markets@ == a.active_markets@,
                a.wf(),
                !refund_overflows(a, market_id),
                self.deposited == a.deposited,
                self.withdrawn == a.withdrawn,
                self.claimed_net == a.claimed_net,
                self.protocol_fees == a.protocol_fees,
                self.total_volume == a.total_volume,
                self.next_market_id == a.next_market_id,
                self.fee_rate_bps == a.fee_rate_bps,
            decreases self.bets.len() - j,
        {
            let ghost before = *self;
            proof {
                assert(a.bets@.subrange(0, j as int + 1).drop_last() =~= a.bets@.subrange(
                    0,
                    j as int,
                ));
            }
            if self.bets[j].market_id == market_id && !self.bets[j].settled {
                let owner = self.bets[j].owner.clone();
                let amount = self.bets[j].amount;
                proof {
                    assert(a.bets@[j as int] == self.bets@[j as int]);
                    assert(a.bets@.subrange(0, j as int + 1).last() == a.bets@[j as int]);
                    lemma_refund_prefix(a.bets@, j as int + 1, market_id, owner@);
                    assert(a.balance_of(owner@) + refund_total(a.bets@, market_id, owner@)
                        <= u128::MAX);
                }
                let balance = self.get_balance(owner.as_str());
                self.set_balance(owner.as_str(), balance + amount);
                let ghost mid = *self;
                self.bets[j].settled = true;
                self.bets[j].payout = Some(amount);
                proof {
                    assert(self.bets@ =~= before.bets@.update(j as int, self.bets@[j as int]));
                    assert(outstanding_amounts(self.bets@) =~= outstanding_amounts(
                        before.bets@,
                    ).update(j as int, 0));
                    lemma_sum_update(outstanding_amounts(before.bets@), j as int, 0);
                    assert forall|o: Seq<char>| #[trigger]
                        self.balance_of(o) == a.balance_of(o) + refund_total(
                            a.bets@.subrange(0, j as int + 1),
                            market_id,
                            o,
                        ) by {
                        assert(self.balance_of(o) == mid.balance_of(o));
                        assert(before.balance_of(o) == a.balance_of(o) + refund_total(
                            a.bets@.subrange(0, j as int),
                            market_id,
                            o,
                        ));
                    }
                }
            }
            proof {
                Self::lemma_same_markets(&a, self);
            }
            j = j + 1;
        }
        proof {
            assert(a.bets@.subrange(0, j as int) =~= a.bets@);
        }
        let ghost c = *self;
        self.markets[i].status = MarketStatus::Cancelled;
        proof {
            assert(self.markets@ =~= c.markets@.update(i as int, self.markets@[i as int]));
            Self::lemma_market_replaced(&c, self, i as int, self.markets@[i as int]);
            Self::lemma_same_markets(&c, &a);
        }
        let ghost d = *self;
        let ghost x = self.markets@[i as int];
        self.remove_active_market(market_id);
        proof {
            Self::lemma_same_markets(&d, self);
            Self::lemma_active_reset(&c, self, market_id, x);
            assert(c.market_map().dom().contains(market_id));
            assert forall|id: MarketId| #[trigger]
                self.market_map().dom().contains(id) implies id < self.next_market_id by {
                assert(c.market_map().dom().contains(id));
            }
            assert forall|o: Seq<char>| #[trigger] self.balance_of(o) == c.balance_of(o) by {
                assert(d.balance_of(o) == c.balance_of(o));
            }
        }
        Ok(())
    }

    /// The owner of a bet on a resolved market settles it: a winning bet is
    /// credited its payout at the odds recorded when it was placed, less the
    /// protocol fee, which is collected; a losing bet is settled with nothing.
    /// Returns the amount credited.
    pub fn claim_winnings(&mut self, caller: &str, bet_id: BetId) -> (r: Result<
        Amount,
        LedgerError,
    >)
        requires
            old(self).wf(),
        ensures
            final(self).wf(),
            old(self).settled_bets_kept(final(self)),
            claim_post(*old(self), *final(self), caller@, bet_id, r),
    {
        if bet_id == 0 || bet_id > self.bets.len() as u64 {
            return Err(LedgerError::BetNotFound);
        }
        let j = (bet_id - 1) as usize;
        let o = caller.to_string();
        if self.bets[j].owner != o {
            return Err(LedgerError::NotBetOwner);
        }
        if self.bets[j].settled {
            return Err(LedgerError::AlreadySettled);
        }
        let i = match self.find_market(self.bets[j].market_id) {
            Some(i) => i,
            None => {
                return Err(LedgerError::MarketNotFound);
            },
        };
        if self.markets[i].status != MarketStatus::Resolved {
            return Err(LedgerError::MarketNotResolved);
        }
        let amount = self.bets[j].amount;
        let (gross, fee) = if self.markets[i].winning_option == Some(self.bets[j].option_id) {
            match checked_gross(amount, self.bets[j].odds) {
                Some(g) => (g, fee_for(g, self.fee_rate_bps)),
                None => {
                    return Err(LedgerError::Overflow);
                },
            }
        } else {
            (0, 0)
        };
        let payout = gross - fee;
        let balance = self.get_balance(caller);
        if balance > u128::MAX - payout || self.protocol_fees > u128::MAX - fee {
            return Err(LedgerError::Overflow);
        }
        let ghost a = *self;
        self.set_balance(caller, balance + payout);
        let ghost mid = *self;
        self.bets[j].settled = true;
        self.bets[j].payout = Some(payout);
        self.protocol_fees = self.protocol_fees + fee;
        self.claimed_net = Ghost(self.claimed_net@ - amount + gross);
        proof {
            assert(self.bets@ =~= a.bets@.update(j as int, self.bets@[j as int]));
            assert(outstanding_amounts(self.bets@) =~= outstanding_amounts(a.bets@).update(
                j as int,
                0,
            ));
            lemma_sum_update(outstanding_amounts(a.bets@), j as int, 0);
            assert forall|x: Seq<char>| #[trigger] self.balance_of(x) == mid.balance_of(x) by {}
            Self::lemma_same_markets(&a, self);
        }
        Ok(payout)
    }

    /// The odds and payout (after fees) that a winning bet of `amount` on
    /// option `option_id` of an open market would get if placed now, or
    /// `None` when no such bet can be priced.
    pub fn potential_payout(&self, market_id: MarketId, option_id: u8, amount: Amount) -> (r:
        Option<(u32, Amount)>)
        requires
            self.wf(),
        ensures
            ({
                let m = self.market(market_id);
                let k = option_id as int;
                let total = pool_total(m.options@) + amount;
                let odds = odds_of(total, m.options@[k].pool + amount);
                &&& r is Some <==> self.has_market(market_id) && m.status == MarketStatus::Open
                    && option_id < m.options.len() && total <= u128::MAX && gross_of(
                    amount as int,
                    odds,
                ) <= u128::MAX
                &&& r matches Some((o, p)) ==> o == odds && p == payout_of(
                    amount as int,
                    odds,
                    self.fee_rate_bps as int,
                )
            }),
    {
        let i = match self.find_market(market_id) {
            Some(i) => i,
            None => {
                return None;
            },
        };
        if self.markets[i].status != MarketStatus::Open {
            return None;
        }
        let k = option_id as usize;
        if k >= self.markets[i].options.len() {
            return None;
        }
        let total_pool = match Self::sum_pools(&self.markets[i].options) {
            Some(t) => t,
            None => {
                return None;
            },
        };
        if total_pool > u128::MAX - amount {
            return None;
        }
        proof {
            lemma_pool_total_bound(self.markets@[i as int].options@, k as int);
        }
        let odds = Self::calculate_odds(total_pool + amount, self.markets[i].options[k].pool + amount);
        match checked_gross(amount, odds) {
            Some(gross) => Some((odds, gross - fee_for(gross, self.fee_rate_bps))),
            None => None,
        }
    }
}

} // verus!
