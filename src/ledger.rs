//! The ledger's state: markets, bets and balances, with the invariant every
//! operation keeps, and the balance operations.
//!
//! Every operation either fails with a `LedgerError` and leaves the ledger
//! exactly as it was, or applies all of its effects. The value the ledger
//! holds (balances, stakes of unsettled bets and collected fees) always equals
//! what was deposited less what was withdrawn, adjusted by what claims paid.
use vstd::prelude::*;
use crate::types::{Amount, Bet, BetId, LedgerError, Market, MarketId, MarketStatus};

verus! {

broadcast use vstd::string::to_string_from_display_ensures_for_str;

/// Highest protocol fee rate, in basis points (5%).
pub const MAX_FEE_RATE_BPS: u32 = 500;

/// Fewest options a market may have.
pub const MIN_OPTIONS: usize = 2;

/// Most options a market may have.
pub const MAX_OPTIONS: usize = 10;

/// The whole state of one ledger instance.
pub struct LivePredictState {
    /// Identifier that the next created market gets.
    pub next_market_id: MarketId,
    /// Identifier that the next placed bet gets.
    pub next_bet_id: BetId,
    /// All markets; no two share an identifier.
    pub markets: Vec<Market>,
    /// All bets in order of placement; the bet at position `i` has id `i + 1`.
    pub bets: Vec<Bet>,
    /// Spendable balance of each owner; no owner appears twice.
    pub balances: Vec<(String, Amount)>,
    /// Markets still open for betting, in order of creation.
    pub active_markets: Vec<MarketId>,
    /// Lifetime amount wagered.
    pub total_volume: Amount,
    /// Protocol fee rate in basis points.
    pub fee_rate_bps: u32,
    /// Fees collected from winning claims.
    pub protocol_fees: Amount,
    /// Everything ever deposited.
    pub deposited: Ghost<int>,
    /// Everything ever withdrawn.
    pub withdrawn: Ghost<int>,
    /// Value that claims added to the ledger (gross payouts) less the stakes
    /// they settled; a losing claim lowers it by the stake.
    pub claimed_net: Ghost<int>,
}

/// Sum of a sequence of integers.
pub open spec fn sum_of(s: Seq<int>) -> int
    decreases s.len(),
{
    if s.len() == 0 {
        0
    } else {
        s[0] + sum_of(s.drop_first())
    }
}

/// The amounts of a balance table.
pub open spec fn balance_amounts(s: Seq<(String, Amount)>) -> Seq<int> {
    s.map_values(|e: (String, Amount)| e.1 as int)
}

/// The stake a bet still holds in the ledger: its amount until it is settled.
pub open spec fn outstanding(b: Bet) -> int {
    if b.settled {
        0
    } else {
        b.amount as int
    }
}

/// What each bet still holds in the ledger.
pub open spec fn outstanding_amounts(s: Seq<Bet>) -> Seq<int> {
    s.map_values(|b: Bet| outstanding(b))
}

/// The balance recorded for `owner` in a balance table (0 if absent).
pub open spec fn balance_in(s: Seq<(String, Amount)>, owner: Seq<char>) -> int
    decreases s.len(),
{
    if s.len() == 0 {
        0
    } else if s[0].0@ == owner {
        s[0].1 as int
    } else {
        balance_in(s.drop_first(), owner)
    }
}

/// A market's own invariant: 2 to 10 options numbered by position, a lock
/// time after its creation, and a winning option exactly when resolved,
/// naming one of the options.
pub open spec fn market_wf(m: Market) -> bool {
    &&& m.created_at < m.locks_at
    &&& MIN_OPTIONS <= m.options.len() <= MAX_OPTIONS
    &&& forall|k: int| 0 <= k < m.options.len() ==> (#[trigger] m.options@[k]).id == k
    &&& (m.status == MarketStatus::Resolved) == (m.winning_option is Some)
    &&& m.winning_option matches Some(w) ==> (w as int) < m.options.len()
}

/// A bet's own invariant: a payout exactly when settled.
pub open spec fn bet_wf(b: Bet) -> bool {
    b.settled == (b.payout is Some)
}

/// A status from which no transition is allowed.
pub open spec fn is_terminal(s: MarketStatus) -> bool {
    s == MarketStatus::Resolved || s == MarketStatus::Cancelled
}

/// `s` with every occurrence of `id` removed, order kept.
pub open spec fn without(s: Seq<MarketId>, id: MarketId) -> Seq<MarketId>
    decreases s.len(),
{
    if s.len() == 0 {
        s
    } else if s.last() == id {
        without(s.drop_last(), id)
    } else {
        without(s.drop_last(), id).push(s.last())
    }
}

pub(crate) proof fn lemma_sum_push(s: Seq<int>, x: int)
    ensures
        sum_of(s.push(x)) == sum_of(s) + x,
    decreases s.len(),
{
    if s.len() > 0 {
        assert(s.push(x).drop_first() =~= s.drop_first().push(x));
        lemma_sum_push(s.drop_first(), x);
    } else {
        assert(s.push(x).drop_first() =~= s);
    }
}

pub(crate) proof fn lemma_sum_update(s: Seq<int>, i: int, x: int)
    requires
        0 <= i < s.len(),
    ensures
        sum_of(s.update(i, x)) == sum_of(s) - s[i] + x,
    decreases s.len(),
{
    if i > 0 {
        assert(s.update(i, x).drop_first() =~= s.drop_first().update(i - 1, x));
        lemma_sum_update(s.drop_first(), i - 1, x);
    } else {
        assert(s.update(i, x).drop_first() =~= s.drop_first());
    }
}

pub(crate) proof fn lemma_balance_range(s: Seq<(String, Amount)>, owner: Seq<char>)
    ensures
        0 <= balance_in(s, owner) <= u128::MAX,
    decreases s.len(),
{
    if s.len() > 0 {
        lemma_balance_range(s.drop_first(), owner);
    }
}

proof fn lemma_balance_at(s: Seq<(String, Amount)>, owner: Seq<char>, i: int)
    requires
        0 <= i < s.len(),
        s[i].0@ == owner,
        forall|k: int| 0 <= k < i ==> s[k].0@ != owner,
    ensures
        balance_in(s, owner) == s[i].1,
    decreases i,
{
    if i > 0 {
        lemma_balance_at(s.drop_first(), owner, i - 1);
    }
}

proof fn lemma_balance_absent(s: Seq<(String, Amount)>, owner: Seq<char>)
    requires
        forall|k: int| 0 <= k < s.len() ==> s[k].0@ != owner,
    ensures
        balance_in(s, owner) == 0,
    decreases s.len(),
{
    if s.len() > 0 {
        lemma_balance_absent(s.drop_first(), owner);
    }
}

proof fn lemma_balance_update(s: Seq<(String, Amount)>, i: int, v: Amount, other: Seq<char>)
    requires
        0 <= i < s.len(),
        forall|k: int| 0 <= k < i ==> s[k].0@ != s[i].0@,
    ensures
        balance_in(s.update(i, (s[i].0, v)), other) == if other == s[i].0@ {
            v as int
        } else {
            balance_in(s, other)
        },
    decreases i,
{
    if i > 0 {
        assert(s.update(i, (s[i].0, v)).drop_first() =~= s.drop_first().update(i - 1, (s[i].0, v)));
        assert(s[0].0@ != s[i].0@);
        lemma_balance_update(s.drop_first(), i - 1, v, other);
    } else {
        assert(s.update(i, (s[i].0, v)).drop_first() =~= s.drop_first());
    }
}

proof fn lemma_balance_push(s: Seq<(String, Amount)>, e: (String, Amount), other: Seq<char>)
    requires
        forall|k: int| 0 <= k < s.len() ==> s[k].0@ != e.0@,
    ensures
        balance_in(s.push(e), other) == if other == e.0@ {
            e.1 as int
        } else {
            balance_in(s, other)
        },
    decreases s.len(),
{
    if s.len() > 0 {
        assert(s.push(e).drop_first() =~= s.drop_first().push(e));
        assert(s[0].0@ != e.0@);
        lemma_balance_push(s.drop_first(), e, other);
    } else {
        assert(s.push(e).drop_first() =~= s);
    }
}

pub(crate) proof fn lemma_push(w: Seq<MarketId>, y: MarketId)
    ensures
        forall|x: MarketId| #[trigger] w.push(y).contains(x) <==> (w.contains(x) || x == y),
        w.no_duplicates() && !w.contains(y) ==> w.push(y).no_duplicates(),
{
    let v = w.push(y);
    assert forall|x: MarketId| #[trigger] v.contains(x) <==> (w.contains(x) || x == y) by {
        if v.contains(x) {
            let k = choose|k: int| 0 <= k < v.len() && v[k] == x;
            if k < w.len() {
                assert(w[k] == x);
            }
        }
        if w.contains(x) {
            let k = choose|k: int| 0 <= k < w.len() && w[k] == x;
            assert(v[k] == x);
        }
        if x == y {
            assert(v[w.len() as int] == y);
        }
    }
    if w.no_duplicates() && !w.contains(y) {
        assert forall|i: int, j: int| 0 <= i < v.len() && 0 <= j < v.len() && i != j implies v[i]
            != v[j] by {
            if i < w.len() && j < w.len() {
                assert(w[i] != w[j]);
            } else if i < w.len() {
                assert(w.contains(w[i]));
            } else if j < w.len() {
                assert(w.contains(w[j]));
            }
        }
    }
}

pub(crate) proof fn lemma_without(s: Seq<MarketId>, id: MarketId)
    ensures
        forall|x: MarketId| #[trigger]
            without(s, id).contains(x) <==> (s.contains(x) && x != id),
        s.no_duplicates() ==> without(s, id).no_duplicates(),
        !s.contains(id) ==> without(s, id) == s,
    decreases s.len(),
{
    if s.len() > 0 {
        let p = s.drop_last();
        let w = without(p, id);
        lemma_without(p, id);
        assert(s =~= p.push(s.last()));
        lemma_push(p, s.last());
        lemma_push(w, s.last());
        if s.no_duplicates() {
            assert(p.no_duplicates()) by {
                assert forall|i: int, j: int|
                    0 <= i < p.len() && 0 <= j < p.len() && i != j implies p[i] != p[j] by {
                    assert(s[i] == p[i] && s[j] == p[j]);
                }
            }
            assert(!p.contains(s.last())) by {
                if p.contains(s.last()) {
                    let k = choose|k: int| 0 <= k < p.len() && p[k] == s.last();
                    assert(s[k] == s[s.len() - 1]);
                }
            }
        }
    } else {
        assert forall|x: MarketId| !(#[trigger] s.contains(x)) by {}
        assert forall|x: MarketId| !(#[trigger] without(s, id).contains(x)) by {}
    }
}

/// The balance of every owner is `before`'s, but the caller's, which is `nb`.
pub open spec fn balances_set(
    before: LivePredictState,
    after: LivePredictState,
    caller: Seq<char>,
    nb: int,
) -> bool {
    forall|o: Seq<char>| #[trigger]
        after.balance_of(o) == if o == caller {
            nb
        } else {
            before.balance_of(o)
        }
}

/// What a deposit of `amount` by `caller` does to ledger `s`, ending in `t`
/// with outcome `r`: the caller's balance grows by `amount` unless it would
/// overflow, in which case nothing changes.
pub open spec fn deposit_post(
    s: LivePredictState,
    t: LivePredictState,
    caller: Seq<char>,
    amount: Amount,
    r: Result<Amount, LedgerError>,
) -> bool {
    &&& r is Ok <==> s.balance_of(caller) + amount <= u128::MAX
    &&& r matches Err(e) ==> e == LedgerError::Overflow && t == s
    &&& r matches Ok(nb) ==> {
        &&& nb == s.balance_of(caller) + amount
        &&& balances_set(s, t, caller, nb as int)
        &&& t.same_but_balances(&s)
        &&& t.deposited@ == s.deposited@ + amount
        &&& t.withdrawn == s.withdrawn
        &&& t.claimed_net == s.claimed_net
        &&& t.value_held() == s.value_held() + amount
    }
}

/// What a withdrawal of `amount` by `caller` does to ledger `s`, ending in
/// `t` with outcome `r`: the caller's balance shrinks by `amount` if it holds
/// that much; otherwise nothing changes.
pub open spec fn withdraw_post(
    s: LivePredictState,
    t: LivePredictState,
    caller: Seq<char>,
    amount: Amount,
    r: Result<Amount, LedgerError>,
) -> bool {
    &&& r is Ok <==> amount <= s.balance_of(caller)
    &&& r matches Err(e) ==> e == LedgerError::InsufficientBalance && t == s
    &&& r matches Ok(nb) ==> {
        &&& nb == s.balance_of(caller) - amount
        &&& balances_set(s, t, caller, nb as int)
        &&& t.same_but_balances(&s)
        &&& t.withdrawn@ == s.withdrawn@ + amount
        &&& t.deposited == s.deposited
        &&& t.claimed_net == s.claimed_net
        &&& t.value_held() == s.value_held() - amount
    }
}

/// Conservation: at every point of a ledger's history, its balances, the
/// stakes of its unsettled bets and its collected fees add up to what was
/// deposited less what was withdrawn, adjusted only by what claims paid out
/// beyond (or short of) the stakes they settled.
pub proof fn lemma_conservation(s: LivePredictState)
    requires
        s.wf(),
    ensures
        s.total_balances() + s.total_outstanding() + s.protocol_fees == s.deposited@
            - s.withdrawn@ + s.claimed_net@,
{
}

/// Operations that leave balances, bets and fees alone (creating, locking
/// and resolving markets) leave the held value unchanged.
pub proof fn lemma_same_funds_same_value(a: LivePredictState, b: LivePredictState)
    requires
        b.same_funds(&a),
    ensures
        b.value_held() == a.value_held(),
{
}

impl LivePredictState {
    /// The spendable balance of `owner`.
    pub open spec fn balance_of(&self, owner: Seq<char>) -> int {
        balance_in(self.balances@, owner)
    }

    /// Sum of all balances.
    pub open spec fn total_balances(&self) -> int {
        sum_of(balance_amounts(self.balances@))
    }

    /// Sum of the stakes of all unsettled bets.
    pub open spec fn total_outstanding(&self) -> int {
        sum_of(outstanding_amounts(self.bets@))
    }

    /// The value the ledger holds: balances, unsettled stakes and fees.
    pub open spec fn value_held(&self) -> int {
        self.total_balances() + self.total_outstanding() + self.protocol_fees
    }

    /// Whether a market with this id exists.
    pub open spec fn has_market(&self, id: MarketId) -> bool {
        exists|i: int| 0 <= i < self.markets.len() && (#[trigger] self.markets@[i]).id == id
    }

    /// Position of the market with this id (meaningful when it exists).
    pub open spec fn market_pos(&self, id: MarketId) -> int {
        choose|i: int| 0 <= i < self.markets.len() && (#[trigger] self.markets@[i]).id == id
    }

    /// The market with this id (meaningful when it exists).
    pub open spec fn market(&self, id: MarketId) -> Market {
        self.markets@[self.market_pos(id)]
    }

    /// Whether a bet with this id exists.
    pub open spec fn has_bet(&self, id: BetId) -> bool {
        1 <= id <= self.bets.len()
    }

    /// The bet with this id (meaningful when it exists).
    pub open spec fn bet(&self, id: BetId) -> Bet {
        self.bets@[id - 1]
    }

    /// All markets, by id.
    pub open spec fn market_map(&self) -> Map<MarketId, Market> {
        Map::new(|id: MarketId| self.has_market(id), |id: MarketId| self.market(id))
    }

    /// No two markets share an id, and each market keeps its own invariant.
    pub open spec fn markets_wf(&self) -> bool {
        &&& forall|i: int, j: int|
            0 <= i < j < self.markets.len() ==> (#[trigger] self.markets@[i]).id
                != (#[trigger] self.markets@[j]).id
        &&& forall|i: int| 0 <= i < self.markets.len() ==> market_wf(#[trigger] self.markets@[i])
    }

    /// Balances, bets, fees and counters other than the market counter are
    /// the same in `self` and `o`.
    pub open spec fn same_funds(&self, o: &Self) -> bool {
        &&& self.next_bet_id == o.next_bet_id
        &&& self.balances@ == o.balances@
        &&& self.bets@ == o.bets@
        &&& self.total_volume == o.total_volume
        &&& self.fee_rate_bps == o.fee_rate_bps
        &&& self.protocol_fees == o.protocol_fees
        &&& self.deposited == o.deposited
        &&& self.withdrawn == o.withdrawn
        &&& self.claimed_net == o.claimed_net
    }

    /// The ledger's invariant.
    pub open spec fn wf(&self) -> bool {
        &&& self.fee_rate_bps <= MAX_FEE_RATE_BPS
        &&& self.markets_wf()
        &&& forall|i: int| 0 <= i < self.bets.len() ==> (#[trigger] self.bets@[i]).id == i + 1
        &&& forall|i: int| 0 <= i < self.bets.len() ==> bet_wf(#[trigger] self.bets@[i])
        &&& self.next_bet_id == self.bets.len() + 1
        &&& self.balances_unique()
        &&& forall|id: MarketId| #[trigger]
            self.market_map().dom().contains(id) ==> id < self.next_market_id
        &&& self.active_wf()
        &&& self.value_held() == self.deposited@ - self.withdrawn@ + self.claimed_net@
    }

    /// The open-market list holds each open market exactly once, and nothing else.
    pub open spec fn active_wf(&self) -> bool {
        &&& self.active_markets@.no_duplicates()
        &&& forall|id: MarketId| #[trigger]
            self.active_markets@.contains(id) <==> (self.market_map().dom().contains(id)
                && self.market_map()[id].status == MarketStatus::Open)
    }

    /// Settled bets stay as they are from `self` to `after`, and no bet is removed.
    pub open spec fn settled_bets_kept(&self, after: &Self) -> bool {
        &&& self.bets.len() <= after.bets.len()
        &&& forall|i: int|
            0 <= i < self.bets.len() && (#[trigger] self.bets@[i]).settled ==> after.bets@[i]
                == self.bets@[i]
    }

    /// No owner appears twice in the balance table.
    pub open spec fn balances_unique(&self) -> bool {
        forall|i: int, j: int|
            0 <= i < j < self.balances.len() ==> (#[trigger] self.balances@[i]).0@
                != (#[trigger] self.balances@[j]).0@
    }

    /// Everything but the balance table is the same in `self` and `o`.
    pub open spec fn same_but_balances(&self, o: &Self) -> bool {
        &&& self.next_market_id == o.next_market_id
        &&& self.next_bet_id == o.next_bet_id
        &&& self.markets@ == o.markets@
        &&& self.bets@ == o.bets@
        &&& self.active_markets@ == o.active_markets@
        &&& self.total_volume == o.total_volume
        &&& self.fee_rate_bps == o.fee_rate_bps
        &&& self.protocol_fees == o.protocol_fees
    }

    /// The hidden accounts of deposits, withdrawals and claims are the same in
    /// `self` and `o`.
    pub open spec fn same_accounts(&self, o: &Self) -> bool {
        &&& self.deposited == o.deposited
        &&& self.withdrawn == o.withdrawn
        &&& self.claimed_net == o.claimed_net
    }

    /// A fresh ledger charging `fee_rate_bps` on winning payouts.
    pub fn new(fee_rate_bps: u32) -> (s: Self)
        requires
            fee_rate_bps <= MAX_FEE_RATE_BPS,
        ensures
            s.wf(),
            s.fee_rate_bps == fee_rate_bps,
            s.next_market_id == 1,
            s.markets@.len() == 0,
            s.bets@.len() == 0,
            s.balances@.len() == 0,
            s.active_markets@.len() == 0,
            s.total_volume == 0,
            s.protocol_fees == 0,
            s.value_held() == 0,
    {
        let s = LivePredictState {
            next_market_id: 1,
            next_bet_id: 1,
            markets: Vec::new(),
            bets: Vec::new(),
            balances: Vec::new(),
            active_markets: Vec::new(),
            total_volume: 0,
            fee_rate_bps,
            protocol_fees: 0,
            deposited: Ghost(0),
            withdrawn: Ghost(0),
            claimed_net: Ghost(0),
        };
        proof {
            assert(balance_amounts(s.balances@) =~= Seq::<int>::empty());
            assert(outstanding_amounts(s.bets@) =~= Seq::<int>::empty());
        }
        s
    }

    /// Position of `owner` in the balance table, if present.
    fn find_owner(&self, owner: &String) -> (r: Option<usize>)
        ensures
            r matches Some(i) ==> i < self.balances.len() && self.balances@[i as int].0@ == owner@
                && forall|k: int| 0 <= k < i ==> self.balances@[k].0@ != owner@,
            r is None ==> forall|k: int|
                0 <= k < self.balances.len() ==> self.balances@[k].0@ != owner@,
    {
        let mut i: usize = 0;
        while i < self.balances.len()
            invariant
                i <= self.balances.len(),
                forall|k: int| 0 <= k < i ==> self.balances@[k].0@ != owner@,
            decreases self.balances.len() - i,
        {
            if self.balances[i].0 == *owner {
                return Some(i);
            }
            i = i + 1;
        }
        None
    }

    /// The spendable balance of `owner` (0 for an owner never seen).
    pub fn get_balance(&self, owner: &str) -> (r: Amount)
        ensures
            r == self.balance_of(owner@),
    {
        let o = owner.to_string();
        match self.find_owner(&o) {
            Some(i) => {
                proof {
                    lemma_balance_at(self.balances@, owner@, i as int);
                }
                self.balances[i].1
            },
            None => {
                proof {
                    lemma_balance_absent(self.balances@, owner@);
                }
                0
            },
        }
    }

    /// The bet with id `bet_id`, if there is one.
    pub fn get_bet(&self, bet_id: BetId) -> (r: Option<&Bet>)
        requires
            self.wf(),
        ensures
            r is Some <==> self.has_bet(bet_id),
            r matches Some(b) ==> *b == self.bet(bet_id),
    {
        if bet_id >= 1 && bet_id <= self.bets.len() as u64 {
            Some(&self.bets[(bet_id - 1) as usize])
        } else {
            None
        }
    }

    /// Sets the balance of `owner` to `amount`, adding the owner if new.
    /// Nothing else changes; the deposit and withdrawal accounts are left to the caller.
    pub(crate) fn set_balance(&mut self, owner: &str, amount: Amount)
        requires
            old(self).balances_unique(),
        ensures
            final(self).balances_unique(),
            final(self).same_but_balances(old(self)),
            final(self).same_accounts(old(self)),
            forall|o: Seq<char>| #[trigger]
                final(self).balance_of(o) == if o == owner@ {
                    amount as int
                } else {
                    old(self).balance_of(o)
                },
            final(self).total_balances() == old(self).total_balances() - old(self).balance_of(
                owner@,
            ) + amount,
    {
        let o = owner.to_string();
        let ghost before = self.balances@;
        match self.find_owner(&o) {
            Some(i) => {
                proof {
                    lemma_balance_at(before, owner@, i as int);
                    lemma_sum_update(balance_amounts(before), i as int, amount as int);
                }
                self.balances[i].1 = amount;
                proof {
                    assert(self.balances@ =~= before.update(i as int, (before[i as int].0, amount)));
                    assert(balance_amounts(self.balances@) =~= balance_amounts(before).update(
                        i as int,
                        amount as int,
                    ));
                    assert forall|x: Seq<char>| #[trigger]
                        self.balance_of(x) == if x == owner@ {
                            amount as int
                        } else {
                            balance_in(before, x)
                        } by {
                        lemma_balance_update(before, i as int, amount, x);
                    }
                }
            },
            None => {
                proof {
                    lemma_balance_absent(before, owner@);
                    lemma_sum_push(balance_amounts(before), amount as int);
                }
                self.balances.push((o, amount));
                proof {
                    assert(balance_amounts(self.balances@) =~= balance_amounts(before).push(
                        amount as int,
                    ));
                    assert forall|x: Seq<char>| #[trigger]
                        self.balance_of(x) == if x == owner@ {
                            amount as int
                        } else {
                            balance_in(before, x)
                        } by {
                        lemma_balance_push(before, (o, amount), x);
                    }
                }
            },
        }
    }

    /// Credits `amount` to the caller. Fails only when the caller's new
    /// balance would not fit in an amount.
    pub fn deposit(&mut self, caller: &str, amount: Amount) -> (r: Result<Amount, LedgerError>)
        requires
            old(self).wf(),
        ensures
            final(self).wf(),
            deposit_post(*old(self), *final(self), caller@, amount, r),
    {
        let balance = self.get_balance(caller);
        if balance > u128::MAX - amount {
            return Err(LedgerError::Overflow);
        }
        let nb = balance + amount;
        let ghost a = *self;
        self.set_balance(caller, nb);
        let ghost mid = *self;
        self.deposited = Ghost(self.deposited@ + amount);
        proof {
            assert forall|o: Seq<char>| #[trigger] self.balance_of(o) == mid.balance_of(o) by {}
            Self::lemma_same_markets(&a, self);
        }
        Ok(nb)
    }

    /// Debits `amount` from the caller, who must hold at least that much.
    pub fn withdraw(&mut self, caller: &str, amount: Amount) -> (r: Result<Amount, LedgerError>)
        requires
            old(self).wf(),
        ensures
            final(self).wf(),
            withdraw_post(*old(self), *final(self), caller@, amount, r),
    {
        let balance = self.get_balance(caller);
        if balance < amount {
            return Err(LedgerError::InsufficientBalance);
        }
        let nb = balance - amount;
        let ghost a = *self;
        self.set_balance(caller, nb);
        let ghost mid = *self;
        self.withdrawn = Ghost(self.withdrawn@ + amount);
        proof {
            assert forall|o: Seq<char>| #[trigger] self.balance_of(o) == mid.balance_of(o) by {}
            Self::lemma_same_markets(&a, self);
        }
        Ok(nb)
    }
}

} // verus!
