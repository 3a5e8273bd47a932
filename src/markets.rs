//! The market table and the market lifecycle: creating, locking and
//! resolving markets, and the list of markets open for betting.
use vstd::prelude::*;
use crate::ledger::{
    lemma_push, lemma_without, market_wf, without, LivePredictState, MAX_OPTIONS, MIN_OPTIONS,
};
use crate::types::{LedgerError, Market, MarketId, MarketOption, MarketStatus, Timestamp};

verus! {

/// Why creating a market with `n_options` options locking at `locks_at` is
/// rejected by ledger `s` at time `now`, if it is.
pub open spec fn create_error(s: LivePredictState, now: Timestamp, n_options: int, locks_at: Timestamp) -> Option<
    LedgerError,
> {
    if !(MIN_OPTIONS <= n_options <= MAX_OPTIONS) {
        Some(LedgerError::InvalidOptionCount)
    } else if locks_at <= now {
        Some(LedgerError::LockTimeNotInFuture)
    } else if s.next_market_id == u64::MAX {
        Some(LedgerError::Overflow)
    } else {
        None
    }
}

/// What creating a market does to ledger `s`, ending in `t` with outcome `r`:
/// a new open market under a fresh id, with one empty pool per label, added
/// to the open-market list; nothing else changes.
pub open spec fn create_post(
    s: LivePredictState,
    t: LivePredictState,
    now: Timestamp,
    match_id: String,
    market_type: String,
    title: String,
    options: Seq<String>,
    locks_at: Timestamp,
    r: Result<MarketId, LedgerError>,
) -> bool {
    &&& r is Ok <==> create_error(s, now, options.len() as int, locks_at) is None
    &&& r matches Err(e) ==> create_error(s, now, options.len() as int, locks_at) == Some(e) && t
        == s
    &&& r matches Ok(id) ==> {
        let m = t.market(id);
        &&& id == s.next_market_id
        &&& !s.has_market(id)
        &&& t.next_market_id == id + 1
        &&& t.market_map() == s.market_map().insert(id, m)
        &&& m.id == id
        &&& m.match_id == match_id
        &&& m.market_type == market_type
        &&& m.title == title
        &&& m.options.len() == options.len()
        &&& forall|k: int|
            0 <= k < options.len() ==> (#[trigger] m.options@[k]).label == options[k]
                && m.options@[k].pool == 0 && m.options@[k].id == k
        &&& m.status == MarketStatus::Open
        &&& m.created_at == now
        &&& m.locks_at == locks_at
        &&& m.winning_option is None
        &&& t.active_markets@ == s.active_markets@.push(id)
        &&& t.same_funds(&s)
        &&& t.same_accounts(&s)
    }
}

/// Why locking market `market_id` is rejected by ledger `s`, if it is.
pub open spec fn lock_error(s: LivePredictState, market_id: MarketId) -> Option<LedgerError> {
    if !s.has_market(market_id) {
        Some(LedgerError::MarketNotFound)
    } else if s.market(market_id).status != MarketStatus::Open {
        Some(LedgerError::MarketNotOpen)
    } else {
        None
    }
}

/// What locking market `market_id` does to ledger `s`, ending in `t` with
/// outcome `r`: an open market becomes locked and leaves the open-market list.
pub open spec fn lock_post(
    s: LivePredictState,
    t: LivePredictState,
    market_id: MarketId,
    r: Result<(), LedgerError>,
) -> bool {
    &&& r is Ok <==> lock_error(s, market_id) is None
    &&& r matches Err(e) ==> lock_error(s, market_id) == Some(e) && t == s
    &&& r is Ok ==> {
        &&& t.market_map() == s.market_map().insert(
            market_id,
            Market { status: MarketStatus::Locked, ..s.market(market_id) },
        )
        &&& t.active_markets@ == without(s.active_markets@, market_id)
        &&& t.same_funds(&s)
        &&& t.same_accounts(&s)
        &&& t.next_market_id == s.next_market_id
    }
}

/// Why resolving market `market_id` with `winning_option` is rejected by
/// ledger `s`, if it is. Resolved and cancelled markets are final.
pub open spec fn resolve_error(s: LivePredictState, market_id: MarketId, winning_option: u8) -> Option<
    LedgerError,
> {
    let m = s.market(market_id);
    if !s.has_market(market_id) {
        Some(LedgerError::MarketNotFound)
    } else if m.status == MarketStatus::Resolved {
        Some(LedgerError::AlreadyResolved)
    } else if winning_option >= m.options.len() {
        Some(LedgerError::InvalidWinningOption)
    } else if m.status == MarketStatus::Cancelled {
        Some(LedgerError::MarketCancelled)
    } else {
        None
    }
}

/// What resolving market `market_id` with `winning_option` does to ledger
/// `s`, ending in `t` with outcome `r`: an open or locked market becomes
/// resolved with that outcome and leaves the open-market list.
pub open spec fn resolve_post(
    s: LivePredictState,
    t: LivePredictState,
    market_id: MarketId,
    winning_option: u8,
    r: Result<(), LedgerError>,
) -> bool {
    &&& r is Ok <==> resolve_error(s, market_id, winning_option) is None
    &&& r matches Err(e) ==> resolve_error(s, market_id, winning_option) == Some(e) && t == s
    &&& r is Ok ==> {
        &&& t.market_map() == s.market_map().insert(
            market_id,
            Market {
                status: MarketStatus::Resolved,
                winning_option: Some(winning_option),
                ..s.market(market_id)
            },
        )
        &&& t.active_markets@ == without(s.active_markets@, market_id)
        &&& t.same_funds(&s)
        &&& t.same_accounts(&s)
        &&& t.next_market_id == s.next_market_id
    }
}

impl LivePredictState {
    /// The market at position `j` is the one its id names.
    proof fn lemma_market_pos(&self, j: int)
        requires
            self.markets_wf(),
            0 <= j < self.markets.len(),
        ensures
            self.has_market(self.markets@[j].id),
            self.market_pos(self.markets@[j].id) == j,
            self.market(self.markets@[j].id) == self.markets@[j],
    {
        let id = self.markets@[j].id;
        assert(self.has_market(id));
        let p = self.market_pos(id);
        if p < j {
            assert(self.markets@[p].id != self.markets@[j].id);
        } else if p > j {
            assert(self.markets@[j].id != self.markets@[p].id);
        }
    }

    /// Replacing the market at position `i` by one with the same id updates
    /// the map at that id and nothing else.
    pub(crate) proof fn lemma_market_replaced(a: &Self, b: &Self, i: int, x: Market)
        requires
            a.markets_wf(),
            market_wf(x),
            0 <= i < a.markets.len(),
            x.id == a.markets@[i].id,
            b.markets@ == a.markets@.update(i, x),
        ensures
            b.markets_wf(),
            b.market_map() == a.market_map().insert(x.id, x),
    {
        assert forall|p: int, q: int|
            0 <= p < q < b.markets.len() implies (#[trigger] b.markets@[p]).id
                != (#[trigger] b.markets@[q]).id by {
            assert(a.markets@[p].id != a.markets@[q].id);
        }
        assert forall|p: int| 0 <= p < b.markets.len() implies market_wf(
            #[trigger] b.markets@[p],
        ) by {
            assert(market_wf(a.markets@[p]));
        }
        a.lemma_market_pos(i);
        b.lemma_market_pos(i);
        assert forall|id: MarketId| #[trigger] b.has_market(id) == a.market_map().insert(
            x.id,
            x,
        ).dom().contains(id) by {
            if b.has_market(id) {
                let j = b.market_pos(id);
                if j != i {
                    a.lemma_market_pos(j);
                }
            }
            if a.has_market(id) {
                let j = a.market_pos(id);
                if j != i {
                    b.lemma_market_pos(j);
                }
            }
        }
        assert forall|id: MarketId| #[trigger] b.has_market(id) implies b.market(id)
            == a.market_map().insert(x.id, x)[id] by {
            let j = b.market_pos(id);
            b.lemma_market_pos(j);
            if j != i {
                a.lemma_market_pos(j);
            }
        }
        assert(b.market_map() =~= a.market_map().insert(x.id, x));
    }

    /// Appending a market with a new id adds it to the map.
    proof fn lemma_market_added(a: &Self, b: &Self, x: Market)
        requires
            a.markets_wf(),
            market_wf(x),
            !a.has_market(x.id),
            b.markets@ == a.markets@.push(x),
        ensures
            b.markets_wf(),
            b.market_map() == a.market_map().insert(x.id, x),
    {
        let n = a.markets.len() as int;
        assert forall|p: int, q: int|
            0 <= p < q < b.markets.len() implies (#[trigger] b.markets@[p]).id
                != (#[trigger] b.markets@[q]).id by {
            if q < n {
                assert(a.markets@[p].id != a.markets@[q].id);
            } else {
                assert(a.markets@[p] == b.markets@[p]);
            }
        }
        assert forall|p: int| 0 <= p < b.markets.len() implies market_wf(
            #[trigger] b.markets@[p],
        ) by {
            if p < n {
                assert(market_wf(a.markets@[p]));
            }
        }
        b.lemma_market_pos(n);
        assert forall|id: MarketId| #[trigger] b.has_market(id) == a.market_map().insert(
            x.id,
            x,
        ).dom().contains(id) by {
            if b.has_market(id) {
                let j = b.market_pos(id);
                if j != n {
                    a.lemma_market_pos(j);
                }
            }
            if a.has_market(id) {
                let j = a.market_pos(id);
                b.lemma_market_pos(j);
            }
        }
        assert forall|id: MarketId| #[trigger] b.has_market(id) implies b.market(id)
            == a.market_map().insert(x.id, x)[id] by {
            let j = b.market_pos(id);
            b.lemma_market_pos(j);
            if j != n {
                a.lemma_market_pos(j);
            }
        }
        assert(b.market_map() =~= a.market_map().insert(x.id, x));
    }

    /// Two ledgers with the same market table see the same markets.
    pub(crate) proof fn lemma_same_markets(a: &Self, b: &Self)
        requires
            a.markets@ == b.markets@,
        ensures
            a.market_map() == b.market_map(),
            forall|id: MarketId| #[trigger] a.has_market(id) == b.has_market(id),
            forall|id: MarketId| #[trigger] a.market(id) == b.market(id),
    {
        assert forall|id: MarketId| #[trigger] a.has_market(id) == b.has_market(id) by {
            if a.has_market(id) {
                let j = a.market_pos(id);
                assert(b.markets@[j].id == id);
            }
            if b.has_market(id) {
                let j = b.market_pos(id);
                assert(a.markets@[j].id == id);
            }
        }
        assert forall|id: MarketId| #[trigger] a.market(id) == b.market(id) by {
            assert(a.market_pos(id) == b.market_pos(id));
        }
        assert(a.market_map() =~= b.market_map());
    }

    /// After market `id` is replaced by `x`, the open-market list is right
    /// once `id` is taken out of it and put back at the end if `x` is open.
    pub(crate) proof fn lemma_active_reset(a: &Self, b: &Self, id: MarketId, x: Market)
        requires
            a.active_wf(),
            b.market_map() == a.market_map().insert(id, x),
            b.active_markets@ == if x.status == MarketStatus::Open {
                without(a.active_markets@, id).push(id)
            } else {
                without(a.active_markets@, id)
            },
        ensures
            b.active_wf(),
    {
        let w = without(a.active_markets@, id);
        lemma_without(a.active_markets@, id);
        lemma_push(w, id);
        assert(b.market_map().dom() =~= a.market_map().dom().insert(id));
    }

    /// Replacing market `id` by one in the same status keeps the open-market
    /// list right and the set of ids unchanged.
    pub(crate) proof fn lemma_active_same_status(a: &Self, b: &Self, id: MarketId, x: Market)
        requires
            a.active_wf(),
            a.market_map().dom().contains(id),
            a.market_map()[id].status == x.status,
            b.market_map() == a.market_map().insert(id, x),
            b.active_markets@ == a.active_markets@,
        ensures
            b.active_wf(),
            b.market_map().dom() == a.market_map().dom(),
    {
        assert(b.market_map().dom() =~= a.market_map().dom());
    }

    /// Position of the market with id `market_id`, if there is one.
    pub(crate) fn find_market(&self, market_id: MarketId) -> (r: Option<usize>)
        requires
            self.markets_wf(),
        ensures
            r is Some <==> self.has_market(market_id),
            r matches Some(i) ==> i < self.markets.len() && i == self.market_pos(market_id)
                && self.markets@[i as int] == self.market(market_id),
    {
        let mut i: usize = 0;
        while i < self.markets.len()
            invariant
                self.markets_wf(),
                i <= self.markets.len(),
                forall|k: int| 0 <= k < i ==> self.markets@[k].id != market_id,
            decreases self.markets.len() - i,
        {
            if self.markets[i].id == market_id {
                proof {
                    self.lemma_market_pos(i as int);
                }
                return Some(i);
            }
            i = i + 1;
        }
        None
    }

    /// The market with id `market_id`, if there is one.
    pub fn get_market(&self, market_id: MarketId) -> (r: Option<&Market>)
        requires
            self.wf(),
        ensures
            r is Some <==> self.has_market(market_id),
            r matches Some(m) ==> *m == self.market(market_id),
    {
        match self.find_market(market_id) {
            Some(i) => Some(&self.markets[i]),
            None => None,
        }
    }

    /// Stores `m`, replacing any market with the same id.
    pub(crate) fn put_market(&mut self, m: Market)
        requires
            old(self).markets_wf(),
            market_wf(m),
        ensures
            final(self).markets_wf(),
            final(self).market_map() == old(self).market_map().insert(m.id, m),
            final(self).same_funds(old(self)),
            final(self).same_accounts(old(self)),
            final(self).next_market_id == old(self).next_market_id,
            final(self).active_markets@ == old(self).active_markets@,
    {
        let ghost a = *self;
        let ghost x = m;
        match self.find_market(m.id) {
            Some(i) => {
                self.markets.set(i, m);
                proof {
                    Self::lemma_market_replaced(&a, self, i as int, x);
                }
            },
            None => {
                self.markets.push(m);
                proof {
                    Self::lemma_market_added(&a, self, x);
                }
            },
        }
    }

    /// Whether `m` keeps a market's invariant.
    pub(crate) fn market_is_valid(m: &Market) -> (r: bool)
        ensures
            r == market_wf(*m),
    {
        let n = m.options.len();
        if n < MIN_OPTIONS || n > MAX_OPTIONS || m.created_at >= m.locks_at {
            return false;
        }
        let mut k: usize = 0;
        while k < n
            invariant
                n == m.options.len(),
                k <= n,
                forall|q: int| 0 <= q < k ==> (#[trigger] m.options@[q]).id == q,
            decreases n - k,
        {
            if m.options[k].id as usize != k {
                return false;
            }
            k = k + 1;
        }
        match m.winning_option {
            Some(w) => m.status == MarketStatus::Resolved && (w as usize) < n,
            None => m.status != MarketStatus::Resolved,
        }
    }

    /// Adds `market_id` to the open-market list.
    pub fn add_active_market(&mut self, market_id: MarketId)
        ensures
            final(self).active_markets@ == old(self).active_markets@.push(market_id),
            final(self).same_funds(old(self)),
            final(self).same_accounts(old(self)),
            final(self).markets@ == old(self).markets@,
            final(self).next_market_id == old(self).next_market_id,
    {
        self.active_markets.push(market_id);
    }

    /// Removes every occurrence of `market_id` from the open-market list.
    pub fn remove_active_market(&mut self, market_id: MarketId)
        ensures
            final(self).active_markets@ == without(old(self).active_markets@, market_id),
            final(self).same_funds(old(self)),
            final(self).same_accounts(old(self)),
            final(self).markets@ == old(self).markets@,
            final(self).next_market_id == old(self).next_market_id,
    {
        let mut kept: Vec<MarketId> = Vec::new();
        let mut i: usize = 0;
        while i < self.active_markets.len()
            invariant
                i <= self.active_markets.len(),
                kept@ == without(self.active_markets@.subrange(0, i as int), market_id),
            decreases self.active_markets.len() - i,
        {
            let id = self.active_markets[i];
            proof {
                let s = self.active_markets@.subrange(0, i as int + 1);
                assert(s.drop_last() =~= self.active_markets@.subrange(0, i as int));
            }
            if id != market_id {
                kept.push(id);
            }
            i = i + 1;
        }
        proof {
            assert(self.active_markets@.subrange(0, i as int) =~= self.active_markets@);
        }
        self.active_markets = kept;
    }

    /// Hands out the next market id and advances the counter.
    pub fn allocate_market_id(&mut self) -> (id: MarketId)
        requires
            old(self).next_market_id < u64::MAX,
        ensures
            id == old(self).next_market_id,
            final(self).next_market_id == id + 1,
            final(self).same_funds(old(self)),
            final(self).same_accounts(old(self)),
            final(self).markets@ == old(self).markets@,
            final(self).active_markets@ == old(self).active_markets@,
    {
        let id = self.next_market_id;
        self.next_market_id = id + 1;
        id
    }

    /// Opens a new market with one zero pool per label, locking at `locks_at`.
    pub fn create_market(
        &mut self,
        now: Timestamp,
        match_id: String,
        market_type: String,
        title: String,
        options: Vec<String>,
        locks_at: Timestamp,
    ) -> (r: Result<MarketId, LedgerError>)
        requires
            old(self).wf(),
        ensures
            final(self).wf(),
            create_post(
                *old(self),
                *final(self),
                now,
                match_id,
                market_type,
                title,
                options@,
                locks_at,
                r,
            ),
    {
        if options.len() < MIN_OPTIONS || options.len() > MAX_OPTIONS {
            return Err(LedgerError::InvalidOptionCount);
        }
        if locks_at <= now {
            return Err(LedgerError::LockTimeNotInFuture);
        }
        if self.next_market_id == u64::MAX {
            return Err(LedgerError::Overflow);
        }
        let ghost a0 = *self;
        let market_id = self.allocate_market_id();
        let mut opts: Vec<MarketOption> = Vec::new();
        let mut i: usize = 0;
        while i < options.len()
            invariant
                options.len() <= MAX_OPTIONS,
                i <= options.len(),
                opts.len() == i,
                forall|k: int|
                    0 <= k < i ==> (#[trigger] opts@[k]).label == options@[k] && opts@[k].pool
                        == 0 && opts@[k].id == k,
            decreases options.len() - i,
        {
            opts.push(MarketOption { id: i as u8, label: options[i].clone(), pool: 0 });
            i = i + 1;
        }
        let market = Market {
            id: market_id,
            match_id,
            market_type,
            title,
            options: opts,
            status: MarketStatus::Open,
            created_at: now,
            locks_at,
            winning_option: None,
        };
        let ghost gm = market;
        let ghost a = *self;
        proof {
            assert(!a0.market_map().dom().contains(market_id));
            Self::lemma_same_markets(&a0, &a);
        }
        self.put_market(market);
        let ghost mid = *self;
        self.add_active_market(market_id);
        proof {
            Self::lemma_same_markets(&mid, self);
            assert(self.market_map().dom().contains(market_id));
            assert(self.market_map()[market_id] == self.market(market_id));
            lemma_without(a.active_markets@, market_id);
            assert(!a.active_markets@.contains(market_id));
            Self::lemma_active_reset(&a, self, market_id, gm);
        }
        Ok(market_id)
    }

    /// Stops betting on an open market.
    pub fn lock_market(&mut self, market_id: MarketId) -> (r: Result<(), LedgerError>)
        requires
            old(self).wf(),
        ensures
            final(self).wf(),
            lock_post(*old(self), *final(self), market_id, r),
    {
        let i = match self.find_market(market_id) {
            Some(i) => i,
            None => {
                return Err(LedgerError::MarketNotFound);
            },
        };
        if self.markets[i].status != MarketStatus::Open {
            return Err(LedgerError::MarketNotOpen);
        }
        let ghost a = *self;
        self.markets[i].status = MarketStatus::Locked;
        proof {
            assert(self.markets@ =~= a.markets@.update(i as int, self.markets@[i as int]));
            Self::lemma_market_replaced(&a, self, i as int, self.markets@[i as int]);
        }
        let ghost x = self.markets@[i as int];
        let ghost mid = *self;
        self.remove_active_market(market_id);
        proof {
            Self::lemma_same_markets(&mid, self);
            Self::lemma_active_reset(&a, self, market_id, x);
            assert(a.market_map().dom().contains(market_id));
            assert forall|id: MarketId| #[trigger]
                self.market_map().dom().contains(id) implies id < self.next_market_id by {
                assert(a.market_map().dom().contains(id));
            }
        }
        Ok(())
    }

    /// Records `winning_option` as the outcome of a market that is open or
    /// locked.
    pub fn resolve_market(&mut self, market_id: MarketId, winning_option: u8) -> (r: Result<
        (),
        LedgerError,
    >)
        requires
            old(self).wf(),
        ensures
            final(self).wf(),
            resolve_post(*old(self), *final(self), market_id, winning_option, r),
    {
        let i = match self.find_market(market_id) {
            Some(i) => i,
            None => {
                return Err(LedgerError::MarketNotFound);
            },
        };
        if self.markets[i].status == MarketStatus::Resolved {
            return Err(LedgerError::AlreadyResolved);
        }
        if winning_option as usize >= self.markets[i].options.len() {
            return Err(LedgerError::InvalidWinningOption);
        }
        if self.markets[i].status == MarketStatus::Cancelled {
            return Err(LedgerError::MarketCancelled);
        }
        let ghost a = *self;
        self.markets[i].status = MarketStatus::Resolved;
        self.markets[i].winning_option = Some(winning_option);
        proof {
            assert(self.markets@ =~= a.markets@.update(i as int, self.markets@[i as int]));
            Self::lemma_market_replaced(&a, self, i as int, self.markets@[i as int]);
        }
        let ghost x = self.markets@[i as int];
        let ghost mid = *self;
        self.remove_active_market(market_id);
        proof {
            Self::lemma_same_markets(&mid, self);
            Self::lemma_active_reset(&a, self, market_id, x);
            assert(a.market_map().dom().contains(market_id));
            assert forall|id: MarketId| #[trigger]
                self.market_map().dom().contains(id) implies id < self.next_market_id by {
                assert(a.market_map().dom().contains(id));
            }
        }
        Ok(())
    }
}

} // verus!
