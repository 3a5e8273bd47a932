//! Read-only indices over the bets and the open markets, rebuilt from the
//! primary tables on each call.
use vstd::prelude::*;
use crate::ledger::LivePredictState;
use crate::types::{Bet, BetId, MarketId};

verus! {

broadcast use vstd::string::to_string_from_display_ensures_for_str;

/// Ids of the bets in `s` owned by `owner`, in order of placement.
pub open spec fn bets_of_owner(s: Seq<Bet>, owner: Seq<char>) -> Seq<BetId>
    decreases s.len(),
{
    if s.len() == 0 {
        Seq::empty()
    } else if s.last().owner@ == owner {
        bets_of_owner(s.drop_last(), owner).push(s.last().id)
    } else {
        bets_of_owner(s.drop_last(), owner)
    }
}

/// Ids of the bets in `s` placed on market `market_id`, in order of placement.
pub open spec fn bets_of_market(s: Seq<Bet>, market_id: MarketId) -> Seq<BetId>
    decreases s.len(),
{
    if s.len() == 0 {
        Seq::empty()
    } else if s.last().market_id == market_id {
        bets_of_market(s.drop_last(), market_id).push(s.last().id)
    } else {
        bets_of_market(s.drop_last(), market_id)
    }
}

/// The ids among `ids` of markets of ledger `s` that belong to match `match_id`.
pub open spec fn markets_of_match(s: LivePredictState, ids: Seq<MarketId>, match_id: Seq<char>) -> Seq<
    MarketId,
>
    decreases ids.len(),
{
    if ids.len() == 0 {
        Seq::empty()
    } else if s.has_market(ids.last()) && s.market(ids.last()).match_id@ == match_id {
        markets_of_match(s, ids.drop_last(), match_id).push(ids.last())
    } else {
        markets_of_match(s, ids.drop_last(), match_id)
    }
}

impl LivePredictState {
    /// Ids of the caller's bets, in order of placement.
    pub fn user_bets(&self, owner: &str) -> (r: Vec<BetId>)
        ensures
            r@ == bets_of_owner(self.bets@, owner@),
    {
        let o = owner.to_string();
        let mut ids: Vec<BetId> = Vec::new();
        let mut j: usize = 0;
        while j < self.bets.len()
            invariant
                o@ == owner@,
                j <= self.bets.len(),
                ids@ == bets_of_owner(self.bets@.subrange(0, j as int), owner@),
            decreases self.bets.len() - j,
        {
            proof {
                assert(self.bets@.subrange(0, j as int + 1).drop_last() =~= self.bets@.subrange(
                    0,
                    j as int,
                ));
            }
            if self.bets[j].owner == o {
                ids.push(self.bets[j].id);
            }
            j = j + 1;
        }
        proof {
            assert(self.bets@.subrange(0, j as int) =~= self.bets@);
        }
        ids
    }

    /// Ids of the bets placed on market `market_id`, in order of placement.
    pub fn market_bets(&self, market_id: MarketId) -> (r: Vec<BetId>)
        ensures
            r@ == bets_of_market(self.bets@, market_id),
    {
        let mut ids: Vec<BetId> = Vec::new();
        let mut j: usize = 0;
        while j < self.bets.len()
            invariant
                j <= self.bets.len(),
                ids@ == bets_of_market(self.bets@.subrange(0, j as int), market_id),
            decreases self.bets.len() - j,
        {
            proof {
                assert(self.bets@.subrange(0, j as int + 1).drop_last() =~= self.bets@.subrange(
                    0,
                    j as int,
                ));
            }
            if self.bets[j].market_id == market_id {
                ids.push(self.bets[j].id);
            }
            j = j + 1;
        }
        proof {
            assert(self.bets@.subrange(0, j as int) =~= self.bets@);
        }
        ids
    }

    /// Ids of the open markets that belong to match `match_id`, in order of
    /// creation.
    pub fn markets_by_match(&self, match_id: &str) -> (r: Vec<MarketId>)
        requires
            self.wf(),
        ensures
            r@ == markets_of_match(*self, self.active_markets@, match_id@),
    {
        let q = match_id.to_string();
        let mut ids: Vec<MarketId> = Vec::new();
        let mut j: usize = 0;
        while j < self.active_markets.len()
            invariant
                self.wf(),
                q@ == match_id@,
                j <= self.active_markets.len(),
                ids@ == markets_of_match(*self, self.active_markets@.subrange(0, j as int), match_id@),
            decreases self.active_markets.len() - j,
        {
            proof {
                assert(self.active_markets@.subrange(0, j as int + 1).drop_last()
                    =~= self.active_markets@.subrange(0, j as int));
            }
            let id = self.active_markets[j];
            match self.find_market(id) {
                Some(i) => {
                    if self.markets[i].match_id == q {
                        ids.push(id);
                    }
                },
                None => {},
            }
            j = j + 1;
        }
        proof {
            assert(self.active_markets@.subrange(0, j as int) =~= self.active_markets@);
        }
        ids
    }
}

} // verus!
