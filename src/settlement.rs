//! Pool-weighted odds and fee-adjusted payouts.
//!
//! Odds and payouts use fixed-point integers: odds are scaled by 1000 and fee
//! rates are in basis points (1/10000). Every division truncates.
use vstd::prelude::*;
use crate::types::Amount;
use vstd::arithmetic::div_mod::{
    lemma_div_is_ordered, lemma_hoist_over_denominator, lemma_div_multiples_vanish, lemma_fundamental_div_mod,
    lemma_fundamental_div_mod_converse,
};
use crate::ledger::LivePredictState;

verus! {

/// Scale of recorded odds: 1000 stands for 1.0x.
pub const ODDS_SCALE: u32 = 1000;

/// Odds given to the first stake on an empty option (2.0x).
pub const DEFAULT_ODDS: u32 = 2000;

/// Highest odds ever recorded (10.0x).
pub const MAX_ODDS: u32 = 10000;

/// Odds for an option holding `option` of a pool of `total`, scaled by 1000.
pub open spec fn odds_of(total: int, option: int) -> int {
    if option == 0 {
        2000
    } else if total * 1000 / option > 10000 {
        10000
    } else {
        total * 1000 / option
    }
}

/// What a stake returns at the given odds, before fees.
pub open spec fn gross_of(stake: int, odds: int) -> int {
    stake * odds / 1000
}

/// The fee taken from a gross payout at a rate in basis points.
pub open spec fn fee_of(gross: int, fee_rate_bps: int) -> int {
    gross * fee_rate_bps / 10000
}

/// What a winning stake is credited: the gross payout less the fee.
pub open spec fn payout_of(stake: int, odds: int, fee_rate_bps: int) -> int {
    gross_of(stake, odds) - fee_of(gross_of(stake, odds), fee_rate_bps)
}

/// Odds are 2.0x on an empty option, and otherwise lie between 1.0x and the
/// 10.0x cap whenever the option's pool is part of the total pool.
pub proof fn lemma_odds_bounds(total_pool: int, option_pool: int)
    requires
        0 <= option_pool <= total_pool,
    ensures
        option_pool == 0 ==> odds_of(total_pool, option_pool) == 2000,
        option_pool > 0 ==> 1000 <= odds_of(total_pool, option_pool) <= 10000,
{
    if option_pool > 0 {
        let o = option_pool;
        assert(1000 * o <= total_pool * 1000) by (nonlinear_arith)
            requires o <= total_pool;
        lemma_div_is_ordered(1000 * o, total_pool * 1000, o);
        lemma_div_multiples_vanish(1000, o);
        assert(o * 1000 == 1000 * o) by (nonlinear_arith);
    }
}

/// The payout never decreases when the stake or the odds grow, and never
/// increases when the fee rate grows (for fee rates up to 100%).
pub proof fn lemma_payout_monotone(
    stake1: int,
    stake2: int,
    odds1: int,
    odds2: int,
    fee1: int,
    fee2: int,
)
    requires
        0 <= stake1 <= stake2,
        0 <= odds1 <= odds2,
        0 <= fee2 <= fee1 <= 10000,
    ensures
        payout_of(stake1, odds1, fee1) <= payout_of(stake2, odds2, fee2),
{
    let g1 = gross_of(stake1, odds1);
    let g2 = gross_of(stake2, odds2);
    assert(stake1 * odds1 <= stake2 * odds2) by (nonlinear_arith)
        requires 0 <= stake1 <= stake2, 0 <= odds1 <= odds2;
    lemma_div_is_ordered(stake1 * odds1, stake2 * odds2, 1000);
    assert(0 <= stake1 * odds1) by (nonlinear_arith) requires 0 <= stake1, 0 <= odds1;
    assert(0 <= g1) by {
        lemma_div_is_ordered(0, stake1 * odds1, 1000);
    }
    // A higher fee rate takes a larger fee from the same gross.
    assert(g1 * fee2 <= g1 * fee1) by (nonlinear_arith) requires 0 <= g1, fee2 <= fee1;
    lemma_div_is_ordered(g1 * fee2, g1 * fee1, 10000);
    // A larger gross raises the fee by at most the difference in gross.
    let d = g2 - g1;
    assert(g2 * fee2 <= g1 * fee2 + d * 10000) by (nonlinear_arith)
        requires d == g2 - g1, d >= 0, 0 <= fee2 <= 10000;
    lemma_div_is_ordered(g2 * fee2, g1 * fee2 + d * 10000, 10000);
    lemma_hoist_over_denominator(g1 * fee2, d, 10000);
}

/// `floor(1000 * r / d)` for `r < d`, computed without a wide product.
fn scaled_fraction(r: u128, d: u128) -> (v: u128)
    requires
        r < d,
    ensures
        v == 1000 * (r as int) / (d as int),
        v < 1000,
{
    let mut carry: u128 = 0;
    let mut x: u128 = 0;
    let mut i: u32 = 0;
    while i < 1000
        invariant
            r < d,
            i <= 1000,
            x < d,
            carry <= i,
            carry * d + x == i * r,
        decreases 1000 - i,
    {
        if x >= d - r {
            proof {
                assert((carry + 1) * d == carry * d + d) by (nonlinear_arith);
                assert((i + 1) * r == i * r + r) by (nonlinear_arith);
            }
            x = x - (d - r);
            carry = carry + 1;
        } else {
            proof {
                assert((i + 1) * r == i * r + r) by (nonlinear_arith);
            }
            x = x + r;
        }
        i = i + 1;
    }
    proof {
        lemma_fundamental_div_mod_converse(1000 * r, d as int, carry as int, x as int);
    }
    carry
}

/// The gross payout `floor(stake * odds / 1000)`, or `None` when it does not
/// fit in an amount.
pub fn checked_gross(stake: u128, odds: u32) -> (r: Option<u128>)
    ensures
        r is Some <==> gross_of(stake as int, odds as int) <= u128::MAX,
        r matches Some(g) ==> g == gross_of(stake as int, odds as int),
{
    let a = stake / 1000;
    let b = stake % 1000;
    let ghost s = stake as int;
    let ghost k = odds as int;
    proof {
        lemma_fundamental_div_mod(s, 1000);
        assert(b * k <= 999 * 4294967295) by (nonlinear_arith)
            requires b < 1000, 0 <= k <= 4294967295;
        lemma_fundamental_div_mod(b * k, 1000);
        assert(s * k == (a * k + (b * k) / 1000) * 1000 + (b * k) % 1000) by (nonlinear_arith)
            requires s == 1000 * a + b, b * k == 1000 * ((b * k) / 1000) + (b * k) % 1000;
        lemma_fundamental_div_mod_converse(s * k, 1000, a * k + (b * k) / 1000, (b * k) % 1000);
        assert(0 <= a * k) by (nonlinear_arith) requires 0 <= a, 0 <= k;
    }
    let low = (b * (odds as u128)) / 1000;
    match a.checked_mul(odds as u128) {
        None => None,
        Some(high) => high.checked_add(low),
    }
}

/// The fee `floor(gross * fee_rate_bps / 10000)`.
pub fn fee_for(gross: u128, fee_rate_bps: u32) -> (r: u128)
    requires
        fee_rate_bps <= 10000,
    ensures
        r == fee_of(gross as int, fee_rate_bps as int),
        r <= gross,
{
    let a = gross / 10000;
    let b = gross % 10000;
    let ghost g = gross as int;
    let ghost f = fee_rate_bps as int;
    proof {
        lemma_fundamental_div_mod(g, 10000);
        lemma_fundamental_div_mod(b * f, 10000);
        assert(g * f == (a * f + (b * f) / 10000) * 10000 + (b * f) % 10000) by (nonlinear_arith)
            requires g == 10000 * a + b, b * f == 10000 * ((b * f) / 10000) + (b * f) % 10000;
        lemma_fundamental_div_mod_converse(g * f, 10000, a * f + (b * f) / 10000, (b * f) % 10000);
        assert(a * f <= 10000 * a) by (nonlinear_arith) requires 0 <= a, 0 <= f <= 10000;
        assert((b * f) / 10000 <= b) by {
            assert(b * f <= b * 10000) by (nonlinear_arith) requires 0 <= b, 0 <= f <= 10000;
            lemma_div_is_ordered(b * f, b * 10000, 10000);
            lemma_div_multiples_vanish(b as int, 10000);
            assert(10000 * b == b * 10000) by (nonlinear_arith);
        }
    }
    a * (fee_rate_bps as u128) + (b * (fee_rate_bps as u128)) / 10000
}

impl LivePredictState {
    /// Odds for an option holding `option_pool` of a market's `total_pool`,
    /// scaled by 1000: 2000 for an empty option, else `total * 1000 / option`
    /// capped at 10000.
    pub fn calculate_odds(total_pool: u128, option_pool: u128) -> (r: u32)
        ensures
            r == odds_of(total_pool as int, option_pool as int),
            option_pool == 0 ==> r == DEFAULT_ODDS,
            0 < option_pool <= total_pool ==> ODDS_SCALE <= r <= MAX_ODDS,
    {
        proof {
            if option_pool <= total_pool {
                lemma_odds_bounds(total_pool as int, option_pool as int);
            }
        }
        if option_pool == 0 {
            return DEFAULT_ODDS;
        }
        let q = total_pool / option_pool;
        let ghost t = total_pool as int;
        let ghost o = option_pool as int;
        proof {
            lemma_fundamental_div_mod(t, o);
        }
        if q >= 10 {
            proof {
                assert(10 * o <= t) by (nonlinear_arith)
                    requires q == t / o, q >= 10, t == o * (t / o) + t % o, t % o >= 0, o > 0;
                lemma_div_is_ordered(10000 * o, t * 1000, o);
                lemma_div_multiples_vanish(10000, o);
                assert(o * 10000 == 10000 * o) by (nonlinear_arith);
            }
            return MAX_ODDS;
        }
        let rem = total_pool % option_pool;
        let frac = scaled_fraction(rem, option_pool);
        proof {
            let c = frac as int;
            let x = (1000 * (rem as int)) % o;
            lemma_fundamental_div_mod(1000 * (rem as int), o);
            assert(t * 1000 == (q * 1000 + c) * o + x) by (nonlinear_arith)
                requires
                    t == o * q + rem,
                    1000 * rem == o * c + x;
            lemma_fundamental_div_mod_converse(t * 1000, o, q * 1000 + c, x);
        }
        (q as u32) * 1000 + (frac as u32)
    }

    /// What a winning stake is credited: `gross = stake * odds / 1000`, less
    /// `fee = gross * fee_rate_bps / 10000`, each division truncating.
    pub fn calculate_payout(amount: Amount, odds: u32, fee_rate_bps: u32) -> (r: Amount)
        requires
            fee_rate_bps <= 10000,
            gross_of(amount as int, odds as int) <= u128::MAX,
        ensures
            r == payout_of(amount as int, odds as int, fee_rate_bps as int),
    {
        match checked_gross(amount, odds) {
            Some(gross) => gross - fee_for(gross, fee_rate_bps),
            None => 0,
        }
    }
}

} // verus!
