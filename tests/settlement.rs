use live_predict::{checked_gross, fee_for, LivePredictState};

#[test]
fn odds_default_for_empty_option() {
    assert_eq!(LivePredictState::calculate_odds(0, 0), 2000);
    assert_eq!(LivePredictState::calculate_odds(500, 0), 2000);
}

#[test]
fn odds_from_pool_share() {
    assert_eq!(LivePredictState::calculate_odds(100, 100), 1000);
    assert_eq!(LivePredictState::calculate_odds(150, 50), 3000);
    assert_eq!(LivePredictState::calculate_odds(1000, 300), 3333);
    assert_eq!(LivePredictState::calculate_odds(7, 3), 2333);
}

#[test]
fn odds_capped_at_ten() {
    assert_eq!(LivePredictState::calculate_odds(1000, 100), 10000);
    assert_eq!(LivePredictState::calculate_odds(1000, 10), 10000);
    assert_eq!(LivePredictState::calculate_odds(u128::MAX, 1), 10000);
}

#[test]
fn odds_exact_on_huge_pools() {
    // total * 1000 does not fit in 128 bits here, yet the ratio is exact.
    let option = u128::MAX / 3;
    assert_eq!(LivePredictState::calculate_odds(u128::MAX, option), 3000);
    assert_eq!(LivePredictState::calculate_odds(u128::MAX, u128::MAX), 1000);
    assert_eq!(LivePredictState::calculate_odds(u128::MAX - 1, u128::MAX), 999);
}

#[test]
fn odds_bounds_on_samples() {
    for total in [1u128, 2, 5, 17, 100, 999, 1000, 123456] {
        for option in 1..=total.min(50) {
            let o = LivePredictState::calculate_odds(total, option);
            assert!((1000..=10000).contains(&o));
        }
    }
}

#[test]
fn payout_example_one_percent_fee() {
    assert_eq!(LivePredictState::calculate_payout(100, 1000, 100), 99);
    assert_eq!(LivePredictState::calculate_payout(50, 3000, 100), 149);
}

#[test]
fn payout_fee_taken_from_gross() {
    // gross = floor(999 * 1001 / 1000) = 999, fee = floor(999 * 500 / 10000) = 49.
    assert_eq!(LivePredictState::calculate_payout(999, 1001, 500), 950);
    // A zero fee rate pays the gross.
    assert_eq!(LivePredictState::calculate_payout(333, 1500, 0), 499);
}

#[test]
fn payout_on_large_stake() {
    let stake = u128::MAX / 10;
    assert_eq!(LivePredictState::calculate_payout(stake, 10000, 0), stake * 10);
}

#[test]
fn payout_monotone_on_samples() {
    let stakes = [0u128, 1, 7, 99, 100, 101, 5000];
    let odds = [0u32, 999, 1000, 1001, 2500, 10000];
    let fees = [0u32, 1, 100, 499, 500];
    for &s in &stakes {
        for &o in &odds {
            for (fi, &f) in fees.iter().enumerate() {
                let p = LivePredictState::calculate_payout(s, o, f);
                assert!(LivePredictState::calculate_payout(s + 1, o, f) >= p);
                assert!(LivePredictState::calculate_payout(s, o + 1, f) >= p);
                if fi + 1 < fees.len() {
                    assert!(LivePredictState::calculate_payout(s, o, fees[fi + 1]) <= p);
                }
            }
        }
    }
}

#[test]
fn gross_and_fee_helpers() {
    assert_eq!(checked_gross(100, 1500), Some(150));
    assert_eq!(checked_gross(u128::MAX, 2000), None);
    assert_eq!(checked_gross(u128::MAX, 1000), Some(u128::MAX));
    assert_eq!(fee_for(150, 100), 1);
    assert_eq!(fee_for(10000, 500), 500);
    assert_eq!(fee_for(u128::MAX, 10000), u128::MAX);
}
