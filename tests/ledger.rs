use live_predict::{
    LedgerError, LivePredictState, Market, MarketStatus, Message, MarketOption, Operation,
    OperationResponse,
};

fn labels(names: &[&str]) -> Vec<String> {
    names.iter().map(|s| s.to_string()).collect()
}

fn funded(fee: u32) -> LivePredictState {
    let mut s = LivePredictState::new(fee);
    s.deposit("alice", 1000).unwrap();
    s.deposit("bob", 1000).unwrap();
    s
}

fn open_market(s: &mut LivePredictState) -> u64 {
    s.create_market(0, "m1".to_string(), "winner".to_string(), "Who wins".to_string(), labels(&["A", "B"]), 1000)
        .unwrap()
}

#[test]
fn full_round_with_fee() {
    let mut s = funded(100);
    let m = open_market(&mut s);
    assert_eq!(m, 1);
    let (b1, odds1) = s.place_bet("alice", 10, m, 0, 100).unwrap();
    assert_eq!(odds1, 1000);
    let (b2, odds2) = s.place_bet("bob", 20, m, 1, 50).unwrap();
    assert_eq!(odds2, 3000);
    assert_eq!((b1, b2), (1, 2));
    assert_eq!(s.get_balance("alice"), 900);
    assert_eq!(s.get_balance("bob"), 950);
    assert_eq!(s.total_volume, 150);
    s.resolve_market(m, 0).unwrap();
    assert_eq!(s.claim_winnings("alice", b1), Ok(99));
    assert_eq!(s.get_balance("alice"), 999);
    assert_eq!(s.protocol_fees, 1);
    assert_eq!(s.claim_winnings("bob", b2), Ok(0));
    assert_eq!(s.get_balance("bob"), 950);
    let bet = s.get_bet(b2).unwrap();
    assert!(bet.settled);
    assert_eq!(bet.payout, Some(0));
}

#[test]
fn cancel_refunds_exact_stakes() {
    let mut s = funded(100);
    let m = open_market(&mut s);
    s.place_bet("alice", 1, m, 0, 100).unwrap();
    s.place_bet("bob", 2, m, 1, 50).unwrap();
    s.place_bet("alice", 3, m, 1, 30).unwrap();
    assert_eq!(s.get_balance("alice"), 870);
    s.lock_market(m).unwrap();
    s.cancel_market(m).unwrap();
    assert_eq!(s.get_balance("alice"), 1000);
    assert_eq!(s.get_balance("bob"), 1000);
    for id in 1..=3 {
        let b = s.get_bet(id).unwrap();
        assert!(b.settled);
        assert_eq!(b.payout, Some(b.amount));
    }
    assert_eq!(s.get_market(m).unwrap().status, MarketStatus::Cancelled);
    assert!(s.active_markets.is_empty());
}

#[test]
fn cancel_skips_other_markets() {
    let mut s = funded(0);
    let m1 = open_market(&mut s);
    let m2 = open_market(&mut s);
    s.place_bet("alice", 1, m1, 0, 100).unwrap();
    s.place_bet("alice", 1, m2, 0, 200).unwrap();
    s.cancel_market(m1).unwrap();
    assert_eq!(s.get_balance("alice"), 800);
    assert!(!s.get_bet(2).unwrap().settled);
    assert_eq!(s.active_markets, vec![m2]);
}

#[test]
fn second_claim_rejected() {
    let mut s = funded(100);
    let m = open_market(&mut s);
    let (b, _) = s.place_bet("alice", 1, m, 0, 100).unwrap();
    s.resolve_market(m, 0).unwrap();
    s.claim_winnings("alice", b).unwrap();
    let before = s.get_balance("alice");
    assert_eq!(s.claim_winnings("alice", b), Err(LedgerError::AlreadySettled));
    assert_eq!(s.get_balance("alice"), before);
}

#[test]
fn second_cancel_rejected() {
    let mut s = funded(0);
    let m = open_market(&mut s);
    s.place_bet("alice", 1, m, 0, 100).unwrap();
    s.cancel_market(m).unwrap();
    assert_eq!(s.cancel_market(m), Err(LedgerError::MarketNotOpen));
    assert_eq!(s.get_balance("alice"), 1000);
}

#[test]
fn bets_rejected_after_lock_resolve_cancel() {
    let mut s = funded(0);
    let m1 = open_market(&mut s);
    let m2 = open_market(&mut s);
    let m3 = open_market(&mut s);
    s.lock_market(m1).unwrap();
    s.resolve_market(m2, 1).unwrap();
    s.cancel_market(m3).unwrap();
    for m in [m1, m2, m3] {
        assert_eq!(s.place_bet("alice", 1, m, 0, 10), Err(LedgerError::MarketNotOpen));
    }
    assert_eq!(s.get_balance("alice"), 1000);
    assert_eq!(s.get_market(m1).unwrap().options[0].pool, 0);
    assert_eq!(s.cancel_market(m2), Err(LedgerError::CannotCancelResolvedMarket));
}

#[test]
fn create_market_errors() {
    let mut s = LivePredictState::new(0);
    let one = s.create_market(5, "m".to_string(), "t".to_string(), "x".to_string(), labels(&["A"]), 10);
    assert_eq!(one, Err(LedgerError::InvalidOptionCount));
    let eleven = labels(&["a", "b", "c", "d", "e", "f", "g", "h", "i", "j", "k"]);
    let many = s.create_market(5, "m".to_string(), "t".to_string(), "x".to_string(), eleven, 10);
    assert_eq!(many, Err(LedgerError::InvalidOptionCount));
    let past = s.create_market(10, "m".to_string(), "t".to_string(), "x".to_string(), labels(&["A", "B"]), 10);
    assert_eq!(past, Err(LedgerError::LockTimeNotInFuture));
    assert_eq!(s.next_market_id, 1);
    let ten = labels(&["a", "b", "c", "d", "e", "f", "g", "h", "i", "j"]);
    let id = s.create_market(5, "m".to_string(), "t".to_string(), "x".to_string(), ten, 10).unwrap();
    let m = s.get_market(id).unwrap();
    assert_eq!(m.options.len(), 10);
    assert_eq!(m.options[9].id, 9);
    assert_eq!(m.options[9].label, "j");
    assert_eq!(m.created_at, 5);
    assert_eq!(m.status, MarketStatus::Open);
    assert_eq!(s.active_markets, vec![id]);
}

#[test]
fn place_bet_errors() {
    let mut s = funded(0);
    let m = open_market(&mut s);
    assert_eq!(s.place_bet("alice", 1, m, 0, 0), Err(LedgerError::InvalidAmount));
    assert_eq!(s.place_bet("alice", 1, m, 0, 1001), Err(LedgerError::InsufficientBalance));
    assert_eq!(s.place_bet("carol", 1, m, 0, 1), Err(LedgerError::InsufficientBalance));
    assert_eq!(s.place_bet("alice", 1, 99, 0, 1), Err(LedgerError::MarketNotFound));
    assert_eq!(s.place_bet("alice", 1000, m, 0, 1), Err(LedgerError::MarketLocked));
    assert_eq!(s.place_bet("alice", 1, m, 2, 1), Err(LedgerError::InvalidOption));
    assert_eq!(s.get_balance("alice"), 1000);
    assert!(s.bets.is_empty());
}

#[test]
fn lock_and_resolve_errors() {
    let mut s = funded(0);
    let m = open_market(&mut s);
    assert_eq!(s.lock_market(7), Err(LedgerError::MarketNotFound));
    s.lock_market(m).unwrap();
    assert_eq!(s.lock_market(m), Err(LedgerError::MarketNotOpen));
    assert_eq!(s.resolve_market(7, 0), Err(LedgerError::MarketNotFound));
    assert_eq!(s.resolve_market(m, 2), Err(LedgerError::InvalidWinningOption));
    s.resolve_market(m, 1).unwrap();
    assert_eq!(s.resolve_market(m, 0), Err(LedgerError::AlreadyResolved));
    assert_eq!(s.get_market(m).unwrap().winning_option, Some(1));
    assert_eq!(s.cancel_market(9), Err(LedgerError::MarketNotFound));
}

#[test]
fn claim_errors() {
    let mut s = funded(0);
    let m = open_market(&mut s);
    let (b, _) = s.place_bet("alice", 1, m, 0, 10).unwrap();
    assert_eq!(s.claim_winnings("alice", 5), Err(LedgerError::BetNotFound));
    assert_eq!(s.claim_winnings("alice", 0), Err(LedgerError::BetNotFound));
    assert_eq!(s.claim_winnings("bob", b), Err(LedgerError::NotBetOwner));
    assert_eq!(s.claim_winnings("alice", b), Err(LedgerError::MarketNotResolved));
}

#[test]
fn deposit_and_withdraw() {
    let mut s = LivePredictState::new(0);
    assert_eq!(s.deposit("alice", 70), Ok(70));
    assert_eq!(s.deposit("alice", 30), Ok(100));
    assert_eq!(s.withdraw("alice", 101), Err(LedgerError::InsufficientBalance));
    assert_eq!(s.withdraw("alice", 40), Ok(60));
    assert_eq!(s.get_balance("alice"), 60);
    assert_eq!(s.get_balance("nobody"), 0);
    assert_eq!(s.withdraw("nobody", 0), Ok(0));
}

#[test]
fn deposit_overflow_rejected() {
    let mut s = LivePredictState::new(0);
    s.deposit("alice", u128::MAX).unwrap();
    assert_eq!(s.deposit("alice", 1), Err(LedgerError::Overflow));
    assert_eq!(s.get_balance("alice"), u128::MAX);
    // Another owner's deposit is bounded only by that owner's balance.
    assert_eq!(s.deposit("bob", u128::MAX), Ok(u128::MAX));
}

#[test]
fn refund_overflow_rejects_cancel() {
    let mut s = LivePredictState::new(0);
    s.deposit("alice", 10).unwrap();
    let m = open_market(&mut s);
    s.place_bet("alice", 1, m, 0, 10).unwrap();
    s.deposit("alice", u128::MAX).unwrap();
    assert_eq!(s.cancel_market(m), Err(LedgerError::Overflow));
    assert_eq!(s.get_market(m).unwrap().status, MarketStatus::Open);
    assert!(!s.get_bet(1).unwrap().settled);
    s.withdraw("alice", 10).unwrap();
    s.cancel_market(m).unwrap();
    assert_eq!(s.get_balance("alice"), u128::MAX);
}

#[test]
fn cancelled_market_cannot_be_resolved() {
    let mut s = funded(0);
    let m = open_market(&mut s);
    s.place_bet("alice", 1, m, 0, 10).unwrap();
    s.cancel_market(m).unwrap();
    assert_eq!(s.resolve_market(m, 2), Err(LedgerError::InvalidWinningOption));
    assert_eq!(s.resolve_market(m, 0), Err(LedgerError::MarketCancelled));
    assert_eq!(s.get_market(m).unwrap().status, MarketStatus::Cancelled);
    assert_eq!(s.get_market(m).unwrap().winning_option, None);
}

#[test]
fn rejected_bet_message() {
    let mut s = funded(0);
    let m = open_market(&mut s);
    s.lock_market(m).unwrap();
    let r = s.execute_operation("alice", 1, Operation::PlaceBet { market_id: m, option_id: 0, amount: 5 });
    match r {
        OperationResponse::Error { message } => assert_eq!(message, "Market is not open for betting"),
        _ => panic!("bet should be rejected"),
    }
    let r = s.execute_operation("alice", 1, Operation::LockMarket { market_id: m });
    match r {
        OperationResponse::Error { message } => assert_eq!(message, "Market is not open"),
        _ => panic!("lock should be rejected"),
    }
}

#[test]
fn odds_recorded_from_post_bet_pools() {
    let mut s = funded(0);
    let m = open_market(&mut s);
    assert_eq!(s.place_bet("alice", 1, m, 0, 100).unwrap().1, 1000);
    assert_eq!(s.place_bet("bob", 1, m, 0, 100).unwrap().1, 1000);
    assert_eq!(s.place_bet("bob", 1, m, 1, 10).unwrap().1, 10000);
    let market = s.get_market(m).unwrap();
    assert_eq!(market.options[0].pool, 200);
    assert_eq!(market.options[1].pool, 10);
}

#[test]
fn bet_indices() {
    let mut s = funded(0);
    let m1 = open_market(&mut s);
    let m2 = open_market(&mut s);
    s.place_bet("alice", 1, m1, 0, 1).unwrap();
    s.place_bet("bob", 1, m2, 1, 1).unwrap();
    s.place_bet("alice", 1, m2, 0, 1).unwrap();
    assert_eq!(s.user_bets("alice"), vec![1, 3]);
    assert_eq!(s.user_bets("bob"), vec![2]);
    assert_eq!(s.market_bets(m2), vec![2, 3]);
    assert!(s.market_bets(9).is_empty());
}

#[test]
fn operations_dispatch() {
    let mut s = LivePredictState::new(100);
    let r = s.execute_operation("alice", 0, Operation::Deposit { amount: 500 });
    assert!(matches!(r, OperationResponse::Deposited { amount: 500, new_balance: 500 }));
    let r = s.execute_operation(
        "alice",
        0,
        Operation::CreateMarket {
            match_id: "m".to_string(),
            market_type: "t".to_string(),
            title: "x".to_string(),
            options: labels(&["A", "B"]),
            locks_at: 1000,
        },
    );
    assert!(matches!(r, OperationResponse::MarketCreated { market_id: 1 }));
    let r = s.execute_operation("alice", 1, Operation::PlaceBet { market_id: 1, option_id: 1, amount: 100 });
    assert!(matches!(r, OperationResponse::BetPlaced { bet_id: 1, odds: 1000 }));
    let r = s.execute_operation("alice", 2, Operation::LockMarket { market_id: 1 });
    assert!(matches!(r, OperationResponse::MarketLocked { market_id: 1 }));
    let r = s.execute_operation("alice", 3, Operation::ResolveMarket { market_id: 1, winning_option: 1 });
    assert!(matches!(r, OperationResponse::MarketResolved { market_id: 1, winning_option: 1 }));
    let r = s.execute_operation("alice", 4, Operation::ClaimWinnings { bet_id: 1 });
    assert!(matches!(r, OperationResponse::WinningsClaimed { bet_id: 1, amount: 99 }));
    let r = s.execute_operation("alice", 5, Operation::Withdraw { amount: 1000 });
    match r {
        OperationResponse::Error { message } => assert_eq!(message, "Insufficient balance"),
        _ => panic!("withdrawal should fail"),
    }
    let r = s.execute_operation("alice", 5, Operation::Withdraw { amount: 499 });
    assert!(matches!(r, OperationResponse::Withdrawn { amount: 499, new_balance: 0 }));
    let r = s.execute_operation("alice", 6, Operation::CancelMarket { market_id: 1 });
    assert!(matches!(r, OperationResponse::Error { .. }));
}

#[test]
fn messages_sync_and_resolve() {
    let mut s = funded(0);
    let m = open_market(&mut s);
    assert!(s.execute_message(Message::MarketResolved { market_id: m, winning_option: 1 }));
    assert_eq!(s.get_market(m).unwrap().status, MarketStatus::Resolved);
    assert!(!s.execute_message(Message::MarketResolved { market_id: m, winning_option: 0 }));
    assert!(!s.execute_message(Message::MarketResolved { market_id: 42, winning_option: 0 }));
    let m2 = open_market(&mut s);
    let snapshot = Market {
        id: m2,
        match_id: "x".to_string(),
        market_type: "t".to_string(),
        title: "synced".to_string(),
        options: vec![
            MarketOption { id: 0, label: "A".to_string(), pool: 5 },
            MarketOption { id: 1, label: "B".to_string(), pool: 7 },
        ],
        status: MarketStatus::Locked,
        created_at: 1,
        locks_at: 2,
        winning_option: None,
    };
    let mut bad = snapshot.clone();
    bad.winning_option = Some(0);
    assert!(!s.execute_message(Message::SyncMarket { market: bad }));
    assert_eq!(s.active_markets, vec![m2]);
    assert!(s.execute_message(Message::SyncMarket { market: snapshot.clone() }));
    assert_eq!(s.get_market(m2).unwrap().title, "synced");
    assert!(s.active_markets.is_empty());
    let mut reopened = snapshot;
    reopened.status = MarketStatus::Open;
    assert!(s.execute_message(Message::SyncMarket { market: reopened }));
    assert_eq!(s.active_markets, vec![m2]);
    let next = s.create_market(0, "n".to_string(), "t".to_string(), "x".to_string(), labels(&["A", "B"]), 9).unwrap();
    assert_eq!(next, m2 + 1);
    assert_eq!(s.get_market(m2).unwrap().title, "synced");
    // A market made elsewhere is stored, and local ids move past it.
    let mut remote = s.get_market(m2).unwrap().clone();
    remote.id = 42;
    remote.title = "remote".to_string();
    assert!(s.execute_message(Message::SyncMarket { market: remote.clone() }));
    assert!(s.execute_message(Message::SyncMarket { market: remote }));
    assert_eq!(s.get_market(42).unwrap().title, "remote");
    assert_eq!(s.next_market_id, 43);
    assert_eq!(s.active_markets, vec![m2, next, 42]);
    let after = s.create_market(0, "n".to_string(), "t".to_string(), "x".to_string(), labels(&["A", "B"]), 9).unwrap();
    assert_eq!(after, 43);
    assert_eq!(s.get_market(42).unwrap().title, "remote");
}

#[test]
fn error_messages() {
    assert_eq!(LedgerError::MarketNotFound.message(), "Market not found");
    assert_eq!(LedgerError::AlreadySettled.message(), "Bet already settled");
}

#[test]
fn markets_by_match_lists_open_markets() {
    let mut s = LivePredictState::new(0);
    let a = s.create_market(0, "m1".to_string(), "t".to_string(), "x".to_string(), labels(&["A", "B"]), 9).unwrap();
    let b = s.create_market(0, "m2".to_string(), "t".to_string(), "y".to_string(), labels(&["A", "B"]), 9).unwrap();
    let c = s.create_market(0, "m1".to_string(), "t".to_string(), "z".to_string(), labels(&["A", "B"]), 9).unwrap();
    assert_eq!(s.markets_by_match("m1"), vec![a, c]);
    s.lock_market(a).unwrap();
    assert_eq!(s.markets_by_match("m1"), vec![c]);
    assert_eq!(s.markets_by_match("m2"), vec![b]);
    assert!(s.markets_by_match("m3").is_empty());
}

#[test]
fn potential_payout_quotes() {
    let mut s = funded(100);
    let m = open_market(&mut s);
    assert_eq!(s.potential_payout(m, 0, 100), Some((1000, 99)));
    s.place_bet("alice", 1, m, 0, 100).unwrap();
    assert_eq!(s.potential_payout(m, 1, 50), Some((3000, 149)));
    assert_eq!(s.potential_payout(m, 2, 50), None);
    assert_eq!(s.potential_payout(7, 0, 50), None);
    s.lock_market(m).unwrap();
    assert_eq!(s.potential_payout(m, 1, 50), None);
}

fn value_in_ledger(s: &LivePredictState) -> u128 {
    let balances: u128 = s.balances.iter().map(|(_, b)| *b).sum();
    let stakes: u128 = s.bets.iter().filter(|b| !b.settled).map(|b| b.amount).sum();
    balances + stakes + s.protocol_fees
}

#[test]
fn conservation_without_claims() {
    let mut s = LivePredictState::new(200);
    s.deposit("alice", 500).unwrap();
    s.deposit("bob", 300).unwrap();
    s.withdraw("bob", 50).unwrap();
    let m1 = open_market(&mut s);
    let m2 = open_market(&mut s);
    s.place_bet("alice", 1, m1, 0, 120).unwrap();
    s.place_bet("bob", 2, m1, 1, 80).unwrap();
    s.place_bet("bob", 3, m2, 0, 40).unwrap();
    assert_eq!(value_in_ledger(&s), 750);
    s.lock_market(m1).unwrap();
    s.cancel_market(m1).unwrap();
    assert_eq!(value_in_ledger(&s), 750);
    s.resolve_market(m2, 1).unwrap();
    s.withdraw("alice", 500).unwrap();
    assert_eq!(value_in_ledger(&s), 250);
}

#[test]
fn claims_adjust_ledger_value() {
    let mut s = funded(100);
    let m = open_market(&mut s);
    let (a, _) = s.place_bet("alice", 1, m, 0, 100).unwrap();
    let (b, _) = s.place_bet("bob", 1, m, 1, 50).unwrap();
    s.resolve_market(m, 0).unwrap();
    // Winner at 1.0x: stake 100 leaves, payout 99 and fee 1 come in.
    s.claim_winnings("alice", a).unwrap();
    assert_eq!(value_in_ledger(&s), 2000);
    // Loser: the stake of 50 leaves the ledger.
    s.claim_winnings("bob", b).unwrap();
    assert_eq!(value_in_ledger(&s), 1950);
}
