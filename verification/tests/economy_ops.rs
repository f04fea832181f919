use potato_game::economy::{prepare_transfer, resolve_bet, settle_bet, settle_bet_resolved,
    transfer};
use potato_game::errors::{EconomyError, ValidationError};
use potato_game::flip::{BetAmount, CoinSide};
use potato_game::ledger::Ledger;
use potato_game::players::Player;

fn seeded_ledger(id: &str, balance: i64, ts: i64) -> (Ledger, Player) {
    let mut ledger = Ledger::new();
    let created = ledger.create_player(&id.to_string(), ts).unwrap();
    let row = Player { balance, ..created };
    assert!(ledger.update_player(&row));
    let snapshot = ledger.find_player(&id.to_string()).unwrap();
    assert_eq!(snapshot.balance, balance);
    (ledger, snapshot)
}

#[test]
fn won_bet_credits_exactly_once() {
    let (mut ledger, snapshot) = seeded_ledger("1", 1000, 50);
    let out = settle_bet_resolved(&mut ledger, &snapshot, 100, CoinSide::Heads, CoinSide::Heads, 60)
        .expect("valid bet settles");
    assert!(out.win);
    assert_eq!(out.amount, 100);
    assert_eq!(out.new_balance, 1100);
    let stored = ledger.find_player(&"1".to_string()).unwrap();
    assert_eq!(stored.balance, 1100);
    assert_eq!(stored.idle_since_ts, 60);
    assert_eq!(stored.last_feed_ts, snapshot.last_feed_ts);
    assert_eq!(stored.version, snapshot.version + 1);
}

#[test]
fn lost_bet_debits_exactly_once() {
    let (mut ledger, snapshot) = seeded_ledger("1", 1000, 50);
    let out = settle_bet_resolved(&mut ledger, &snapshot, 100, CoinSide::Heads, CoinSide::Tails, 60)
        .expect("valid bet settles");
    assert!(!out.win);
    assert_eq!(out.new_balance, 900);
    let stored = ledger.find_player(&"1".to_string()).unwrap();
    assert_eq!(stored.balance, 900);
    assert_eq!(stored.idle_since_ts, 60);
}

#[test]
fn rejected_bet_mutates_nothing() {
    let (mut ledger, snapshot) = seeded_ledger("1", 1000, 50);
    let below = settle_bet_resolved(&mut ledger, &snapshot, 1, CoinSide::Heads, CoinSide::Heads, 60);
    assert!(matches!(
        below,
        Err(EconomyError::Validation(ValidationError::AmountBelowMinimum))
    ));
    let beyond =
        settle_bet_resolved(&mut ledger, &snapshot, 1001, CoinSide::Heads, CoinSide::Heads, 60);
    assert!(matches!(
        beyond,
        Err(EconomyError::Validation(ValidationError::InsufficientBalance))
    ));
    // The idle timer resets only on an executed bet.
    let stored = ledger.find_player(&"1".to_string()).unwrap();
    assert_eq!(stored.idle_since_ts, 50);
    assert_eq!(stored.balance, 1000);
    assert_eq!(stored.version, snapshot.version);
}

#[test]
fn stale_snapshot_loses_the_race() {
    let (mut ledger, snapshot) = seeded_ledger("1", 1000, 50);
    let winner = Player { balance: 640, ..snapshot.clone() };
    assert!(ledger.update_player(&winner));
    let r = settle_bet_resolved(&mut ledger, &snapshot, 100, CoinSide::Heads, CoinSide::Heads, 60);
    assert!(matches!(r, Err(EconomyError::ConcurrencyConflict)));
    let stored = ledger.find_player(&"1".to_string()).unwrap();
    assert_eq!(stored.balance, 640);
}

#[test]
fn resolve_bet_is_pure() {
    let (_, snapshot) = seeded_ledger("1", 1000, 50);
    let (np, out) = resolve_bet(&snapshot, 300, CoinSide::Tails, CoinSide::Tails, 70).unwrap();
    assert!(out.win);
    assert_eq!(np.balance, 1300);
    assert_eq!(np.idle_since_ts, 70);
    assert_eq!(np.version, snapshot.version);
    assert!(resolve_bet(&snapshot, 0, CoinSide::Tails, CoinSide::Tails, 70).is_err());
}

#[test]
fn settle_bet_with_directive() {
    let (mut ledger, snapshot) = seeded_ledger("1", 1000, 50);
    let r = settle_bet(&mut ledger, &snapshot, &BetAmount::Specific(250), CoinSide::Heads, 60)
        .expect("valid directive settles");
    assert_eq!(r.amount, 250);
    let stored = ledger.find_player(&"1".to_string()).unwrap();
    assert!(stored.balance == 750 || stored.balance == 1250);
    assert_eq!(stored.balance, r.new_balance);
}

#[test]
fn settle_bet_rejects_unaffordable_random() {
    let (mut ledger, snapshot) = seeded_ledger("1", 1, 50);
    let r = settle_bet(&mut ledger, &snapshot, &BetAmount::Random, CoinSide::Heads, 60);
    assert!(matches!(
        r,
        Err(EconomyError::Validation(ValidationError::InsufficientBalance))
    ));
}

#[test]
fn transfer_conserves_the_sum() {
    let mut ledger = Ledger::new();
    let a = "a".to_string();
    let b = "b".to_string();
    ledger.create_player(&a, 10).unwrap();
    ledger.create_player(&b, 10).unwrap();
    let before_a = ledger.find_player(&a).unwrap().balance;
    let before_b = ledger.find_player(&b).unwrap().balance;
    let out = transfer(&mut ledger, &a, &b, 1500, true, 20).expect("transfer succeeds");
    assert_eq!(out.sender_balance + out.receiver_balance, before_a + before_b);
    assert_eq!(out.sender_balance, 3500);
    assert_eq!(out.receiver_balance, 6500);
    let after_a = ledger.find_player(&a).unwrap();
    let after_b = ledger.find_player(&b).unwrap();
    assert_eq!(after_a.balance + after_b.balance, before_a + before_b);
    assert_eq!(after_a.idle_since_ts, 20);
    assert_eq!(after_b.idle_since_ts, 10);
}

#[test]
fn transfer_validations() {
    let mut ledger = Ledger::new();
    let a = "a".to_string();
    let b = "b".to_string();
    assert!(matches!(
        transfer(&mut ledger, &a, &b, 0, true, 20),
        Err(EconomyError::Validation(ValidationError::AmountBelowMinimum))
    ));
    assert!(matches!(
        transfer(&mut ledger, &a, &a, 5, true, 20),
        Err(EconomyError::Validation(ValidationError::SelfTransfer))
    ));
    assert!(matches!(
        transfer(&mut ledger, &a, &b, 5, false, 20),
        Err(EconomyError::Validation(ValidationError::IneligibleReceiver))
    ));
    // Nothing was created by the rejected requests.
    assert!(ledger.find_player(&a).is_none());
    assert!(ledger.find_player(&b).is_none());
}

#[test]
fn transfer_creates_missing_rows_lazily() {
    let mut ledger = Ledger::new();
    let a = "a".to_string();
    let b = "b".to_string();
    let out = transfer(&mut ledger, &a, &b, 500, true, 20).expect("both rows created");
    assert!(out.sender_created);
    assert!(out.receiver_created);
    assert_eq!(out.sender_balance, 4500);
    assert_eq!(out.receiver_balance, 5500);
}

#[test]
fn insufficient_balance_still_creates_rows() {
    let mut ledger = Ledger::new();
    let a = "a".to_string();
    let b = "b".to_string();
    let r = transfer(&mut ledger, &a, &b, 6000, true, 20);
    assert!(matches!(
        r,
        Err(EconomyError::Validation(ValidationError::InsufficientBalance))
    ));
    assert_eq!(ledger.find_player(&a).unwrap().balance, 5000);
    assert_eq!(ledger.find_player(&b).unwrap().balance, 5000);
}

#[test]
fn prepare_transfer_builds_the_pair() {
    let mut ledger = Ledger::new();
    let sender = ledger.create_player(&"a".to_string(), 10).unwrap();
    let receiver = ledger.create_player(&"b".to_string(), 10).unwrap();
    let (ns, nr) = prepare_transfer(&sender, &receiver, 700, 30).unwrap();
    assert_eq!(ns.balance, 4300);
    assert_eq!(nr.balance, 5700);
    assert_eq!(ns.balance + nr.balance, sender.balance + receiver.balance);
    assert_eq!(ns.idle_since_ts, 30);
    assert_eq!(nr.idle_since_ts, 10);
    assert_eq!(ns.version, sender.version);
    assert!(matches!(
        prepare_transfer(&sender, &receiver, 99999, 30),
        Err(ValidationError::InsufficientBalance)
    ));
    assert!(matches!(
        prepare_transfer(&sender, &sender, 5, 30),
        Err(ValidationError::SelfTransfer)
    ));
}
