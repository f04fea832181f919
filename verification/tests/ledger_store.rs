use potato_game::ledger::Ledger;
use potato_game::players::Player;

#[test]
fn create_then_find() {
    let mut ledger = Ledger::new();
    let id = "42".to_string();
    assert!(ledger.find_player(&id).is_none());
    let p = ledger.create_player(&id, 1000).expect("first create succeeds");
    assert_eq!(p.discord_user_id, "42");
    assert_eq!(p.balance, 5000);
    assert_eq!(p.last_feed_ts, 1000);
    assert_eq!(p.idle_since_ts, 1000);
    assert_eq!(p.version, 1);
    let found = ledger.find_player(&id).expect("created row is found");
    assert_eq!(found.balance, 5000);
    assert_eq!(found.version, 1);
}

#[test]
fn create_race_signals_conflict() {
    let mut ledger = Ledger::new();
    let id = "42".to_string();
    assert!(ledger.create_player(&id, 1000).is_some());
    assert!(ledger.create_player(&id, 2000).is_none());
    // The original row is untouched.
    let found = ledger.find_player(&id).unwrap();
    assert_eq!(found.last_feed_ts, 1000);
}

#[test]
fn update_advances_version() {
    let mut ledger = Ledger::new();
    let id = "7".to_string();
    let mut p = ledger.create_player(&id, 0).unwrap();
    p.balance = 4200;
    assert!(ledger.update_player(&p));
    let found = ledger.find_player(&id).unwrap();
    assert_eq!(found.balance, 4200);
    assert_eq!(found.version, 2);
}

#[test]
fn conflicting_writers_lose_exactly_once() {
    // Two writers read the same version; only the first conditional
    // write commits, and the loser leaves the row unchanged.
    let mut ledger = Ledger::new();
    let id = "7".to_string();
    ledger.create_player(&id, 0).unwrap();
    let mut first = ledger.find_player(&id).unwrap();
    let mut second = ledger.find_player(&id).unwrap();
    first.balance = 111;
    second.balance = 999;
    assert!(ledger.update_player(&first));
    assert!(!ledger.update_player(&second));
    let stored = ledger.find_player(&id).unwrap();
    assert_eq!(stored.balance, 111);
    assert_eq!(stored.version, 2);
}

#[test]
fn update_of_missing_row_fails() {
    let mut ledger = Ledger::new();
    let ghost_row = Player {
        discord_user_id: "404".to_string(),
        balance: 1,
        last_feed_ts: 0,
        idle_since_ts: 0,
        version: 1,
    };
    assert!(!ledger.update_player(&ghost_row));
    assert!(ledger.find_player(&"404".to_string()).is_none());
}

#[test]
fn remove_is_conditional_too() {
    let mut ledger = Ledger::new();
    let id = "9".to_string();
    let p = ledger.create_player(&id, 0).unwrap();
    let stale = Player { version: 5, ..p.clone() };
    assert!(!ledger.remove_player(&stale));
    assert!(ledger.find_player(&id).is_some());
    assert!(ledger.remove_player(&p));
    assert!(ledger.find_player(&id).is_none());
}

#[test]
fn unfeeded_selection() {
    let mut ledger = Ledger::new();
    ledger.create_player(&"a".to_string(), 100).unwrap();
    ledger.create_player(&"b".to_string(), 200).unwrap();
    ledger.create_player(&"c".to_string(), 300).unwrap();
    let due = ledger.find_unfeeded_players(250);
    let mut ids: Vec<String> = due.iter().map(|p| p.discord_user_id.clone()).collect();
    ids.sort();
    assert_eq!(ids, vec!["a".to_string(), "b".to_string()]);
    assert!(ledger.find_unfeeded_players(100).is_empty());
    assert_eq!(ledger.all_players().len(), 3);
}
