use potato_game::feeder::{plan_sweep, run_sweep, week_anchor, SweepAction};
use potato_game::ledger::Ledger;
use potato_game::players::Player;

const DAY: i64 = 86_400;
const WEEK: i64 = 604_800;

#[test]
fn anchor_on_the_first_friday() {
    // Day one of the epoch, 1970-01-02, was a Friday.
    assert_eq!(week_anchor(DAY, 0), DAY);
    assert_eq!(week_anchor(DAY + 100, 0), DAY);
    assert_eq!(week_anchor(DAY + WEEK - 1, 0), DAY);
    assert_eq!(week_anchor(DAY + WEEK, 0), DAY + WEEK);
}

#[test]
fn anchor_follows_the_local_zone() {
    // Just before Friday midnight UTC, a zone an hour ahead is already
    // past its local midnight.
    let now = 8 * DAY - 1;
    assert_eq!(week_anchor(now, 0), DAY);
    assert_eq!(week_anchor(now, 3600), 8 * DAY - 3600);
    // A zone an hour behind reaches Friday midnight an hour later.
    assert_eq!(week_anchor(8 * DAY + 1800, -3600), DAY + 3600);
}

#[test]
fn anchor_properties_hold_on_a_spread_of_instants() {
    for &now in &[0, 1, DAY, 123_456_789, 1_700_000_000, 99_999_999_999] {
        for &off in &[-86_399, -3600, 0, 3600, 86_399] {
            let a = week_anchor(now, off);
            assert!(a <= now);
            assert!(now - a < WEEK);
            let local = a + off as i64;
            assert_eq!(local % DAY, 0);
            assert_eq!((local / DAY).rem_euclid(7), 1);
        }
    }
}

/// Sets a row's fields through the store's own conditional write.
fn put_row(ledger: &mut Ledger, id: &str, balance: i64, last_feed_ts: i64, idle_since_ts: i64) {
    let created = ledger.create_player(&id.to_string(), 0).unwrap();
    let row = Player { balance, last_feed_ts, idle_since_ts, ..created };
    assert!(ledger.update_player(&row));
}

#[test]
fn feeder_scenario_levies_and_feeds() {
    // Base feed 100. Player A is away with 1000: levy 100, down to 900.
    // Player B is the sole active player with 500: bonus 100 + 100/1,
    // up to 700. Both get the fresh feed timestamp.
    let now = 10 * WEEK;
    let anchor = now - 100;
    let mut ledger = Ledger::new();
    put_row(&mut ledger, "a", 1000, anchor - 5, now - 700_000);
    put_row(&mut ledger, "b", 500, anchor - 5, now - 10);
    let report = run_sweep(&mut ledger, now, anchor, 100);
    assert_eq!(report.charity_pool, 100);
    assert_eq!(report.active_count, 1);
    assert_eq!(report.per_active_bonus, 200);
    let a = ledger.find_player(&"a".to_string()).unwrap();
    let b = ledger.find_player(&"b".to_string()).unwrap();
    assert_eq!(a.balance, 900);
    assert_eq!(b.balance, 700);
    assert_eq!(a.last_feed_ts, now);
    assert_eq!(b.last_feed_ts, now);
    // Idle streaks are not touched by the sweep.
    assert_eq!(a.idle_since_ts, now - 700_000);
    assert_eq!(b.idle_since_ts, now - 10);
}

#[test]
fn dead_player_forfeits_everything_and_is_evicted() {
    let now = 10 * WEEK;
    let anchor = now - 100;
    let mut ledger = Ledger::new();
    put_row(&mut ledger, "c", 300, anchor - 5, now - 2_500_000);
    put_row(&mut ledger, "d", 400, anchor - 5, now - 1);
    let report = run_sweep(&mut ledger, now, anchor, 100);
    assert_eq!(report.charity_pool, 300);
    assert!(ledger.find_player(&"c".to_string()).is_none());
    // The eviction is reported for the dead row.
    let c_index = report
        .due
        .iter()
        .position(|p| p.discord_user_id == "c")
        .expect("c was due");
    assert!(matches!(report.actions[c_index], SweepAction::Evict));
    // The sole active player receives the forfeited pool.
    assert_eq!(ledger.find_player(&"d".to_string()).unwrap().balance, 400 + 100 + 300);
}

#[test]
fn rows_fed_this_cycle_are_left_alone() {
    let now = 10 * WEEK;
    let anchor = now - 100;
    let mut ledger = Ledger::new();
    put_row(&mut ledger, "fresh", 1234, anchor + 5, now - 700_000);
    let report = run_sweep(&mut ledger, now, anchor, 100);
    assert_eq!(report.due.len(), 0);
    let fresh = ledger.find_player(&"fresh".to_string()).unwrap();
    assert_eq!(fresh.balance, 1234);
    assert_eq!(fresh.last_feed_ts, anchor + 5);
}

#[test]
fn pool_with_no_active_player_is_forfeited() {
    let now = 10 * WEEK;
    let anchor = now - 100;
    let mut ledger = Ledger::new();
    put_row(&mut ledger, "x", 1000, anchor - 5, now - 700_000);
    let report = run_sweep(&mut ledger, now, anchor, 100);
    assert_eq!(report.charity_pool, 100);
    assert_eq!(report.active_count, 0);
    assert_eq!(report.per_active_bonus, 0);
    assert_eq!(ledger.find_player(&"x".to_string()).unwrap().balance, 900);
}

#[test]
fn plan_partitions_by_status() {
    let now = 10 * WEEK;
    let mk = |id: &str, balance: i64, idle_since: i64| Player {
        discord_user_id: id.to_string(),
        balance,
        last_feed_ts: 0,
        idle_since_ts: idle_since,
        version: 1,
    };
    let due = vec![
        mk("active", 600, now - 1),
        mk("away", 600, now - WEEK),
        mk("sleeping", 600, now - 2 * WEEK),
        mk("missing", 600, now - 3 * WEEK),
        mk("dead", 600, now - 4 * WEEK),
    ];
    let plan = plan_sweep(&due, now, 50);
    // Levies: 60 + 100 + 200 + 600 forfeited.
    assert_eq!(plan.charity_pool, 60 + 100 + 200 + 600);
    assert_eq!(plan.active_count, 1);
    assert_eq!(plan.per_active_bonus, 50 + 960);
    assert!(matches!(&plan.actions[0], SweepAction::Feed { bonus: 1010, new_row } if new_row.balance == 1610));
    assert!(matches!(&plan.actions[1], SweepAction::TakeCharity { levy: 60, new_row } if new_row.balance == 540));
    assert!(matches!(&plan.actions[2], SweepAction::TakeCharity { levy: 100, .. }));
    assert!(matches!(&plan.actions[3], SweepAction::TakeCharity { levy: 200, .. }));
    assert!(matches!(&plan.actions[4], SweepAction::Evict));
}

#[test]
fn second_sweep_finds_nothing_due() {
    let now = 10 * WEEK;
    let anchor = now - 100;
    let mut ledger = Ledger::new();
    put_row(&mut ledger, "a", 1000, anchor - 5, now - 700_000);
    put_row(&mut ledger, "b", 500, anchor - 5, now - 10);
    let first = run_sweep(&mut ledger, now, anchor, 100);
    assert_eq!(first.due.len(), 2);
    // Every processed row now carries the fresh feed timestamp, so an
    // immediate second pass over the same anchor has nothing to do.
    let second = run_sweep(&mut ledger, now, anchor, 100);
    assert_eq!(second.due.len(), 0);
    assert_eq!(second.charity_pool, 0);
    assert_eq!(ledger.find_player(&"a".to_string()).unwrap().balance, 900);
    assert_eq!(ledger.find_player(&"b".to_string()).unwrap().balance, 700);
}
