use potato_game::players::{get_idle_status, IdleStatus, Player};

fn player(balance: i64, idle_since_ts: i64) -> Player {
    Player {
        discord_user_id: "1".to_string(),
        balance,
        last_feed_ts: 0,
        idle_since_ts,
        version: 1,
    }
}

#[test]
fn status_boundaries() {
    assert_eq!(get_idle_status(0), IdleStatus::Active);
    assert_eq!(get_idle_status(604_799), IdleStatus::Active);
    assert_eq!(get_idle_status(604_800), IdleStatus::Away);
    assert_eq!(get_idle_status(1_209_599), IdleStatus::Away);
    assert_eq!(get_idle_status(1_209_600), IdleStatus::Sleeping);
    assert_eq!(get_idle_status(1_814_399), IdleStatus::Sleeping);
    assert_eq!(get_idle_status(1_814_400), IdleStatus::Missing);
    assert_eq!(get_idle_status(2_419_199), IdleStatus::Missing);
    assert_eq!(get_idle_status(2_419_200), IdleStatus::Dead);
    assert_eq!(get_idle_status(i64::MAX), IdleStatus::Dead);
}

#[test]
fn status_from_player() {
    let p = player(100, 1_000);
    assert_eq!(p.idle_status(1_000), IdleStatus::Active);
    assert_eq!(p.idle_status(1_000 + 604_800), IdleStatus::Away);
    assert_eq!(p.idle_status(1_000 + 2_419_200), IdleStatus::Dead);
}

#[test]
fn charity_by_status() {
    let p = player(600, 0);
    assert_eq!(p.charity_amount(0), 0); // Active
    assert_eq!(p.charity_amount(604_800), 60); // Away: b / 10
    assert_eq!(p.charity_amount(1_209_600), 100); // Sleeping: b / 6
    assert_eq!(p.charity_amount(1_814_400), 200); // Missing: b / 3
    assert_eq!(p.charity_amount(2_419_200), 600); // Dead: all of it
}

#[test]
fn charity_active_is_zero_and_dead_is_everything() {
    for balance in [0, 1, 2, 999, 5000, 123_456_789] {
        let p = player(balance, 0);
        assert_eq!(p.charity_amount(0), 0);
        assert_eq!(p.charity_amount(2_419_200), balance);
    }
}

#[test]
fn charity_rounds_down() {
    let p = player(95, 0);
    assert_eq!(p.charity_amount(604_800), 9);
    assert_eq!(p.charity_amount(1_209_600), 15);
    assert_eq!(p.charity_amount(1_814_400), 31);
}
