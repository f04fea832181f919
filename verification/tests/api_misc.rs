use potato_game::errors::PotatoGameError;
use potato_game::feeder::current_sweep_times;
use potato_game::settings::{Database, Discord, PotatoFeeder, Settings};

#[test]
fn concurrency_error_renders() {
    let e = PotatoGameError::ConcurrencyError;
    assert_eq!(e, PotatoGameError::ConcurrencyError);
    assert_eq!(e.message(), "ConcurrencyError");
}

#[test]
fn sweep_times_come_from_the_real_clock() {
    let (now, anchor) = current_sweep_times().expect("the machine clock is in range");
    assert!(now > 1_500_000_000); // after 2017, surely
    assert!(anchor <= now);
    assert!(now - anchor < 604_800);
}

#[test]
fn settings_hold_plain_values() {
    let s = Settings {
        database: Database { filename: "potato.db".to_string() },
        discord: Discord { token: "t".to_string(), proxy: None },
        potato_feeder: PotatoFeeder {
            channel_id: 5,
            interval_seconds: 30,
            amount: 100,
            zero_points_emoji: ":potato:".to_string(),
        },
    };
    assert_eq!(s.potato_feeder.amount, 100);
    assert_eq!(s.database.filename, "potato.db");
    assert!(s.discord.proxy.is_none());
}
