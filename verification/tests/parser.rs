use potato_game::flip::{calculate_amount, BetAmount, CoinSide};
use potato_game::players::Player;

#[test]
fn keywords() {
    assert!(matches!(BetAmount::from_str("all"), Ok(BetAmount::All)));
    assert!(matches!(BetAmount::from_str("half"), Ok(BetAmount::Half)));
    assert!(matches!(BetAmount::from_str("some"), Ok(BetAmount::Random)));
}

#[test]
fn keywords_fold_case_and_trim() {
    assert!(matches!(BetAmount::from_str("ALL"), Ok(BetAmount::All)));
    assert!(matches!(BetAmount::from_str("  Half\t"), Ok(BetAmount::Half)));
    assert!(matches!(BetAmount::from_str("\nSoMe "), Ok(BetAmount::Random)));
}

#[test]
fn plain_amounts() {
    assert!(matches!(BetAmount::from_str("3000"), Ok(BetAmount::Specific(3000))));
    assert!(matches!(BetAmount::from_str("0"), Ok(BetAmount::Specific(0))));
    assert!(matches!(BetAmount::from_str("007"), Ok(BetAmount::Specific(7))));
    assert!(matches!(BetAmount::from_str("+12"), Ok(BetAmount::Specific(12))));
    assert!(matches!(BetAmount::from_str("-0"), Ok(BetAmount::Specific(0))));
    assert!(matches!(
        BetAmount::from_str("9223372036854775807"),
        Ok(BetAmount::Specific(i64::MAX))
    ));
}

#[test]
fn percentages() {
    assert!(matches!(BetAmount::from_str("33%"), Ok(BetAmount::Percentage(33))));
    assert!(matches!(BetAmount::from_str("0%"), Ok(BetAmount::Percentage(0))));
    assert!(matches!(BetAmount::from_str("100%"), Ok(BetAmount::Percentage(100))));
    assert!(matches!(BetAmount::from_str("50%%"), Ok(BetAmount::Percentage(50))));
    assert!(matches!(BetAmount::from_str(" 2% "), Ok(BetAmount::Percentage(2))));
}

#[test]
fn rejected_directives() {
    assert!(BetAmount::from_str("").is_err());
    assert!(BetAmount::from_str("   ").is_err());
    assert!(BetAmount::from_str("abc").is_err());
    assert!(BetAmount::from_str("-5").is_err());
    assert!(BetAmount::from_str("101%").is_err());
    assert!(BetAmount::from_str("-5%").is_err());
    assert!(BetAmount::from_str("%").is_err());
    assert!(BetAmount::from_str("1 2").is_err());
    assert!(BetAmount::from_str("12.5").is_err());
    assert!(BetAmount::from_str("99999999999999999999").is_err());
    assert!(BetAmount::from_str("9223372036854775808").is_err());
    assert!(BetAmount::from_str("5%0%").is_err());
}

fn player(balance: i64) -> Player {
    Player {
        discord_user_id: "1".to_string(),
        balance,
        last_feed_ts: 0,
        idle_since_ts: 0,
        version: 1,
    }
}

#[test]
fn resolved_amounts() {
    let p = player(1000);
    assert_eq!(calculate_amount(&BetAmount::All, &p), 1000);
    assert_eq!(calculate_amount(&BetAmount::Half, &p), 500);
    assert_eq!(calculate_amount(&BetAmount::Specific(123), &p), 123);
    assert_eq!(calculate_amount(&BetAmount::Percentage(33), &p), 330);
    assert_eq!(calculate_amount(&BetAmount::Percentage(0), &p), 0);
    let odd = player(333);
    assert_eq!(calculate_amount(&BetAmount::Half, &odd), 166);
    assert_eq!(calculate_amount(&BetAmount::Percentage(10), &odd), 33);
    for _ in 0..50 {
        let drawn = calculate_amount(&BetAmount::Random, &p);
        assert!((2..=1000).contains(&drawn));
    }
}

#[test]
fn coin_sides_compare() {
    assert_eq!(CoinSide::Heads, CoinSide::Heads);
    assert_ne!(CoinSide::Heads, CoinSide::Tails);
}
