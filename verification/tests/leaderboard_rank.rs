use potato_game::leaderboard::{load_leaderboard, rank_leaderboard};
use potato_game::ledger::Ledger;
use potato_game::players::Player;

fn mk(id: &str, balance: i64) -> Player {
    Player {
        discord_user_id: id.to_string(),
        balance,
        last_feed_ts: 0,
        idle_since_ts: 7,
        version: 1,
    }
}

#[test]
fn tie_group_shares_a_dense_span() {
    let players = vec![mk("a", 500), mk("b", 500), mk("c", 200)];
    let r = rank_leaderboard(&players);
    assert_eq!(r.len(), 3);
    let spans: Vec<(i64, usize, usize)> =
        r.iter().map(|e| (e.balance, e.rank_from, e.rank_to)).collect();
    assert_eq!(spans, vec![(500, 1, 2), (500, 1, 2), (200, 3, 3)]);
    let mut top_ids: Vec<&str> = r[..2].iter().map(|e| e.discord_user_id.as_str()).collect();
    top_ids.sort();
    assert_eq!(top_ids, vec!["a", "b"]);
    assert_eq!(r[2].discord_user_id, "c");
}

#[test]
fn single_player_is_first() {
    let players = vec![mk("solo", 100)];
    let r = rank_leaderboard(&players);
    assert_eq!(r.len(), 1);
    assert_eq!(r[0].rank_from, 1);
    assert_eq!(r[0].rank_to, 1);
    assert_eq!(r[0].balance, 100);
}

#[test]
fn empty_input_gives_empty_board() {
    let players: Vec<Player> = Vec::new();
    assert!(rank_leaderboard(&players).is_empty());
}

#[test]
fn ranks_resume_after_each_group() {
    let players = vec![mk("a", 10), mk("b", 30), mk("c", 20), mk("d", 30), mk("e", 20)];
    let r = rank_leaderboard(&players);
    let spans: Vec<(i64, usize, usize)> =
        r.iter().map(|e| (e.balance, e.rank_from, e.rank_to)).collect();
    assert_eq!(
        spans,
        vec![(30, 1, 2), (30, 1, 2), (20, 3, 4), (20, 3, 4), (10, 5, 5)]
    );
}

#[test]
fn entries_keep_idle_marks() {
    let players = vec![Player {
        discord_user_id: "z".to_string(),
        balance: 9,
        last_feed_ts: 1,
        idle_since_ts: 123,
        version: 4,
    }];
    let r = rank_leaderboard(&players);
    assert_eq!(r[0].idle_since_ts, 123);
}

#[test]
fn board_loads_from_the_store() {
    let mut ledger = Ledger::new();
    for (id, balance) in [("a", 500i64), ("b", 500), ("c", 200)] {
        let created = ledger.create_player(&id.to_string(), 0).unwrap();
        let row = Player { balance, ..created };
        assert!(ledger.update_player(&row));
    }
    let r = load_leaderboard(&ledger);
    assert_eq!(r.len(), 3);
    assert_eq!((r[0].rank_from, r[0].rank_to), (1, 2));
    assert_eq!((r[1].rank_from, r[1].rank_to), (1, 2));
    assert_eq!((r[2].rank_from, r[2].rank_to), (3, 3));
    assert_eq!(r[2].balance, 200);
}
