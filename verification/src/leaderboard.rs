//! The leaderboard ranker: a read-only fold over all rows that orders
//! players by balance, descending, and assigns each tie group of equal
//! balances one shared dense rank span.
//!
//! A group of equal balances occupies positions `rank_from..=rank_to`;
//! the next distinct balance's span begins right after. Equivalently:
//! an entry's `rank_from` is one more than the number of strictly
//! richer entries, and its `rank_to` is the number of entries at least
//! as rich.

use vstd::prelude::*;

use crate::ledger::Ledger;
use crate::players::Player;

verus! {

/// One leaderboard line.
pub struct LeaderboardEntry {
    pub discord_user_id: String,
    pub balance: i64,
    /// First position of this entry's tie group, counted from one.
    pub rank_from: usize,
    /// Last position of this entry's tie group.
    pub rank_to: usize,
    pub idle_since_ts: i64,
}

impl Clone for LeaderboardEntry {
    fn clone(&self) -> (res: Self)
        ensures
            res == *self,
    {
        LeaderboardEntry {
            discord_user_id: self.discord_user_id.clone(),
            balance: self.balance,
            rank_from: self.rank_from,
            rank_to: self.rank_to,
            idle_since_ts: self.idle_since_ts,
        }
    }
}

/// What the ranking carries of an entry: identity, balance, idle mark.
pub open spec fn entry_key(e: LeaderboardEntry) -> (Seq<char>, i64, i64) {
    (e.discord_user_id@, e.balance, e.idle_since_ts)
}

/// What the ranking carries of a player row.
pub open spec fn player_key(p: Player) -> (Seq<char>, i64, i64) {
    (p.discord_user_id@, p.balance, p.idle_since_ts)
}

pub open spec fn mapped_entries(s: Seq<LeaderboardEntry>) -> Seq<(Seq<char>, i64, i64)> {
    s.map_values(|e: LeaderboardEntry| entry_key(e))
}

pub open spec fn mapped_players(s: Seq<Player>) -> Seq<(Seq<char>, i64, i64)> {
    s.map_values(|p: Player| player_key(p))
}

/// How many of the first `k` entries hold a balance above `b`.
pub open spec fn count_gt(s: Seq<LeaderboardEntry>, b: int, k: int) -> int
    decreases k,
{
    if k <= 0 {
        0
    } else {
        count_gt(s, b, k - 1) + if s[k - 1].balance > b {
            1int
        } else {
            0int
        }
    }
}

/// How many of the first `k` entries hold a balance of at least `b`.
pub open spec fn count_ge(s: Seq<LeaderboardEntry>, b: int, k: int) -> int
    decreases k,
{
    if k <= 0 {
        0
    } else {
        count_ge(s, b, k - 1) + if s[k - 1].balance >= b {
            1int
        } else {
            0int
        }
    }
}

/// Balances never increase along the sequence.
pub open spec fn sorted_desc(s: Seq<LeaderboardEntry>) -> bool {
    forall|i: int, j: int| 0 <= i <= j < s.len() ==> s[i].balance >= s[j].balance
}

/// Entries and players carry the same keys: each entry's key is some
/// player's, and each player's key is some entry's.
pub open spec fn keys_correspond(r: Seq<LeaderboardEntry>, players: Seq<Player>) -> bool {
    &&& forall|k: int| 0 <= k < r.len() ==> mapped_players(players).contains(
        entry_key(#[trigger] r[k]),
    )
    &&& forall|j: int| 0 <= j < players.len() ==> mapped_entries(r).contains(
        player_key(#[trigger] players[j]),
    )
}

/// Sequences with equal key multisets correspond key by key.
pub proof fn lemma_multiset_keys_correspond(r: Seq<LeaderboardEntry>, players: Seq<Player>)
    requires
        mapped_entries(r).to_multiset() == mapped_players(players).to_multiset(),
    ensures
        keys_correspond(r, players),
{
    mapped_entries(r).to_multiset_ensures();
    mapped_players(players).to_multiset_ensures();
    assert forall|k: int| 0 <= k < r.len() implies mapped_players(players).contains(
        entry_key(#[trigger] r[k]),
    ) by {
        assert(mapped_entries(r)[k] == entry_key(r[k]));
        assert(mapped_entries(r).contains(entry_key(r[k])));
        assert(mapped_players(players).to_multiset().count(entry_key(r[k])) > 0);
    }
    assert forall|j: int| 0 <= j < players.len() implies mapped_entries(r).contains(
        player_key(#[trigger] players[j]),
    ) by {
        assert(mapped_players(players)[j] == player_key(players[j]));
        assert(mapped_players(players).contains(player_key(players[j])));
        assert(mapped_entries(r).to_multiset().count(player_key(players[j])) > 0);
    }
}

/// In a sequence split at `lo` and `hi` around the balance `b` — above
/// it before `lo`, equal on `lo..hi`, below it from `hi` — the counts
/// are the split points themselves.
proof fn lemma_counts(s: Seq<LeaderboardEntry>, b: int, lo: int, hi: int, k: int)
    requires
        0 <= lo <= hi <= s.len(),
        0 <= k <= s.len(),
        forall|t: int| 0 <= t < lo ==> s[t].balance > b,
        forall|t: int| lo <= t < hi ==> s[t].balance == b,
        forall|t: int| hi <= t < s.len() ==> s[t].balance < b,
    ensures
        count_gt(s, b, k) == if k <= lo {
            k
        } else {
            lo
        },
        count_ge(s, b, k) == if k <= hi {
            k
        } else {
            hi
        },
    decreases k,
{
    if k > 0 {
        lemma_counts(s, b, lo, hi, k - 1);
    }
}

proof fn lemma_mapped_push(s: Seq<LeaderboardEntry>, e: LeaderboardEntry)
    ensures
        mapped_entries(s.push(e)) == mapped_entries(s).push(entry_key(e)),
{
    assert(mapped_entries(s.push(e)) =~= mapped_entries(s).push(entry_key(e)));
}

proof fn lemma_mapped_remove(s: Seq<LeaderboardEntry>, i: int)
    requires
        0 <= i < s.len(),
    ensures
        mapped_entries(s.remove(i)) == mapped_entries(s).remove(i),
{
    assert(mapped_entries(s.remove(i)) =~= mapped_entries(s).remove(i));
}

/// One unranked entry per player row, in store order.
fn entries_of(players: &Vec<Player>) -> (r: Vec<LeaderboardEntry>)
    ensures
        r@.len() == players@.len(),
        forall|k: int| 0 <= k < r@.len() ==> entry_key(#[trigger] r@[k]) == player_key(
            players@[k],
        ),
{
    let n = players.len();
    let mut r: Vec<LeaderboardEntry> = Vec::new();
    let mut i: usize = 0;
    while i < n
        invariant
            i <= n,
            n == players@.len(),
            r@.len() == i,
            forall|k: int| 0 <= k < r@.len() ==> entry_key(#[trigger] r@[k]) == player_key(
                players@[k],
            ),
        decreases n - i,
    {
        let p = &players[i];
        r.push(
            LeaderboardEntry {
                discord_user_id: p.discord_user_id.clone(),
                balance: p.balance,
                rank_from: 0,
                rank_to: 0,
                idle_since_ts: p.idle_since_ts,
            },
        );
        i += 1;
    }
    r
}

/// Selection sort by balance, descending; keeps exactly the same
/// entries, as a multiset.
fn sort_entries_desc(entries: Vec<LeaderboardEntry>) -> (r: Vec<LeaderboardEntry>)
    ensures
        r@.len() == entries@.len(),
        sorted_desc(r@),
        mapped_entries(r@).to_multiset() == mapped_entries(entries@).to_multiset(),
{
    let ghost m0 = mapped_entries(entries@).to_multiset();
    let n = entries.len();
    let mut src = entries;
    let mut sorted: Vec<LeaderboardEntry> = Vec::new();
    proof {
        mapped_entries(sorted@).to_multiset_ensures();
        assert(mapped_entries(sorted@).to_multiset().add(mapped_entries(src@).to_multiset())
            =~= m0);
    }
    while src.len() > 0
        invariant
            sorted@.len() + src@.len() == n,
            mapped_entries(sorted@).to_multiset().add(mapped_entries(src@).to_multiset()) == m0,
            sorted_desc(sorted@),
            forall|a: int, b: int| 0 <= a < sorted@.len() && 0 <= b < src@.len()
                ==> sorted@[a].balance >= src@[b].balance,
        decreases src@.len(),
    {
        let m = src.len();
        let mut best: usize = 0;
        let mut t: usize = 1;
        while t < m
            invariant
                0 < m == src@.len(),
                best < t <= m,
                forall|u: int| 0 <= u < t ==> src@[best as int].balance >= src@[u].balance,
            decreases m - t,
        {
            if src[t].balance > src[best].balance {
                best = t;
            }
            t += 1;
        }
        let ghost src0 = src@;
        let ghost sorted0 = sorted@;
        let e = src.remove(best);
        sorted.push(e);
        proof {
            lemma_mapped_remove(src0, best as int);
            lemma_mapped_push(sorted0, e);
            mapped_entries(src0).to_multiset_ensures();
            mapped_entries(sorted0).to_multiset_ensures();
            assert(mapped_entries(src0)[best as int] == entry_key(e));
            assert(mapped_entries(sorted@).to_multiset() == mapped_entries(
                sorted0,
            ).to_multiset().insert(entry_key(e)));
            assert(mapped_entries(src@).to_multiset() == mapped_entries(
                src0,
            ).to_multiset().remove(entry_key(e)));
            assert(mapped_entries(src0).contains(entry_key(e)));
            assert(mapped_entries(src0).to_multiset().count(entry_key(e)) > 0);
            assert(mapped_entries(sorted@).to_multiset().add(mapped_entries(src@).to_multiset())
                =~= m0);
            assert forall|a: int, b: int|
                0 <= a < sorted@.len() && 0 <= b < src@.len() implies sorted@[a].balance >= src@[
                b
            ].balance by {
                assert(src@[b] == if b < best as int {
                    src0[b]
                } else {
                    src0[b + 1]
                });
                if a < sorted0.len() {
                    assert(sorted@[a] == sorted0[a]);
                } else {
                    assert(sorted@[a] == e);
                }
            }
        }
    }
    proof {
        mapped_entries(src@).to_multiset_ensures();
        assert(mapped_entries(sorted@).to_multiset() =~= m0);
    }
    sorted
}

/// Whether `e` is `s[k]` ranked: same key, and a rank span that covers
/// position `k`, holds `s[k]`'s balance throughout, and is bounded by a
/// strictly higher balance before and a strictly lower one after.
pub open spec fn ranked_entry(e: LeaderboardEntry, s: Seq<LeaderboardEntry>, k: int) -> bool {
    &&& entry_key(e) == entry_key(s[k])
    &&& 1 <= e.rank_from <= k + 1 <= e.rank_to <= s.len()
    &&& forall|t: int| e.rank_from - 1 <= t < e.rank_to ==> s[t].balance == s[k].balance
    &&& e.rank_from >= 2 ==> s[e.rank_from - 2].balance > s[k].balance
    &&& e.rank_to < s.len() ==> s[e.rank_to as int].balance < s[k].balance
}

/// Walks the sorted entries group by group and writes each tie group's
/// shared rank span.
fn assign_ranks(s: &Vec<LeaderboardEntry>) -> (r: Vec<LeaderboardEntry>)
    requires
        sorted_desc(s@),
    ensures
        r@.len() == s@.len(),
        forall|k: int| 0 <= k < r@.len() ==> ranked_entry(#[trigger] r@[k], s@, k),
{
    let n = s.len();
    let mut r: Vec<LeaderboardEntry> = Vec::new();
    let mut i: usize = 0;
    while i < n
        invariant
            i <= n,
            n == s@.len(),
            sorted_desc(s@),
            r@.len() == i,
            i < n && i > 0 ==> s@[i - 1].balance > s@[i as int].balance,
            forall|k: int| 0 <= k < r@.len() ==> ranked_entry(#[trigger] r@[k], s@, k),
        decreases n - i,
    {
        let mut j: usize = i + 1;
        while j < n && s[j].balance == s[i].balance
            invariant
                i < j <= n,
                n == s@.len(),
                forall|t: int| i <= t < j ==> s@[t].balance == s@[i as int].balance,
            decreases n - j,
        {
            j += 1;
        }
        let mut k2: usize = i;
        while k2 < j
            invariant
                i <= k2 <= j <= n,
                i < j,
                n == s@.len(),
                sorted_desc(s@),
                r@.len() == k2,
                i > 0 ==> s@[i - 1].balance > s@[i as int].balance,
                j < n ==> s@[j as int].balance < s@[i as int].balance,
                forall|t: int| i <= t < j ==> s@[t].balance == s@[i as int].balance,
                forall|k: int| 0 <= k < r@.len() ==> ranked_entry(#[trigger] r@[k], s@, k),
            decreases j - k2,
        {
            let e = &s[k2];
            r.push(
                LeaderboardEntry {
                    discord_user_id: e.discord_user_id.clone(),
                    balance: e.balance,
                    rank_from: i + 1,
                    rank_to: j,
                    idle_since_ts: e.idle_since_ts,
                },
            );
            k2 += 1;
        }
        i = j;
    }
    r
}

/// Ranks any collection of player rows: output ordered by balance
/// descending, carrying exactly the input players (as a multiset of
/// identity, balance and idle mark), each entry's `rank_from` being one
/// more than the number of strictly richer entries and its `rank_to`
/// the number of entries at least as rich.
pub fn rank_leaderboard(players: &Vec<Player>) -> (r: Vec<LeaderboardEntry>)
    ensures
        r@.len() == players@.len(),
        sorted_desc(r@),
        mapped_entries(r@).to_multiset() == mapped_players(players@).to_multiset(),
        forall|k: int| 0 <= k < r@.len() ==> (#[trigger] r@[k]).rank_from == 1 + count_gt(
            r@,
            r@[k].balance as int,
            r@.len() as int,
        ),
        forall|k: int| 0 <= k < r@.len() ==> (#[trigger] r@[k]).rank_to == count_ge(
            r@,
            r@[k].balance as int,
            r@.len() as int,
        ),
        keys_correspond(r@, players@),
{
    let entries = entries_of(players);
    proof {
        assert(mapped_entries(entries@) =~= mapped_players(players@));
    }
    let sorted = sort_entries_desc(entries);
    let r = assign_ranks(&sorted);
    proof {
        assert(mapped_entries(r@) =~= mapped_entries(sorted@));
        assert forall|k: int| 0 <= k < r@.len() implies (#[trigger] r@[k]).rank_from == 1
            + count_gt(r@, r@[k].balance as int, r@.len() as int) && r@[k].rank_to == count_ge(
            r@,
            r@[k].balance as int,
            r@.len() as int,
        ) by {
            let lo = r@[k].rank_from - 1;
            let hi = r@[k].rank_to as int;
            let b = r@[k].balance as int;
            assert(ranked_entry(r@[k], sorted@, k));
            assert forall|t: int| 0 <= t < lo implies r@[t].balance > b by {
                assert(ranked_entry(r@[t], sorted@, t));
                assert(sorted@[t].balance >= sorted@[lo].balance);
            }
            assert forall|t: int| lo <= t < hi implies r@[t].balance == b by {
                assert(ranked_entry(r@[t], sorted@, t));
            }
            assert forall|t: int| hi <= t < r@.len() implies r@[t].balance < b by {
                assert(ranked_entry(r@[t], sorted@, t));
                assert(sorted@[t].balance <= sorted@[hi].balance);
            }
            lemma_counts(r@, b, lo, hi, r@.len() as int);
        }
        assert(sorted_desc(r@)) by {
            assert forall|a: int, c: int| 0 <= a <= c < r@.len() implies r@[a].balance >= r@[
                c
            ].balance by {
                assert(ranked_entry(r@[a], sorted@, a));
                assert(ranked_entry(r@[c], sorted@, c));
            }
        }
        lemma_multiset_keys_correspond(r@, players@);
    }
    r
}

/// Loads the leaderboard from the store: every player ranked.
pub fn load_leaderboard(ledger: &Ledger) -> (r: Vec<LeaderboardEntry>)
    requires
        ledger.wf(),
    ensures
        r@.len() == ledger.row_count(),
        sorted_desc(r@),
        forall|k: int| 0 <= k < r@.len() ==> (#[trigger] r@[k]).rank_from == 1 + count_gt(
            r@,
            r@[k].balance as int,
            r@.len() as int,
        ),
        forall|k: int| 0 <= k < r@.len() ==> (#[trigger] r@[k]).rank_to == count_ge(
            r@,
            r@[k].balance as int,
            r@.len() as int,
        ),
        forall|k: int| 0 <= k < r@.len() ==> {
            &&& ledger@.contains_key(#[trigger] r@[k].discord_user_id@)
            &&& r@[k].balance == ledger@[r@[k].discord_user_id@].balance
            &&& r@[k].idle_since_ts == ledger@[r@[k].discord_user_id@].idle_since_ts
        },
        forall|id: Seq<char>| ledger@.contains_key(id) ==> exists|k: int|
            0 <= k < r@.len() && #[trigger] r@[k].discord_user_id@ == id,
{
    let players = ledger.all_players();
    let r = rank_leaderboard(&players);
    proof {
        assert forall|k: int| 0 <= k < r@.len() implies {
            &&& ledger@.contains_key(#[trigger] r@[k].discord_user_id@)
            &&& r@[k].balance == ledger@[r@[k].discord_user_id@].balance
            &&& r@[k].idle_since_ts == ledger@[r@[k].discord_user_id@].idle_since_ts
        } by {
            assert(mapped_players(players@).contains(entry_key(r@[k])));
            let j = choose|j: int| 0 <= j < mapped_players(players@).len() && mapped_players(
                players@,
            )[j] == entry_key(r@[k]);
            assert(entry_key(r@[k]) == player_key(players@[j]));
            assert(ledger@.contains_key(players@[j].discord_user_id@));
        }
        assert forall|id: Seq<char>| ledger@.contains_key(id) implies exists|k: int|
            0 <= k < r@.len() && #[trigger] r@[k].discord_user_id@ == id by {
            let j0 = choose|j0: int| 0 <= j0 < players@.len()
                && #[trigger] players@[j0].discord_user_id@ == id;
            assert(mapped_entries(r@).contains(player_key(players@[j0])));
            let k0 = choose|k0: int| 0 <= k0 < mapped_entries(r@).len() && mapped_entries(
                r@,
            )[k0] == player_key(players@[j0]);
            assert(entry_key(r@[k0]) == player_key(players@[j0]));
            assert(r@[k0].discord_user_id@ == id);
        }
    }
    r
}

} // verus!
