//! The ledger store: keyed player rows under optimistic concurrency.
//!
//! Every cross-request consistency guarantee of the game rests on the
//! store's conditional writes: an update or removal succeeds only if the
//! version it submits matches the version currently stored, and a
//! successful update advances the stored version by one. The store never
//! retries; retry policy belongs to the callers.
//!
//! The store is modelled as a map from player identity to the row's
//! fields; all operation contracts speak of that map.

use vstd::prelude::*;

use crate::players::{Player, PlayerRec, INITIAL_BALANCE};

verus! {

/// Largest epoch-second timestamp the core accepts (about year 5138);
/// keeps all time arithmetic far from the `i64` range ends.
pub const MAX_TIMESTAMP: i64 = 100_000_000_000;

/// A row's fields as the store keeps them: balance never negative,
/// version at least one, timestamps within the accepted epoch range.
pub open spec fn rec_ok(r: PlayerRec) -> bool {
    &&& 0 <= r.balance
    &&& 1 <= r.version
    &&& 0 <= r.last_feed_ts <= MAX_TIMESTAMP
    &&& 0 <= r.idle_since_ts <= MAX_TIMESTAMP
}

/// `rec_ok` for a row about to be submitted to the store.
pub open spec fn player_ok(p: Player) -> bool {
    rec_ok(p.rec())
}

/// The row a conditional write stores on success: the submitted fields
/// with the version advanced by one.
pub open spec fn committed_rec(r: PlayerRec) -> PlayerRec {
    PlayerRec {
        balance: r.balance,
        last_feed_ts: r.last_feed_ts,
        idle_since_ts: r.idle_since_ts,
        version: r.version + 1,
    }
}

/// The row `create` stores for a new player at time `now`.
pub open spec fn fresh_rec(now: int) -> PlayerRec {
    PlayerRec {
        balance: INITIAL_BALANCE as int,
        last_feed_ts: now,
        idle_since_ts: now,
        version: 1,
    }
}

/// Whether a conditional write submitting version `v` for `id` commits
/// against stored state `m`: the row must exist and still carry exactly
/// the version the writer read. (The guard `v < i64::MAX` keeps the
/// advanced version representable; no sequence of writes reaches it.)
pub open spec fn update_succeeds(m: Map<Seq<char>, PlayerRec>, id: Seq<char>, v: int) -> bool {
    &&& m.contains_key(id)
    &&& m[id].version == v
    &&& v < i64::MAX
}

/// Whether a conditional removal submitting version `v` for `id` commits.
pub open spec fn remove_succeeds(m: Map<Seq<char>, PlayerRec>, id: Seq<char>, v: int) -> bool {
    &&& m.contains_key(id)
    &&& m[id].version == v
}

/// The balances of `s` summed.
pub open spec fn sum_balance(s: Seq<Player>) -> int
    decreases s.len(),
{
    if s.len() == 0 {
        0
    } else {
        sum_balance(s.drop_last()) + s.last().balance
    }
}

pub proof fn lemma_sum_balance_push(s: Seq<Player>, p: Player)
    ensures
        sum_balance(s.push(p)) == sum_balance(s) + p.balance,
{
    assert(s.push(p).drop_last() =~= s);
}

pub proof fn lemma_sum_balance_take_step(s: Seq<Player>, i: int)
    requires
        0 <= i < s.len(),
    ensures
        sum_balance(s.take(i + 1)) == sum_balance(s.take(i)) + s[i].balance,
{
    assert(s.take(i + 1).drop_last() =~= s.take(i));
    assert(s.take(i + 1).last() == s[i]);
}

pub proof fn lemma_sum_balance_nonneg(s: Seq<Player>)
    requires
        forall|k: int| 0 <= k < s.len() ==> (#[trigger] s[k]).balance >= 0,
    ensures
        sum_balance(s) >= 0,
    decreases s.len(),
{
    if s.len() > 0 {
        assert forall|k: int| 0 <= k < s.drop_last().len() implies (#[trigger] s.drop_last()[
            k
        ]).balance >= 0 by {
            assert(s.drop_last()[k] == s[k]);
        }
        lemma_sum_balance_nonneg(s.drop_last());
    }
}

/// A prefix of non-negative balances sums to no more than the whole.
pub proof fn lemma_sum_balance_prefix(s: Seq<Player>, i: int)
    requires
        forall|k: int| 0 <= k < s.len() ==> (#[trigger] s[k]).balance >= 0,
        0 <= i <= s.len(),
    ensures
        sum_balance(s.take(i)) <= sum_balance(s),
    decreases s.len() - i,
{
    if i == s.len() {
        assert(s.take(i) =~= s);
    } else {
        lemma_sum_balance_take_step(s, i);
        lemma_sum_balance_prefix(s, i + 1);
    }
}

/// One non-negative balance is no more than the sum of all of them.
pub proof fn lemma_sum_balance_elem(s: Seq<Player>, k: int)
    requires
        forall|j: int| 0 <= j < s.len() ==> (#[trigger] s[j]).balance >= 0,
        0 <= k < s.len(),
    ensures
        s[k].balance <= sum_balance(s),
    decreases s.len(),
{
    assert forall|j: int| 0 <= j < s.drop_last().len() implies (#[trigger] s.drop_last()[
        j
    ]).balance >= 0 by {
        assert(s.drop_last()[j] == s[j]);
    }
    if k == s.len() - 1 {
        lemma_sum_balance_nonneg(s.drop_last());
    } else {
        lemma_sum_balance_elem(s.drop_last(), k);
        assert(s.drop_last()[k] == s[k]);
    }
}

/// No two rows share an identity.
spec fn unique_ids(rows: Seq<Player>) -> bool {
    forall|i: int, j: int|
        0 <= i < j < rows.len() ==> rows[i].discord_user_id@ != rows[j].discord_user_id@
}

/// Some row carries identity `id`.
spec fn has_id(rows: Seq<Player>, id: Seq<char>) -> bool {
    exists|i: int| 0 <= i < rows.len() && rows[i].discord_user_id@ == id
}

/// The index of the row carrying `id` (meaningful under `unique_ids`).
spec fn idx_of(rows: Seq<Player>, id: Seq<char>) -> int {
    choose|i: int| 0 <= i < rows.len() && rows[i].discord_user_id@ == id
}

/// The rows as a map from identity to fields.
spec fn view_of(rows: Seq<Player>) -> Map<Seq<char>, PlayerRec> {
    Map::new(|id: Seq<char>| has_id(rows, id), |id: Seq<char>| rows[idx_of(rows, id)].rec())
}

proof fn lemma_idx(rows: Seq<Player>, i: int)
    requires
        unique_ids(rows),
        0 <= i < rows.len(),
    ensures
        has_id(rows, rows[i].discord_user_id@),
        idx_of(rows, rows[i].discord_user_id@) == i,
{
    let id = rows[i].discord_user_id@;
    assert(has_id(rows, id));
    let k = idx_of(rows, id);
    assert(0 <= k < rows.len() && rows[k].discord_user_id@ == id);
    if k < i {
        assert(rows[k].discord_user_id@ != rows[i].discord_user_id@);
    } else if i < k {
        assert(rows[i].discord_user_id@ != rows[k].discord_user_id@);
    }
}

proof fn lemma_view_push(rows: Seq<Player>, p: Player)
    requires
        unique_ids(rows),
        !has_id(rows, p.discord_user_id@),
    ensures
        unique_ids(rows.push(p)),
        view_of(rows.push(p)) == view_of(rows).insert(p.discord_user_id@, p.rec()),
{
    let rows2 = rows.push(p);
    let pid = p.discord_user_id@;
    assert forall|i: int, j: int| 0 <= i < j < rows2.len() implies rows2[i].discord_user_id@
        != rows2[j].discord_user_id@ by {
        if j < rows.len() {
            assert(rows2[i] == rows[i] && rows2[j] == rows[j]);
        } else {
            assert(rows2[j] == p && rows2[i] == rows[i]);
            if rows[i].discord_user_id@ == pid {
                assert(has_id(rows, pid));
            }
        }
    }
    assert forall|id: Seq<char>| #[trigger] has_id(rows2, id) implies has_id(rows, id) || id
        == pid by {
        let i = choose|i: int| 0 <= i < rows2.len() && rows2[i].discord_user_id@ == id;
        if i < rows.len() {
            assert(rows[i].discord_user_id@ == id);
        }
    }
    assert forall|id: Seq<char>| has_id(rows, id) implies #[trigger] has_id(rows2, id) by {
        let i = choose|i: int| 0 <= i < rows.len() && rows[i].discord_user_id@ == id;
        assert(rows2[i].discord_user_id@ == id);
    }
    assert(rows2[rows.len() as int] == p);
    assert(has_id(rows2, pid));
    assert(view_of(rows2) =~= view_of(rows).insert(pid, p.rec())) by {
        lemma_idx(rows2, rows.len() as int);
        assert forall|id: Seq<char>| has_id(rows2, id) && id != pid implies view_of(rows2)[id]
            == view_of(rows)[id] by {
            let k = idx_of(rows, id);
            assert(0 <= k < rows.len() && rows[k].discord_user_id@ == id);
            assert(rows2[k].discord_user_id@ == id);
            lemma_idx(rows2, k);
            lemma_idx(rows, k);
        }
    }
}

proof fn lemma_view_update(rows: Seq<Player>, i: int, np: Player)
    requires
        unique_ids(rows),
        0 <= i < rows.len(),
        np.discord_user_id@ == rows[i].discord_user_id@,
    ensures
        unique_ids(rows.update(i, np)),
        view_of(rows.update(i, np)) == view_of(rows).insert(np.discord_user_id@, np.rec()),
{
    let rows2 = rows.update(i, np);
    let pid = np.discord_user_id@;
    assert forall|a: int, b: int| 0 <= a < b < rows2.len() implies rows2[a].discord_user_id@
        != rows2[b].discord_user_id@ by {
        assert(rows2[a].discord_user_id@ == rows[a].discord_user_id@);
        assert(rows2[b].discord_user_id@ == rows[b].discord_user_id@);
    }
    assert forall|id: Seq<char>| #[trigger] has_id(rows2, id) implies has_id(rows, id) by {
        let k = choose|k: int| 0 <= k < rows2.len() && rows2[k].discord_user_id@ == id;
        assert(rows[k].discord_user_id@ == id);
    }
    assert forall|id: Seq<char>| has_id(rows, id) implies #[trigger] has_id(rows2, id) by {
        let k = choose|k: int| 0 <= k < rows.len() && rows[k].discord_user_id@ == id;
        assert(rows2[k].discord_user_id@ == id);
    }
    assert(view_of(rows2) =~= view_of(rows).insert(pid, np.rec())) by {
        lemma_idx(rows2, i);
        assert forall|id: Seq<char>| has_id(rows2, id) && id != pid implies view_of(rows2)[id]
            == view_of(rows)[id] by {
            let k = idx_of(rows, id);
            assert(0 <= k < rows.len() && rows[k].discord_user_id@ == id);
            assert(k != i);
            assert(rows2[k].discord_user_id@ == id);
            lemma_idx(rows2, k);
            lemma_idx(rows, k);
        }
        assert(has_id(rows2, pid));
    }
}

proof fn lemma_view_remove(rows: Seq<Player>, i: int)
    requires
        unique_ids(rows),
        0 <= i < rows.len(),
    ensures
        unique_ids(rows.remove(i)),
        view_of(rows.remove(i)) == view_of(rows).remove(rows[i].discord_user_id@),
{
    let rows2 = rows.remove(i);
    let pid = rows[i].discord_user_id@;
    assert forall|a: int, b: int| 0 <= a < b < rows2.len() implies rows2[a].discord_user_id@
        != rows2[b].discord_user_id@ by {
        let a0 = if a < i {
            a
        } else {
            a + 1
        };
        let b0 = if b < i {
            b
        } else {
            b + 1
        };
        assert(rows2[a].discord_user_id@ == rows[a0].discord_user_id@);
        assert(rows2[b].discord_user_id@ == rows[b0].discord_user_id@);
    }
    assert forall|id: Seq<char>| #[trigger] has_id(rows2, id) implies has_id(rows, id) && id
        != pid by {
        let k = choose|k: int| 0 <= k < rows2.len() && rows2[k].discord_user_id@ == id;
        let k0 = if k < i {
            k
        } else {
            k + 1
        };
        assert(rows[k0].discord_user_id@ == id);
        if id == pid {
            lemma_idx(rows, i);
            lemma_idx(rows, k0);
        }
    }
    assert forall|id: Seq<char>| has_id(rows, id) && id != pid implies #[trigger] has_id(
        rows2,
        id,
    ) by {
        let k = choose|k: int| 0 <= k < rows.len() && rows[k].discord_user_id@ == id;
        if k < i {
            assert(rows2[k].discord_user_id@ == id);
        } else {
            assert(k != i);
            assert(rows2[k - 1].discord_user_id@ == id);
        }
    }
    assert(view_of(rows2) =~= view_of(rows).remove(pid)) by {
        assert forall|id: Seq<char>| has_id(rows2, id) implies view_of(rows2)[id] == view_of(
            rows,
        )[id] by {
            let k2 = idx_of(rows2, id);
            assert(0 <= k2 < rows2.len() && rows2[k2].discord_user_id@ == id);
            let k0 = if k2 < i {
                k2
            } else {
                k2 + 1
            };
            assert(rows2[k2] == rows[k0]);
            lemma_idx(rows, k0);
        }
    }
}

/// The ledger store.
pub struct Ledger {
    rows: Vec<Player>,
}

impl View for Ledger {
    type V = Map<Seq<char>, PlayerRec>;

    closed spec fn view(&self) -> Map<Seq<char>, PlayerRec> {
        view_of(self.rows@)
    }
}

impl Ledger {
    /// Row identities are unique and every stored row is well formed.
    pub closed spec fn wf(&self) -> bool {
        &&& unique_ids(self.rows@)
        &&& forall|i: int| 0 <= i < self.rows@.len() ==> rec_ok(#[trigger] self.rows@[i].rec())
    }

    /// The balances of all stored rows summed.
    pub closed spec fn total_balance(&self) -> int {
        sum_balance(self.rows@)
    }

    /// How many rows the store holds.
    pub closed spec fn row_count(&self) -> nat {
        self.rows@.len()
    }

    /// Every stored row satisfies `rec_ok`.
    pub proof fn lemma_wf_rec_ok(&self, id: Seq<char>)
        requires
            self.wf(),
            self@.contains_key(id),
        ensures
            rec_ok(self@[id]),
    {
        let k = idx_of(self.rows@, id);
        assert(0 <= k < self.rows@.len() && self.rows@[k].discord_user_id@ == id);
    }

    /// An empty store.
    pub fn new() -> (l: Ledger)
        ensures
            l.wf(),
            l@ == Map::<Seq<char>, PlayerRec>::empty(),
            l.total_balance() == 0,
    {
        let l = Ledger { rows: Vec::new() };
        proof {
            assert(l@ =~= Map::<Seq<char>, PlayerRec>::empty());
        }
        l
    }

    /// Looks a player up by identity; returns a copy of the stored row.
    pub fn find_player(&self, user_id: &String) -> (r: Option<Player>)
        requires
            self.wf(),
        ensures
            match r {
                Some(p) => {
                    &&& self@.contains_key(user_id@)
                    &&& p.discord_user_id@ == user_id@
                    &&& p.rec() == self@[user_id@]
                    &&& rec_ok(p.rec())
                },
                None => !self@.contains_key(user_id@),
            },
    {
        let n = self.rows.len();
        let mut i: usize = 0;
        while i < n
            invariant
                n == self.rows@.len(),
                self.wf(),
                forall|j: int| 0 <= j < i ==> self.rows@[j].discord_user_id@ != user_id@,
            decreases n - i,
        {
            if self.rows[i].discord_user_id == *user_id {
                let p = self.rows[i].clone();
                proof {
                    lemma_idx(self.rows@, i as int);
                }
                return Some(p);
            }
            i += 1;
        }
        proof {
            if has_id(self.rows@, user_id@) {
                let k = idx_of(self.rows@, user_id@);
                assert(0 <= k < self.rows@.len() && self.rows@[k].discord_user_id@ == user_id@);
            }
        }
        None
    }

    /// Creates a row for a new player with the starting balance. Fails
    /// and leaves the store unchanged if a row already exists: a create
    /// race signals a conflict instead of overwriting.
    pub fn create_player(&mut self, user_id: &String, now: i64) -> (r: Option<Player>)
        requires
            old(self).wf(),
            0 <= now <= MAX_TIMESTAMP,
        ensures
            final(self).wf(),
            match r {
                Some(p) => {
                    &&& !old(self)@.contains_key(user_id@)
                    &&& p.discord_user_id@ == user_id@
                    &&& p.rec() == fresh_rec(now as int)
                    &&& final(self)@ == old(self)@.insert(user_id@, fresh_rec(now as int))
                },
                None => {
                    &&& old(self)@.contains_key(user_id@)
                    &&& final(self)@ == old(self)@
                },
            },
    {
        match self.find_player(user_id) {
            Some(_) => None,
            None => {
                let p = Player {
                    discord_user_id: user_id.clone(),
                    balance: INITIAL_BALANCE,
                    last_feed_ts: now,
                    idle_since_ts: now,
                    version: 1,
                };
                proof {
                    lemma_view_push(self.rows@, p);
                }
                let copy = p.clone();
                self.rows.push(p);
                Some(copy)
            },
        }
    }

    /// The conditional write: stores `p`'s fields with the version
    /// advanced by one, iff the stored version equals `p.version`.
    /// On failure the store is unchanged; the store never retries.
    pub fn update_player(&mut self, p: &Player) -> (r: bool)
        requires
            old(self).wf(),
            player_ok(*p),
        ensures
            final(self).wf(),
            r == update_succeeds(old(self)@, p.discord_user_id@, p.version as int),
            r ==> final(self)@ == old(self)@.insert(
                p.discord_user_id@,
                committed_rec(p.rec()),
            ),
            !r ==> final(self)@ == old(self)@,
    {
        let n = self.rows.len();
        let mut i: usize = 0;
        while i < n
            invariant
                n == self.rows@.len(),
                self.wf(),
                self.rows@ == old(self).rows@,
                player_ok(*p),
                forall|j: int| 0 <= j < i ==> self.rows@[j].discord_user_id@
                    != p.discord_user_id@,
            decreases n - i,
        {
            if self.rows[i].discord_user_id == p.discord_user_id {
                proof {
                    lemma_idx(self.rows@, i as int);
                }
                if self.rows[i].version == p.version && p.version < i64::MAX {
                    let np = Player {
                        discord_user_id: p.discord_user_id.clone(),
                        balance: p.balance,
                        last_feed_ts: p.last_feed_ts,
                        idle_since_ts: p.idle_since_ts,
                        version: p.version + 1,
                    };
                    proof {
                        lemma_view_update(self.rows@, i as int, np);
                    }
                    let ghost rows0 = self.rows@;
                    self.rows.set(i, np);
                    proof {
                        assert forall|k: int| 0 <= k < self.rows@.len() implies rec_ok(
                            #[trigger] self.rows@[k].rec(),
                        ) by {
                            if k != i as int {
                                assert(self.rows@[k] == rows0[k]);
                            }
                        }
                    }
                    return true;
                } else {
                    return false;
                }
            }
            i += 1;
        }
        proof {
            if has_id(self.rows@, p.discord_user_id@) {
                let k = idx_of(self.rows@, p.discord_user_id@);
                assert(0 <= k < self.rows@.len() && self.rows@[k].discord_user_id@
                    == p.discord_user_id@);
            }
        }
        false
    }

    /// The conditional removal: deletes the row iff the stored version
    /// equals `p.version`. On failure the store is unchanged.
    pub fn remove_player(&mut self, p: &Player) -> (r: bool)
        requires
            old(self).wf(),
        ensures
            final(self).wf(),
            r == remove_succeeds(old(self)@, p.discord_user_id@, p.version as int),
            r ==> final(self)@ == old(self)@.remove(p.discord_user_id@),
            !r ==> final(self)@ == old(self)@,
    {
        let n = self.rows.len();
        let mut i: usize = 0;
        while i < n
            invariant
                n == self.rows@.len(),
                self.wf(),
                self.rows@ == old(self).rows@,
                forall|j: int| 0 <= j < i ==> self.rows@[j].discord_user_id@
                    != p.discord_user_id@,
            decreases n - i,
        {
            if self.rows[i].discord_user_id == p.discord_user_id {
                proof {
                    lemma_idx(self.rows@, i as int);
                }
                if self.rows[i].version == p.version {
                    proof {
                        lemma_view_remove(self.rows@, i as int);
                    }
                    let ghost rows0 = self.rows@;
                    self.rows.remove(i);
                    proof {
                        assert forall|k: int| 0 <= k < self.rows@.len() implies rec_ok(
                            #[trigger] self.rows@[k].rec(),
                        ) by {
                            if k < i as int {
                                assert(self.rows@[k] == rows0[k]);
                            } else {
                                assert(self.rows@[k] == rows0[k + 1]);
                            }
                        }
                    }
                    return true;
                } else {
                    return false;
                }
            }
            i += 1;
        }
        proof {
            if has_id(self.rows@, p.discord_user_id@) {
                let k = idx_of(self.rows@, p.discord_user_id@);
                assert(0 <= k < self.rows@.len() && self.rows@[k].discord_user_id@
                    == p.discord_user_id@);
            }
        }
        false
    }

    /// Copies of all stored rows, one per player.
    pub fn all_players(&self) -> (r: Vec<Player>)
        requires
            self.wf(),
        ensures
            r@.len() == self.row_count(),
            forall|k: int| 0 <= k < r@.len() ==> {
                &&& self@.contains_key(#[trigger] r@[k].discord_user_id@)
                &&& r@[k].rec() == self@[r@[k].discord_user_id@]
                &&& rec_ok(r@[k].rec())
            },
            forall|k: int, l: int| 0 <= k < l < r@.len() ==> r@[k].discord_user_id@
                != r@[l].discord_user_id@,
            forall|id: Seq<char>| self@.contains_key(id) ==> exists|k: int|
                0 <= k < r@.len() && #[trigger] r@[k].discord_user_id@ == id,
    {
        let n = self.rows.len();
        let mut r: Vec<Player> = Vec::new();
        let mut i: usize = 0;
        while i < n
            invariant
                n == self.rows@.len(),
                i <= n,
                self.wf(),
                r@.len() == i,
                forall|k: int| 0 <= k < r@.len() ==> r@[k] == self.rows@[k],
            decreases n - i,
        {
            let p = self.rows[i].clone();
            r.push(p);
            i += 1;
        }
        proof {
            assert forall|k: int| 0 <= k < r@.len() implies {
                &&& self@.contains_key(#[trigger] r@[k].discord_user_id@)
                &&& r@[k].rec() == self@[r@[k].discord_user_id@]
                &&& rec_ok(r@[k].rec())
            } by {
                lemma_idx(self.rows@, k);
            }
            assert forall|id: Seq<char>| self@.contains_key(id) implies exists|k: int|
                0 <= k < r@.len() && #[trigger] r@[k].discord_user_id@ == id by {
                let j = idx_of(self.rows@, id);
                assert(0 <= j < self.rows@.len() && self.rows@[j].discord_user_id@ == id);
                assert(r@[j].discord_user_id@ == id);
            }
        }
        r
    }

    /// Copies of all rows whose `last_feed_ts` precedes `ts`: the players
    /// an anchor at `ts` makes due for processing.
    pub fn find_unfeeded_players(&self, ts: i64) -> (r: Vec<Player>)
        requires
            self.wf(),
        ensures
            forall|k: int| 0 <= k < r@.len() ==> {
                &&& self@.contains_key(#[trigger] r@[k].discord_user_id@)
                &&& r@[k].rec() == self@[r@[k].discord_user_id@]
                &&& r@[k].last_feed_ts < ts
                &&& rec_ok(r@[k].rec())
            },
            forall|k: int, l: int| 0 <= k < l < r@.len() ==> r@[k].discord_user_id@
                != r@[l].discord_user_id@,
            forall|id: Seq<char>| self@.contains_key(id) && self@[id].last_feed_ts < ts
                ==> exists|k: int| 0 <= k < r@.len() && #[trigger] r@[k].discord_user_id@ == id,
            sum_balance(r@) <= self.total_balance(),
            r@.len() <= self.row_count(),
    {
        let n = self.rows.len();
        let mut r: Vec<Player> = Vec::new();
        let mut i: usize = 0;
        while i < n
            invariant
                n == self.rows@.len(),
                i <= n,
                self.wf(),
                forall|k: int| 0 <= k < r@.len() ==> {
                    &&& self@.contains_key(#[trigger] r@[k].discord_user_id@)
                    &&& r@[k].rec() == self@[r@[k].discord_user_id@]
                    &&& r@[k].last_feed_ts < ts
                    &&& rec_ok(r@[k].rec())
                },
                forall|k: int, l: int| 0 <= k < l < r@.len() ==> r@[k].discord_user_id@
                    != r@[l].discord_user_id@,
                forall|j: int| 0 <= j < i && self.rows@[j].last_feed_ts < ts ==> exists|k: int|
                    0 <= k < r@.len() && #[trigger] r@[k].discord_user_id@
                        == self.rows@[j].discord_user_id@,
                forall|k: int| 0 <= k < r@.len() ==> exists|j: int| 0 <= j < i
                    && #[trigger] r@[k].discord_user_id@ == self.rows@[j].discord_user_id@,
                sum_balance(r@) <= sum_balance(self.rows@.take(i as int)),
                r@.len() <= i,
            decreases n - i,
        {
            proof {
                lemma_sum_balance_take_step(self.rows@, i as int);
                lemma_idx(self.rows@, i as int);
                assert(rec_ok(self.rows@[i as int].rec()));
            }
            if self.rows[i].last_feed_ts < ts {
                let ghost r_old = r@;
                let p = self.rows[i].clone();
                proof {
                    lemma_sum_balance_push(r@, p);
                }
                r.push(p);
                proof {
                    assert forall|k: int, l: int| 0 <= k < l < r@.len() implies r@[
                        k
                    ].discord_user_id@ != r@[l].discord_user_id@ by {
                        assert(r@[l] == if l == r@.len() - 1 {
                            p
                        } else {
                            r_old[l]
                        });
                        assert(r@[k] == r_old[k]);
                        if l == r@.len() - 1 {
                            let j = choose|j: int| 0 <= j < i
                                && r_old[k].discord_user_id@ == self.rows@[j].discord_user_id@;
                            assert(self.rows@[j].discord_user_id@
                                != self.rows@[i as int].discord_user_id@);
                        }
                    }
                    assert forall|j: int| 0 <= j < i + 1 && self.rows@[j].last_feed_ts < ts
                        implies exists|k: int| 0 <= k < r@.len()
                        && #[trigger] r@[k].discord_user_id@ == self.rows@[j].discord_user_id@ by {
                        if j == i as int {
                            assert(r@[r@.len() - 1].discord_user_id@
                                == self.rows@[j].discord_user_id@);
                        } else {
                            let k0 = choose|k0: int| 0 <= k0 < r_old.len()
                                && #[trigger] r_old[k0].discord_user_id@
                                == self.rows@[j].discord_user_id@;
                            assert(r@[k0].discord_user_id@ == self.rows@[j].discord_user_id@);
                        }
                    }
                    assert forall|k: int| 0 <= k < r@.len() implies exists|j: int| 0 <= j < i + 1
                        && #[trigger] r@[k].discord_user_id@ == self.rows@[j].discord_user_id@ by {
                        if k == r@.len() - 1 {
                            assert(r@[k].discord_user_id@ == self.rows@[i as int].discord_user_id@);
                        } else {
                            let j0 = choose|j0: int| 0 <= j0 < i
                                && #[trigger] r_old[k].discord_user_id@
                                == self.rows@[j0].discord_user_id@;
                            assert(r@[k].discord_user_id@ == self.rows@[j0].discord_user_id@);
                        }
                    }
                }
            }
            i += 1;
        }
        proof {
            assert(self.rows@.take(n as int) =~= self.rows@);
            assert forall|id: Seq<char>| self@.contains_key(id) && self@[id].last_feed_ts < ts
                implies exists|k: int| 0 <= k < r@.len() && #[trigger] r@[k].discord_user_id@
                == id by {
                let j = idx_of(self.rows@, id);
                assert(0 <= j < self.rows@.len() && self.rows@[j].discord_user_id@ == id);
                assert(self.rows@[j].last_feed_ts < ts);
            }
        }
        r
    }
}

/// Two writers that read the same version of the same row cannot both
/// commit: once one conditional write succeeds, the stored version has
/// advanced past the version the other writer read, so the other write
/// must fail — and a failed conditional write leaves storage unchanged,
/// as `update_player`'s contract states.
pub proof fn lemma_conflicting_updates(
    m0: Map<Seq<char>, PlayerRec>,
    id: Seq<char>,
    first: PlayerRec,
    second_version: int,
)
    requires
        m0.contains_key(id),
        first.version == m0[id].version,
        second_version == m0[id].version,
        update_succeeds(m0, id, first.version),
    ensures
        !update_succeeds(m0.insert(id, committed_rec(first)), id, second_version),
        !remove_succeeds(m0.insert(id, committed_rec(first)), id, second_version),
{
}

} // verus!
