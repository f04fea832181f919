//! The weekly feeding sweep.
//!
//! On each tick the scheduler computes the most recent weekly anchor —
//! the last local Friday midnight on or before now — selects every
//! player whose `last_feed_ts` precedes it, levies charity from the
//! idle ones (evicting the fully lapsed), and redistributes the pool to
//! the active ones on top of the base feed amount.

use vstd::prelude::*;

use crate::ledger::{lemma_sum_balance_elem, lemma_sum_balance_prefix, lemma_sum_balance_take_step,
    player_ok, rec_ok, sum_balance, Ledger, MAX_TIMESTAMP};
use crate::players::{spec_charity_amount, spec_idle_status, IdleStatus, Player, PlayerRec};

verus! {

/// The sweep failed as a whole (its storage handle was unusable).
#[derive(Clone, Copy, Debug, PartialEq, Eq, Structural)]
pub struct Error {}

impl Error {
    /// A short description for rendering to a log.
    pub fn message(&self) -> String {
        "feeder error".to_owned()
    }
}

/// Seconds in one day.
pub const DAY_SECONDS: i64 = 86_400;

/// Seconds in one week.
pub const WEEK: i64 = 604_800;

/// Relies on chrono reading the system clock: `Utc::now().timestamp()`.
/// The clock may show any instant; only chrono's representable range
/// (roughly 262 thousand years either side of the epoch) is promised.
#[verifier::external_body]
pub(crate) fn now_timestamp() -> (r: i64)
    ensures
        -9_000_000_000_000 <= r <= 9_000_000_000_000,
{
    chrono::Utc::now().timestamp()
}

/// Relies on chrono's local time zone lookup: the offset of the
/// machine's zone at this instant, in seconds east of UTC, which
/// chrono's `FixedOffset` keeps strictly inside one day.
#[verifier::external_body]
pub(crate) fn local_offset_seconds() -> (r: i32)
    ensures
        -86_400 < r < 86_400,
{
    chrono::Local::now().offset().local_minus_utc()
}

/// The UTC instant of the most recent Friday midnight in the zone
/// `off` seconds east of UTC, on or before `now`: take the local day
/// number, step back to the latest day number that leaves remainder one
/// modulo seven (1970-01-02, day one of the epoch, was a Friday), and
/// convert that day's midnight back to UTC.
pub open spec fn spec_week_anchor(now: int, off: int) -> int {
    let local_day = (now + off) / (DAY_SECONDS as int);
    let back = (local_day - 1) % 7;
    (local_day - back) * (DAY_SECONDS as int) - off
}

/// An instant that is midnight local time in the zone `off` seconds
/// east of UTC, on a Friday (day numbers congruent to one modulo seven
/// are Fridays: day one, 1970-01-02, was one).
pub open spec fn is_local_friday_midnight(t: int, off: int) -> bool {
    &&& (t + off) % (DAY_SECONDS as int) == 0
    &&& ((t + off) / (DAY_SECONDS as int)) % 7 == 1
}

/// The weekly anchor is a local Friday midnight, lies on or before
/// `now`, and less than one week before it.
pub proof fn lemma_week_anchor_properties(now: int, off: int)
    ensures
        is_local_friday_midnight(spec_week_anchor(now, off), off),
        spec_week_anchor(now, off) <= now,
        now - spec_week_anchor(now, off) < WEEK,
{
    let d = DAY_SECONDS as int;
    let local = now + off;
    let ld = local / d;
    let back = (ld - 1) % 7;
    let q = (ld - 1) / 7;
    let a = spec_week_anchor(now, off);
    vstd::arithmetic::div_mod::lemma_fundamental_div_mod(local, d);
    vstd::arithmetic::div_mod::lemma_mod_division_less_than_divisor(local, d);
    vstd::arithmetic::div_mod::lemma_fundamental_div_mod(ld - 1, 7);
    vstd::arithmetic::div_mod::lemma_mod_division_less_than_divisor(ld - 1, 7);
    // a + off == (ld - back) * d, so it is a local midnight.
    assert((a + off) % d == 0) by {
        vstd::arithmetic::div_mod::lemma_mod_multiples_basic(ld - back, d);
    }
    // Its day number is ld - back == 7 * q + 1, a Friday.
    assert((a + off) / d == ld - back) by {
        vstd::arithmetic::div_mod::lemma_div_multiples_vanish(ld - back, d);
        assert((ld - back) * d == d * (ld - back));
    }
    assert(ld - back == 7 * q + 1);
    assert((7 * q + 1) % 7 == 1) by {
        vstd::arithmetic::div_mod::lemma_mod_multiples_vanish(q, 1, 7);
        vstd::arithmetic::div_mod::lemma_small_mod(1, 7);
    }
    // Between the anchor and now lie the day remainder and at most six
    // whole days: 0 <= local - (ld - back) * d < 7 * d.
    assert(local - ld * d == local % d);
    assert(a <= now);
    assert(now - a < WEEK);
}

/// Computes the weekly anchor: the UTC instant of the most recent
/// Friday midnight, local time, on or before `now`.
pub fn week_anchor(now: i64, offset: i32) -> (r: i64)
    requires
        0 <= now <= MAX_TIMESTAMP,
        -86_400 < offset < 86_400,
    ensures
        r == spec_week_anchor(now as int, offset as int),
        r <= now,
        now - r < WEEK,
{
    let off = offset as i64;
    let local: i64 = now + off;
    // Shift by one week so the dividend is positive; a whole number of
    // weeks does not move the anchor's weekday arithmetic.
    let s: i64 = local + WEEK;
    let sd: i64 = s / DAY_SECONDS;
    let ghost d = DAY_SECONDS as int;
    let ghost ld = (now + offset) / d;
    proof {
        vstd::arithmetic::div_mod::lemma_fundamental_div_mod(s as int, d);
        vstd::arithmetic::div_mod::lemma_mod_division_less_than_divisor(s as int, d);
        // local == d * (sd - 7) + s % d, so local / d == sd - 7.
        vstd::arithmetic::div_mod::lemma_fundamental_div_mod_converse(
            (now + offset) as int,
            d,
            sd as int - 7,
            (s as int) % d,
        );
    }
    let back: i64 = (sd - 1) % 7;
    proof {
        vstd::arithmetic::div_mod::lemma_fundamental_div_mod(sd as int - 1, 7);
        vstd::arithmetic::div_mod::lemma_mod_division_less_than_divisor(sd as int - 1, 7);
        // sd - 1 == ld + 7 - 1, and a whole week vanishes modulo seven.
        vstd::arithmetic::div_mod::lemma_mod_add_multiples_vanish(ld - 1, 7);
        lemma_week_anchor_properties(now as int, offset as int);
    }
    (sd - 7 - back) * DAY_SECONDS - off
}

/// Reads the clock and the local time zone and computes the current
/// sweep times: now and the weekly anchor. `None` if the machine clock
/// is outside the epoch range the core accepts.
pub fn current_sweep_times() -> (r: Option<(i64, i64)>)
    ensures
        r matches Some(t) ==> {
            &&& 0 <= t.0 <= MAX_TIMESTAMP
            &&& exists|off: int|
                -86_400 < off < 86_400 && t.1 == spec_week_anchor(t.0 as int, off)
            &&& t.1 <= t.0
            &&& t.0 - t.1 < WEEK
        },
{
    let now = now_timestamp();
    if now < 0 || now > MAX_TIMESTAMP {
        return None;
    }
    let off = local_offset_seconds();
    let anchor = week_anchor(now, off);
    proof {
        assert(-86_400 < (off as int) && (off as int) < 86_400 && anchor == spec_week_anchor(
            now as int,
            off as int,
        ));
    }
    Some((now, anchor))
}

/// Largest base feed amount the sweep accepts.
pub const MAX_BASE_FEED: i64 = 1_000_000_000_000;

/// Largest summed balance the sweep accepts; keeps the pool and every
/// bonus addition inside `i64`.
pub const MAX_TOTAL_BALANCE: i64 = 2_000_000_000_000_000_000;

/// Most rows one sweep accepts.
pub const MAX_SWEEP_ROWS: usize = 1_000_000_000;

/// A row's idle status at time `now`.
pub open spec fn status_at(r: PlayerRec, now: int) -> IdleStatus {
    spec_idle_status(now - r.idle_since_ts)
}

/// A row's charity levy at time `now`.
pub open spec fn levy_at(r: PlayerRec, now: int) -> int {
    spec_charity_amount(r.balance, status_at(r, now))
}

/// The charity pool: the levies of all non-active due players summed
/// (a fully lapsed player's levy is their whole balance).
pub open spec fn spec_pool(due: Seq<Player>, now: int) -> int
    decreases due.len(),
{
    if due.len() == 0 {
        0
    } else {
        spec_pool(due.drop_last(), now) + if status_at(due.last().rec(), now) is Active {
            0int
        } else {
            levy_at(due.last().rec(), now)
        }
    }
}

/// How many due players are active.
pub open spec fn spec_active_count(due: Seq<Player>, now: int) -> int
    decreases due.len(),
{
    if due.len() == 0 {
        0
    } else {
        spec_active_count(due.drop_last(), now) + if status_at(due.last().rec(), now) is Active {
            1int
        } else {
            0int
        }
    }
}

/// What each active player receives: the base feed amount plus an even
/// share of the charity pool. With no active player the pool has no
/// recipient and is forfeited, keeping the sweep stateless.
pub open spec fn spec_bonus(base: int, pool: int, active: int) -> int {
    if active > 0 {
        base + pool / active
    } else {
        0
    }
}

proof fn lemma_pool_take_step(due: Seq<Player>, now: int, i: int)
    requires
        0 <= i < due.len(),
    ensures
        spec_pool(due.take(i + 1), now) == spec_pool(due.take(i), now) + if status_at(
            due[i].rec(),
            now,
        ) is Active {
            0int
        } else {
            levy_at(due[i].rec(), now)
        },
        spec_active_count(due.take(i + 1), now) == spec_active_count(due.take(i), now) + if status_at(
            due[i].rec(),
            now,
        ) is Active {
            1int
        } else {
            0int
        },
{
    assert(due.take(i + 1).drop_last() =~= due.take(i));
    assert(due.take(i + 1).last() == due[i]);
}

/// What the sweep does to one due player.
pub enum SweepAction {
    /// The player is fully lapsed: the row is removed and the whole
    /// balance forfeited to the pool.
    Evict,
    /// The levy is debited and the row written back with the feed
    /// timestamp advanced.
    TakeCharity { levy: i64, new_row: Player },
    /// The bonus is credited and the row written back with the feed
    /// timestamp advanced.
    Feed { bonus: i64, new_row: Player },
}

/// The action planned for player `p` under bonus `bonus` at time `now`:
/// eviction for the dead, the exact levy for the idle, the exact bonus
/// for the active; written-back rows keep their identity, idle streak
/// and version, and get `now` as their feed timestamp.
pub open spec fn action_matches(a: SweepAction, p: Player, now: int, bonus: int) -> bool {
    let st = status_at(p.rec(), now);
    match a {
        SweepAction::Evict => st is Dead,
        SweepAction::TakeCharity { levy, new_row } => {
            &&& !(st is Dead)
            &&& !(st is Active)
            &&& levy == levy_at(p.rec(), now)
            &&& new_row.discord_user_id@ == p.discord_user_id@
            &&& new_row.rec() == PlayerRec {
                balance: p.balance - levy,
                last_feed_ts: now,
                idle_since_ts: p.idle_since_ts as int,
                version: p.version as int,
            }
            &&& player_ok(new_row)
        },
        SweepAction::Feed { bonus: b, new_row } => {
            &&& st is Active
            &&& b == bonus
            &&& new_row.discord_user_id@ == p.discord_user_id@
            &&& new_row.rec() == PlayerRec {
                balance: p.balance + bonus,
                last_feed_ts: now,
                idle_since_ts: p.idle_since_ts as int,
                version: p.version as int,
            }
            &&& player_ok(new_row)
        },
    }
}

/// One sweep's worth of decisions over a due snapshot.
pub struct SweepPlan {
    /// One action per due player, in the snapshot's order.
    pub actions: Vec<SweepAction>,
    /// The levies of all non-active due players summed.
    pub charity_pool: i64,
    /// How many due players are active.
    pub active_count: i64,
    /// What each active player receives.
    pub per_active_bonus: i64,
}

/// Plans a sweep over a due snapshot: partitions the players by idle
/// status, computes every levy and the pool, and sizes the bonus. Pure
/// decision logic — storage is not touched.
pub fn plan_sweep(due: &Vec<Player>, now: i64, base_feed: i64) -> (plan: SweepPlan)
    requires
        forall|k: int| 0 <= k < due@.len() ==> player_ok(#[trigger] due@[k]),
        0 <= now <= MAX_TIMESTAMP,
        0 <= base_feed <= MAX_BASE_FEED,
        sum_balance(due@) <= MAX_TOTAL_BALANCE,
        due@.len() <= MAX_SWEEP_ROWS,
    ensures
        plan.actions@.len() == due@.len(),
        forall|k: int| 0 <= k < due@.len() ==> action_matches(
            #[trigger] plan.actions@[k],
            due@[k],
            now as int,
            plan.per_active_bonus as int,
        ),
        plan.charity_pool == spec_pool(due@, now as int),
        0 <= plan.charity_pool <= sum_balance(due@),
        plan.active_count == spec_active_count(due@, now as int),
        plan.per_active_bonus == spec_bonus(
            base_feed as int,
            plan.charity_pool as int,
            plan.active_count as int,
        ),
        0 <= plan.per_active_bonus <= MAX_BASE_FEED + MAX_TOTAL_BALANCE,
{
    let n = due.len();
    proof {
        assert forall|k: int| 0 <= k < due@.len() implies (#[trigger] due@[k]).balance >= 0 by {
            assert(player_ok(due@[k]));
        }
    }
    let mut pool: i64 = 0;
    let mut active: i64 = 0;
    let mut i: usize = 0;
    while i < n
        invariant
            i <= n,
            n == due@.len() <= MAX_SWEEP_ROWS,
            forall|k: int| 0 <= k < due@.len() ==> player_ok(#[trigger] due@[k]),
            forall|k: int| 0 <= k < due@.len() ==> (#[trigger] due@[k]).balance >= 0,
            0 <= now <= MAX_TIMESTAMP,
            sum_balance(due@) <= MAX_TOTAL_BALANCE,
            pool == spec_pool(due@.take(i as int), now as int),
            0 <= pool <= sum_balance(due@.take(i as int)),
            active == spec_active_count(due@.take(i as int), now as int),
            0 <= active <= i,
        decreases n - i,
    {
        proof {
            lemma_pool_take_step(due@, now as int, i as int);
            lemma_sum_balance_take_step(due@, i as int);
            lemma_sum_balance_prefix(due@, i as int + 1);
        }
        let p = &due[i];
        match p.idle_status(now) {
            IdleStatus::Active => {
                active = active + 1;
            },
            _ => {
                let levy = p.charity_amount(now);
                pool = pool + levy;
            },
        }
        i += 1;
    }
    proof {
        assert(due@.take(n as int) =~= due@);
    }
    let bonus: i64 = if active > 0 {
        proof {
            vstd::arithmetic::div_mod::lemma_div_pos_is_pos(pool as int, active as int);
            vstd::arithmetic::div_mod::lemma_div_nonincreasing(pool as int, active as int);
        }
        base_feed + pool / active
    } else {
        0
    };
    let mut actions: Vec<SweepAction> = Vec::new();
    let mut k: usize = 0;
    while k < n
        invariant
            k <= n,
            n == due@.len() <= MAX_SWEEP_ROWS,
            forall|j: int| 0 <= j < due@.len() ==> player_ok(#[trigger] due@[j]),
            forall|j: int| 0 <= j < due@.len() ==> (#[trigger] due@[j]).balance >= 0,
            0 <= now <= MAX_TIMESTAMP,
            sum_balance(due@) <= MAX_TOTAL_BALANCE,
            0 <= bonus <= MAX_BASE_FEED + MAX_TOTAL_BALANCE,
            actions@.len() == k,
            forall|j: int| 0 <= j < k ==> action_matches(
                #[trigger] actions@[j],
                due@[j],
                now as int,
                bonus as int,
            ),
        decreases n - k,
    {
        let p = &due[k];
        let action = match p.idle_status(now) {
            IdleStatus::Dead => SweepAction::Evict,
            IdleStatus::Active => {
                proof {
                    lemma_sum_balance_elem(due@, k as int);
                }
                let new_row = Player {
                    discord_user_id: p.discord_user_id.clone(),
                    balance: p.balance + bonus,
                    last_feed_ts: now,
                    idle_since_ts: p.idle_since_ts,
                    version: p.version,
                };
                SweepAction::Feed { bonus, new_row }
            },
            _ => {
                let levy = p.charity_amount(now);
                let new_row = Player {
                    discord_user_id: p.discord_user_id.clone(),
                    balance: p.balance - levy,
                    last_feed_ts: now,
                    idle_since_ts: p.idle_since_ts,
                    version: p.version,
                };
                SweepAction::TakeCharity { levy, new_row }
            },
        };
        actions.push(action);
        k += 1;
    }
    SweepPlan { actions, charity_pool: pool, active_count: active, per_active_bonus: bonus }
}

/// Whether some row of `due` carries identity `id`.
pub open spec fn due_has(due: Seq<Player>, id: Seq<char>) -> bool {
    exists|j: int| 0 <= j < due.len() && due[j].discord_user_id@ == id
}

/// The row a swept non-dead player carries afterwards: levied or fed,
/// the feed timestamp advanced to `now`, the idle streak untouched, the
/// version advanced by the conditional write.
pub open spec fn swept_rec(r: PlayerRec, now: int, bonus: int) -> PlayerRec {
    PlayerRec {
        balance: if status_at(r, now) is Active {
            r.balance + bonus
        } else {
            r.balance - levy_at(r, now)
        },
        last_feed_ts: now,
        idle_since_ts: r.idle_since_ts,
        version: r.version + 1,
    }
}

/// What one sweep did, with the due snapshot it worked from.
pub struct SweepReport {
    /// The due rows as they stood when the sweep read them.
    pub due: Vec<Player>,
    /// One action per due row, in the snapshot's order.
    pub actions: Vec<SweepAction>,
    pub charity_pool: i64,
    pub active_count: i64,
    pub per_active_bonus: i64,
}

/// One sweep: selects every player whose `last_feed_ts` precedes the
/// anchor, removes the fully lapsed (their whole balance forfeited to
/// the pool), debits the idle players' levies, and credits each active
/// player the base feed amount plus an even share of the pool. Rows not
/// due are untouched; every write is a successful conditional write.
pub fn run_sweep(ledger: &mut Ledger, now: i64, anchor: i64, base_feed: i64) -> (report:
    SweepReport)
    requires
        old(ledger).wf(),
        0 <= now <= MAX_TIMESTAMP,
        0 <= base_feed <= MAX_BASE_FEED,
        old(ledger).total_balance() <= MAX_TOTAL_BALANCE,
        old(ledger).row_count() <= MAX_SWEEP_ROWS,
        forall|id: Seq<char>| old(ledger)@.contains_key(id) ==> (#[trigger] old(
            ledger,
        )@[id]).version < i64::MAX,
    ensures
        final(ledger).wf(),
        // The snapshot is exactly the rows that preceded the anchor.
        forall|k: int| 0 <= k < report.due@.len() ==> {
            &&& old(ledger)@.contains_key(#[trigger] report.due@[k].discord_user_id@)
            &&& report.due@[k].rec() == old(ledger)@[report.due@[k].discord_user_id@]
            &&& report.due@[k].last_feed_ts < anchor
        },
        forall|k: int, l: int| 0 <= k < l < report.due@.len() ==> report.due@[k].discord_user_id@
            != report.due@[l].discord_user_id@,
        forall|id: Seq<char>| old(ledger)@.contains_key(id) && old(ledger)@[id].last_feed_ts
            < anchor ==> exists|k: int| 0 <= k < report.due@.len()
            && #[trigger] report.due@[k].discord_user_id@ == id,
        // The pool, the active count and the bonus, over that snapshot.
        report.charity_pool == spec_pool(report.due@, now as int),
        0 <= report.charity_pool,
        report.active_count == spec_active_count(report.due@, now as int),
        report.per_active_bonus == spec_bonus(
            base_feed as int,
            report.charity_pool as int,
            report.active_count as int,
        ),
        report.actions@.len() == report.due@.len(),
        forall|k: int| 0 <= k < report.due@.len() ==> action_matches(
            #[trigger] report.actions@[k],
            report.due@[k],
            now as int,
            report.per_active_bonus as int,
        ),
        // Rows not due are untouched.
        forall|id: Seq<char>| old(ledger)@.contains_key(id) && old(ledger)@[id].last_feed_ts
            >= anchor ==> final(ledger)@.contains_key(id) && #[trigger] final(ledger)@[id] == old(
            ledger,
        )@[id],
        // Every due row is evicted, levied or fed by its idle status.
        forall|id: Seq<char>|
            old(ledger)@.contains_key(id) && (#[trigger] old(ledger)@[id]).last_feed_ts < anchor
                ==> {
                if status_at(old(ledger)@[id], now as int) is Dead {
                    !final(ledger)@.contains_key(id)
                } else {
                    final(ledger)@.contains_key(id) && final(ledger)@[id] == swept_rec(
                        old(ledger)@[id],
                        now as int,
                        report.per_active_bonus as int,
                    )
                }
            },
        // No row appears out of nowhere.
        forall|id: Seq<char>| final(ledger)@.contains_key(id) ==> old(ledger)@.contains_key(id),
{
    let due = ledger.find_unfeeded_players(anchor);
    proof {
        assert forall|k: int| 0 <= k < due@.len() implies player_ok(#[trigger] due@[k]) by {
            assert(ledger@.contains_key(due@[k].discord_user_id@));
            assert(rec_ok(due@[k].rec()));
        }
    }
    let plan = plan_sweep(&due, now, base_feed);
    let n = due.len();
    let mut k: usize = 0;
    while k < n
        invariant
            k <= n,
            n == due@.len() == plan.actions@.len(),
            0 <= now <= MAX_TIMESTAMP,
            ledger.wf(),
            0 <= plan.per_active_bonus,
            forall|j: int| 0 <= j < n ==> action_matches(
                #[trigger] plan.actions@[j],
                due@[j],
                now as int,
                plan.per_active_bonus as int,
            ),
            forall|j: int| 0 <= j < n ==> {
                &&& old(ledger)@.contains_key(#[trigger] due@[j].discord_user_id@)
                &&& due@[j].rec() == old(ledger)@[due@[j].discord_user_id@]
                &&& due@[j].last_feed_ts < anchor
                &&& player_ok(due@[j])
                &&& due@[j].version < i64::MAX
            },
            forall|j: int, l: int| 0 <= j < l < n ==> due@[j].discord_user_id@
                != due@[l].discord_user_id@,
            // Rows whose identity is not in the snapshot are untouched.
            forall|id: Seq<char>| #![trigger old(ledger)@.dom().contains(id)]
                old(ledger)@.contains_key(id) && !due_has(due@, id) ==> ledger@.contains_key(id)
                    && ledger@[id] == old(ledger)@[id],
            // Not-yet-processed due rows are untouched.
            forall|j: int| k <= j < n ==> ledger@.contains_key(
                #[trigger] due@[j].discord_user_id@,
            ) && ledger@[due@[j].discord_user_id@] == due@[j].rec(),
            // Processed due rows carry their action's outcome.
            forall|j: int| 0 <= j < k ==> {
                if status_at((#[trigger] due@[j]).rec(), now as int) is Dead {
                    !ledger@.contains_key(due@[j].discord_user_id@)
                } else {
                    ledger@.contains_key(due@[j].discord_user_id@) && ledger@[due@[
                        j
                    ].discord_user_id@] == swept_rec(
                        due@[j].rec(),
                        now as int,
                        plan.per_active_bonus as int,
                    )
                }
            },
            forall|id: Seq<char>| ledger@.contains_key(id) ==> old(ledger)@.contains_key(id),
        decreases n - k,
    {
        let ghost m_before = ledger@;
        let ghost pid = due@[k as int].discord_user_id@;
        match &plan.actions[k] {
            SweepAction::Evict => {
                let removed = ledger.remove_player(&due[k]);
                proof {
                    assert(removed);
                }
            },
            SweepAction::TakeCharity { levy: _, new_row } => {
                let updated = ledger.update_player(new_row);
                proof {
                    assert(updated);
                }
            },
            SweepAction::Feed { bonus: _, new_row } => {
                let updated = ledger.update_player(new_row);
                proof {
                    assert(updated);
                }
            },
        }
        proof {
            assert forall|j: int| k + 1 <= j < n implies ledger@.contains_key(
                #[trigger] due@[j].discord_user_id@,
            ) && ledger@[due@[j].discord_user_id@] == due@[j].rec() by {
                assert(due@[j].discord_user_id@ != pid);
            }
            assert forall|id: Seq<char>| #![trigger old(ledger)@.dom().contains(id)]
                old(ledger)@.contains_key(id) && !due_has(due@, id) implies ledger@.contains_key(
                id,
            ) && ledger@[id] == old(ledger)@[id] by {
                if id == pid {
                    assert(due@[k as int].discord_user_id@ == id);
                    assert(due_has(due@, id));
                }
                assert(id != pid);
                assert(m_before.contains_key(id) && m_before[id] == old(ledger)@[id]);
            }
            assert forall|j: int| 0 <= j < k + 1 implies {
                if status_at((#[trigger] due@[j]).rec(), now as int) is Dead {
                    !ledger@.contains_key(due@[j].discord_user_id@)
                } else {
                    ledger@.contains_key(due@[j].discord_user_id@) && ledger@[due@[
                        j
                    ].discord_user_id@] == swept_rec(
                        due@[j].rec(),
                        now as int,
                        plan.per_active_bonus as int,
                    )
                }
            } by {
                if j < k {
                    assert(due@[j].discord_user_id@ != pid);
                }
            }
        }
        k += 1;
    }
    proof {
        assert forall|id: Seq<char>|
            old(ledger)@.contains_key(id) && old(ledger)@[id].last_feed_ts >= anchor implies ledger@.contains_key(
            id,
        ) && #[trigger] ledger@[id] == old(ledger)@[id] by {
            if due_has(due@, id) {
                let j = choose|j: int| 0 <= j < due@.len() && due@[j].discord_user_id@ == id;
                assert(due@[j].rec() == old(ledger)@[id]);
            }
        }
        assert forall|id: Seq<char>|
            old(ledger)@.contains_key(id) && (#[trigger] old(ledger)@[id]).last_feed_ts
                < anchor implies {
            if status_at(old(ledger)@[id], now as int) is Dead {
                !ledger@.contains_key(id)
            } else {
                ledger@.contains_key(id) && ledger@[id] == swept_rec(
                    old(ledger)@[id],
                    now as int,
                    plan.per_active_bonus as int,
                )
            }
        } by {
            let j = choose|j: int| 0 <= j < due@.len() && #[trigger] due@[j].discord_user_id@
                == id;
            assert(due@[j].rec() == old(ledger)@[id]);
        }
    }
    let ghost due_snap = due@;
    let report = SweepReport {
        due,
        actions: plan.actions,
        charity_pool: plan.charity_pool,
        active_count: plan.active_count,
        per_active_bonus: plan.per_active_bonus,
    };
    proof {
        assert forall|id: Seq<char>|
            old(ledger)@.contains_key(id) && old(ledger)@[id].last_feed_ts < anchor implies exists|
            k: int,
        | 0 <= k < report.due@.len() && #[trigger] report.due@[k].discord_user_id@ == id by {
            let k0 = choose|k0: int| 0 <= k0 < due_snap.len()
                && #[trigger] due_snap[k0].discord_user_id@ == id;
            assert(report.due@[k0].discord_user_id@ == id);
        }
    }
    report
}

} // verus!
