//! The player row and the idle-decay policy.
//!
//! A player's inactivity streak is classified into one of five statuses by
//! week-long steps, and each status determines the charity levy taken from
//! the player's balance during a weekly sweep.

use vstd::prelude::*;

verus! {

/// Seconds in one week; the width of each idle-status step.
pub const WEEK_SECONDS: i64 = 604_800;

/// Balance granted to a newly created player.
pub const INITIAL_BALANCE: i64 = 5000;

/// One row of the ledger.
///
/// `version` is the optimistic-concurrency token: a write succeeds only if
/// the version it submits matches the version currently stored.
#[derive(Debug)]
pub struct Player {
    pub discord_user_id: String,
    pub balance: i64,
    pub last_feed_ts: i64,
    pub idle_since_ts: i64,
    pub version: i64,
}

/// The ghost image of a row: the same fields over mathematical integers,
/// with the key kept as a sequence of characters.
pub ghost struct PlayerRec {
    pub balance: int,
    pub last_feed_ts: int,
    pub idle_since_ts: int,
    pub version: int,
}

impl Player {
    /// The ghost image of this row, without its key.
    pub open spec fn rec(self) -> PlayerRec {
        PlayerRec {
            balance: self.balance as int,
            last_feed_ts: self.last_feed_ts as int,
            idle_since_ts: self.idle_since_ts as int,
            version: self.version as int,
        }
    }
}

impl Clone for Player {
    fn clone(&self) -> (res: Self)
        ensures
            res == *self,
    {
        Player {
            discord_user_id: self.discord_user_id.clone(),
            balance: self.balance,
            last_feed_ts: self.last_feed_ts,
            idle_since_ts: self.idle_since_ts,
            version: self.version,
        }
    }
}

/// How far a player's inactivity streak has progressed, in week-long steps.
#[derive(Clone, Copy, Debug, PartialEq, Eq, Structural)]
pub enum IdleStatus {
    Active,
    Away,
    Sleeping,
    Missing,
    Dead,
}

/// The status assigned to `idle_time` elapsed idle seconds.
pub open spec fn spec_idle_status(idle_time: int) -> IdleStatus {
    if idle_time < WEEK_SECONDS {
        IdleStatus::Active
    } else if idle_time < 2 * WEEK_SECONDS {
        IdleStatus::Away
    } else if idle_time < 3 * WEEK_SECONDS {
        IdleStatus::Sleeping
    } else if idle_time < 4 * WEEK_SECONDS {
        IdleStatus::Missing
    } else {
        IdleStatus::Dead
    }
}

/// Classifies `idle_time` elapsed idle seconds.
pub fn get_idle_status(idle_time: i64) -> (status: IdleStatus)
    ensures
        status == spec_idle_status(idle_time as int),
{
    if idle_time < WEEK_SECONDS {
        IdleStatus::Active
    } else if idle_time < 2 * WEEK_SECONDS {
        IdleStatus::Away
    } else if idle_time < 3 * WEEK_SECONDS {
        IdleStatus::Sleeping
    } else if idle_time < 4 * WEEK_SECONDS {
        IdleStatus::Missing
    } else {
        IdleStatus::Dead
    }
}

/// The charity levy owed by a balance `b` under status `status`.
pub open spec fn spec_charity_amount(b: int, status: IdleStatus) -> int {
    match status {
        IdleStatus::Active => 0,
        IdleStatus::Away => b / 10,
        IdleStatus::Sleeping => b / 6,
        IdleStatus::Missing => b / 3,
        IdleStatus::Dead => b,
    }
}

impl Player {
    /// The player's idle status at time `ts`.
    pub fn idle_status(&self, ts: i64) -> (status: IdleStatus)
        requires
            ts - self.idle_since_ts <= i64::MAX,
            ts - self.idle_since_ts >= i64::MIN,
        ensures
            status == spec_idle_status(ts - self.idle_since_ts),
    {
        get_idle_status(ts - self.idle_since_ts)
    }

    /// The charity levy owed by this player at time `ts`.
    pub fn charity_amount(&self, ts: i64) -> (amount: i64)
        requires
            self.balance >= 0,
            ts - self.idle_since_ts <= i64::MAX,
            ts - self.idle_since_ts >= i64::MIN,
        ensures
            amount == spec_charity_amount(
                self.balance as int,
                spec_idle_status(ts - self.idle_since_ts),
            ),
            0 <= amount <= self.balance,
    {
        match self.idle_status(ts) {
            IdleStatus::Active => 0,
            IdleStatus::Away => self.balance / 10,
            IdleStatus::Sleeping => self.balance / 6,
            IdleStatus::Missing => self.balance / 3,
            IdleStatus::Dead => self.balance,
        }
    }
}

/// The idle-status steps cover `[0, infinity)` without gap or overlap: a
/// status holds exactly on its own week-bounded interval, with boundaries
/// at one, two, three and four weeks.
pub proof fn lemma_idle_status_partition(t: int)
    requires
        t >= 0,
    ensures
        spec_idle_status(t) == IdleStatus::Active <==> 0 <= t < 604_800,
        spec_idle_status(t) == IdleStatus::Away <==> 604_800 <= t < 1_209_600,
        spec_idle_status(t) == IdleStatus::Sleeping <==> 1_209_600 <= t < 1_814_400,
        spec_idle_status(t) == IdleStatus::Missing <==> 1_814_400 <= t < 2_419_200,
        spec_idle_status(t) == IdleStatus::Dead <==> t >= 2_419_200,
{
}

/// An active player owes nothing; a dead player forfeits the whole balance.
pub proof fn lemma_charity_extremes(b: int)
    ensures
        spec_charity_amount(b, IdleStatus::Active) == 0,
        spec_charity_amount(b, IdleStatus::Dead) == b,
{
}

} // verus!
