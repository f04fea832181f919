//! Economy operations: bet settlement and transfers.
//!
//! Both operate read-mutate-write against the ledger store. A bet
//! persists through exactly one conditional write and reports a conflict
//! to the caller instead of retrying; a transfer debits the sender and
//! credits the receiver so that either both writes apply or neither.

use vstd::prelude::*;

use crate::errors::{EconomyError, ValidationError};
use crate::flip::{calculate_amount, coin_toss_is_heads, spec_resolved_det, BetAmount, CoinSide,
    MAX_BET_BALANCE};
use crate::ledger::{fresh_rec, player_ok, update_succeeds, Ledger, MAX_TIMESTAMP};
use crate::players::{Player, PlayerRec, INITIAL_BALANCE};

verus! {

/// What a settled bet did.
pub struct BetOutcome {
    /// The concrete stake the directive resolved to.
    pub amount: i64,
    /// Whether the toss matched the chosen side.
    pub win: bool,
    /// The player's balance after the credit or debit.
    pub new_balance: i64,
}

/// What a completed transfer did.
pub struct TransferOutcome {
    pub sender_balance: i64,
    pub receiver_balance: i64,
    /// Whether the sender's row was created lazily by this transfer.
    pub sender_created: bool,
    /// Whether the receiver's row was created lazily by this transfer.
    pub receiver_created: bool,
}

/// Why a resolved stake is rejected against balance `b`, if it is: below
/// the minimum bet of two, or beyond the balance. A `Random` directive
/// always draws within `2..=b`, so it is rejected only when the balance
/// cannot cover any allowed stake.
pub open spec fn bet_validation(bet: BetAmount, b: int) -> Option<ValidationError> {
    if bet is Random {
        if b < 2 {
            Some(ValidationError::InsufficientBalance)
        } else {
            None
        }
    } else {
        let a = spec_resolved_det(bet, b);
        if a < 2 {
            Some(ValidationError::AmountBelowMinimum)
        } else if a > b {
            Some(ValidationError::InsufficientBalance)
        } else {
            None
        }
    }
}

/// The row a settled bet writes back: the balance credited on a win or
/// debited on a loss, the idle streak restarted at `now`, the version
/// advanced by the store.
pub open spec fn settled_rec(before: PlayerRec, amount: int, win: bool, now: int) -> PlayerRec {
    PlayerRec {
        balance: if win {
            before.balance + amount
        } else {
            before.balance - amount
        },
        last_feed_ts: before.last_feed_ts,
        idle_since_ts: now,
        version: before.version + 1,
    }
}

/// The pure heart of bet settlement: validates a fixed stake against
/// the snapshot and builds the row to submit, without touching storage.
/// On success the returned row carries the snapshot's version, ready for
/// one conditional write; exactly one of credit or debit is applied,
/// never both, and the idle streak restarts only on an executed bet.
pub fn resolve_bet(snapshot: &Player, amount: i64, chosen: CoinSide, toss: CoinSide, now: i64) -> (r:
    Result<(Player, BetOutcome), ValidationError>)
    requires
        player_ok(*snapshot),
        snapshot.balance <= MAX_BET_BALANCE,
        0 <= now <= MAX_TIMESTAMP,
    ensures
        amount < 2 ==> r == Result::<(Player, BetOutcome), ValidationError>::Err(
            ValidationError::AmountBelowMinimum,
        ),
        amount >= 2 && amount > snapshot.balance ==> r == Result::<
            (Player, BetOutcome),
            ValidationError,
        >::Err(ValidationError::InsufficientBalance),
        2 <= amount <= snapshot.balance ==> {
            &&& r matches Ok(p)
            &&& (r matches Ok(p) ==> {
                let (np, out) = p;
                &&& out.amount == amount
                &&& out.win == (toss == chosen)
                &&& out.new_balance == if out.win {
                    snapshot.balance + amount
                } else {
                    snapshot.balance - amount
                }
                &&& np.discord_user_id@ == snapshot.discord_user_id@
                &&& np.balance == out.new_balance
                &&& np.last_feed_ts == snapshot.last_feed_ts
                &&& np.idle_since_ts == now
                &&& np.version == snapshot.version
                &&& player_ok(np)
            })
        },
{
    if amount < 2 {
        return Err(ValidationError::AmountBelowMinimum);
    }
    if amount > snapshot.balance {
        return Err(ValidationError::InsufficientBalance);
    }
    let win = toss == chosen;
    let new_balance = if win {
        snapshot.balance + amount
    } else {
        snapshot.balance - amount
    };
    let np = Player {
        discord_user_id: snapshot.discord_user_id.clone(),
        balance: new_balance,
        last_feed_ts: snapshot.last_feed_ts,
        idle_since_ts: now,
        version: snapshot.version,
    };
    Ok((np, BetOutcome { amount, win, new_balance }))
}

/// Settles a bet whose stake and toss are already fixed: validates the
/// stake, applies the win or loss, restarts the idle streak, and
/// persists through exactly one conditional write. Exactly one of
/// credit or debit occurs, never both; a rejected bet mutates nothing,
/// and a lost conditional write leaves the store unchanged for the
/// caller to re-issue.
pub fn settle_bet_resolved(
    ledger: &mut Ledger,
    snapshot: &Player,
    amount: i64,
    chosen: CoinSide,
    toss: CoinSide,
    now: i64,
) -> (r: Result<BetOutcome, EconomyError>)
    requires
        old(ledger).wf(),
        player_ok(*snapshot),
        snapshot.balance <= MAX_BET_BALANCE,
        0 <= now <= MAX_TIMESTAMP,
    ensures
        final(ledger).wf(),
        amount < 2 ==> r == Result::<BetOutcome, EconomyError>::Err(
            EconomyError::Validation(ValidationError::AmountBelowMinimum),
        ) && final(ledger)@ == old(ledger)@,
        amount >= 2 && amount > snapshot.balance ==> r == Result::<BetOutcome, EconomyError>::Err(
            EconomyError::Validation(ValidationError::InsufficientBalance),
        ) && final(ledger)@ == old(ledger)@,
        2 <= amount <= snapshot.balance ==> {
            if update_succeeds(old(ledger)@, snapshot.discord_user_id@, snapshot.version as int) {
                &&& r matches Ok(out)
                &&& (r matches Ok(out) ==> {
                    &&& out.amount == amount
                    &&& out.win == (toss == chosen)
                    &&& out.new_balance == if out.win {
                        snapshot.balance + amount
                    } else {
                        snapshot.balance - amount
                    }
                    &&& !(out.new_balance == snapshot.balance + amount && out.new_balance
                        == snapshot.balance - amount)
                    &&& final(ledger)@ == old(ledger)@.insert(
                        snapshot.discord_user_id@,
                        settled_rec(snapshot.rec(), amount as int, out.win, now as int),
                    )
                })
            } else {
                r == Result::<BetOutcome, EconomyError>::Err(EconomyError::ConcurrencyConflict)
                    && final(ledger)@ == old(ledger)@
            }
        },
{
    match resolve_bet(snapshot, amount, chosen, toss, now) {
        Err(e) => Err(EconomyError::Validation(e)),
        Ok((np, out)) => {
            if ledger.update_player(&np) {
                Ok(out)
            } else {
                Err(EconomyError::ConcurrencyConflict)
            }
        },
    }
}

/// Resolves a bet directive, tosses the coin, and settles the bet
/// against the store: the read-mutate-write core of the flip command.
/// The toss is drawn fresh, so which of credit or debit happened is
/// reported in the outcome; everything else is pinned down.
pub fn settle_bet(
    ledger: &mut Ledger,
    snapshot: &Player,
    bet_amount: &BetAmount,
    chosen: CoinSide,
    now: i64,
) -> (r: Result<BetOutcome, EconomyError>)
    requires
        old(ledger).wf(),
        player_ok(*snapshot),
        snapshot.balance <= MAX_BET_BALANCE,
        bet_amount matches BetAmount::Percentage(p) ==> 0 <= *p <= 100,
        0 <= now <= MAX_TIMESTAMP,
    ensures
        final(ledger).wf(),
        match bet_validation(*bet_amount, snapshot.balance as int) {
            Some(e) => r == Result::<BetOutcome, EconomyError>::Err(EconomyError::Validation(e))
                && final(ledger)@ == old(ledger)@,
            None => {
                if update_succeeds(
                    old(ledger)@,
                    snapshot.discord_user_id@,
                    snapshot.version as int,
                ) {
                    &&& r matches Ok(out)
                    &&& (r matches Ok(out) ==> {
                        &&& 2 <= out.amount <= snapshot.balance
                        &&& !(bet_amount is Random) ==> out.amount == spec_resolved_det(
                            *bet_amount,
                            snapshot.balance as int,
                        )
                        &&& out.new_balance == if out.win {
                            snapshot.balance + out.amount
                        } else {
                            snapshot.balance - out.amount
                        }
                        &&& final(ledger)@ == old(ledger)@.insert(
                            snapshot.discord_user_id@,
                            settled_rec(snapshot.rec(), out.amount as int, out.win, now as int),
                        )
                    })
                } else {
                    r == Result::<BetOutcome, EconomyError>::Err(EconomyError::ConcurrencyConflict)
                        && final(ledger)@ == old(ledger)@
                }
            },
        },
{
    if matches!(bet_amount, BetAmount::Random) && snapshot.balance < 2 {
        return Err(EconomyError::Validation(ValidationError::InsufficientBalance));
    }
    let amount = calculate_amount(bet_amount, snapshot);
    let toss = if coin_toss_is_heads() {
        CoinSide::Heads
    } else {
        CoinSide::Tails
    };
    settle_bet_resolved(ledger, snapshot, amount, chosen, toss, now)
}

/// The store contents after the transfer's lazy creations: a missing
/// sender or receiver row is created fresh at `now` before any further
/// validation.
pub open spec fn after_creates(
    m0: Map<Seq<char>, PlayerRec>,
    sender: Seq<char>,
    receiver: Seq<char>,
    now: int,
) -> Map<Seq<char>, PlayerRec> {
    let m1 = if m0.contains_key(sender) {
        m0
    } else {
        m0.insert(sender, fresh_rec(now))
    };
    if m1.contains_key(receiver) {
        m1
    } else {
        m1.insert(receiver, fresh_rec(now))
    }
}

/// The sender's row after a transfer of `amount` at `now`: debited,
/// idle streak restarted, version advanced.
pub open spec fn debited_rec(r: PlayerRec, amount: int, now: int) -> PlayerRec {
    PlayerRec {
        balance: r.balance - amount,
        last_feed_ts: r.last_feed_ts,
        idle_since_ts: now,
        version: r.version + 1,
    }
}

/// The receiver's row after a transfer of `amount`: credited, idle
/// streak untouched, version advanced.
pub open spec fn credited_rec(r: PlayerRec, amount: int) -> PlayerRec {
    PlayerRec {
        balance: r.balance + amount,
        last_feed_ts: r.last_feed_ts,
        idle_since_ts: r.idle_since_ts,
        version: r.version + 1,
    }
}

/// The pure heart of a transfer: validates the request against two
/// loaded rows and builds the debited and credited rows to submit,
/// without touching storage. The two returned rows carry the snapshots'
/// versions, ready for a pair of conditional writes inside one
/// transaction; the sum of the two balances is conserved.
pub fn prepare_transfer(sender: &Player, receiver: &Player, amount: i64, now: i64) -> (r: Result<
    (Player, Player),
    ValidationError,
>)
    requires
        player_ok(*sender),
        player_ok(*receiver),
        receiver.balance + amount <= i64::MAX,
        0 <= now <= MAX_TIMESTAMP,
    ensures
        amount < 1 ==> r == Result::<(Player, Player), ValidationError>::Err(
            ValidationError::AmountBelowMinimum,
        ),
        amount >= 1 && sender.discord_user_id@ == receiver.discord_user_id@ ==> r == Result::<
            (Player, Player),
            ValidationError,
        >::Err(ValidationError::SelfTransfer),
        amount >= 1 && sender.discord_user_id@ != receiver.discord_user_id@ && sender.balance
            < amount ==> r == Result::<(Player, Player), ValidationError>::Err(
            ValidationError::InsufficientBalance,
        ),
        amount >= 1 && sender.discord_user_id@ != receiver.discord_user_id@ && sender.balance
            >= amount ==> {
            &&& r matches Ok(p)
            &&& (r matches Ok(p) ==> {
                let (ns, nr) = p;
                &&& ns.discord_user_id@ == sender.discord_user_id@
                &&& ns.balance == sender.balance - amount
                &&& ns.last_feed_ts == sender.last_feed_ts
                &&& ns.idle_since_ts == now
                &&& ns.version == sender.version
                &&& nr.discord_user_id@ == receiver.discord_user_id@
                &&& nr.balance == receiver.balance + amount
                &&& nr.last_feed_ts == receiver.last_feed_ts
                &&& nr.idle_since_ts == receiver.idle_since_ts
                &&& nr.version == receiver.version
                &&& ns.balance + nr.balance == sender.balance + receiver.balance
                &&& player_ok(ns)
                &&& player_ok(nr)
            })
        },
{
    if amount < 1 {
        return Err(ValidationError::AmountBelowMinimum);
    }
    if sender.discord_user_id == receiver.discord_user_id {
        return Err(ValidationError::SelfTransfer);
    }
    if sender.balance < amount {
        return Err(ValidationError::InsufficientBalance);
    }
    let ns = Player {
        discord_user_id: sender.discord_user_id.clone(),
        balance: sender.balance - amount,
        last_feed_ts: sender.last_feed_ts,
        idle_since_ts: now,
        version: sender.version,
    };
    let nr = Player {
        discord_user_id: receiver.discord_user_id.clone(),
        balance: receiver.balance + amount,
        last_feed_ts: receiver.last_feed_ts,
        idle_since_ts: receiver.idle_since_ts,
        version: receiver.version,
    };
    Ok((ns, nr))
}

/// Transfers `amount` from sender to receiver: validates the request,
/// lazily creates missing rows, then applies the debit and the credit
/// as one atomic pair — both writes commit or neither does, and the sum
/// of the two balances is conserved.
pub fn transfer(
    ledger: &mut Ledger,
    sender_id: &String,
    receiver_id: &String,
    amount: i64,
    receiver_eligible: bool,
    now: i64,
) -> (r: Result<TransferOutcome, EconomyError>)
    requires
        old(ledger).wf(),
        0 <= now <= MAX_TIMESTAMP,
        amount <= i64::MAX - INITIAL_BALANCE,
        old(ledger)@.contains_key(receiver_id@) ==> old(ledger)@[receiver_id@].balance + amount
            <= i64::MAX,
    ensures
        final(ledger).wf(),
        amount < 1 ==> r == Result::<TransferOutcome, EconomyError>::Err(
            EconomyError::Validation(ValidationError::AmountBelowMinimum),
        ) && final(ledger)@ == old(ledger)@,
        amount >= 1 && sender_id@ == receiver_id@ ==> r == Result::<
            TransferOutcome,
            EconomyError,
        >::Err(EconomyError::Validation(ValidationError::SelfTransfer)) && final(ledger)@ == old(
            ledger,
        )@,
        amount >= 1 && sender_id@ != receiver_id@ && !receiver_eligible ==> r == Result::<
            TransferOutcome,
            EconomyError,
        >::Err(EconomyError::Validation(ValidationError::IneligibleReceiver)) && final(ledger)@
            == old(ledger)@,
        amount >= 1 && sender_id@ != receiver_id@ && receiver_eligible ==> {
            let m2 = after_creates(old(ledger)@, sender_id@, receiver_id@, now as int);
            let srec = m2[sender_id@];
            let rrec = m2[receiver_id@];
            &&& srec.balance < amount ==> r == Result::<TransferOutcome, EconomyError>::Err(
                EconomyError::Validation(ValidationError::InsufficientBalance),
            ) && final(ledger)@ == m2
            &&& srec.balance >= amount && srec.version < i64::MAX && rrec.version < i64::MAX ==> {
                &&& r matches Ok(out)
                &&& (r matches Ok(out) ==> {
                    &&& out.sender_balance == srec.balance - amount
                    &&& out.receiver_balance == rrec.balance + amount
                    &&& out.sender_balance + out.receiver_balance == srec.balance + rrec.balance
                    &&& out.sender_created == !old(ledger)@.contains_key(sender_id@)
                    &&& out.receiver_created == !old(ledger)@.contains_key(receiver_id@)
                    &&& final(ledger)@ == m2.insert(
                        sender_id@,
                        debited_rec(srec, amount as int, now as int),
                    ).insert(receiver_id@, credited_rec(rrec, amount as int))
                })
            }
            &&& srec.balance >= amount && !(srec.version < i64::MAX && rrec.version < i64::MAX)
                ==> r == Result::<TransferOutcome, EconomyError>::Err(
                EconomyError::ConcurrencyConflict,
            ) && final(ledger)@ == m2
        },
{
    if amount < 1 {
        return Err(EconomyError::Validation(ValidationError::AmountBelowMinimum));
    }
    if *sender_id == *receiver_id {
        return Err(EconomyError::Validation(ValidationError::SelfTransfer));
    }
    if !receiver_eligible {
        return Err(EconomyError::Validation(ValidationError::IneligibleReceiver));
    }
    let mut sender_created = false;
    let sender = match ledger.find_player(sender_id) {
        Some(p) => p,
        None => {
            sender_created = true;
            match ledger.create_player(sender_id, now) {
                Some(p) => p,
                None => {
                    proof {
                        assert(false);
                    }
                    return Err(EconomyError::ConcurrencyConflict);
                },
            }
        },
    };
    let mut receiver_created = false;
    let receiver = match ledger.find_player(receiver_id) {
        Some(p) => p,
        None => {
            receiver_created = true;
            match ledger.create_player(receiver_id, now) {
                Some(p) => p,
                None => {
                    proof {
                        assert(false);
                    }
                    return Err(EconomyError::ConcurrencyConflict);
                },
            }
        },
    };
    if sender.balance < amount {
        return Err(EconomyError::Validation(ValidationError::InsufficientBalance));
    }
    if sender.version == i64::MAX || receiver.version == i64::MAX {
        return Err(EconomyError::ConcurrencyConflict);
    }
    let ns = Player {
        discord_user_id: sender.discord_user_id.clone(),
        balance: sender.balance - amount,
        last_feed_ts: sender.last_feed_ts,
        idle_since_ts: now,
        version: sender.version,
    };
    let nr = Player {
        discord_user_id: receiver.discord_user_id.clone(),
        balance: receiver.balance + amount,
        last_feed_ts: receiver.last_feed_ts,
        idle_since_ts: receiver.idle_since_ts,
        version: receiver.version,
    };
    let ok_debit = ledger.update_player(&ns);
    proof {
        assert(ok_debit);
    }
    let ok_credit = ledger.update_player(&nr);
    proof {
        assert(ok_credit);
    }
    if ok_debit && ok_credit {
        Ok(
            TransferOutcome {
                sender_balance: ns.balance,
                receiver_balance: nr.balance,
                sender_created,
                receiver_created,
            },
        )
    } else {
        Err(EconomyError::ConcurrencyConflict)
    }
}

} // verus!
