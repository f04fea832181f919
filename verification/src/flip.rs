//! Bet directives for the coin-flip game.
//!
//! A directive names the stake: an exact amount, a percentage of the
//! balance, half, all, or a random amount. `BetAmount::from_str` parses
//! the textual form the chat front-end hands over; `calculate_amount`
//! resolves a directive against a player's balance.

use vstd::prelude::*;

use crate::players::Player;
use vstd::string::StringSliceAdditionalSpecFns;

verus! {

/// A bet directive as the player stated it.
///
/// A `Percentage` produced by the parser always lies in `0..=100`; the
/// functions below require that of every `Percentage` they resolve.
#[derive(Clone, Copy, Debug, PartialEq, Eq, Structural)]
pub enum BetAmount {
    /// Stake exactly this many units.
    Specific(i64),
    /// Stake this percentage of the balance, rounded down.
    Percentage(i8),
    /// Stake half of the balance, rounded down.
    Half,
    /// Stake the whole balance.
    All,
    /// Stake a uniformly random amount between the minimum bet and the
    /// whole balance. Parsed from the word "some".
    Random,
}

/// The chosen side of the coin.
#[derive(Clone, Copy, Debug, PartialEq, Eq, Structural)]
pub enum CoinSide {
    Heads,
    Tails,
}

/// The directive text could not be understood.
#[derive(Clone, Copy, Debug, PartialEq, Eq, Structural)]
pub struct ParseBetAmountError;

/// ASCII decimal digit.
pub open spec fn is_digit_byte(b: u8) -> bool {
    48 <= b <= 57
}

/// ASCII whitespace as `str::trim` sees it: space, tab, line feed,
/// vertical tab, form feed, carriage return.
pub open spec fn is_space_byte(b: u8) -> bool {
    b == 32 || (9 <= b <= 13)
}

/// ASCII upper-case letters folded to lower case; other bytes unchanged.
pub open spec fn lower_byte(b: u8) -> u8 {
    if 65 <= b <= 90 {
        (b + 32) as u8
    } else {
        b
    }
}

pub open spec fn lower_bytes(s: Seq<u8>) -> Seq<u8> {
    s.map_values(|b: u8| lower_byte(b))
}

pub open spec fn trim_front(s: Seq<u8>) -> Seq<u8>
    decreases s.len(),
{
    if s.len() > 0 && is_space_byte(s.first()) {
        trim_front(s.drop_first())
    } else {
        s
    }
}

pub open spec fn trim_back(s: Seq<u8>) -> Seq<u8>
    decreases s.len(),
{
    if s.len() > 0 && is_space_byte(s.last()) {
        trim_back(s.drop_last())
    } else {
        s
    }
}

/// Leading and trailing whitespace removed.
pub open spec fn trimmed(s: Seq<u8>) -> Seq<u8> {
    trim_back(trim_front(s))
}

/// The keyword staking the whole balance: "all".
pub open spec fn is_kw_all(t: Seq<u8>) -> bool {
    t.len() == 3 && t[0] == 97 && t[1] == 108 && t[2] == 108
}

/// The keyword staking half the balance: "half".
pub open spec fn is_kw_half(t: Seq<u8>) -> bool {
    t.len() == 4 && t[0] == 104 && t[1] == 97 && t[2] == 108 && t[3] == 102
}

/// The keyword staking a random amount: "some".
pub open spec fn is_kw_some(t: Seq<u8>) -> bool {
    t.len() == 4 && t[0] == 115 && t[1] == 111 && t[2] == 109 && t[3] == 101
}

/// All trailing percent signs removed.
pub open spec fn strip_percents(t: Seq<u8>) -> Seq<u8>
    decreases t.len(),
{
    if t.len() > 0 && t.last() == 37 {
        strip_percents(t.drop_last())
    } else {
        t
    }
}

pub open spec fn all_digits(d: Seq<u8>) -> bool {
    forall|i: int| 0 <= i < d.len() ==> is_digit_byte(#[trigger] d[i])
}

/// The value of a digit string read in base ten.
pub open spec fn digits_val(d: Seq<u8>) -> int
    decreases d.len(),
{
    if d.len() == 0 {
        0
    } else {
        digits_val(d.drop_last()) * 10 + (d.last() - 48)
    }
}

/// A decimal integer with an optional sign, as Rust's integer parsing
/// reads it, kept only when its value is not negative. A minus sign is
/// accepted only in front of zero.
pub open spec fn spec_parse_nonneg(t: Seq<u8>) -> Option<int> {
    if t.len() == 0 {
        None
    } else {
        let neg = t[0] == 45;
        let d = if t[0] == 43 || t[0] == 45 {
            t.drop_first()
        } else {
            t
        };
        if d.len() == 0 || !all_digits(d) {
            None
        } else if neg && digits_val(d) != 0 {
            None
        } else {
            Some(digits_val(d))
        }
    }
}

/// The grammar of a bet directive, over the lower-cased, trimmed bytes:
/// a keyword, a percentage of the balance ending in percent signs, or a
/// plain non-negative amount.
pub open spec fn spec_parse_bet(t: Seq<u8>) -> Option<BetAmount> {
    if is_kw_all(t) {
        Some(BetAmount::All)
    } else if is_kw_half(t) {
        Some(BetAmount::Half)
    } else if is_kw_some(t) {
        Some(BetAmount::Random)
    } else if t.len() > 0 && t.last() == 37 {
        match spec_parse_nonneg(strip_percents(t)) {
            Some(v) => if v <= 100 {
                Some(BetAmount::Percentage(v as i8))
            } else {
                None
            },
            None => None,
        }
    } else {
        match spec_parse_nonneg(t) {
            Some(v) => if v <= i64::MAX {
                Some(BetAmount::Specific(v as i64))
            } else {
                None
            },
            None => None,
        }
    }
}

/// What `BetAmount::from_str` makes of the raw bytes of its input.
pub open spec fn spec_parse_bet_raw(s: Seq<u8>) -> Option<BetAmount> {
    spec_parse_bet(trimmed(lower_bytes(s)))
}

proof fn lemma_digits_val_nonneg(d: Seq<u8>)
    requires
        all_digits(d),
    ensures
        digits_val(d) >= 0,
    decreases d.len(),
{
    if d.len() > 0 {
        assert(all_digits(d.drop_last()));
        lemma_digits_val_nonneg(d.drop_last());
    }
}

proof fn lemma_digits_val_take_step(d: Seq<u8>, k: int)
    requires
        0 <= k < d.len(),
    ensures
        digits_val(d.take(k + 1)) == digits_val(d.take(k)) * 10 + (d[k] - 48),
{
    assert(d.take(k + 1).drop_last() =~= d.take(k));
    assert(d.take(k + 1).last() == d[k]);
}

proof fn lemma_trim_front_skip(s: Seq<u8>, lo: int)
    requires
        0 <= lo <= s.len(),
        forall|j: int| 0 <= j < lo ==> is_space_byte(#[trigger] s[j]),
        lo == s.len() || !is_space_byte(s[lo]),
    ensures
        trim_front(s) == s.skip(lo),
    decreases lo,
{
    if lo == 0 {
        assert(s.skip(0) =~= s);
    } else {
        assert(is_space_byte(s.first()));
        let s2 = s.drop_first();
        assert forall|j: int| 0 <= j < lo - 1 implies is_space_byte(#[trigger] s2[j]) by {
            assert(s2[j] == s[j + 1]);
        }
        assert(lo - 1 == s2.len() || !is_space_byte(s2[lo - 1]));
        lemma_trim_front_skip(s2, lo - 1);
        assert(s2.skip(lo - 1) =~= s.skip(lo));
    }
}

proof fn lemma_trim_back_take(s: Seq<u8>, hi: int)
    requires
        0 <= hi <= s.len(),
        forall|j: int| hi <= j < s.len() ==> is_space_byte(#[trigger] s[j]),
        hi == 0 || !is_space_byte(s[hi - 1]),
    ensures
        trim_back(s) == s.take(hi),
    decreases s.len(),
{
    if hi == s.len() {
        if s.len() > 0 {
            assert(!is_space_byte(s.last()));
        }
        assert(s.take(hi) =~= s);
    } else {
        assert(is_space_byte(s.last()));
        let s2 = s.drop_last();
        lemma_trim_back_take(s2, hi);
        assert(s2.take(hi) =~= s.take(hi));
    }
}

/// A copy of `t[lo..hi]`.
fn subrange_vec(t: &Vec<u8>, lo: usize, hi: usize) -> (r: Vec<u8>)
    requires
        lo <= hi <= t@.len(),
    ensures
        r@ == t@.subrange(lo as int, hi as int),
{
    let mut r: Vec<u8> = Vec::new();
    let mut i: usize = lo;
    while i < hi
        invariant
            lo <= i <= hi <= t@.len(),
            r@.len() == i - lo,
            forall|j: int| 0 <= j < r@.len() ==> r@[j] == t@[lo + j],
        decreases hi - i,
    {
        let b = t[i];
        r.push(b);
        i += 1;
    }
    proof {
        assert(r@ =~= t@.subrange(lo as int, hi as int));
    }
    r
}

/// Parses an optionally signed decimal integer, keeping only values in
/// `0..=cap`; anything malformed, negative (except zero) or over the cap
/// is `None`.
fn parse_nonneg_capped(t: &Vec<u8>, cap: i64) -> (r: Option<i64>)
    requires
        cap >= 0,
    ensures
        match spec_parse_nonneg(t@) {
            Some(v) => v >= 0 && if v <= cap {
                r == Some(v as i64)
            } else {
                r is None
            },
            None => r is None,
        },
        r matches Some(x) ==> 0 <= x <= cap,
{
    let n = t.len();
    if n == 0 {
        return None;
    }
    let mut start: usize = 0;
    let mut neg = false;
    if t[0] == 43u8 {
        start = 1;
    } else if t[0] == 45u8 {
        neg = true;
        start = 1;
    }
    if start == n {
        return None;
    }
    let ghost d = t@.skip(start as int);
    proof {
        assert(d.len() == n - start);
        if t@[0] == 43 || t@[0] == 45 {
            assert(d =~= t@.drop_first());
        } else {
            assert(d =~= t@);
        }
    }
    let mut acc: i64 = 0;
    let mut over = false;
    let mut i: usize = start;
    while i < n
        invariant
            start <= i <= n,
            0 < n == t@.len(),
            start < n,
            d == t@.skip(start as int),
            if t@[0] == 43 || t@[0] == 45 {
                start == 1
            } else {
                start == 0
            },
            neg == (t@[0] == 45),
            cap >= 0,
            forall|j: int| 0 <= j < i - start ==> is_digit_byte(#[trigger] d[j]),
            !over ==> 0 <= acc <= cap && acc == digits_val(d.take(i - start)),
            over ==> digits_val(d.take(i - start)) > cap,
        decreases n - i,
    {
        let b = t[i];
        proof {
            assert(d[i - start] == t@[i as int]);
        }
        if b < 48 || b > 57 {
            proof {
                assert(!is_digit_byte(d[i - start]));
                assert(!all_digits(d));
                if t@[0] == 43 || t@[0] == 45 {
                    assert(d =~= t@.drop_first());
                } else {
                    assert(d =~= t@);
                }
            }
            return None;
        }
        proof {
            lemma_digits_val_take_step(d, i - start);
        }
        let digit = (b - 48) as i64;
        if !over {
            if acc > cap / 10 || (acc == cap / 10 && digit > cap % 10) {
                over = true;
                proof {
                    vstd::arithmetic::div_mod::lemma_fundamental_div_mod(cap as int, 10);
                }
            } else {
                proof {
                    vstd::arithmetic::div_mod::lemma_fundamental_div_mod(cap as int, 10);
                }
                acc = acc * 10 + digit;
            }
        } else {
            proof {
                lemma_digits_val_nonneg(d.take(i - start));
            }
        }
        i += 1;
    }
    proof {
        assert(d.take(n - start) =~= d);
        assert(all_digits(d));
        lemma_digits_val_nonneg(d);
    }
    if over {
        None
    } else if neg {
        if acc == 0 {
            Some(0)
        } else {
            None
        }
    } else {
        Some(acc)
    }
}

impl BetAmount {
    /// Reads a bet directive: a keyword ("all", "half", "some"), a
    /// percentage such as "33%", or a plain amount, case-insensitively
    /// and ignoring surrounding whitespace.
    pub fn from_str(s: &str) -> (r: Result<BetAmount, ParseBetAmountError>)
        ensures
            match spec_parse_bet_raw(s.spec_bytes()) {
                Some(b) => r == Result::<BetAmount, ParseBetAmountError>::Ok(b),
                None => r is Err,
            },
    {
        let bytes: &[u8] = s.as_bytes();
        let m = bytes.len();

        let mut lv: Vec<u8> = Vec::new();
        let mut i: usize = 0;
        while i < m
            invariant
                i <= m,
                m == bytes@.len(),
                lv@.len() == i,
                forall|j: int| 0 <= j < i ==> lv@[j] == lower_byte(#[trigger] bytes@[j]),
            decreases m - i,
        {
            let b = bytes[i];
            if b >= 65u8 && b <= 90u8 {
                lv.push(b + 32);
            } else {
                lv.push(b);
            }
            i += 1;
        }
        proof {
            assert(lv@ =~= lower_bytes(bytes@));
        }

        let mut lo: usize = 0;
        while lo < m && (lv[lo] == 32u8 || (lv[lo] >= 9u8 && lv[lo] <= 13u8))
            invariant
                lo <= m,
                m == lv@.len(),
                forall|j: int| 0 <= j < lo ==> is_space_byte(#[trigger] lv@[j]),
            decreases m - lo,
        {
            lo += 1;
        }
        let mut hi: usize = m;
        while hi > lo && (lv[hi - 1] == 32u8 || (lv[hi - 1] >= 9u8 && lv[hi - 1] <= 13u8))
            invariant
                lo <= hi <= m,
                m == lv@.len(),
                forall|j: int| hi <= j < m ==> is_space_byte(#[trigger] lv@[j]),
            decreases hi,
        {
            hi -= 1;
        }
        let t = subrange_vec(&lv, lo, hi);
        proof {
            lemma_trim_front_skip(lv@, lo as int);
            if hi == lo {
                lemma_trim_back_take(lv@.skip(lo as int), 0);
            } else {
                assert(lv@.skip(lo as int)[hi - lo - 1] == lv@[hi - 1]);
                assert forall|j: int| hi - lo <= j < lv@.skip(lo as int).len()
                    implies is_space_byte(#[trigger] lv@.skip(lo as int)[j]) by {
                    assert(lv@.skip(lo as int)[j] == lv@[j + lo]);
                }
                lemma_trim_back_take(lv@.skip(lo as int), hi - lo);
            }
            assert(lv@.skip(lo as int).take(hi - lo) =~= lv@.subrange(lo as int, hi as int));
            assert(t@ == trimmed(lower_bytes(s.spec_bytes())));
        }

        let tn = t.len();
        if tn == 3 && t[0] == 97u8 && t[1] == 108u8 && t[2] == 108u8 {
            return Ok(BetAmount::All);
        }
        if tn == 4 && t[0] == 104u8 && t[1] == 97u8 && t[2] == 108u8 && t[3] == 102u8 {
            return Ok(BetAmount::Half);
        }
        if tn == 4 && t[0] == 115u8 && t[1] == 111u8 && t[2] == 109u8 && t[3] == 101u8 {
            return Ok(BetAmount::Random);
        }
        if tn > 0 && t[tn - 1] == 37u8 {
            proof {
                assert(t@.take(tn as int) =~= t@);
            }
            let mut ph: usize = tn;
            while ph > 0 && t[ph - 1] == 37u8
                invariant
                    ph <= tn,
                    tn == t@.len(),
                    strip_percents(t@) == strip_percents(t@.take(ph as int)),
                decreases ph,
            {
                proof {
                    assert(t@.take(ph as int).last() == t@[ph - 1]);
                    assert(t@.take(ph as int).drop_last() =~= t@.take(ph - 1));
                }
                ph -= 1;
            }
            proof {
                if ph > 0 {
                    assert(t@.take(ph as int).last() == t@[ph - 1]);
                }
                assert(strip_percents(t@.take(ph as int)) == t@.take(ph as int));
                assert(t@.take(ph as int) =~= t@.subrange(0, ph as int));
            }
            let digits = subrange_vec(&t, 0, ph);
            return match parse_nonneg_capped(&digits, 100) {
                Some(v) => Ok(BetAmount::Percentage(v as i8)),
                None => Err(ParseBetAmountError),
            };
        }
        match parse_nonneg_capped(&t, i64::MAX) {
            Some(v) => Ok(BetAmount::Specific(v)),
            None => Err(ParseBetAmountError),
        }
    }
}

/// Relies on rand's thread-local generator drawing a `bool`: either
/// outcome is possible, so nothing is promised of the result.
#[verifier::external_body]
pub(crate) fn coin_toss_is_heads() -> bool {
    rand::random::<bool>()
}

/// Relies on rand's `random_range` over `lo..=hi`: it panics if and only
/// if the range is empty, and otherwise returns a draw within it.
#[verifier::external_body]
pub(crate) fn random_in_range(lo: i64, hi: i64) -> (r: i64)
    requires
        lo <= hi,
    ensures
        lo <= r <= hi,
{
    rand::random_range(lo..=hi)
}

/// Largest balance the bet arithmetic accepts without overflowing.
pub const MAX_BET_BALANCE: i64 = 72_057_594_037_927_935;

/// The stake a deterministic directive resolves to against balance `b`.
/// (`Random` is resolved by a fresh draw instead; this gives zero.)
pub open spec fn spec_resolved_det(bet: BetAmount, b: int) -> int {
    match bet {
        BetAmount::All => b,
        BetAmount::Half => b / 2,
        BetAmount::Specific(v) => v as int,
        BetAmount::Percentage(p) => p * b / 100,
        BetAmount::Random => 0,
    }
}

/// Resolves a bet directive to a concrete stake against the player's
/// balance; a `Random` directive draws uniformly between the minimum
/// bet of two and the whole balance.
pub fn calculate_amount(bet_amount: &BetAmount, player: &Player) -> (amount: i64)
    requires
        0 <= player.balance <= MAX_BET_BALANCE,
        bet_amount matches BetAmount::Percentage(p) ==> 0 <= *p <= 100,
        bet_amount is Random ==> player.balance >= 2,
    ensures
        !(bet_amount is Random) ==> amount == spec_resolved_det(*bet_amount, player.balance as int),
        bet_amount is Random ==> 2 <= amount <= player.balance,
{
    match bet_amount {
        BetAmount::All => player.balance,
        BetAmount::Half => player.balance / 2,
        BetAmount::Random => random_in_range(2, player.balance),
        BetAmount::Specific(v) => *v,
        BetAmount::Percentage(v) => {
            proof {
                assert((*v as int) * (player.balance as int) <= 100 * (player.balance as int)
                    && (*v as int) * (player.balance as int) >= 0) by (nonlinear_arith)
                    requires
                        0 <= *v <= 100,
                        player.balance >= 0,
                ;
            }
            (*v as i64) * player.balance / 100
        },
    }
}

} // verus!
