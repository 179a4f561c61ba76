//! Profit harvesting: when the portfolio has grown past twice its initial
//! value, a tenth of the excess is sent to the harvest account.
//!
//! The decisions are here; reading balances and sending transfers is done
//! by the caller.
use vstd::prelude::*;

verus! {

/// yoctoNEAR per NEAR.
pub const YOCTO_PER_NEAR: u128 = 1_000_000_000_000_000_000_000_000;

/// Default minimum interval between harvests, in seconds (24 hours).
pub const DEFAULT_HARVEST_INTERVAL_SECONDS: u64 = 86400;

/// Default minimum harvest amount, in NEAR.
pub const DEFAULT_HARVEST_MIN_AMOUNT_NEAR: u64 = 10;

/// Default amount of native NEAR kept back when transferring, in NEAR.
pub const DEFAULT_HARVEST_RESERVE_AMOUNT_NEAR: u64 = 1;

/// `near` NEAR in yoctoNEAR, or `None` when that does not fit in 128 bits.
pub fn near_to_yocto(near: u64) -> (r: Option<u128>)
    ensures
        match r {
            Some(v) => v == near * YOCTO_PER_NEAR,
            None => near * YOCTO_PER_NEAR > u128::MAX,
        },
{
    (near as u128).checked_mul(YOCTO_PER_NEAR)
}

/// The number that the decimal digits `s` spell.
pub open spec fn digits_value(s: Seq<char>) -> int
    decreases s.len(),
{
    if s.len() == 0 {
        0
    } else {
        digits_value(s.drop_last()) * 10 + (s.last() as int - '0' as int)
    }
}

/// Whether every character of `s` is an ASCII decimal digit.
pub open spec fn all_digits(s: Seq<char>) -> bool {
    forall|i: int| 0 <= i < s.len() ==> '0' as int <= #[trigger] (s[i] as int) <= '9' as int
}

/// What `str::parse::<u64>` yields for `s`, as its documentation states:
/// an optional `+` followed by one or more decimal digits and nothing else,
/// of a value that fits in 64 bits; anything else is an error (`None`).
pub open spec fn parsed_u64(s: Seq<char>) -> Option<u64> {
    let digits = if s.len() > 0 && s[0] == '+' {
        s.drop_first()
    } else {
        s
    };
    if digits.len() > 0 && all_digits(digits) && digits_value(digits) <= u64::MAX {
        Some(digits_value(digits) as u64)
    } else {
        None
    }
}

/// Extending a run of decimal digits never lowers the number it spells.
proof fn lemma_digits_value_grows(d: Seq<char>, k: int, m: int)
    requires
        0 <= k <= m <= d.len(),
        all_digits(d),
    ensures
        digits_value(d.take(k)) <= digits_value(d.take(m)),
        digits_value(d.take(k)) >= 0,
    decreases m - k,
{
    if k < m {
        lemma_digits_value_grows(d, k, m - 1);
        let t = d.take(m);
        assert(t.drop_last() =~= d.take(m - 1));
        assert(t.last() == d[m - 1]);
        assert('0' as int <= (d[m - 1] as int));
    } else {
        lemma_digits_value_nonneg(d.take(k));
    }
}

/// A run of decimal digits spells a non-negative number.
proof fn lemma_digits_value_nonneg(d: Seq<char>)
    requires
        all_digits(d),
    ensures
        digits_value(d) >= 0,
    decreases d.len(),
{
    if d.len() > 0 {
        assert(all_digits(d.drop_last())) by {
            assert forall|i: int| 0 <= i < d.drop_last().len() implies '0' as int <= #[trigger] (
            d.drop_last()[i] as int) <= '9' as int by {
                assert(d.drop_last()[i] == d[i]);
            }
        }
        lemma_digits_value_nonneg(d.drop_last());
        assert('0' as int <= (d[d.len() - 1] as int));
    }
}

/// Parses an unsigned 64-bit integer as `str::parse::<u64>` documents it:
/// an optional `+` sign followed by one or more decimal digits and nothing
/// else; `None` for anything else or for a value above `u64::MAX`.
pub fn parse_u64(s: &str) -> (r: Option<u64>)
    ensures
        r == parsed_u64(s@),
{
    let n = s.unicode_len();
    let start: usize = if n > 0 && s.get_char(0) == '+' {
        1
    } else {
        0
    };
    let ghost digits = if s@.len() > 0 && s@[0] == '+' {
        s@.drop_first()
    } else {
        s@
    };
    proof {
        assert(digits =~= s@.subrange(start as int, n as int));
        assert(parsed_u64(s@) == (if digits.len() > 0 && all_digits(digits) && digits_value(digits) <= u64::MAX {
            Some(digits_value(digits) as u64)
        } else {
            None
        }));
    }
    if start >= n {
        return None;
    }
    let mut value: u64 = 0;
    let mut i: usize = start;
    proof {
        assert(digits.take(0) =~= Seq::<char>::empty());
    }
    while i < n
        invariant
            start <= i <= n,
            n == s@.len(),
            start <= 1,
            digits == s@.subrange(start as int, n as int),
            all_digits(digits.take(i - start)),
            value == digits_value(digits.take(i - start)),
            parsed_u64(s@) == (if digits.len() > 0 && all_digits(digits) && digits_value(digits) <= u64::MAX {
                Some(digits_value(digits) as u64)
            } else {
                None
            }),
        decreases n - i,
    {
        let c = s.get_char(i);
        let ghost k: int = i - start;
        proof {
            assert(digits[k] == c);
        }
        if !('0' <= c && c <= '9') {
            proof {
                assert(!all_digits(digits)) by {
                    assert(!('0' as int <= (digits[k] as int) <= '9' as int));
                }
            }
            return None;
        }
        let d: u64 = (c as u32 - '0' as u32) as u64;
        let ghost next = digits.take(k + 1);
        proof {
            assert(next.drop_last() =~= digits.take(k));
            assert(next.last() == c);
            assert(all_digits(next)) by {
                assert forall|j: int| 0 <= j < next.len() implies '0' as int <= #[trigger] (next[j] as int)
                    <= '9' as int by {
                    if j < k {
                        assert(next[j] == digits.take(k)[j]);
                    }
                }
            }
            assert(digits_value(next) == value * 10 + d);
        }
        let grown = match value.checked_mul(10) {
            Some(v) => v.checked_add(d),
            None => None,
        };
        match grown {
            Some(v) => {
                value = v;
            },
            None => {
                proof {
                    if all_digits(digits) {
                        assert(digits.take(k + 1) =~= next);
                        lemma_digits_value_grows(digits, k + 1, digits.len() as int);
                        assert(digits.take(digits.len() as int) =~= digits);
                    }
                    }
                return None;
            },
        }
        i = i + 1;
    }
    proof {
        assert(digits.take(n - start) =~= digits);
    }
    Some(value)
}

/// The whole-NEAR amount that a configuration value sets, `default_near`
/// when the value is unset or is not a whole number.
pub open spec fn configured_near(value: Option<String>, default_near: u64) -> u64 {
    match value {
        Some(s) => match parsed_u64(s@) {
            Some(n) => n,
            None => default_near,
        },
        None => default_near,
    }
}

/// A NEAR amount read from configuration, in yoctoNEAR: the configured
/// whole number of NEAR, or `default_near` when it is unset or does not
/// parse; `None` when the amount does not fit in 128 bits.
pub fn config_near_amount(value: Option<String>, default_near: u64) -> (r: Option<u128>)
    ensures
        match r {
            Some(v) => v == configured_near(value, default_near) * YOCTO_PER_NEAR,
            None => configured_near(value, default_near) * YOCTO_PER_NEAR > u128::MAX,
        },
{
    let near = match &value {
        Some(s) => match parse_u64(s.as_str()) {
            Some(n) => n,
            None => default_near,
        },
        None => default_near,
    };
    near_to_yocto(near)
}

/// The configured harvest interval, or the 24-hour default.
pub fn harvest_interval(configured: Option<u64>) -> (r: u64)
    ensures
        r == match configured {
            Some(v) => v,
            None => DEFAULT_HARVEST_INTERVAL_SECONDS,
        },
{
    match configured {
        Some(v) => v,
        None => DEFAULT_HARVEST_INTERVAL_SECONDS,
    }
}

/// The configured minimum harvest amount in yoctoNEAR, or 10 NEAR.
pub fn harvest_min_amount(configured: Option<u128>) -> (r: u128)
    ensures
        r == match configured {
            Some(v) => v,
            None => (DEFAULT_HARVEST_MIN_AMOUNT_NEAR * YOCTO_PER_NEAR) as u128,
        },
{
    match configured {
        Some(v) => v,
        None => 10 * YOCTO_PER_NEAR,
    }
}

/// The configured reserve amount in yoctoNEAR, or 1 NEAR.
pub fn harvest_reserve_amount(configured: Option<u128>) -> (r: u128)
    ensures
        r == match configured {
            Some(v) => v,
            None => YOCTO_PER_NEAR,
        },
{
    match configured {
        Some(v) => v,
        None => YOCTO_PER_NEAR,
    }
}

/// Whether more than `interval` seconds have passed since the last harvest.
pub fn is_time_to_harvest(now_secs: u64, last_harvest_secs: u64, interval: u64) -> (r: bool)
    requires
        last_harvest_secs <= now_secs,
    ensures
        r == (now_secs - last_harvest_secs > interval),
{
    now_secs - last_harvest_secs > interval
}

/// Outcome of the harvest check.
#[derive(Debug, Clone, Copy, PartialEq, Eq)]
pub enum HarvestDecision {
    /// The period has no initial value, so no growth can be measured.
    NoInitialValue,
    /// The portfolio is at most twice its initial value.
    BelowThreshold,
    /// A tenth of the excess is below the configured minimum.
    BelowMinimum { amount: u128 },
    /// The minimum interval since the last harvest has not passed.
    TooSoon { amount: u128 },
    /// Harvest `amount` yoctoNEAR.
    Harvest { amount: u128 },
}

/// The amount harvested from a portfolio worth `current` that started at
/// `initial`: a tenth (rounded down) of what exceeds twice `initial`.
pub open spec fn harvest_amount(initial: int, current: int) -> int {
    (current - 2 * initial) / 10
}

/// Decides whether to harvest.
///
/// Nothing is harvested when the initial value is zero or the portfolio is
/// not worth more than twice its initial value. Otherwise a tenth of the
/// excess is harvested, provided it reaches `min_amount` and more than
/// `interval` seconds have passed since the last harvest.
pub fn decide_harvest(
    initial_value: u128,
    current_value: u128,
    min_amount: u128,
    now_secs: u64,
    last_harvest_secs: u64,
    interval: u64,
) -> (d: HarvestDecision)
    requires
        last_harvest_secs <= now_secs,
    ensures
        initial_value == 0 ==> d == HarvestDecision::NoInitialValue,
        initial_value > 0 && current_value <= 2 * initial_value ==> d
            == HarvestDecision::BelowThreshold,
        initial_value > 0 && current_value > 2 * initial_value ==> {
            let amount = harvest_amount(initial_value as int, current_value as int) as u128;
            &&& amount < min_amount ==> d == HarvestDecision::BelowMinimum { amount }
            &&& amount >= min_amount && now_secs - last_harvest_secs <= interval ==> d
                == HarvestDecision::TooSoon { amount }
            &&& amount >= min_amount && now_secs - last_harvest_secs > interval ==> d
                == HarvestDecision::Harvest { amount }
        },
        d matches HarvestDecision::Harvest { amount } ==> current_value - amount >= 2 * initial_value,
{
    if initial_value == 0 {
        return HarvestDecision::NoInitialValue;
    }
    // Twice the initial value exceeds any u128 current value when the
    // initial value is above half the range.
    if initial_value > u128::MAX / 2 {
        return HarvestDecision::BelowThreshold;
    }
    let threshold = 2 * initial_value;
    if current_value <= threshold {
        return HarvestDecision::BelowThreshold;
    }
    let excess = current_value - threshold;
    let amount = excess / 10;
    if amount < min_amount {
        return HarvestDecision::BelowMinimum { amount };
    }
    if !is_time_to_harvest(now_secs, last_harvest_secs, interval) {
        return HarvestDecision::TooSoon { amount };
    }
    HarvestDecision::Harvest { amount }
}

/// Native NEAR to transfer for a harvest of `planned` yoctoNEAR when the
/// account holds `native_balance` and `reserve` must stay behind: the
/// smaller of `planned` and what is above the reserve, or `None` when the
/// balance does not exceed the reserve.
pub fn harvest_transfer_amount(planned: u128, native_balance: u128, reserve: u128) -> (r: Option<u128>)
    ensures
        native_balance <= reserve ==> r.is_none(),
        native_balance > reserve ==> r == Some(
            if planned < native_balance - reserve {
                planned
            } else {
                (native_balance - reserve) as u128
            },
        ),
        r matches Some(t) ==> native_balance - t >= reserve && t <= planned,
{
    if native_balance > reserve {
        let available = native_balance - reserve;
        Some(
            if planned < available {
                planned
            } else {
                available
            },
        )
    } else {
        None
    }
}

/// Reserve used when unwrapping at stop: the configured amount, or 1 NEAR
/// when it converts to zero.
pub fn stop_reserve_amount(configured_yocto: u128) -> (r: u128)
    ensures
        r == if configured_yocto == 0 {
            YOCTO_PER_NEAR
        } else {
            configured_yocto
        },
{
    if configured_yocto == 0 {
        YOCTO_PER_NEAR
    } else {
        configured_yocto
    }
}

/// Native NEAR sent to the harvest account when trading stops: everything
/// above `reserve`, or `None` when nothing is above it.
pub fn stop_transfer_amount(native_balance: u128, reserve: u128) -> (r: Option<u128>)
    ensures
        native_balance > reserve ==> r == Some((native_balance - reserve) as u128),
        native_balance <= reserve ==> r.is_none(),
        r matches Some(v) ==> v > 0,
{
    if native_balance > reserve {
        Some(native_balance - reserve)
    } else {
        None
    }
}

/// The first step of unwrapping and transferring wNEAR when trading stops.
#[derive(Debug, Clone, Copy, PartialEq, Eq)]
pub enum StopUnwrap {
    /// No harvest account is configured: nothing is done.
    NoHarvestAccount,
    /// The exchange holds no wNEAR: nothing is done.
    NothingToUnwrap,
    /// Withdraw and unwrap this amount of wNEAR, then transfer.
    Unwrap { amount: u128 },
}

/// Whether the unwrap and transfer at stop goes ahead: it needs a
/// non-empty harvest account and a wNEAR balance on the exchange; the whole
/// balance is unwrapped.
pub fn stop_unwrap_step(harvest_account: &Option<String>, wnear_balance: u128) -> (r: StopUnwrap)
    ensures
        (harvest_account is None || harvest_account->0@.len() == 0) ==> r == StopUnwrap::NoHarvestAccount,
        (harvest_account is Some && harvest_account->0@.len() > 0) ==> r == (if wnear_balance == 0 {
            StopUnwrap::NothingToUnwrap
        } else {
            StopUnwrap::Unwrap { amount: wnear_balance }
        }),
{
    let configured = match harvest_account {
        Some(id) => id.as_str().unicode_len() > 0,
        None => false,
    };
    if !configured {
        StopUnwrap::NoHarvestAccount
    } else if wnear_balance == 0 {
        StopUnwrap::NothingToUnwrap
    } else {
        StopUnwrap::Unwrap { amount: wnear_balance }
    }
}

/// A step of moving wNEAR out of the exchange to the harvest account.
#[derive(Debug, Clone, Copy, PartialEq, Eq)]
pub enum TransferPhase {
    /// Withdraw wNEAR from the exchange.
    Withdraw,
    /// Unwrap wNEAR into native NEAR.
    Unwrap,
    /// Read the native NEAR balance.
    ReadBalance,
    /// Transfer native NEAR to the harvest account.
    Transfer,
}

/// How the last step ended.
#[derive(Debug, Clone, Copy, PartialEq, Eq)]
pub enum TransferEvent {
    /// The step succeeded.
    Done,
    /// The step failed.
    Error,
    /// The native NEAR balance was read.
    Balance { native: u128 },
}

/// What comes next in the sequence.
#[derive(Debug, Clone, Copy, PartialEq, Eq)]
pub enum TransferStep {
    /// Unwrap this amount of wNEAR.
    Unwrap { amount: u128 },
    /// Read the native NEAR balance.
    ReadBalance,
    /// Transfer this amount of native NEAR.
    Transfer { amount: u128 },
    /// The sequence finished; no transfer may have been needed.
    Finished,
    /// The sequence stops with an error at this step.
    Failed { phase: TransferPhase },
}

/// The native NEAR transferred from `native` when `reserve` stays
/// behind: everything above the reserve, at most `planned` when `capped`;
/// `None` when nothing is above the reserve.
pub open spec fn transfer_amount(planned: u128, capped: bool, native: u128, reserve: u128) -> Option<u128> {
    if native <= reserve {
        None
    } else if capped && planned < native - reserve {
        Some(planned)
    } else {
        Some((native - reserve) as u128)
    }
}

/// The next step of withdrawing `amount` of wNEAR, unwrapping it and
/// transferring native NEAR above `reserve` (at most `amount` when
/// `capped`, as a harvest does), after step `phase` ended with `event`:
/// any error, or an outcome that does not belong to the step, stops the
/// sequence at that step; a withdrawal is followed by the unwrap, the
/// unwrap by reading the balance, the balance by the transfer (or by the
/// end when nothing is above the reserve), and the transfer by the end.
pub fn transfer_step(amount: u128, reserve: u128, capped: bool, phase: TransferPhase, event: TransferEvent) -> (r: TransferStep)
    ensures
        match (phase, event) {
            (TransferPhase::Withdraw, TransferEvent::Done) => r == (TransferStep::Unwrap { amount }),
            (TransferPhase::Unwrap, TransferEvent::Done) => r == TransferStep::ReadBalance,
            (TransferPhase::ReadBalance, TransferEvent::Balance { native }) => match transfer_amount(
                amount,
                capped,
                native,
                reserve,
            ) {
                Some(t) => r == (TransferStep::Transfer { amount: t }),
                None => r == TransferStep::Finished,
            },
            (TransferPhase::Transfer, TransferEvent::Done) => r == TransferStep::Finished,
            _ => r == (TransferStep::Failed { phase }),
        },
{
    match (phase, event) {
        (TransferPhase::Withdraw, TransferEvent::Done) => TransferStep::Unwrap { amount },
        (TransferPhase::Unwrap, TransferEvent::Done) => TransferStep::ReadBalance,
        (TransferPhase::ReadBalance, TransferEvent::Balance { native }) => {
            let t = if capped {
                harvest_transfer_amount(amount, native, reserve)
            } else {
                stop_transfer_amount(native, reserve)
            };
            match t {
                Some(v) => TransferStep::Transfer { amount: v },
                None => TransferStep::Finished,
            }
        },
        (TransferPhase::Transfer, TransferEvent::Done) => TransferStep::Finished,
        _ => TransferStep::Failed { phase },
    }
}

} // verus!
