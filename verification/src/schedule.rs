//! Decisions of the scheduled jobs: the amount used to quote rates, how the
//! prediction cycle is chunked and judged, and how the cron loop waits.
use vstd::prelude::*;
use crate::portfolio_state::ExchangeRate;

verus! {

/// The amount, in whole NEAR, used to quote rates: a tenth of the minimum
/// pool liquidity, so that slippage stays small, and at least 1 NEAR.
pub fn get_initial_value(min_pool_liquidity_near: u64) -> (r: u64)
    ensures
        r == (if min_pool_liquidity_near / 10 >= 1 {
            min_pool_liquidity_near / 10
        } else {
            1
        }),
        r >= 1,
{
    let tenth = min_pool_liquidity_near / 10;
    if tenth >= 1 {
        tenth
    } else {
        1
    }
}

/// The rate recorded for a token quoted at `value` smallest units for
/// `initial_near` NEAR: smallest units per NEAR, rounded down.
pub fn quoted_rate(value: u128, decimals: u8, initial_near: u64) -> (r: ExchangeRate)
    requires
        initial_near >= 1,
    ensures
        r.raw_rate == value / (initial_near as u128),
        r.decimals == decimals,
{
    ExchangeRate { raw_rate: value / (initial_near as u128), decimals }
}

/// The number of tokens predicted per chunk: the configured size, at
/// least one.
pub fn prediction_chunk_size(configured: u32) -> (r: usize)
    ensures
        r == (if configured >= 1 {
            configured as usize
        } else {
            1usize
        }),
{
    if configured >= 1 {
        configured as usize
    } else {
        1
    }
}

/// The verdict on a prediction cycle: the number of predictions to record,
/// or, when targets existed but none produced a prediction, an error that
/// carries the number of targets.
pub fn prediction_cycle_outcome(recorded: usize, targets: usize) -> (r: Result<usize, usize>)
    ensures
        (recorded == 0 && targets > 0) ==> r == Err::<usize, usize>(targets),
        !(recorded == 0 && targets > 0) ==> r == Ok::<usize, usize>(recorded),
{
    if recorded == 0 && targets > 0 {
        Err(targets)
    } else {
        Ok(recorded)
    }
}

/// One step of the wait for a scheduled run.
#[derive(Debug, Clone, Copy, PartialEq, Eq)]
pub enum CronWait {
    /// The run time had already passed when it came up: skip it and take
    /// the next one.
    Skip,
    /// The run time has come while waiting for it: run the task.
    Run,
    /// Sleep this many milliseconds, then look again.
    Sleep { millis: u64 },
}

/// How the cron loop waits for `next_ms` at `now_ms` (milliseconds since
/// the epoch). When the run time first comes up (`waiting` false) and has
/// already passed, it is skipped; once the loop is waiting for it, it runs
/// as soon as it has come. Before that, the loop sleeps for what remains
/// but at most `max_sleep_secs` seconds, so that long waits are checked
/// every so often.
pub fn cron_wait(now_ms: i64, next_ms: i64, max_sleep_secs: u64, waiting: bool) -> (r: CronWait)
    ensures
        (now_ms >= next_ms && !waiting) ==> r == CronWait::Skip,
        (now_ms >= next_ms && waiting) ==> r == CronWait::Run,
        now_ms < next_ms ==> r == (CronWait::Sleep {
            millis: (if (next_ms - now_ms) <= (max_sleep_secs as int) * 1000 {
                (next_ms - now_ms) as u64
            } else if (max_sleep_secs as int) * 1000 <= u64::MAX {
                (max_sleep_secs * 1000) as u64
            } else {
                u64::MAX
            }),
        }),
{
    if now_ms >= next_ms {
        return if waiting {
            CronWait::Run
        } else {
            CronWait::Skip
        };
    }
    let remaining: u64 = (next_ms as i128 - now_ms as i128) as u64;
    let cap: u64 = match max_sleep_secs.checked_mul(1000) {
        Some(c) => c,
        None => u64::MAX,
    };
    if remaining <= cap {
        CronWait::Sleep { millis: remaining }
    } else {
        CronWait::Sleep { millis: cap }
    }
}

/// What follows a failed prediction attempt.
#[derive(Debug, Clone, Copy, PartialEq, Eq)]
pub enum RetryStep {
    /// Wait the retry delay, then make attempt number `attempt`.
    Retry { attempt: u32 },
    /// All `max_retries + 1` attempts failed: report the last error.
    GiveUp,
}

/// After attempt number `attempt` (counting from zero) failed: retry while
/// fewer than `max_retries` retries were made, otherwise give up.
pub fn after_failed_attempt(attempt: u32, max_retries: u32) -> (r: RetryStep)
    ensures
        attempt < max_retries ==> r == (RetryStep::Retry { attempt: (attempt + 1) as u32 }),
        attempt >= max_retries ==> r == RetryStep::GiveUp,
{
    if attempt < max_retries {
        RetryStep::Retry { attempt: attempt + 1 }
    } else {
        RetryStep::GiveUp
    }
}

/// The verdict on a batch of predictions: the number that succeeded, or,
/// when none did, an error that carries the number requested.
pub fn batch_prediction_outcome(succeeded: usize, requested: usize) -> (r: Result<usize, usize>)
    ensures
        succeeded == 0 ==> r == Err::<usize, usize>(requested),
        succeeded > 0 ==> r == Ok::<usize, usize>(succeeded),
{
    if succeeded == 0 {
        Err(requested)
    } else {
        Ok(succeeded)
    }
}

/// A cron schedule as parsed by the `cron` crate.
#[verifier::external_type_specification]
#[verifier::external_body]
pub struct ExCronSchedule(cron::Schedule);

/// Whether `cron::Schedule::from_str` accepts `expr`.
pub uninterp spec fn cron_accepts(expr: Seq<char>) -> bool;

/// The schedule that `cron::Schedule::from_str` builds from `expr` when it
/// accepts it.
pub uninterp spec fn cron_schedule(expr: Seq<char>) -> cron::Schedule;

/// Calls `cron::Schedule::from_str`. The contract claims that whether it
/// succeeds, and the schedule it builds, are functions of the expression
/// alone (named `cron_accepts` and `cron_schedule`).
#[verifier::external_body]
fn parse_schedule(expr: &str) -> (r: Option<cron::Schedule>)
    ensures
        r.is_some() == cron_accepts(expr@),
        r matches Some(s) ==> s == cron_schedule(expr@),
{
    expr.parse::<cron::Schedule>().ok()
}

/// The schedule of `cron_expr`, or of `default` when `cron_expr` does not
/// parse; the flag tells whether the default was used. `None` when
/// neither parses.
pub fn parse_cron_schedule(cron_expr: &str, default: &str) -> (r: Option<(cron::Schedule, bool)>)
    ensures
        r.is_some() == (cron_accepts(cron_expr@) || cron_accepts(default@)),
        r matches Some((_, used_default)) ==> used_default == !cron_accepts(cron_expr@),
        r matches Some((s, used_default)) ==> s == cron_schedule(
            if used_default {
                default@
            } else {
                cron_expr@
            },
        ),
{
    match parse_schedule(cron_expr) {
        Some(s) => Some((s, false)),
        None => match parse_schedule(default) {
            Some(s) => Some((s, true)),
            None => None,
        },
    }
}

} // verus!
