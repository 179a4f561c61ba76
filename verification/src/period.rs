//! Evaluation-period management: when a period ends, which positions are
//! liquidated, and how the next period starts.
use vstd::arithmetic::div_mod::{lemma_div_is_ordered, lemma_div_pos_is_pos};
use vstd::prelude::*;

verus! {

/// Seconds in a day.
pub const SECONDS_PER_DAY: i64 = 86400;

/// What to do with the evaluation period on this cycle.
#[derive(Debug, Clone, PartialEq, Eq)]
pub enum PeriodAction {
    /// No period exists yet: create the first one with the available funds.
    Bootstrap,
    /// The latest period is still running.
    Continue { period_id: String, days_elapsed: i64 },
    /// The latest period has run its course: liquidate everything, harvest,
    /// and start a new period (or stop when trading is disabled).
    EndAndStartNew { period_id: String, days_elapsed: i64 },
}

/// Whole days from `start` to `now` (seconds), rounded toward zero.
pub open spec fn whole_days(start: int, now: int) -> int {
    let d = now - start;
    if d >= 0 {
        d / (SECONDS_PER_DAY as int)
    } else {
        -((-d) / (SECONDS_PER_DAY as int))
    }
}

/// Law: the whole days elapsed since a period's start never decrease as
/// time moves forward, so a period that has ended stays ended.
pub proof fn lemma_elapsed_days_monotone(start: int, now1: int, now2: int)
    requires
        now1 <= now2,
    ensures
        whole_days(start, now1) <= whole_days(start, now2),
{
    let day = SECONDS_PER_DAY as int;
    let d1 = now1 - start;
    let d2 = now2 - start;
    if d1 >= 0 {
        lemma_div_is_ordered(d1, d2, day);
    } else if d2 >= 0 {
        lemma_div_pos_is_pos(-d1, day);
        lemma_div_pos_is_pos(d2, day);
    } else {
        lemma_div_is_ordered(-d2, -d1, day);
    }
}

/// Decides the period step from the latest period, if any, given as its id
/// and start time (seconds since the epoch): a period that has lasted
/// `evaluation_days` whole days or more ends, a younger one continues.
pub fn determine_period_action(latest: Option<(String, i64)>, now_secs: i64, evaluation_days: i64) -> (r: PeriodAction)
    ensures
        latest.is_none() ==> r == PeriodAction::Bootstrap,
        latest matches Some((id, start)) ==> {
            let days = whole_days(start as int, now_secs as int);
            &&& days >= evaluation_days ==> (r matches PeriodAction::EndAndStartNew { period_id, days_elapsed }
                && period_id@ == id@ && days_elapsed == days)
            &&& days < evaluation_days ==> (r matches PeriodAction::Continue { period_id, days_elapsed }
                && period_id@ == id@ && days_elapsed == days)
        },
{
    match latest {
        None => PeriodAction::Bootstrap,
        Some((period_id, start_secs)) => {
            let diff: i128 = now_secs as i128 - start_secs as i128;
            let day: i128 = SECONDS_PER_DAY as i128;
            let days_wide: i128 = if diff >= 0 {
                diff / day
            } else {
                -((-diff) / day)
            };
            proof {
                assert(i64::MIN <= days_wide <= i64::MAX);
            }
            let days_elapsed = days_wide as i64;
            if days_elapsed >= evaluation_days {
                PeriodAction::EndAndStartNew { period_id, days_elapsed }
            } else {
                PeriodAction::Continue { period_id, days_elapsed }
            }
        },
    }
}

/// How a running period continues: whether it counts as new (no selected
/// token and no transaction yet), and whether its record looks corrupted
/// (no selected token but transactions exist).
pub fn continuation_status(selected_token_count: usize, transaction_count: u64) -> (r: (bool, bool))
    ensures
        r.0 == (selected_token_count == 0 && transaction_count == 0),
        r.1 == (selected_token_count == 0 && transaction_count > 0),
{
    (selected_token_count == 0 && transaction_count == 0, selected_token_count == 0 && transaction_count > 0)
}

/// What follows the liquidation at the end of a period.
#[derive(Debug, Clone, Copy, PartialEq, Eq)]
pub enum PeriodEnd {
    /// Start a new period whose initial value is `initial_value`.
    StartNew { initial_value: u128 },
    /// Trading is disabled: stop, optionally unwrapping wNEAR and sending it
    /// to the harvest account.
    Stop { balance: u128, unwrap_and_transfer: bool },
}

/// The balance after a harvest: the refreshed balance when something was
/// harvested, otherwise the balance right after liquidation.
pub fn post_harvest_balance(harvested: u128, refreshed_balance: u128, final_balance: u128) -> (r: u128)
    ensures
        r == if harvested != 0 {
            refreshed_balance
        } else {
            final_balance
        },
{
    if harvested != 0 {
        refreshed_balance
    } else {
        final_balance
    }
}

/// Ends the period: with trading enabled a new period starts from the
/// post-harvest balance; otherwise trading stops.
pub fn end_period(post_harvest_balance: u128, trade_enabled: bool, unwrap_on_stop: bool) -> (r: PeriodEnd)
    ensures
        trade_enabled ==> r == (PeriodEnd::StartNew { initial_value: post_harvest_balance }),
        !trade_enabled ==> r == (PeriodEnd::Stop {
            balance: post_harvest_balance,
            unwrap_and_transfer: unwrap_on_stop,
        }),
{
    if trade_enabled {
        PeriodEnd::StartNew { initial_value: post_harvest_balance }
    } else {
        PeriodEnd::Stop { balance: post_harvest_balance, unwrap_and_transfer: unwrap_on_stop }
    }
}

/// Whether a deposit of `token` holding `amount` must be liquidated.
pub open spec fn to_liquidate(token: Seq<char>, amount: u128, wrap_near: Seq<char>) -> bool {
    token != wrap_near && amount > 0
}

/// The tokens to liquidate among the REF Finance deposits: every token but
/// wrap.near that has a non-zero balance, in deposit order.
pub fn filter_tokens_to_liquidate(deposits: &Vec<(String, u128)>, wrap_near_token: &String) -> (r: Vec<String>)
    ensures
        r@.map_values(|t: String| t@) == deposits@.filter(
            |d: (String, u128)| to_liquidate(d.0@, d.1, wrap_near_token@),
        ).map_values(|d: (String, u128)| d.0@),
{
    let ghost keep = |d: (String, u128)| to_liquidate(d.0@, d.1, wrap_near_token@);
    let mut r: Vec<String> = Vec::new();
    let mut i: usize = 0;
    while i < deposits.len()
        invariant
            i <= deposits@.len(),
            keep == (|d: (String, u128)| to_liquidate(d.0@, d.1, wrap_near_token@)),
            r@.map_values(|t: String| t@) == deposits@.take(i as int).filter(keep).map_values(
                |d: (String, u128)| d.0@,
            ),
        decreases deposits@.len() - i,
    {
        let (token, amount) = (&deposits[i].0, deposits[i].1);
        let ghost prev = deposits@.take(i as int).filter(keep);
        proof {
            assert(deposits@.take(i as int + 1).drop_last() =~= deposits@.take(i as int));
            reveal_with_fuel(Seq::filter, 1);
            assert(deposits@.take(i as int + 1).filter(keep) == if keep(deposits@[i as int]) {
                prev.push(deposits@[i as int])
            } else {
                prev
            });
        }
        if *token != *wrap_near_token && amount > 0 {
            r.push(token.clone());
            proof {
                assert(prev.push(deposits@[i as int]).map_values(|d: (String, u128)| d.0@)
                    =~= prev.map_values(|d: (String, u128)| d.0@).push(token@));
            }
        }
        proof {
            assert(r@.map_values(|t: String| t@) =~= deposits@.take(i as int + 1).filter(keep).map_values(
                |d: (String, u128)| d.0@,
            ));
        }
        i = i + 1;
    }
    proof {
        assert(deposits@.take(deposits@.len() as int) =~= deposits@);
    }
    r
}

/// The wNEAR balance among the deposits: that of the first wNEAR entry,
/// zero when there is none.
pub open spec fn wnear_balance_of(deposits: Seq<(String, u128)>, wrap_near: Seq<char>) -> u128
    decreases deposits.len(),
{
    if deposits.len() == 0 {
        0
    } else if deposits[0].0@ == wrap_near {
        deposits[0].1
    } else {
        wnear_balance_of(deposits.drop_first(), wrap_near)
    }
}

/// How liquidating all positions at the end of a period starts.
#[derive(Debug, Clone, PartialEq, Eq)]
pub enum LiquidationStart {
    /// There is no evaluation period: nothing to liquidate, the result is
    /// zero.
    NoPeriod,
    /// No token needs selling: the result is the wNEAR balance.
    NothingToSell { wnear_balance: u128 },
    /// Sell these tokens to wNEAR, in order.
    Sell { tokens: Vec<String> },
}

/// The start of a liquidation from whether a period exists and the
/// exchange deposits.
pub fn liquidation_start(has_period: bool, deposits: &Vec<(String, u128)>, wrap_near_token: &String) -> (r: LiquidationStart)
    ensures
        !has_period ==> r == LiquidationStart::NoPeriod,
        has_period ==> {
            let tokens = deposits@.filter(|d: (String, u128)| to_liquidate(d.0@, d.1, wrap_near_token@)).map_values(
                |d: (String, u128)| d.0@,
            );
            &&& tokens.len() == 0 ==> r == (LiquidationStart::NothingToSell {
                wnear_balance: wnear_balance_of(deposits@, wrap_near_token@),
            })
            &&& tokens.len() > 0 ==> (r matches LiquidationStart::Sell { tokens: t } && t@.map_values(
                |x: String| x@,
            ) == tokens)
        },
{
    if !has_period {
        return LiquidationStart::NoPeriod;
    }
    let tokens = filter_tokens_to_liquidate(deposits, wrap_near_token);
    if tokens.len() == 0 {
        let mut balance: u128 = 0;
        let mut i: usize = deposits.len();
        // Scan from the back so that the first wNEAR entry wins.
        while i > 0
            invariant
                i <= deposits@.len(),
                balance == wnear_balance_of(deposits@.subrange(i as int, deposits@.len() as int), wrap_near_token@),
            decreases i,
        {
            i = i - 1;
            proof {
                let tail = deposits@.subrange(i as int, deposits@.len() as int);
                assert(tail[0] == deposits@[i as int]);
                assert(tail.drop_first() =~= deposits@.subrange(i as int + 1, deposits@.len() as int));
            }
            if deposits[i].0 == *wrap_near_token {
                balance = deposits[i].1;
            }
        }
        proof {
            assert(deposits@.subrange(0, deposits@.len() as int) =~= deposits@);
        }
        LiquidationStart::NothingToSell { wnear_balance: balance }
    } else {
        LiquidationStart::Sell { tokens }
    }
}

} // verus!
