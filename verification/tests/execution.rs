use chrono::{Duration, NaiveDate, NaiveDateTime};
use zaciraci::actions::{
    action_step, add_position_weights, after_leg, first_leg, ActionError, ActionStep, LegRun, SwapLeg, TradingAction,
};
use zaciraci::allocation::{allocate_add_position_amounts, allocate_remaining_buy_amounts};
use zaciraci::harvest::{stop_unwrap_step, transfer_step, StopUnwrap, TransferEvent, TransferPhase, TransferStep};
use zaciraci::matching::{BuyOperation, DirectSwap, SellOperation};
use zaciraci::period::{
    continuation_status, determine_period_action, end_period, filter_tokens_to_liquidate, liquidation_start,
    post_harvest_balance, LiquidationStart, PeriodAction, PeriodEnd,
};
use zaciraci::portfolio_state::{ExchangeRate, PortfolioState, TokenAmount};
use zaciraci::rebalance::{
    plan_rebalance, purchase_attempt, rebalance_outcome, sale_attempt, settle_direct_swap, swap_token_amount,
    PhaseCounters, PlanError, PlanRefusal, RebalanceEntry, SwapAttempt,
};

const NEAR: u128 = 1_000_000_000_000_000_000_000_000;
/// Weights are fixed-point with 18 decimals.
const WEIGHT_ONE: i128 = 1_000_000_000_000_000_000;

fn s(x: &str) -> String {
    x.to_string()
}

fn deposits(items: &[(&str, u128)]) -> Vec<(String, u128)> {
    items.iter().map(|(t, a)| (t.to_string(), *a)).collect()
}

fn rate(raw: u128) -> ExchangeRate {
    ExchangeRate { raw_rate: raw, decimals: 24 }
}

// --- tokens to liquidate ---

fn check_excludes_wrap_near() {
    let result = filter_tokens_to_liquidate(&deposits(&[("wrap.near", 1000), ("token_a.near", 500)]), &s("wrap.near"));
    assert_eq!(result.len(), 1);
    assert!(result.contains(&s("token_a.near")));
    assert!(!result.contains(&s("wrap.near")));
}

fn check_excludes_zero_balance() {
    let result = filter_tokens_to_liquidate(&deposits(&[("token_a.near", 500), ("token_b.near", 0)]), &s("wrap.near"));
    assert_eq!(result.len(), 1);
    assert!(result.contains(&s("token_a.near")));
    assert!(!result.contains(&s("token_b.near")));
}

fn check_includes_tokens_with_balance() {
    let result = filter_tokens_to_liquidate(
        &deposits(&[("wrap.near", 1000), ("token_a.near", 500), ("token_b.near", 0), ("token_c.near", 750)]),
        &s("wrap.near"),
    );
    assert_eq!(result.len(), 2);
    assert!(result.contains(&s("token_a.near")));
    assert!(result.contains(&s("token_c.near")));
    assert!(!result.contains(&s("wrap.near")));
    assert!(!result.contains(&s("token_b.near")));
}

fn check_empty_deposits() {
    assert!(filter_tokens_to_liquidate(&Vec::new(), &s("wrap.near")).is_empty());
}

fn check_only_wrap_near() {
    assert!(filter_tokens_to_liquidate(&deposits(&[("wrap.near", 1000)]), &s("wrap.near")).is_empty());
}

#[test]
fn tests_test_filter_tokens_to_liquidate_excludes_wrap_near() {
    check_excludes_wrap_near();
}

#[test]
fn tests_test_filter_tokens_to_liquidate_excludes_zero_balance() {
    check_excludes_zero_balance();
}

#[test]
fn tests_test_filter_tokens_to_liquidate_includes_tokens_with_balance() {
    check_includes_tokens_with_balance();
}

#[test]
fn tests_test_filter_tokens_to_liquidate_empty_deposits() {
    check_empty_deposits();
}

#[test]
fn tests_test_filter_tokens_to_liquidate_only_wrap_near() {
    check_only_wrap_near();
}

#[test]
fn liquidation_test_filter_tokens_to_liquidate_excludes_wrap_near() {
    check_excludes_wrap_near();
}

#[test]
fn liquidation_test_filter_tokens_to_liquidate_excludes_zero_balance() {
    check_excludes_zero_balance();
}

#[test]
fn liquidation_test_filter_tokens_to_liquidate_includes_tokens_with_balance() {
    check_includes_tokens_with_balance();
}

#[test]
fn liquidation_test_filter_tokens_to_liquidate_empty_deposits() {
    check_empty_deposits();
}

#[test]
fn liquidation_test_filter_tokens_to_liquidate_only_wrap_near() {
    check_only_wrap_near();
}

#[test]
fn filter_tokens_keeps_deposit_order() {
    let result = filter_tokens_to_liquidate(
        &deposits(&[("c.near", 1), ("wrap.near", 5), ("a.near", 2), ("b.near", 0), ("d.near", 3)]),
        &s("wrap.near"),
    );
    assert_eq!(result, vec![s("c.near"), s("a.near"), s("d.near")]);
}

// --- rebalance planning ---

fn entry(token: &str, weight: i128, units: u128, r: Option<ExchangeRate>) -> RebalanceEntry {
    RebalanceEntry { token: s(token), weight, current_units: units, rate: r }
}

/// 5e23 smallest units per NEAR: a token priced at 2 NEAR.
const RATE_HALF: u128 = 500_000_000_000_000_000_000_000;

fn check_sell_only() {
    // Token A is worth 200 NEAR, its target is 100 NEAR: sell 100 NEAR of it.
    let units = 200 * RATE_HALF;
    let entries = vec![entry("token_a.near", WEIGHT_ONE / 2, units, Some(rate(RATE_HALF)))];
    let (sells, buys) = plan_rebalance(&entries, 200 * NEAR, &s("wrap.near")).unwrap();
    assert!(buys.is_empty());
    assert_eq!(sells.len(), 1);
    assert_eq!(sells[0].near_value, 100 * NEAR);
    // 100 NEAR at 5e23 per NEAR is 50 tokens of 24 decimals.
    let amount = swap_token_amount(sells[0].near_value, sells[0].exchange_rate).unwrap();
    assert_eq!(amount, 50_000_000_000_000_000_000_000_000);
}

fn check_buy_only() {
    // Token B is worth 50 NEAR, its target is 100 NEAR: buy 50 NEAR of it.
    let units = 50 * RATE_HALF;
    let entries = vec![entry("token_b.near", WEIGHT_ONE / 2, units, Some(rate(RATE_HALF)))];
    let (sells, buys) = plan_rebalance(&entries, 200 * NEAR, &s("wrap.near")).unwrap();
    assert!(sells.is_empty());
    assert_eq!(buys.len(), 1);
    assert_eq!(buys[0].near_value, 50 * NEAR);
}

fn check_minimum_trade_size() {
    // Half a NEAR below target: too small to trade.
    let small = vec![entry("token_a.near", WEIGHT_ONE, 0, None)];
    let (sells, buys) = plan_rebalance(&small, NEAR / 2, &s("wrap.near")).unwrap();
    assert!(sells.is_empty() && buys.is_empty());
    // Two NEAR below target: traded.
    let (sells, buys) = plan_rebalance(&small, 2 * NEAR, &s("wrap.near")).unwrap();
    assert!(sells.is_empty());
    assert_eq!(buys[0].near_value, 2 * NEAR);
    // Exactly one NEAR is enough.
    let (_, buys) = plan_rebalance(&small, NEAR, &s("wrap.near")).unwrap();
    assert_eq!(buys.len(), 1);
}

fn check_token_amount_conversion() {
    assert_eq!(swap_token_amount(100 * NEAR, rate(RATE_HALF)), Some(50_000_000_000_000_000_000_000_000));
}

fn check_wrap_near_value_calculation() {
    // 100 tokens at 2 NEAR each are worth 200 NEAR.
    let balance = TokenAmount { smallest_units: 100 * NEAR, decimals: 24 };
    assert_eq!(PortfolioState::token_amount_to_yocto(balance, Some(rate(RATE_HALF))), 200 * NEAR);
}

fn check_two_phase_scenario() {
    // Total 300 NEAR; A is worth 200 with target 40 %, B 100 with target 60 %.
    let entries = vec![
        entry("token_a.near", WEIGHT_ONE * 4 / 10, 200 * RATE_HALF, Some(rate(RATE_HALF))),
        entry("token_b.near", WEIGHT_ONE * 6 / 10, 100 * RATE_HALF, Some(rate(RATE_HALF))),
    ];
    let (sells, buys) = plan_rebalance(&entries, 300 * NEAR, &s("wrap.near")).unwrap();
    assert_eq!(sells.len(), 1);
    assert_eq!(sells[0].token, "token_a.near");
    assert_eq!(sells[0].near_value, 80 * NEAR);
    assert_eq!(buys.len(), 1);
    assert_eq!(buys[0].token, "token_b.near");
    assert_eq!(buys[0].near_value, 80 * NEAR);
}

fn check_rate_conversion_accuracy() {
    // 1 token = 2.5 NEAR: 4e23 smallest units per NEAR.
    let r = rate(400_000_000_000_000_000_000_000);
    let amount = swap_token_amount(50 * NEAR, r).unwrap();
    assert_eq!(amount, 20_000_000_000_000_000_000_000_000);
    let back = PortfolioState::token_amount_to_yocto(TokenAmount { smallest_units: amount, decimals: 24 }, Some(r));
    assert_eq!(back, 50 * NEAR);
}

fn check_phase2_purchase_amount_adjustment() {
    let r = allocate_remaining_buy_amounts(&vec![100 * NEAR, 100 * NEAR, 100 * NEAR], 100 * NEAR);
    for a in &r {
        assert!(*a > 3333 * NEAR / 100 && *a < 3334 * NEAR / 100);
    }
    assert_eq!(r.iter().sum::<u128>(), 100 * NEAR);
}

fn check_phase2_no_adjustment_needed() {
    let values = vec![50 * NEAR, 50 * NEAR, 50 * NEAR];
    assert_eq!(allocate_remaining_buy_amounts(&values, 200 * NEAR), values);
}

fn check_phase2_extreme_shortage() {
    let r = allocate_remaining_buy_amounts(&vec![400 * NEAR, 300 * NEAR, 300 * NEAR], NEAR);
    assert_eq!(r, vec![4 * NEAR / 10, 3 * NEAR / 10, 3 * NEAR / 10]);
    assert_eq!(r.iter().sum::<u128>(), NEAR);
}

#[test]
fn tests_test_rebalance_calculations_sell_only() {
    check_sell_only();
}

#[test]
fn tests_test_rebalance_calculations_buy_only() {
    check_buy_only();
}

#[test]
fn tests_test_rebalance_minimum_trade_size() {
    check_minimum_trade_size();
}

#[test]
fn tests_test_token_amount_conversion() {
    check_token_amount_conversion();
}

#[test]
fn tests_test_wrap_near_value_calculation() {
    check_wrap_near_value_calculation();
}

#[test]
fn tests_test_two_phase_rebalance_scenario() {
    check_two_phase_scenario();
}

#[test]
fn tests_test_rate_conversion_accuracy() {
    check_rate_conversion_accuracy();
}

#[test]
fn tests_test_phase2_purchase_amount_adjustment() {
    check_phase2_purchase_amount_adjustment();
}

#[test]
fn tests_test_phase2_no_adjustment_needed() {
    check_phase2_no_adjustment_needed();
}

#[test]
fn tests_test_phase2_extreme_shortage() {
    check_phase2_extreme_shortage();
}

#[test]
fn rebalance_test_rebalance_calculations_sell_only() {
    check_sell_only();
}

#[test]
fn rebalance_test_rebalance_calculations_buy_only() {
    check_buy_only();
}

#[test]
fn rebalance_test_rebalance_minimum_trade_size() {
    check_minimum_trade_size();
}

#[test]
fn rebalance_test_token_amount_conversion() {
    check_token_amount_conversion();
}

#[test]
fn rebalance_test_wrap_near_value_calculation() {
    check_wrap_near_value_calculation();
}

#[test]
fn rebalance_test_two_phase_rebalance_scenario() {
    check_two_phase_scenario();
}

#[test]
fn rebalance_test_rate_conversion_accuracy() {
    check_rate_conversion_accuracy();
}

#[test]
fn rebalance_test_phase2_purchase_amount_adjustment() {
    check_phase2_purchase_amount_adjustment();
}

#[test]
fn rebalance_test_phase2_no_adjustment_needed() {
    check_phase2_no_adjustment_needed();
}

#[test]
fn rebalance_test_phase2_extreme_shortage() {
    check_phase2_extreme_shortage();
}

#[test]
fn rebalance_skips_negative_weight_quote_and_unpriced_holdings() {
    let entries = vec![
        entry("neg.near", -1, 0, None),
        entry("wrap.near", WEIGHT_ONE, 0, None),
        // Held but without a usable rate: valued at zero, so only a buy.
        entry("unpriced.near", WEIGHT_ONE / 10, 5 * NEAR, Some(rate(0))),
    ];
    let (sells, buys) = plan_rebalance(&entries, 100 * NEAR, &s("wrap.near")).unwrap();
    assert!(sells.is_empty());
    assert_eq!(buys.len(), 1);
    assert_eq!(buys[0].token, "unpriced.near");
    assert_eq!(buys[0].near_value, 10 * NEAR);
}

#[test]
fn rebalance_outcome_fails_only_when_nothing_succeeded() {
    let none = PhaseCounters { success: 0, failed: 0 };
    let failed = PhaseCounters { success: 0, failed: 2 };
    let ok = PhaseCounters { success: 1, failed: 3 };
    assert_eq!(rebalance_outcome(none, none, none), Ok(()));
    assert_eq!(rebalance_outcome(failed, failed, none), Err(4));
    assert_eq!(rebalance_outcome(failed, ok, failed), Ok(()));
}

#[test]
fn swap_token_amount_truncates_and_overflows() {
    // Less than one smallest unit rounds down to zero (the swap is skipped).
    assert_eq!(swap_token_amount(1, rate(1)), Some(0));
    assert_eq!(swap_token_amount(u128::MAX, rate(u128::MAX)), None);
}

// --- AddPosition allocation (weights in thousandths) ---

#[test]
fn test_single_add_position_uses_full_balance() {
    assert_eq!(allocate_add_position_amounts(&vec![(0, 1000)], 1_000_000), vec![(0, 1_000_000)]);
}

#[test]
fn test_two_equal_weights_split_evenly() {
    let result = allocate_add_position_amounts(&vec![(0, 500), (1, 500)], 1_000_000);
    assert_eq!(result[0].1 + result[1].1, 1_000_000);
    assert_eq!(result[0].1, 500_000);
    assert_eq!(result[1].1, 500_000);
}

#[test]
fn test_last_gets_remainder() {
    let balance: u128 = 19_020_000_000_000_000_000_000_000;
    let result = allocate_add_position_amounts(&vec![(0, 245), (1, 332), (2, 423)], balance);
    let total: u128 = result.iter().map(|(_, a)| a).sum();
    assert_eq!(total, balance);
}

#[test]
fn test_unequal_weights() {
    let result = allocate_add_position_amounts(&vec![(0, 100), (1, 200), (2, 700)], 10_000);
    assert_eq!(result[0].1, 1_000);
    assert_eq!(result[1].1, 2_000);
    assert_eq!(result[2].1, 7_000);
}

#[test]
fn test_zero_balance() {
    let result = allocate_add_position_amounts(&vec![(0, 500), (1, 500)], 0);
    assert_eq!(result[0].1, 0);
    assert_eq!(result[1].1, 0);
}

#[test]
fn test_empty_add_positions() {
    assert!(allocate_add_position_amounts(&Vec::new(), 1_000_000).is_empty());
}

#[test]
fn test_preserves_action_indices() {
    let result = allocate_add_position_amounts(&vec![(1, 400), (3, 600)], 1_000_000);
    assert_eq!(result[0].0, 1);
    assert_eq!(result[1].0, 3);
}

#[test]
fn test_allocate_large_yocto_precision() {
    let balance: u128 = 100_000_000_000_000_000_000_000_000;
    let result = allocate_add_position_amounts(&vec![(0, 300), (1, 700)], balance);
    let total: u128 = result.iter().map(|(_, a)| a).sum();
    assert_eq!(total, balance);
    let expected_0 = 30_000_000_000_000_000_000_000_000u128;
    let diff_0 = (result[0].1 as i128 - expected_0 as i128).unsigned_abs();
    assert!(diff_0 < 1_000_000_000_000_000_000_000_000, "precision loss too large: diff = {} yocto", diff_0);
}

#[test]
fn test_allocate_small_balance_precision() {
    let result = allocate_add_position_amounts(&vec![(0, 300), (1, 300), (2, 400)], 100);
    assert_eq!(result[0].1, 30);
    assert_eq!(result[1].1, 30);
    assert_eq!(result[2].1, 40);
}

#[test]
fn test_allocate_balance_smaller_than_total_bps() {
    let result = allocate_add_position_amounts(&vec![(0, 500), (1, 500)], 7);
    assert_eq!(result[0].1, 3);
    assert_eq!(result[1].1, 4);
    assert_eq!(result[0].1 + result[1].1, 7);
}

#[test]
fn allocate_with_zero_total_weight_gives_all_to_last() {
    let result = allocate_add_position_amounts(&vec![(0, 0), (1, 0)], 10);
    assert_eq!(result, vec![(0, 0), (1, 10)]);
}

// --- evaluation periods ---

fn fixed_now() -> NaiveDateTime {
    NaiveDate::from_ymd_opt(2026, 4, 16).expect("valid date").and_hms_opt(0, 0, 0).expect("valid time")
}

fn secs(t: NaiveDateTime) -> i64 {
    t.and_utc().timestamp()
}

#[test]
fn bootstrap_when_no_period_exists() {
    assert_eq!(determine_period_action(None, secs(fixed_now()), 10), PeriodAction::Bootstrap);
}

#[test]
fn continue_when_within_period() {
    let now = fixed_now();
    let start = now - Duration::days(3);
    match determine_period_action(Some((s("p1"), secs(start))), secs(now), 10) {
        PeriodAction::Continue { period_id, days_elapsed } => {
            assert_eq!(period_id, "p1");
            assert_eq!(days_elapsed, 3);
        }
        other => panic!("expected Continue, got {other:?}"),
    }
}

#[test]
fn end_and_start_new_when_period_elapsed() {
    let now = fixed_now();
    let start = now - Duration::days(10);
    match determine_period_action(Some((s("p2"), secs(start))), secs(now), 10) {
        PeriodAction::EndAndStartNew { period_id, days_elapsed } => {
            assert_eq!(period_id, "p2");
            assert_eq!(days_elapsed, 10);
        }
        other => panic!("expected EndAndStartNew, got {other:?}"),
    }
}

#[test]
fn end_and_start_new_at_boundary_day() {
    let now = fixed_now();
    let start = now - Duration::days(7);
    assert!(matches!(
        determine_period_action(Some((s("p3"), secs(start))), secs(now), 7),
        PeriodAction::EndAndStartNew { .. }
    ));
}

#[test]
fn continue_one_second_before_boundary() {
    let now = fixed_now();
    let start = now - Duration::days(6) - Duration::hours(23) - Duration::seconds(59);
    assert!(matches!(
        determine_period_action(Some((s("p4"), secs(start))), secs(now), 7),
        PeriodAction::Continue { .. }
    ));
}

#[test]
fn period_started_in_the_future_continues() {
    // A start time after now gives negative elapsed days, rounded toward zero.
    let now = secs(fixed_now());
    match determine_period_action(Some((s("p5"), now + 90_000)), now, 7) {
        PeriodAction::Continue { days_elapsed, .. } => assert_eq!(days_elapsed, -1),
        other => panic!("expected Continue, got {other:?}"),
    }
}

#[test]
fn continuation_detects_new_and_corrupted_periods() {
    assert_eq!(continuation_status(0, 0), (true, false));
    assert_eq!(continuation_status(0, 3), (false, true));
    assert_eq!(continuation_status(2, 3), (false, false));
    assert_eq!(continuation_status(2, 0), (false, false));
}

#[test]
fn period_end_uses_post_harvest_balance() {
    assert_eq!(post_harvest_balance(5, 95, 100), 95);
    assert_eq!(post_harvest_balance(0, 95, 100), 100);
    assert_eq!(end_period(100, true, true), PeriodEnd::StartNew { initial_value: 100 });
    assert_eq!(end_period(100, false, true), PeriodEnd::Stop { balance: 100, unwrap_and_transfer: true });
}

#[test]
fn ended_period_stays_ended_later() {
    let start = secs(fixed_now());
    for offset_hours in [0i64, 1, 23, 24, 48, 24 * 30] {
        let now = start + 7 * 86_400 + offset_hours * 3_600;
        assert!(matches!(
            determine_period_action(Some((s("p6"), start)), now, 7),
            PeriodAction::EndAndStartNew { .. }
        ));
    }
}

#[test]
fn rebalance_refuses_a_holding_without_rate() {
    let entries = vec![
        entry("priced.near", WEIGHT_ONE / 2, 0, None),
        entry("held.near", WEIGHT_ONE / 2, 5 * NEAR, None),
    ];
    assert_eq!(
        plan_rebalance(&entries, 100 * NEAR, &s("wrap.near")),
        Err(PlanError { kind: PlanRefusal::MissingRate, token: s("held.near") })
    );
    // Not held: no rate is needed.
    let entries = vec![entry("fresh.near", WEIGHT_ONE / 2, 0, None)];
    assert!(plan_rebalance(&entries, 100 * NEAR, &s("wrap.near")).is_ok());
}

#[test]
fn rebalance_compares_exact_values_at_the_threshold() {
    // 3 units at 3 units per NEAR are worth exactly 1 NEAR; with a target
    // of exactly 2 NEAR the gap is exactly 1 NEAR, which is traded.
    let entries = vec![entry("t.near", WEIGHT_ONE, 3, Some(rate(3)))];
    let (sells, buys) = plan_rebalance(&entries, 2 * NEAR, &s("wrap.near")).unwrap();
    assert!(sells.is_empty());
    assert_eq!(buys[0].near_value, NEAR);
    // 1 unit at 3 units per NEAR is worth 1/3 NEAR (333.. yocto, not a whole
    // number). Target 1 NEAR + 333_333_333_333_333_333_333_333 yocto: the exact
    // gap is 1 NEAR - 1/3 yocto, below the minimum, so nothing is bought,
    // although the floored values differ by exactly 1 NEAR.
    let third: u128 = 333_333_333_333_333_333_333_333;
    let total = NEAR + third;
    let entries = vec![entry("t.near", WEIGHT_ONE, 1, Some(rate(3)))];
    let (sells, buys) = plan_rebalance(&entries, total, &s("wrap.near")).unwrap();
    assert!(sells.is_empty() && buys.is_empty());
}

#[test]
fn rebalance_refuses_values_beyond_128_bits() {
    // 10^20 units at one unit per NEAR are worth 10^44 yoctoNEAR.
    let entries = vec![entry("big.near", 0, 100_000_000_000_000_000_000, Some(rate(1)))];
    assert_eq!(
        plan_rebalance(&entries, NEAR, &s("wrap.near")),
        Err(PlanError { kind: PlanRefusal::ValueOverflow, token: s("big.near") })
    );
}

// --- action dispatch ---

fn leg(from: &str, to: &str, amount: Option<u128>) -> SwapLeg {
    SwapLeg { from: s(from), to: s(to), amount }
}

fn legs(step: Result<ActionStep, ActionError>) -> Vec<SwapLeg> {
    match step {
        Ok(ActionStep::Swaps { legs }) => legs,
        other => panic!("expected swaps, got {other:?}"),
    }
}

#[test]
fn hold_does_nothing() {
    assert!(legs(action_step(&TradingAction::Hold, &s("wrap.near"), None)).is_empty());
}

#[test]
fn sell_goes_through_wrap_near() {
    let w = s("wrap.near");
    let sell = |a: &str, b: &str| TradingAction::Sell { token: s(a), target: s(b) };
    assert_eq!(
        legs(action_step(&sell("a.near", "b.near"), &w, None)),
        vec![leg("a.near", "wrap.near", None), leg("wrap.near", "b.near", None)]
    );
    assert_eq!(legs(action_step(&sell("a.near", "wrap.near"), &w, None)), vec![leg("a.near", "wrap.near", None)]);
    assert_eq!(legs(action_step(&sell("wrap.near", "b.near"), &w, None)), vec![leg("wrap.near", "b.near", None)]);
}

#[test]
fn switch_is_one_direct_swap() {
    let a = TradingAction::Switch { from: s("a.near"), to: s("b.near") };
    assert_eq!(legs(action_step(&a, &s("wrap.near"), None)), vec![leg("a.near", "b.near", None)]);
}

#[test]
fn rebalance_is_planned_separately() {
    assert_eq!(action_step(&TradingAction::Rebalance, &s("wrap.near"), None), Ok(ActionStep::Rebalance));
}

#[test]
fn add_position_needs_a_non_zero_precomputed_amount() {
    let w = s("wrap.near");
    let add = TradingAction::AddPosition { token: s("a.near"), weight: 1 };
    assert_eq!(legs(action_step(&add, &w, Some(5))), vec![leg("wrap.near", "a.near", Some(5))]);
    assert_eq!(action_step(&add, &w, None), Err(ActionError::MissingAmount { token: s("a.near") }));
    assert_eq!(action_step(&add, &w, Some(0)), Err(ActionError::ZeroAmount { token: s("a.near") }));
    let add_w = TradingAction::AddPosition { token: s("wrap.near"), weight: 1 };
    assert!(legs(action_step(&add_w, &w, None)).is_empty());
}

#[test]
fn reduce_position_sells_to_wrap_near() {
    let w = s("wrap.near");
    let red = TradingAction::ReducePosition { token: s("a.near") };
    assert_eq!(legs(action_step(&red, &w, None)), vec![leg("a.near", "wrap.near", None)]);
    let red_w = TradingAction::ReducePosition { token: s("wrap.near") };
    assert!(legs(action_step(&red_w, &w, None)).is_empty());
}

#[test]
fn add_position_weights_keep_action_indices() {
    let actions = vec![
        TradingAction::Hold,
        TradingAction::AddPosition { token: s("a.near"), weight: 3 },
        TradingAction::Rebalance,
        TradingAction::AddPosition { token: s("b.near"), weight: 1 },
    ];
    let w = add_position_weights(&actions);
    assert_eq!(w, vec![(1, 3), (3, 1)]);
    assert_eq!(allocate_add_position_amounts(&w, 100), vec![(1, 75), (3, 25)]);
}

// --- rebalance bookkeeping ---

#[test]
fn sale_attempts_fail_on_zero_or_overflowing_amounts() {
    assert_eq!(sale_attempt(100 * NEAR, rate(RATE_HALF)), SwapAttempt::Execute { amount: 50 * NEAR });
    // Rounds to zero smallest units.
    assert_eq!(sale_attempt(1, rate(1)), SwapAttempt::Fail);
    assert_eq!(sale_attempt(u128::MAX, rate(u128::MAX)), SwapAttempt::Fail);
    assert_eq!(purchase_attempt(0), SwapAttempt::Fail);
    assert_eq!(purchase_attempt(7), SwapAttempt::Execute { amount: 7 });
}

#[test]
fn failed_direct_swap_falls_back_through_wrap_near() {
    let ds = DirectSwap { sell_token: s("a.near"), buy_token: s("b.near"), near_value: 9 * NEAR, sell_exchange_rate: rate(RATE_HALF) };
    let mut counters = PhaseCounters::new();
    let mut sells: Vec<SellOperation> = Vec::new();
    let mut buys: Vec<BuyOperation> = Vec::new();
    settle_direct_swap(&mut counters, &mut sells, &mut buys, &ds, true);
    assert_eq!(counters, PhaseCounters { success: 1, failed: 0 });
    assert!(sells.is_empty() && buys.is_empty());
    settle_direct_swap(&mut counters, &mut sells, &mut buys, &ds, false);
    assert_eq!(counters, PhaseCounters { success: 1, failed: 1 });
    assert_eq!(sells, vec![SellOperation { token: s("a.near"), near_value: 9 * NEAR, exchange_rate: rate(RATE_HALF) }]);
    assert_eq!(buys, vec![BuyOperation { token: s("b.near"), near_value: 9 * NEAR }]);
    let mut c = PhaseCounters::new();
    c.record(false);
    c.record(true);
    assert_eq!(c, PhaseCounters { success: 1, failed: 1 });
}

// --- early exits ---

#[test]
fn stop_unwrap_needs_an_account_and_a_balance() {
    assert_eq!(stop_unwrap_step(&None, 5), StopUnwrap::NoHarvestAccount);
    assert_eq!(stop_unwrap_step(&Some(s("")), 5), StopUnwrap::NoHarvestAccount);
    assert_eq!(stop_unwrap_step(&Some(s("h.near")), 0), StopUnwrap::NothingToUnwrap);
    assert_eq!(stop_unwrap_step(&Some(s("h.near")), 5), StopUnwrap::Unwrap { amount: 5 });
}

#[test]
fn liquidation_starts_only_with_a_period_and_tokens() {
    let d = deposits(&[("wrap.near", 40), ("a.near", 0)]);
    assert_eq!(liquidation_start(false, &d, &s("wrap.near")), LiquidationStart::NoPeriod);
    assert_eq!(liquidation_start(true, &d, &s("wrap.near")), LiquidationStart::NothingToSell { wnear_balance: 40 });
    assert_eq!(
        liquidation_start(true, &deposits(&[("a.near", 0)]), &s("wrap.near")),
        LiquidationStart::NothingToSell { wnear_balance: 0 }
    );
    let d = deposits(&[("wrap.near", 40), ("a.near", 3), ("b.near", 2)]);
    assert_eq!(liquidation_start(true, &d, &s("wrap.near")), LiquidationStart::Sell { tokens: vec![s("a.near"), s("b.near")] });
}

#[test]
fn swaps_run_in_order_and_stop_at_the_first_failure() {
    assert_eq!(first_leg(0), LegRun::Completed);
    assert_eq!(first_leg(2), LegRun::Execute { index: 0 });
    assert_eq!(after_leg(0, 2, true), LegRun::Execute { index: 1 });
    assert_eq!(after_leg(1, 2, true), LegRun::Completed);
    assert_eq!(after_leg(0, 2, false), LegRun::Aborted { index: 0 });
}

#[test]
fn harvest_sequence_withdraws_unwraps_then_transfers() {
    let planned = 5 * NEAR;
    let reserve = NEAR;
    let step = |p, e| transfer_step(planned, reserve, true, p, e);
    assert_eq!(step(TransferPhase::Withdraw, TransferEvent::Done), TransferStep::Unwrap { amount: planned });
    assert_eq!(step(TransferPhase::Unwrap, TransferEvent::Done), TransferStep::ReadBalance);
    // Plenty of balance: the planned amount goes.
    assert_eq!(step(TransferPhase::ReadBalance, TransferEvent::Balance { native: 10 * NEAR }), TransferStep::Transfer { amount: planned });
    // Less above the reserve than planned: what is above it goes.
    assert_eq!(step(TransferPhase::ReadBalance, TransferEvent::Balance { native: 3 * NEAR }), TransferStep::Transfer { amount: 2 * NEAR });
    // Nothing above the reserve: nothing goes, no error.
    assert_eq!(step(TransferPhase::ReadBalance, TransferEvent::Balance { native: NEAR }), TransferStep::Finished);
    assert_eq!(step(TransferPhase::Transfer, TransferEvent::Done), TransferStep::Finished);
    // Errors stop the sequence where they happen.
    assert_eq!(step(TransferPhase::Withdraw, TransferEvent::Error), TransferStep::Failed { phase: TransferPhase::Withdraw });
    assert_eq!(step(TransferPhase::Unwrap, TransferEvent::Error), TransferStep::Failed { phase: TransferPhase::Unwrap });
    assert_eq!(step(TransferPhase::ReadBalance, TransferEvent::Error), TransferStep::Failed { phase: TransferPhase::ReadBalance });
}

#[test]
fn stop_sequence_transfers_everything_above_the_reserve() {
    let step = transfer_step(2 * NEAR, NEAR, false, TransferPhase::ReadBalance, TransferEvent::Balance { native: 10 * NEAR });
    assert_eq!(step, TransferStep::Transfer { amount: 9 * NEAR });
}
