use zaciraci::alpha_gate::{apply_alpha_gate, apply_min_pass_fallback, new_token_count, GateVerdict};
use zaciraci::cost::{
    clamp_storage_min, fixed_trade_cost, sell_leg_input, CostError, MAX_NEW_TOKEN_COUNT, STORAGE_MIN_SANE_CAP,
};
use zaciraci::portfolio_cost::{bounded_total_iterations, path_min_wnear_tvl_yocto, RouteHop, MAX_TOTAL_ITERATIONS};

const ONE_NEAR: u128 = 1_000_000_000_000_000_000_000_000;

// --- storage deposit cap and fixed cost ---

#[test]
fn test_clamp_storage_min_under_cap_passthrough() {
    let clamped = clamp_storage_min(Some(100_000_000_000_000_000_000_000));
    assert_eq!(clamped, 100_000_000_000_000_000_000_000);
    assert!(clamped < STORAGE_MIN_SANE_CAP);
}

#[test]
fn test_clamp_storage_min_at_cap_returns_cap() {
    assert_eq!(clamp_storage_min(Some(STORAGE_MIN_SANE_CAP)), STORAGE_MIN_SANE_CAP);
}

#[test]
fn test_clamp_storage_min_above_cap_clamped() {
    assert_eq!(clamp_storage_min(Some(100 * 10u128.pow(24))), STORAGE_MIN_SANE_CAP);
}

#[test]
fn test_clamp_storage_min_u128_max_clamped_to_cap() {
    assert_eq!(clamp_storage_min(Some(u128::MAX)), STORAGE_MIN_SANE_CAP);
}

#[test]
fn test_clamp_storage_min_overflow_u128_clamped_to_cap() {
    // A deposit that does not fit in u128 is capped too.
    assert_eq!(clamp_storage_min(None), STORAGE_MIN_SANE_CAP);
}

#[test]
fn test_clamp_storage_min_saturating_mul_safe_with_max_token_count() {
    let clamped = clamp_storage_min(Some(u128::MAX));
    assert!(clamped.checked_mul(MAX_NEW_TOKEN_COUNT as u128).is_some());
}

#[test]
fn test_estimate_trade_cost_at_max_new_token_count_succeeds() {
    let gas = 2_000_000_000_000_000_000_000u128;
    let storage = 100_000_000_000_000_000_000_000u128;
    let r = fixed_trade_cost(Some(gas), Some(storage), MAX_NEW_TOKEN_COUNT);
    assert_eq!(r, Ok(gas + storage * MAX_NEW_TOKEN_COUNT as u128));
}

#[test]
fn test_estimate_trade_cost_above_max_new_token_count_bails() {
    let r = fixed_trade_cost(Some(1), Some(100_000_000_000_000_000_000_000), MAX_NEW_TOKEN_COUNT + 1);
    assert_eq!(r, Err(CostError::TooManyNewTokens { count: MAX_NEW_TOKEN_COUNT + 1 }));
}

#[test]
fn fixed_cost_requires_gas_in_range() {
    assert_eq!(fixed_trade_cost(None, Some(1), 1), Err(CostError::GasOverflow));
    // Too many tokens is reported first.
    assert_eq!(fixed_trade_cost(None, Some(1), 17), Err(CostError::TooManyNewTokens { count: 17 }));
}

#[test]
fn fixed_cost_saturates() {
    assert_eq!(fixed_trade_cost(Some(u128::MAX), Some(1), 1), Ok(u128::MAX));
    // A hostile deposit is capped at 1 NEAR per token.
    assert_eq!(fixed_trade_cost(Some(5), Some(u128::MAX), 2), Ok(5 + 2 * STORAGE_MIN_SANE_CAP));
    assert_eq!(fixed_trade_cost(Some(5), None, 0), Ok(5));
}

#[test]
fn sell_leg_input_converts_at_rate() {
    // 2 NEAR at 3e6 smallest units per NEAR: 6e6 units.
    assert_eq!(sell_leg_input(2 * ONE_NEAR, 3_000_000), Ok(Some(6_000_000)));
    // Nothing to measure: empty trade, zero rate, or a result that rounds to zero.
    assert_eq!(sell_leg_input(0, 3_000_000), Ok(None));
    assert_eq!(sell_leg_input(ONE_NEAR, 0), Ok(None));
    assert_eq!(sell_leg_input(1, 1), Ok(None));
    assert_eq!(sell_leg_input(u128::MAX, u128::MAX), Err(CostError::SellInputOverflow));
}

// --- alpha gate ---

#[test]
fn empty_token_set_returns_empty_outcome() {
    let outcome = apply_alpha_gate(&Vec::new(), &Vec::new(), 3);
    assert!(outcome.kept.is_empty());
    assert!(!outcome.fallback_used);
    assert_eq!(outcome.fallback_count, 0);
}

#[test]
fn high_alpha_token_passes_gate() {
    let outcome = apply_alpha_gate(&vec![GateVerdict::Passed], &Vec::new(), 0);
    assert_eq!(outcome.kept, vec![true]);
}

#[test]
fn flat_prediction_rejected_by_gate() {
    let outcome = apply_alpha_gate(&vec![GateVerdict::Rejected], &vec![0], 0);
    assert_eq!(outcome.kept, vec![false]);
}

#[test]
fn held_token_bypasses_gate_even_with_flat_er() {
    let outcome = apply_alpha_gate(&vec![GateVerdict::Held], &Vec::new(), 0);
    assert_eq!(outcome.kept, vec![true]);
}

#[test]
fn token_without_bundle_is_kept_for_caller_to_filter() {
    let outcome = apply_alpha_gate(&vec![GateVerdict::NoBundle], &Vec::new(), 0);
    assert_eq!(outcome.kept, vec![true]);
}

#[test]
fn min_pass_count_fallback_reinstates_highest_er_rejections() {
    // high, mid, low are all rejected; ranked by expected return: high, mid, low.
    let verdicts = vec![GateVerdict::Rejected, GateVerdict::Rejected, GateVerdict::Rejected];
    let outcome = apply_alpha_gate(&verdicts, &vec![0, 1, 2], 2);
    assert!(outcome.fallback_used);
    assert_eq!(outcome.fallback_count, 2);
    assert_eq!(outcome.kept, vec![true, true, false]);
}

#[test]
fn min_pass_count_zero_disables_fallback() {
    let outcome = apply_alpha_gate(&vec![GateVerdict::Rejected], &vec![0], 0);
    assert!(!outcome.fallback_used);
    assert_eq!(outcome.fallback_count, 0);
    assert_eq!(outcome.kept, vec![false]);
}

#[test]
fn fallback_does_not_count_held_tokens() {
    // One held, one passed, two rejected; the minimum of two non-held is
    // reached with one reinstatement.
    let verdicts = vec![GateVerdict::Held, GateVerdict::Passed, GateVerdict::Rejected, GateVerdict::Rejected];
    let outcome = apply_alpha_gate(&verdicts, &vec![3, 2], 2);
    assert_eq!(outcome.fallback_count, 1);
    assert_eq!(outcome.kept, vec![true, true, false, true]);
}

#[test]
fn fallback_limited_by_rejections() {
    let mut kept = vec![false, false];
    let held = vec![false, false];
    assert_eq!(apply_min_pass_fallback(&mut kept, &held, &vec![1], 5), (true, 1));
    assert_eq!(kept, vec![false, true]);
    // Enough kept already: nothing changes.
    let mut kept = vec![true, false];
    assert_eq!(apply_min_pass_fallback(&mut kept, &held, &vec![1], 1), (false, 0));
    assert_eq!(kept, vec![true, false]);
}

#[test]
fn new_token_count_checks_existing_deposits() {
    let deposits = vec!["a.near".to_string(), "b.near".to_string()];
    assert_eq!(new_token_count(&deposits, &"b.near".to_string()), 0);
    assert_eq!(new_token_count(&deposits, &"c.near".to_string()), 1);
    assert_eq!(new_token_count(&Vec::new(), &"a.near".to_string()), 1);
}

// --- cost-aware optimization ---

fn hop(token_in: &str, token_out: &str, amount_in: Option<u128>, amount_out: Option<u128>) -> RouteHop {
    RouteHop { token_in: token_in.to_string(), token_out: token_out.to_string(), amount_in, amount_out }
}

#[test]
fn path_min_tvl_takes_wnear_side_minimum() {
    let w = "wrap.near".to_string();
    let hops = vec![hop("wrap.near", "x.near", Some(500), Some(7)), hop("x.near", "wrap.near", Some(9), Some(300))];
    assert_eq!(path_min_wnear_tvl_yocto(&hops, &w), Some(300));
}

#[test]
fn path_min_tvl_fails_closed() {
    let w = "wrap.near".to_string();
    assert_eq!(path_min_wnear_tvl_yocto(&Vec::new(), &w), None);
    let middle = vec![hop("wrap.near", "x.near", Some(500), None), hop("x.near", "y.near", Some(1), Some(1))];
    assert_eq!(path_min_wnear_tvl_yocto(&middle, &w), None);
    let unknown = vec![hop("wrap.near", "x.near", None, Some(1))];
    assert_eq!(path_min_wnear_tvl_yocto(&unknown, &w), None);
}

// The damping scale is `ceil(1 / damping)` clamped to 1..=10; these take it
// as computed for the damping named in each test.

#[test]
fn test_scale_max_iter_by_damping_no_damping_returns_max_iter() {
    assert_eq!(bounded_total_iterations(10, 1), 10);
}

#[test]
fn test_scale_max_iter_by_damping_half_doubles() {
    assert_eq!(bounded_total_iterations(10, 2), 20);
}

#[test]
fn test_scale_max_iter_by_damping_lower_bound_scales_to_ten_times() {
    assert_eq!(bounded_total_iterations(10, 10), 100);
}

#[test]
fn test_scale_max_iter_by_damping_zero_max_iter_returns_one() {
    assert_eq!(bounded_total_iterations(0, 2), 2);
    assert_eq!(bounded_total_iterations(0, 0), 1);
}

#[test]
fn test_scale_max_iter_by_damping_within_clamped_range_caps_at_100() {
    for max_iter in 1..=10 {
        for scale in 1..=10 {
            assert!(bounded_total_iterations(max_iter, scale) <= 100);
        }
    }
}

#[test]
fn test_scale_max_iter_by_damping_below_clamp_lower_bound_caps() {
    assert_eq!(bounded_total_iterations(5, 10), 50);
    assert_eq!(bounded_total_iterations(10, 10), 100);
}

#[test]
fn test_scale_max_iter_by_damping_oversize_max_iter_caps_at_max_total() {
    assert_eq!(bounded_total_iterations(1_000, 2), MAX_TOTAL_ITERATIONS);
    assert_eq!(bounded_total_iterations(usize::MAX, 1), MAX_TOTAL_ITERATIONS);
    assert_eq!(bounded_total_iterations(usize::MAX, usize::MAX), MAX_TOTAL_ITERATIONS);
}
