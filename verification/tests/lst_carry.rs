use zaciraci::lst_carry::{carry_actions, carry_targets, carry_universe, equal_weight_targets, is_depegged};
use zaciraci::portfolio_state::ExchangeRate;
use zaciraci::token_map::TokenMap;

fn univ(ids: &[&str]) -> Vec<String> {
    ids.iter().map(|s| s.to_string()).collect()
}

fn rate(raw: u128) -> ExchangeRate {
    ExchangeRate { raw_rate: raw, decimals: 24 }
}

/// 5 % as parts per million.
const TOLERANCE_5_PCT: u64 = 50_000;

#[test]
fn carry_universe_is_linear_and_meta_pool() {
    let u = carry_universe();
    assert_eq!(u.len(), 2);
    assert_eq!(u[0].to_string(), "linear-protocol.near");
    assert_eq!(u[1].to_string(), "meta-pool.near");
}

#[test]
fn equal_weights_sum_to_one_and_are_uniform() {
    let u = univ(&["linear-protocol.near", "meta-pool.near"]);
    let w = equal_weight_targets(&u);
    assert_eq!(w.len(), 2);
    for (i, token) in u.iter().enumerate() {
        assert_eq!(&w[i].0, token);
        // Each weight is 1/2.
        assert_eq!(w[i].1, 2);
    }
    // Two halves make one.
    let total_numerator: usize = w.iter().map(|_| 1usize).sum();
    assert_eq!(total_numerator, w[0].1);
}

#[test]
fn equal_weights_single_token_is_full_allocation() {
    let u = univ(&["linear-protocol.near"]);
    let w = equal_weight_targets(&u);
    assert_eq!(w.len(), 1);
    assert_eq!(w[0].1, 1);
}

#[test]
fn equal_weights_empty_universe_is_empty() {
    assert!(equal_weight_targets(&Vec::new()).is_empty());
}

#[test]
fn small_drift_is_not_depegged() {
    assert!(!is_depegged(&rate(1_020), &rate(1_000), TOLERANCE_5_PCT));
}

#[test]
fn large_move_is_depegged() {
    assert!(is_depegged(&rate(1_200), &rate(1_000), TOLERANCE_5_PCT));
}

#[test]
fn zero_reference_fails_closed() {
    assert!(is_depegged(&rate(1_000), &rate(0), TOLERANCE_5_PCT));
}

#[test]
fn depeg_boundary_is_not_depegged() {
    // Exactly 5 % away is within tolerance; a little more is not.
    assert!(!is_depegged(&rate(1_050), &rate(1_000), TOLERANCE_5_PCT));
    assert!(!is_depegged(&rate(950), &rate(1_000), TOLERANCE_5_PCT));
    assert!(is_depegged(&rate(1_051), &rate(1_000), TOLERANCE_5_PCT));
    assert!(is_depegged(&rate(949), &rate(1_000), TOLERANCE_5_PCT));
}

#[test]
fn carry_targets_excludes_depegged_and_keeps_er_nonempty() {
    let u = univ(&["linear-protocol.near", "meta-pool.near"]);
    let mut observed = TokenMap::new();
    observed.insert(u[0].clone(), rate(1_000));
    observed.insert(u[1].clone(), rate(1_500));
    let mut reference = TokenMap::new();
    reference.insert(u[0].clone(), rate(1_010));
    reference.insert(u[1].clone(), rate(1_000));

    let healthy = carry_targets(&u, &observed, &reference, TOLERANCE_5_PCT);
    assert_eq!(healthy, vec![u[0].clone()]);
    let weights = equal_weight_targets(&healthy);
    assert_eq!(weights.len(), 1);
    assert_eq!(weights[0].0, u[0]);
    assert_eq!(weights[0].1, 1);
}

#[test]
fn carry_targets_accepts_token_without_reference() {
    let u = univ(&["linear-protocol.near"]);
    let mut observed = TokenMap::new();
    observed.insert(u[0].clone(), rate(1_000));
    let reference = TokenMap::new();
    let healthy = carry_targets(&u, &observed, &reference, TOLERANCE_5_PCT);
    assert_eq!(healthy.len(), 1);
}

#[test]
fn carry_targets_excludes_token_without_observed_rate() {
    let u = univ(&["linear-protocol.near"]);
    let observed = TokenMap::new();
    let reference = TokenMap::new();
    let healthy = carry_targets(&u, &observed, &reference, TOLERANCE_5_PCT);
    assert!(healthy.is_empty());
}

#[test]
fn carry_actions_buys_only_on_new_period() {
    let targets = univ(&["linear-protocol.near", "meta-pool.near"]);
    let actions = carry_actions(true, targets);
    let rebalance = actions.expect("expected a rebalance");
    assert_eq!(rebalance.len(), 2);
}

#[test]
fn carry_actions_holds_on_continuation_cycle() {
    let targets = univ(&["linear-protocol.near", "meta-pool.near"]);
    assert!(carry_actions(false, targets).is_none());
}

#[test]
fn carry_actions_empty_weights_yields_no_action() {
    assert!(carry_actions(true, Vec::new()).is_none());
}
