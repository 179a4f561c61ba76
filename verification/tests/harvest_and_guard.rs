use zaciraci::harvest::parse_u64;
use zaciraci::execution_guard::reference_input;
use zaciraci::harvest::{
    config_near_amount, decide_harvest, harvest_interval, harvest_min_amount, harvest_reserve_amount,
    harvest_transfer_amount, is_time_to_harvest, near_to_yocto, stop_reserve_amount, stop_transfer_amount,
    HarvestDecision, DEFAULT_HARVEST_RESERVE_AMOUNT_NEAR,
};

const NEAR: u128 = 1_000_000_000_000_000_000_000_000;

fn near(n: u64) -> u128 {
    near_to_yocto(n).unwrap()
}

/// The reserve amount read from configuration, as the harvest module reads
/// `HARVEST_RESERVE_AMOUNT` (whole NEAR, 1 when unset or invalid).
fn calculate_harvest_reserve_amount_from_config(config_value: Option<&str>) -> u128 {
    config_near_amount(config_value.map(|s| s.to_string()), DEFAULT_HARVEST_RESERVE_AMOUNT_NEAR).unwrap()
}

#[test]
fn reference_input_is_never_zero() {
    assert_eq!(reference_input(1_000_000), 1000);
    assert_eq!(reference_input(500), 1);
    assert_eq!(reference_input(1), 1);
    assert_eq!(reference_input(0), 1);
}

#[test]
fn reference_input_large_trade() {
    assert_eq!(reference_input(u128::MAX), u128::MAX / 1000);
    assert_eq!(reference_input(1999), 1);
    assert_eq!(reference_input(2000), 2);
}

#[test]
fn test_harvest_reserve_amount_default() {
    let expected = near(1);
    let actual = calculate_harvest_reserve_amount_from_config(None);
    assert_eq!(actual, expected);
    assert_eq!(harvest_reserve_amount(None), expected);
}

#[test]
fn test_harvest_reserve_amount_custom() {
    let expected = near(5);
    let actual = calculate_harvest_reserve_amount_from_config(Some("5"));
    assert_eq!(actual, expected);
    assert_eq!(harvest_reserve_amount(Some(actual)), expected);
}

#[test]
fn test_harvest_min_amount_default() {
    let expected = 10u128 * 10u128.pow(24);
    let actual = harvest_min_amount(None);
    assert_eq!(actual, expected);
}

#[test]
fn test_yocto_near_conversion() {
    let five_near = near(5);
    assert_eq!(five_near.to_string(), "5000000000000000000000000");
}

#[test]
fn test_harvest_reserve_amount_parsing() {
    // An invalid value falls back to 1 NEAR; a valid one is used.
    assert_eq!(calculate_harvest_reserve_amount_from_config(Some("invalid")), near(1));
    assert_eq!(calculate_harvest_reserve_amount_from_config(Some("3")), near(3));
}

#[test]
fn config_amount_follows_the_integer_grammar() {
    // An optional `+` and decimal digits only; anything else falls back.
    assert_eq!(config_near_amount(Some("+7".to_string()), 1), Some(near(7)));
    assert_eq!(config_near_amount(Some("007".to_string()), 1), Some(near(7)));
    assert_eq!(config_near_amount(Some("+".to_string()), 1), Some(near(1)));
    assert_eq!(config_near_amount(Some("".to_string()), 2), Some(near(2)));
    assert_eq!(config_near_amount(Some(" 5".to_string()), 2), Some(near(2)));
    assert_eq!(config_near_amount(Some("-5".to_string()), 2), Some(near(2)));
    assert_eq!(config_near_amount(Some("1.5".to_string()), 2), Some(near(2)));
    assert_eq!(config_near_amount(Some("18446744073709551616".to_string()), 2), Some(near(2)));
    assert_eq!(config_near_amount(None, 3), Some(near(3)));
}

#[test]
fn config_amount_too_large_for_yocto() {
    assert_eq!(config_near_amount(Some(u64::MAX.to_string()), 1), None);
    assert_eq!(near_to_yocto(u64::MAX), None);
    assert_eq!(near_to_yocto(0), Some(0));
}

#[test]
fn harvest_interval_defaults_to_a_day() {
    assert_eq!(harvest_interval(None), 86400);
    assert_eq!(harvest_interval(Some(60)), 60);
}

#[test]
fn test_is_time_to_harvest() {
    // Never harvested (last = 0): due.
    assert!(is_time_to_harvest(1_700_000_000, 0, 86400));
    // Right after a harvest: not due.
    assert!(!is_time_to_harvest(1_700_000_000, 1_700_000_000, 86400));
    // Exactly the interval is not enough; one second more is.
    assert!(!is_time_to_harvest(1_700_086_400, 1_700_000_000, 86400));
    assert!(is_time_to_harvest(1_700_086_401, 1_700_000_000, 86400));
}

#[test]
fn test_harvest_threshold_calculation() {
    // 100 NEAR initial, 250 NEAR now: threshold 200, excess 50, harvest 5.
    let d = decide_harvest(100 * NEAR, 250 * NEAR, 0, 1_000_000, 0, 86400);
    assert_eq!(d, HarvestDecision::Harvest { amount: 5 * NEAR });
}

#[test]
fn test_harvest_skips_when_initial_value_is_zero() {
    let d = decide_harvest(0, 100 * NEAR, 10 * NEAR, 1_000_000, 0, 86400);
    assert_eq!(d, HarvestDecision::NoInitialValue);
}

#[test]
fn test_harvest_skips_when_below_threshold() {
    let d = decide_harvest(100 * NEAR, 150 * NEAR, 10 * NEAR, 1_000_000, 0, 86400);
    assert_eq!(d, HarvestDecision::BelowThreshold);
}

#[test]
fn test_harvest_inner_logic_initial_value_zero() {
    let d = decide_harvest(0, 50 * NEAR, 0, 1_000_000, 0, 86400);
    assert_eq!(d, HarvestDecision::NoInitialValue);
}

#[test]
fn test_harvest_threshold_with_real_values() {
    let initial = 100 * NEAR;
    let final_value = 250 * NEAR;
    match decide_harvest(initial, final_value, 1, 1_000_000, 0, 86400) {
        HarvestDecision::Harvest { amount } => {
            assert_eq!(amount, 5 * NEAR);
            // The portfolio stays at least at twice its initial value.
            assert!(final_value - amount >= 2 * initial);
        }
        other => panic!("expected a harvest, got {other:?}"),
    }
}

#[test]
fn test_harvest_new_period_should_use_old_initial_value() {
    let final_value = 250 * NEAR;
    // With the new period's initial value (= final value) nothing triggers.
    assert_eq!(
        decide_harvest(final_value, final_value, 0, 1_000_000, 0, 86400),
        HarvestDecision::BelowThreshold
    );
    // With the old period's initial value the harvest triggers.
    assert!(matches!(
        decide_harvest(100 * NEAR, final_value, 0, 1_000_000, 0, 86400),
        HarvestDecision::Harvest { .. }
    ));
}

#[test]
fn harvest_below_minimum_and_too_soon() {
    // Excess 50 NEAR → 5 NEAR, under a 10 NEAR minimum.
    assert_eq!(
        decide_harvest(100 * NEAR, 250 * NEAR, 10 * NEAR, 1_000_000, 0, 86400),
        HarvestDecision::BelowMinimum { amount: 5 * NEAR }
    );
    // Large enough, but the interval has not passed.
    assert_eq!(
        decide_harvest(100 * NEAR, 400 * NEAR, 10 * NEAR, 1000, 500, 86400),
        HarvestDecision::TooSoon { amount: 20 * NEAR }
    );
}

#[test]
fn harvest_amount_rounds_down() {
    // Excess of 19 yocto → harvest 1 yocto.
    assert_eq!(
        decide_harvest(10, 39, 0, 100, 0, 10),
        HarvestDecision::Harvest { amount: 1 }
    );
}

#[test]
fn harvest_transfer_keeps_reserve() {
    // Planned 5, balance 10, reserve 1 → 5.
    assert_eq!(harvest_transfer_amount(5 * NEAR, 10 * NEAR, NEAR), Some(5 * NEAR));
    // Planned 20 but only 9 above the reserve → 9.
    assert_eq!(harvest_transfer_amount(20 * NEAR, 10 * NEAR, NEAR), Some(9 * NEAR));
    // Balance at the reserve → nothing.
    assert_eq!(harvest_transfer_amount(5 * NEAR, NEAR, NEAR), None);
}

#[test]
fn stop_transfer_uses_reserve_default() {
    assert_eq!(stop_reserve_amount(0), NEAR);
    assert_eq!(stop_reserve_amount(3 * NEAR), 3 * NEAR);
    assert_eq!(stop_transfer_amount(10 * NEAR, NEAR), Some(9 * NEAR));
    assert_eq!(stop_transfer_amount(NEAR, NEAR), None);
}

#[test]
fn parse_u64_follows_the_std_grammar() {
    for s in ["0", "42", "+7", "007", "18446744073709551615"] {
        assert_eq!(parse_u64(s), s.parse::<u64>().ok());
    }
    for s in ["", "+", "-1", " 1", "1 ", "1.5", "1_000", "18446744073709551616", "\u{0661}\u{0662}"] {
        assert_eq!(parse_u64(s), None);
        assert_eq!(s.parse::<u64>().ok(), None);
    }
}
