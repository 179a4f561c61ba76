use zaciraci::portfolio_state::{ExchangeRate, Liquidation, PortfolioState, SwapResult, TokenAmount};
use zaciraci::token_map::TokenMap;

const NEAR_100: u128 = 100_000_000_000_000_000_000_000_000;
const NEAR_50: u128 = 50_000_000_000_000_000_000_000_000;
const TEN_NEAR: u128 = 10_000_000_000_000_000_000_000_000;
const ONE_NEAR: u128 = 1_000_000_000_000_000_000_000_000;

const WNEAR: &str = "wrap.near";
const TOKEN_A: &str = "token-a.near";
const TOKEN_B: &str = "token-b.near";

fn s(x: &str) -> String {
    x.to_string()
}

fn state(cash: u128) -> PortfolioState {
    PortfolioState::new(cash, s(WNEAR))
}

fn amount_24d(raw: u128) -> TokenAmount {
    TokenAmount { smallest_units: raw, decimals: 24 }
}

fn amount_6d(raw: u128) -> TokenAmount {
    TokenAmount { smallest_units: raw, decimals: 6 }
}

fn swap(st: &mut PortfolioState, from: &str, from_amount: u128, to: &str, to_amount: u128) -> Option<SwapResult> {
    assert!(st.swap_fits(&s(from), from_amount, &s(to), to_amount));
    st.execute_simulated_swap(&s(from), from_amount, &s(to), to_amount)
}

fn units(st: &PortfolioState, token: &str) -> Option<u128> {
    st.holding(&s(token)).map(|a| a.smallest_units)
}

#[test]
fn new_sets_initial_capital() {
    let st = state(NEAR_100);
    assert_eq!(st.cash_balance(), NEAR_100);
    assert_eq!(st.holdings_count(), 0);
    assert_eq!(st.realized_pnl(), 0);
    assert_eq!(st.quote_token(), WNEAR);
}

#[test]
fn new_zero_capital() {
    assert_eq!(state(0).cash_balance(), 0);
}

#[test]
fn swap_wnear_to_token_updates_state() {
    let mut st = state(NEAR_100);
    let r = swap(&mut st, WNEAR, NEAR_50, TOKEN_A, NEAR_50);
    assert_eq!(r, Some(SwapResult { actual_in: NEAR_50, actual_out: NEAR_50 }));
    assert_eq!(st.cash_balance(), NEAR_50);
    assert_eq!(units(&st, TOKEN_A), Some(NEAR_50));
    assert_eq!(st.cost_basis_of(&s(TOKEN_A)), Some(NEAR_50));
    assert_eq!(st.realized_pnl(), 0);
}

#[test]
fn swap_token_to_wnear_updates_state_and_pnl() {
    let mut st = state(0);
    st.set_holding(s(TOKEN_A), amount_24d(NEAR_100));
    st.set_cost_basis(s(TOKEN_A), NEAR_100);
    let proceeds = 120_000_000_000_000_000_000_000_000u128;
    swap(&mut st, TOKEN_A, NEAR_100, WNEAR, proceeds);
    assert_eq!(st.holding(&s(TOKEN_A)), None);
    assert_eq!(st.cost_basis_of(&s(TOKEN_A)), None);
    assert_eq!(st.cash_balance(), proceeds);
    assert_eq!(st.realized_pnl(), proceeds as i128 - NEAR_100 as i128);
}

#[test]
fn swap_partial_sell_adjusts_cost_basis() {
    let mut st = state(0);
    st.set_holding(s(TOKEN_A), amount_24d(NEAR_100));
    st.set_cost_basis(s(TOKEN_A), NEAR_100);
    swap(&mut st, TOKEN_A, NEAR_50, WNEAR, NEAR_50);
    assert_eq!(units(&st, TOKEN_A), Some(NEAR_50));
    assert_eq!(st.cost_basis_of(&s(TOKEN_A)), Some(NEAR_50));
    assert_eq!(st.realized_pnl(), 0);
}

#[test]
fn swap_wnear_to_token_multiple_buys_accumulate_cost() {
    let mut st = state(NEAR_100);
    let buy1 = 30_000_000_000_000_000_000_000_000u128;
    let buy2 = 20_000_000_000_000_000_000_000_000u128;
    swap(&mut st, WNEAR, buy1, TOKEN_A, buy1);
    swap(&mut st, WNEAR, buy2, TOKEN_A, buy2);
    assert_eq!(st.cash_balance(), NEAR_50);
    assert_eq!(units(&st, TOKEN_A), Some(buy1 + buy2));
    assert_eq!(st.cost_basis_of(&s(TOKEN_A)), Some(buy1 + buy2));
}

#[test]
fn swap_token_to_token_non_wnear() {
    let mut st = state(NEAR_100);
    st.set_holding(s(TOKEN_A), amount_24d(NEAR_50));
    st.set_cost_basis(s(TOKEN_A), NEAR_50);
    let token_b_amount = 500_000u128;
    swap(&mut st, TOKEN_A, NEAR_50, TOKEN_B, token_b_amount);
    assert_eq!(st.holding(&s(TOKEN_A)), None);
    assert_eq!(st.cost_basis_of(&s(TOKEN_A)), None);
    assert_eq!(units(&st, TOKEN_B), Some(token_b_amount));
    assert_eq!(st.cost_basis_of(&s(TOKEN_B)), None);
    assert_eq!(st.cash_balance(), NEAR_100);
    assert_eq!(st.realized_pnl(), 0);
}

#[test]
fn swap_from_token_with_no_holdings() {
    let mut st = state(NEAR_100);
    let r = swap(&mut st, TOKEN_A, NEAR_50, WNEAR, NEAR_50);
    assert_eq!(r, None);
    assert_eq!(st.holding(&s(TOKEN_A)), None);
    assert_eq!(st.cash_balance(), NEAR_100);
    assert_eq!(st.realized_pnl(), 0);
}

#[test]
fn swap_sell_more_than_holdings_scales_output() {
    let mut st = state(0);
    st.set_holding(s(TOKEN_A), amount_24d(TEN_NEAR));
    st.set_cost_basis(s(TOKEN_A), TEN_NEAR);
    let r = swap(&mut st, TOKEN_A, NEAR_50, WNEAR, NEAR_50);
    assert_eq!(r, Some(SwapResult { actual_in: TEN_NEAR, actual_out: TEN_NEAR }));
    assert_eq!(st.holding(&s(TOKEN_A)), None);
    assert_eq!(st.cost_basis_of(&s(TOKEN_A)), None);
    assert_eq!(st.cash_balance(), TEN_NEAR);
}

#[test]
fn swap_wnear_more_than_cash_scales_output() {
    let mut st = state(TEN_NEAR);
    let token_a_amount = 500_000_000_000_000_000_000_000_000u128;
    swap(&mut st, WNEAR, NEAR_50, TOKEN_A, token_a_amount);
    assert_eq!(st.cash_balance(), 0);
    assert_eq!(units(&st, TOKEN_A), Some(100_000_000_000_000_000_000_000_000u128));
    assert_eq!(st.cost_basis_of(&s(TOKEN_A)), Some(TEN_NEAR));
}

#[test]
fn swap_sell_with_loss() {
    let mut st = state(0);
    st.set_holding(s(TOKEN_A), amount_24d(NEAR_100));
    st.set_cost_basis(s(TOKEN_A), NEAR_100);
    let eighty = 80_000_000_000_000_000_000_000_000u128;
    swap(&mut st, TOKEN_A, NEAR_100, WNEAR, eighty);
    assert_eq!(st.holding(&s(TOKEN_A)), None);
    assert_eq!(st.cash_balance(), eighty);
    let expected_pnl = eighty as i128 - NEAR_100 as i128;
    assert!(expected_pnl < 0);
    assert_eq!(st.realized_pnl(), expected_pnl);
    assert_eq!(st.realized_pnl_of(&s(TOKEN_A)), Some(expected_pnl));
}

#[test]
fn swap_skipped_when_scaled_output_is_zero() {
    let mut st = state(NEAR_100);
    let r = swap(&mut st, WNEAR, NEAR_50, TOKEN_A, 0);
    assert_eq!(r, None);
    assert_eq!(st.cash_balance(), NEAR_100);
    assert_eq!(st.holdings_count(), 0);
}

#[test]
fn round_trip_at_cost_is_pnl_neutral() {
    let mut st = state(NEAR_100);
    swap(&mut st, WNEAR, NEAR_50, TOKEN_A, 1234);
    swap(&mut st, TOKEN_A, 1234, WNEAR, NEAR_50);
    assert_eq!(st.cash_balance(), NEAR_100);
    assert_eq!(st.holdings_count(), 0);
    assert_eq!(st.cost_basis_of(&s(TOKEN_A)), None);
    assert_eq!(st.realized_pnl(), 0);
}

#[test]
fn realized_pnl_moves_with_token_pnl() {
    let mut st = state(NEAR_100);
    swap(&mut st, WNEAR, NEAR_50, TOKEN_A, 100);
    // Sell 40 of the 100 units for 30 NEAR: cost 20 NEAR, profit 10 NEAR.
    swap(&mut st, TOKEN_A, 40, WNEAR, 30 * ONE_NEAR);
    assert_eq!(st.realized_pnl(), 10 * ONE_NEAR as i128);
    assert_eq!(st.realized_pnl_of(&s(TOKEN_A)), Some(10 * ONE_NEAR as i128));
    assert_eq!(st.cost_basis_of(&s(TOKEN_A)), Some(30 * ONE_NEAR));
}

#[test]
fn swap_fits_rejects_overflowing_cash() {
    let mut st = state(u128::MAX);
    st.set_holding(s(TOKEN_A), amount_24d(10));
    assert!(!st.swap_fits(&s(TOKEN_A), 10, &s(WNEAR), 1));
    assert!(st.swap_fits(&s(TOKEN_A), 10, &s(WNEAR), 0));
}

#[test]
fn scale_output_no_scaling_when_equal() {
    assert_eq!(PortfolioState::scale_output(1000, 500, 500), 1000);
}

#[test]
fn scale_output_half_input() {
    assert_eq!(PortfolioState::scale_output(1000, 50, 100), 500);
}

#[test]
fn scale_output_one_third() {
    assert_eq!(PortfolioState::scale_output(1000, 1, 3), 333);
}

#[test]
fn scale_output_actual_one() {
    assert_eq!(PortfolioState::scale_output(1_000_000, 1, 1_000_000), 1);
}

#[test]
fn scale_output_to_amount_zero() {
    assert_eq!(PortfolioState::scale_output(0, 50, 100), 0);
}

#[test]
fn scale_output_large_values() {
    let large = 10u128.pow(30);
    assert_eq!(PortfolioState::scale_output(large, large / 2, large), large / 2);
}

#[test]
fn scale_output_product_beyond_128_bits() {
    // to × actual exceeds u128, the quotient does not.
    assert_eq!(PortfolioState::scale_output(u128::MAX, u128::MAX - 1, u128::MAX), u128::MAX - 1);
}

fn rates(items: &[(&str, u128, u8)]) -> TokenMap<ExchangeRate> {
    let mut m = TokenMap::new();
    for (t, raw, d) in items {
        m.insert(t.to_string(), ExchangeRate { raw_rate: *raw, decimals: *d });
    }
    m
}

#[test]
fn liquidate_all_sells_everything() {
    let mut st = state(0);
    st.set_holding(s(TOKEN_A), amount_24d(NEAR_50));
    st.set_holding(s(TOKEN_B), amount_6d(1_000_000));
    st.set_cost_basis(s(TOKEN_A), NEAR_50);
    st.set_cost_basis(s(TOKEN_B), ONE_NEAR);
    let r = rates(&[(TOKEN_A, ONE_NEAR, 24), (TOKEN_B, 1_000_000, 6)]);
    assert!(st.liquidation_fits(&r));
    let recs = st.liquidate_all(&r);
    assert_eq!(recs.len(), 2);
    assert_eq!(st.holdings_count(), 0);
    assert_eq!(st.cash_balance(), NEAR_50 + ONE_NEAR);
}

#[test]
fn liquidate_all_records_liquidation_trades() {
    let mut st = state(0);
    st.set_holding(s(TOKEN_A), amount_24d(NEAR_50));
    st.set_cost_basis(s(TOKEN_A), NEAR_50);
    let recs = st.liquidate_all(&rates(&[(TOKEN_A, ONE_NEAR, 24)]));
    assert_eq!(
        recs,
        vec![Liquidation { token: s(TOKEN_A), amount: amount_24d(NEAR_50), proceeds_yocto: NEAR_50, realized_pnl_yocto: 0 }]
    );
}

#[test]
fn liquidate_all_empty_portfolio_noop() {
    let mut st = state(NEAR_100);
    let recs = st.liquidate_all(&rates(&[(TOKEN_A, ONE_NEAR, 24)]));
    assert!(recs.is_empty());
    assert_eq!(st.cash_balance(), NEAR_100);
}

#[test]
fn liquidate_all_computes_pnl() {
    let mut st = state(0);
    st.set_holding(s(TOKEN_A), amount_24d(NEAR_50));
    st.set_cost_basis(s(TOKEN_A), NEAR_50);
    let recs = st.liquidate_all(&rates(&[(TOKEN_A, ONE_NEAR, 24)]));
    assert_eq!(recs[0].realized_pnl_yocto, 0);
    assert_eq!(st.realized_pnl(), 0);
}

#[test]
fn liquidate_all_keeps_positions_without_rate() {
    let mut st = state(0);
    st.set_holding(s(TOKEN_A), amount_24d(NEAR_50));
    st.set_holding(s(TOKEN_B), amount_6d(5));
    let recs = st.liquidate_all(&rates(&[(TOKEN_A, 2 * ONE_NEAR, 24)]));
    assert_eq!(recs.len(), 1);
    assert_eq!(recs[0].proceeds_yocto, NEAR_50 / 2);
    assert_eq!(units(&st, TOKEN_B), Some(5));
    let total: u128 = recs.iter().map(|r| r.proceeds_yocto).sum();
    assert_eq!(st.cash_balance(), total);
}

#[test]
fn token_amount_to_yocto_values() {
    let r = ExchangeRate { raw_rate: 1_000_000, decimals: 6 };
    assert_eq!(PortfolioState::token_amount_to_yocto(amount_6d(2_000_000), Some(r)), 2 * ONE_NEAR);
    assert_eq!(PortfolioState::token_amount_to_yocto(amount_6d(2_000_000), None), 0);
    assert_eq!(PortfolioState::token_amount_to_yocto(amount_6d(2_000_000), Some(ExchangeRate { raw_rate: 0, decimals: 6 })), 0);
}

#[test]
fn liquidation_fits_detects_cash_overflow() {
    let mut st = state(u128::MAX - 5);
    st.set_holding(s(TOKEN_A), amount_24d(10));
    assert!(!st.liquidation_fits(&rates(&[(TOKEN_A, ONE_NEAR, 24)])));
    // Without a rate nothing is sold, so nothing can overflow.
    assert!(st.liquidation_fits(&rates(&[])));
}

#[test]
fn total_value_near_cash_only() {
    let st = state(NEAR_100);
    assert_eq!(st.total_value_yocto(&rates(&[])), Some(NEAR_100));
}

#[test]
fn total_value_near_with_holdings() {
    let mut st = state(NEAR_50);
    st.set_holding(s(TOKEN_A), amount_24d(NEAR_50));
    // 50 NEAR cash + 50 NEAR in token A = 100 NEAR
    assert_eq!(st.total_value_yocto(&rates(&[(TOKEN_A, ONE_NEAR, 24)])), Some(NEAR_100));
}

#[test]
fn total_value_near_missing_rate_skips_token() {
    let mut st = state(NEAR_50);
    st.set_holding(s(TOKEN_A), amount_24d(NEAR_50));
    assert_eq!(st.total_value_yocto(&rates(&[])), Some(NEAR_50));
}

#[test]
fn total_value_rounds_each_position_down() {
    let mut st = state(1);
    st.set_holding(s(TOKEN_A), amount_6d(5));
    // 5 units at 3 units per NEAR: floor(5e24 / 3)
    let r = rates(&[(TOKEN_A, 3, 6)]);
    assert_eq!(st.total_value_yocto(&r), Some(1 + 5 * ONE_NEAR / 3));
}

#[test]
fn total_value_beyond_128_bits_is_none() {
    let mut st = state(u128::MAX);
    st.set_holding(s(TOKEN_A), amount_24d(ONE_NEAR));
    assert_eq!(st.total_value_yocto(&rates(&[(TOKEN_A, ONE_NEAR, 24)])), None);
}

#[test]
fn liquidation_turns_total_value_into_cash() {
    let mut st = state(TEN_NEAR);
    st.set_holding(s(TOKEN_A), amount_24d(NEAR_50));
    st.set_holding(s(TOKEN_B), amount_6d(7));
    st.set_cost_basis(s(TOKEN_A), NEAR_100);
    let r = rates(&[(TOKEN_A, 2 * ONE_NEAR, 24)]);
    let before = st.total_value_yocto(&r).unwrap();
    assert!(st.liquidation_fits(&r));
    st.liquidate_all(&r);
    assert_eq!(st.cash_balance(), before);
    assert_eq!(st.total_value_yocto(&r), Some(before));
}
