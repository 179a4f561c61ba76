use zaciraci::matching::{match_rebalance_operations, BuyOperation, SellOperation};
use zaciraci::portfolio_state::ExchangeRate;

const NEAR: u128 = 1_000_000_000_000_000_000_000_000;
const RATE_24: u128 = 1_000_000_000_000_000_000_000_000;

fn sell_op(token: &str, near: u128, raw_rate: u128, decimals: u8) -> SellOperation {
    SellOperation {
        token: token.to_string(),
        near_value: near * NEAR,
        exchange_rate: ExchangeRate { raw_rate, decimals },
    }
}

fn buy_op(token: &str, near: u128) -> BuyOperation {
    BuyOperation { token: token.to_string(), near_value: near * NEAR }
}

#[test]
fn test_exact_match_single_pair() {
    let result = match_rebalance_operations(vec![sell_op("token_a.near", 80, RATE_24, 24)], vec![buy_op("token_b.near", 80)]);
    assert_eq!(result.direct_swaps.len(), 1);
    assert_eq!(result.direct_swaps[0].sell_token, "token_a.near");
    assert_eq!(result.direct_swaps[0].buy_token, "token_b.near");
    assert_eq!(result.direct_swaps[0].near_value, 80 * NEAR);
    assert!(result.remaining_sells.is_empty());
    assert!(result.remaining_buys.is_empty());
}

#[test]
fn test_sell_greater_than_buy() {
    let result = match_rebalance_operations(vec![sell_op("token_a.near", 100, RATE_24, 24)], vec![buy_op("token_b.near", 60)]);
    assert_eq!(result.direct_swaps.len(), 1);
    assert_eq!(result.direct_swaps[0].near_value, 60 * NEAR);
    assert_eq!(result.remaining_sells.len(), 1);
    assert_eq!(result.remaining_sells[0].token, "token_a.near");
    assert_eq!(result.remaining_sells[0].near_value, 40 * NEAR);
    assert!(result.remaining_buys.is_empty());
}

#[test]
fn test_buy_greater_than_sell() {
    let result = match_rebalance_operations(vec![sell_op("token_a.near", 50, RATE_24, 24)], vec![buy_op("token_b.near", 80)]);
    assert_eq!(result.direct_swaps.len(), 1);
    assert_eq!(result.direct_swaps[0].near_value, 50 * NEAR);
    assert!(result.remaining_sells.is_empty());
    assert_eq!(result.remaining_buys.len(), 1);
    assert_eq!(result.remaining_buys[0].token, "token_b.near");
    assert_eq!(result.remaining_buys[0].near_value, 30 * NEAR);
}

#[test]
fn test_multiple_sells_multiple_buys_exact() {
    let sells = vec![sell_op("token_a.near", 80, RATE_24, 24), sell_op("token_c.near", 20, RATE_24, 24)];
    let buys = vec![buy_op("token_b.near", 60), buy_op("token_d.near", 40)];
    let result = match_rebalance_operations(sells, buys);
    assert_eq!(result.direct_swaps.len(), 3);
    assert_eq!(result.direct_swaps[0].sell_token, "token_a.near");
    assert_eq!(result.direct_swaps[0].buy_token, "token_b.near");
    assert_eq!(result.direct_swaps[0].near_value, 60 * NEAR);
    assert_eq!(result.direct_swaps[1].sell_token, "token_a.near");
    assert_eq!(result.direct_swaps[1].buy_token, "token_d.near");
    assert_eq!(result.direct_swaps[1].near_value, 20 * NEAR);
    assert_eq!(result.direct_swaps[2].sell_token, "token_c.near");
    assert_eq!(result.direct_swaps[2].buy_token, "token_d.near");
    assert_eq!(result.direct_swaps[2].near_value, 20 * NEAR);
    assert!(result.remaining_sells.is_empty());
    assert!(result.remaining_buys.is_empty());
}

#[test]
fn test_empty_sells() {
    let result = match_rebalance_operations(vec![], vec![buy_op("token_b.near", 60)]);
    assert!(result.direct_swaps.is_empty());
    assert!(result.remaining_sells.is_empty());
    assert_eq!(result.remaining_buys.len(), 1);
    assert_eq!(result.remaining_buys[0].token, "token_b.near");
}

#[test]
fn test_empty_buys() {
    let result = match_rebalance_operations(vec![sell_op("token_a.near", 80, RATE_24, 24)], vec![]);
    assert!(result.direct_swaps.is_empty());
    assert_eq!(result.remaining_sells.len(), 1);
    assert_eq!(result.remaining_sells[0].token, "token_a.near");
    assert!(result.remaining_buys.is_empty());
}

#[test]
fn test_both_empty() {
    let result = match_rebalance_operations(vec![], vec![]);
    assert!(result.direct_swaps.is_empty());
    assert!(result.remaining_sells.is_empty());
    assert!(result.remaining_buys.is_empty());
}

#[test]
fn test_single_sell_multiple_buys() {
    let buys = vec![buy_op("token_b.near", 30), buy_op("token_c.near", 30), buy_op("token_d.near", 40)];
    let result = match_rebalance_operations(vec![sell_op("token_a.near", 100, RATE_24, 24)], buys);
    assert_eq!(result.direct_swaps.len(), 3);
    assert_eq!(result.direct_swaps[0].buy_token, "token_d.near");
    assert_eq!(result.direct_swaps[0].near_value, 40 * NEAR);
    assert_eq!(result.direct_swaps[1].buy_token, "token_b.near");
    assert_eq!(result.direct_swaps[1].near_value, 30 * NEAR);
    assert_eq!(result.direct_swaps[2].buy_token, "token_c.near");
    assert_eq!(result.direct_swaps[2].near_value, 30 * NEAR);
    assert!(result.remaining_sells.is_empty());
    assert!(result.remaining_buys.is_empty());
}

#[test]
fn test_large_value_difference() {
    let result = match_rebalance_operations(vec![sell_op("token_a.near", 1000, RATE_24, 24)], vec![buy_op("token_b.near", 1)]);
    assert_eq!(result.direct_swaps.len(), 1);
    assert_eq!(result.direct_swaps[0].near_value, NEAR);
    assert_eq!(result.remaining_sells.len(), 1);
    assert_eq!(result.remaining_sells[0].token, "token_a.near");
    assert_eq!(result.remaining_sells[0].near_value, 999 * NEAR);
    assert!(result.remaining_buys.is_empty());
}

#[test]
fn test_direct_swaps_preserve_exchange_rate() {
    let result = match_rebalance_operations(vec![sell_op("token_a.near", 80, RATE_24, 24)], vec![buy_op("token_b.near", 80)]);
    assert_eq!(result.direct_swaps[0].sell_exchange_rate, ExchangeRate { raw_rate: RATE_24, decimals: 24 });
}

#[test]
fn test_multiple_sells_single_buy() {
    let sells = vec![sell_op("token_a.near", 30, RATE_24, 24), sell_op("token_b.near", 50, RATE_24, 24)];
    let result = match_rebalance_operations(sells, vec![buy_op("token_c.near", 80)]);
    assert_eq!(result.direct_swaps.len(), 2);
    assert_eq!(result.direct_swaps[0].sell_token, "token_b.near");
    assert_eq!(result.direct_swaps[0].buy_token, "token_c.near");
    assert_eq!(result.direct_swaps[0].near_value, 50 * NEAR);
    assert_eq!(result.direct_swaps[1].sell_token, "token_a.near");
    assert_eq!(result.direct_swaps[1].buy_token, "token_c.near");
    assert_eq!(result.direct_swaps[1].near_value, 30 * NEAR);
    assert!(result.remaining_sells.is_empty());
    assert!(result.remaining_buys.is_empty());
}

#[test]
fn test_multiple_sells_vs_single_buy_remainder() {
    let sells = vec![
        sell_op("token_a.near", 50, RATE_24, 24),
        sell_op("token_b.near", 50, RATE_24, 24),
        sell_op("token_c.near", 50, RATE_24, 24),
    ];
    let result = match_rebalance_operations(sells, vec![buy_op("token_d.near", 30)]);
    assert_eq!(result.direct_swaps.len(), 1);
    assert_eq!(result.direct_swaps[0].sell_token, "token_a.near");
    assert_eq!(result.direct_swaps[0].buy_token, "token_d.near");
    assert_eq!(result.direct_swaps[0].near_value, 30 * NEAR);
    assert_eq!(result.remaining_sells.len(), 3);
    assert_eq!(result.remaining_sells[0].token, "token_a.near");
    assert_eq!(result.remaining_sells[0].near_value, 20 * NEAR);
    assert_eq!(result.remaining_sells[1].token, "token_b.near");
    assert_eq!(result.remaining_sells[1].near_value, 50 * NEAR);
    assert_eq!(result.remaining_sells[2].token, "token_c.near");
    assert_eq!(result.remaining_sells[2].near_value, 50 * NEAR);
    assert!(result.remaining_buys.is_empty());
}

#[test]
fn test_single_sell_vs_multiple_buys_remainder() {
    let buys = vec![buy_op("token_b.near", 50), buy_op("token_c.near", 50), buy_op("token_d.near", 50)];
    let result = match_rebalance_operations(vec![sell_op("token_a.near", 30, RATE_24, 24)], buys);
    assert_eq!(result.direct_swaps.len(), 1);
    assert_eq!(result.direct_swaps[0].sell_token, "token_a.near");
    assert_eq!(result.direct_swaps[0].buy_token, "token_b.near");
    assert_eq!(result.direct_swaps[0].near_value, 30 * NEAR);
    assert!(result.remaining_sells.is_empty());
    assert_eq!(result.remaining_buys.len(), 3);
    assert_eq!(result.remaining_buys[0].token, "token_b.near");
    assert_eq!(result.remaining_buys[0].near_value, 20 * NEAR);
    assert_eq!(result.remaining_buys[1].token, "token_c.near");
    assert_eq!(result.remaining_buys[1].near_value, 50 * NEAR);
    assert_eq!(result.remaining_buys[2].token, "token_d.near");
    assert_eq!(result.remaining_buys[2].near_value, 50 * NEAR);
}

#[test]
fn test_invariant_total_value_preserved() {
    let sells = vec![sell_op("token_a.near", 80, RATE_24, 24), sell_op("token_b.near", 30, RATE_24, 24)];
    let buys = vec![buy_op("token_c.near", 60), buy_op("token_d.near", 20)];
    let result = match_rebalance_operations(sells, buys);
    let total_sell = 110 * NEAR;
    let total_buy = 80 * NEAR;
    let swap_sum: u128 = result.direct_swaps.iter().map(|d| d.near_value).sum();
    let remaining_sell_sum: u128 = result.remaining_sells.iter().map(|s| s.near_value).sum();
    let remaining_buy_sum: u128 = result.remaining_buys.iter().map(|b| b.near_value).sum();
    assert_eq!(swap_sum, total_buy);
    assert_eq!(remaining_sell_sum, 30 * NEAR);
    assert_eq!(remaining_buy_sum, 0);
    assert_eq!(swap_sum + remaining_sell_sum, total_sell);
}

#[test]
fn matching_zero_value_operations_produce_no_swap() {
    let sells = vec![SellOperation { token: "a.near".to_string(), near_value: 0, exchange_rate: ExchangeRate { raw_rate: RATE_24, decimals: 24 } }];
    let result = match_rebalance_operations(sells, vec![buy_op("b.near", 5)]);
    assert!(result.direct_swaps.iter().all(|d| d.near_value > 0));
    let bought: u128 = result.direct_swaps.iter().map(|d| d.near_value).sum::<u128>()
        + result.remaining_buys.iter().map(|b| b.near_value).sum::<u128>();
    assert_eq!(bought, 5 * NEAR);
}

#[test]
fn split_swaps_of_one_token_never_exceed_its_sale() {
    let sells = vec![sell_op("token_a.near", 100, RATE_24, 24), sell_op("token_c.near", 30, RATE_24, 24)];
    let buys = vec![buy_op("token_b.near", 45), buy_op("token_d.near", 40), buy_op("token_e.near", 35)];
    let result = match_rebalance_operations(sells, buys);
    for (token, sold) in [("token_a.near", 100 * NEAR), ("token_c.near", 30 * NEAR)] {
        let swapped: u128 =
            result.direct_swaps.iter().filter(|d| d.sell_token == token).map(|d| d.near_value).sum();
        let left: u128 = result.remaining_sells.iter().filter(|s| s.token == token).map(|s| s.near_value).sum();
        assert!(swapped <= sold);
        assert_eq!(swapped + left, sold);
    }
    // token_a is split over three purchases.
    assert_eq!(result.direct_swaps.iter().filter(|d| d.sell_token == "token_a.near").count(), 3);
}
