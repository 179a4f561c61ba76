//! Simulated wallet ledger for backtesting: the wNEAR cash balance, token
//! holdings, average-cost basis and realized profit and loss.
//!
//! Amounts are integers: cash and cost basis in yoctoNEAR, holdings in the
//! token's smallest units. Realized P&L is signed yoctoNEAR.
use crate::arith::{floor_mul_div, mul_div_below, mul_div_floor};
use crate::output::SwapMethod;
use crate::token_map::TokenMap;
use vstd::prelude::*;

verus! {

/// Default token decimals for NEAR ecosystem tokens, used when a holding is
/// created without a known decimals value.
pub const DEFAULT_DECIMALS: u8 = 24;

/// yoctoNEAR per NEAR.
pub const YOCTO_PER_NEAR: u128 = 1_000_000_000_000_000_000_000_000;

/// A token amount in smallest units together with the token's decimals.
#[derive(Clone, Copy, Debug, PartialEq, Eq)]
pub struct TokenAmount {
    pub smallest_units: u128,
    pub decimals: u8,
}

/// Exchange rate of a token against NEAR: smallest units of the token per
/// one NEAR.
#[derive(Clone, Copy, Debug, PartialEq, Eq)]
pub struct ExchangeRate {
    pub raw_rate: u128,
    pub decimals: u8,
}

/// What a simulated swap actually moved.
#[derive(Clone, Copy, Debug, PartialEq, Eq)]
pub struct SwapResult {
    pub actual_in: u128,
    pub actual_out: u128,
}

/// One position closed by [`PortfolioState::liquidate_all`].
#[derive(Debug, PartialEq, Eq)]
pub struct Liquidation {
    pub token: String,
    pub amount: TokenAmount,
    pub proceeds_yocto: u128,
    pub realized_pnl_yocto: i128,
}

/// One executed simulated swap: the simulated day (seconds since the
/// epoch), what went in and came out, how the output was priced, and the
/// pools of the route in order.
#[derive(Debug, Clone, PartialEq, Eq)]
pub struct SwapEvent {
    pub day_secs: i64,
    pub token_in: String,
    pub amount_in: TokenAmount,
    pub token_out: String,
    pub amount_out: TokenAmount,
    pub swap_method: SwapMethod,
    pub pool_ids: Vec<u32>,
}

/// Abstract form of a swap event.
pub struct SwapEventView {
    pub day_secs: i64,
    pub token_in: Seq<char>,
    pub amount_in: TokenAmount,
    pub token_out: Seq<char>,
    pub amount_out: TokenAmount,
    pub swap_method: SwapMethod,
    pub pool_ids: Seq<u32>,
}

/// The abstract form of `e`.
pub open spec fn event_view(e: SwapEvent) -> SwapEventView {
    SwapEventView {
        day_secs: e.day_secs,
        token_in: e.token_in@,
        amount_in: e.amount_in,
        token_out: e.token_out@,
        amount_out: e.amount_out,
        swap_method: e.swap_method,
        pool_ids: e.pool_ids@,
    }
}

/// Abstract state of the ledger.
pub struct LedgerView {
    pub quote: Seq<char>,
    pub cash: u128,
    pub holdings: Map<Seq<char>, TokenAmount>,
    pub cost_basis: Map<Seq<char>, u128>,
    pub realized_pnl: i128,
    pub pnl_by_token: Map<Seq<char>, i128>,
    /// The executed swaps, oldest first.
    pub events: Seq<SwapEventView>,
}

/// Units held of `k`, zero when absent.
pub open spec fn units_of(h: Map<Seq<char>, TokenAmount>, k: Seq<char>) -> int {
    if h.contains_key(k) {
        h[k].smallest_units as int
    } else {
        0
    }
}

/// Cost basis of `k`, zero when absent.
pub open spec fn cost_of(c: Map<Seq<char>, u128>, k: Seq<char>) -> int {
    if c.contains_key(k) {
        c[k] as int
    } else {
        0
    }
}

/// Realized P&L recorded for `k`, zero when absent.
pub open spec fn pnl_of(p: Map<Seq<char>, i128>, k: Seq<char>) -> int {
    if p.contains_key(k) {
        p[k] as int
    } else {
        0
    }
}

/// Output scaled to the input actually taken: `to × actual / requested`,
/// rounded down; unchanged when the whole request was taken.
pub open spec fn scaled_output(to_amount: int, actual: int, requested: int) -> int {
    if actual == requested {
        to_amount
    } else {
        floor_mul_div(to_amount, actual, requested)
    }
}

/// Average-cost basis of `sell` units out of `total` held units whose total
/// cost is `total_cost`. When `total_cost × sell` does not fit in 128 bits the
/// per-unit cost is rounded down first.
pub open spec fn average_cost_of_sold(total_cost: int, sell: int, total: int) -> int {
    if sell == total {
        total_cost
    } else if total > 0 {
        if total_cost * sell <= u128::MAX {
            (total_cost * sell) / total
        } else {
            (total_cost / total) * sell
        }
    } else {
        0
    }
}

/// `a - b`, floored at zero.
pub open spec fn saturating_sub(a: int, b: int) -> int {
    if a >= b {
        a - b
    } else {
        0
    }
}

/// Cost of the units sold when `sell` units of `k` leave a position whose
/// remaining units are recorded in `v`.
pub open spec fn sold_cost(v: LedgerView, k: Seq<char>, sell: int) -> int {
    average_cost_of_sold(cost_of(v.cost_basis, k), sell, units_of(v.holdings, k) + sell)
}

/// Whether recording a sale of `sell` units of `k` for `proceeds` keeps the
/// signed P&L values within `i128`.
pub open spec fn sell_pnl_fits(v: LedgerView, k: Seq<char>, sell: int, proceeds: int) -> bool {
    let cost = sold_cost(v, k, sell);
    &&& proceeds <= i128::MAX
    &&& cost <= i128::MAX
    &&& i128::MIN <= v.realized_pnl + (proceeds - cost) <= i128::MAX
    &&& i128::MIN <= pnl_of(v.pnl_by_token, k) + (proceeds - cost) <= i128::MAX
}

/// Ledger after recording the sale of `sell` units of `k` for `proceeds`
/// yoctoNEAR, the holding having already been reduced.
pub open spec fn record_sell(v: LedgerView, k: Seq<char>, sell: int, proceeds: int) -> LedgerView {
    let cost = sold_cost(v, k, sell);
    let pnl = proceeds - cost;
    let basis1 = if v.cost_basis.contains_key(k) {
        v.cost_basis.insert(k, saturating_sub(v.cost_basis[k] as int, cost) as u128)
    } else {
        v.cost_basis
    };
    let closed = !v.holdings.contains_key(k) || v.holdings[k].smallest_units == 0;
    LedgerView {
        cost_basis: if closed {
            basis1.remove(k)
        } else {
            basis1
        },
        realized_pnl: (v.realized_pnl + pnl) as i128,
        pnl_by_token: v.pnl_by_token.insert(k, (pnl_of(v.pnl_by_token, k) + pnl) as i128),
        ..v
    }
}

/// Input taken and output credited by a swap of `from_amount` of `from` for
/// `to_amount` of the other side, or `None` when the swap is skipped.
pub open spec fn swap_amounts(
    v: LedgerView,
    from: Seq<char>,
    from_amount: int,
    to_amount: int,
) -> Option<(int, int)> {
    let available = if from == v.quote {
        v.cash as int
    } else {
        units_of(v.holdings, from)
    };
    let actual = if from_amount <= available {
        from_amount
    } else {
        available
    };
    if actual == 0 {
        None
    } else {
        let out = scaled_output(to_amount, actual, from_amount);
        if out == 0 {
            None
        } else {
            Some((actual, out))
        }
    }
}

/// Proceeds attributed to the sold side of a token-to-`to` swap.
pub open spec fn sell_proceeds(v: LedgerView, from: Seq<char>, to: Seq<char>, actual: int, out: int) -> int {
    if to == v.quote {
        out
    } else {
        average_cost_of_sold(cost_of(v.cost_basis, from), actual, units_of(v.holdings, from))
    }
}

/// The reduced holding of `from` after taking `actual` units.
pub open spec fn reduce_holding(v: LedgerView, from: Seq<char>, actual: int) -> LedgerView {
    LedgerView {
        holdings: v.holdings.insert(
            from,
            TokenAmount {
                smallest_units: (v.holdings[from].smallest_units - actual) as u128,
                decimals: v.holdings[from].decimals,
            },
        ),
        ..v
    }
}

/// Ledger after taking `actual` of `from`.
pub open spec fn swap_deduct(v: LedgerView, from: Seq<char>, to: Seq<char>, actual: int, out: int) -> LedgerView {
    if from == v.quote {
        LedgerView { cash: (v.cash - actual) as u128, ..v }
    } else {
        let reduced = reduce_holding(v, from, actual);
        let sold = record_sell(reduced, from, actual, sell_proceeds(v, from, to, actual, out));
        if sold.holdings[from].smallest_units == 0 {
            LedgerView { holdings: sold.holdings.remove(from), ..sold }
        } else {
            sold
        }
    }
}

/// Ledger after crediting `out` of `to`, bought with `actual` of `from`.
pub open spec fn swap_credit(v: LedgerView, from: Seq<char>, to: Seq<char>, actual: int, out: int) -> LedgerView {
    if to == v.quote {
        LedgerView { cash: (v.cash + out) as u128, ..v }
    } else {
        let decimals = if v.holdings.contains_key(to) {
            v.holdings[to].decimals
        } else {
            DEFAULT_DECIMALS
        };
        let with_holding = LedgerView {
            holdings: v.holdings.insert(
                to,
                TokenAmount {
                    smallest_units: (units_of(v.holdings, to) + out) as u128,
                    decimals,
                },
            ),
            ..v
        };
        if from == v.quote {
            LedgerView {
                cost_basis: v.cost_basis.insert(to, (cost_of(v.cost_basis, to) + actual) as u128),
                ..with_holding
            }
        } else {
            with_holding
        }
    }
}

/// Whether the swap's results fit the ledger's integer types.
pub open spec fn swap_fits(v: LedgerView, from: Seq<char>, to: Seq<char>, actual: int, out: int) -> bool {
    let deducted = swap_deduct(v, from, to, actual, out);
    &&& from != v.quote ==> sell_pnl_fits(
        reduce_holding(v, from, actual),
        from,
        actual,
        sell_proceeds(v, from, to, actual, out),
    )
    &&& to == v.quote ==> deducted.cash + out <= u128::MAX
    &&& to != v.quote ==> units_of(deducted.holdings, to) + out <= u128::MAX
    &&& (from == v.quote && to != v.quote) ==> cost_of(deducted.cost_basis, to) + actual
        <= u128::MAX
}

/// Ledger after a swap (unchanged when the swap is skipped).
pub open spec fn swap_result(
    v: LedgerView,
    from: Seq<char>,
    from_amount: int,
    to: Seq<char>,
    to_amount: int,
) -> LedgerView {
    match swap_amounts(v, from, from_amount, to_amount) {
        None => v,
        Some((actual, out)) => swap_credit(swap_deduct(v, from, to, actual, out), from, to, actual, out),
    }
}

/// Whether a swap's results fit the ledger's integer types.
pub open spec fn swap_ok(v: LedgerView, from: Seq<char>, from_amount: int, to: Seq<char>, to_amount: int) -> bool {
    match swap_amounts(v, from, from_amount, to_amount) {
        None => true,
        Some((actual, out)) => swap_fits(v, from, to, actual, out),
    }
}

/// yoctoNEAR value of `units` at `rate` (`units × 10^24 / raw_rate`, rounded
/// down); zero when there is no rate, the rate is zero, or the value does not
/// fit in 128 bits.
pub open spec fn yocto_value(units: int, rate: Option<ExchangeRate>) -> int {
    match rate {
        None => 0,
        Some(r) => if r.raw_rate == 0 {
            0
        } else {
            let y = floor_mul_div(units, YOCTO_PER_NEAR as int, r.raw_rate as int);
            if y > u128::MAX {
                0
            } else {
                y
            }
        },
    }
}

/// The rate for `k` in `rates`, if any.
pub open spec fn rate_for(rates: Map<Seq<char>, ExchangeRate>, k: Seq<char>) -> Option<ExchangeRate> {
    if rates.contains_key(k) {
        Some(rates[k])
    } else {
        None
    }
}

/// Ledger after closing the position in `k` for `proceeds` yoctoNEAR.
pub open spec fn liquidate_position(v: LedgerView, k: Seq<char>, units: int, proceeds: int) -> LedgerView {
    let removed = LedgerView {
        holdings: v.holdings.remove(k),
        cash: (v.cash + proceeds) as u128,
        ..v
    };
    record_sell(removed, k, units, proceeds)
}

/// Proceeds of liquidating the held `amount` of `k`.
pub open spec fn liquidation_proceeds(
    rates: Map<Seq<char>, ExchangeRate>,
    k: Seq<char>,
    amount: TokenAmount,
) -> int {
    yocto_value(amount.smallest_units as int, rate_for(rates, k))
}

/// Ledger and records after liquidating, in order, the positions in `items`.
/// Zero positions and positions valued at zero are skipped.
pub open spec fn liquidate_seq(
    v: LedgerView,
    items: Seq<(Seq<char>, TokenAmount)>,
    rates: Map<Seq<char>, ExchangeRate>,
) -> (LedgerView, Seq<(Seq<char>, TokenAmount, int, int)>)
    decreases items.len(),
{
    if items.len() == 0 {
        (v, Seq::empty())
    } else {
        let (prev, recs) = liquidate_seq(v, items.drop_last(), rates);
        let (k, amount) = items.last();
        let p = liquidation_proceeds(rates, k, amount);
        if amount.smallest_units == 0 || p == 0 {
            (prev, recs)
        } else {
            let next = liquidate_position(prev, k, amount.smallest_units as int, p);
            let pnl = next.realized_pnl - prev.realized_pnl;
            (next, recs.push((k, amount, p, pnl)))
        }
    }
}

/// Whether liquidating `items` in order keeps every value within its type.
pub open spec fn liquidate_fits(
    v: LedgerView,
    items: Seq<(Seq<char>, TokenAmount)>,
    rates: Map<Seq<char>, ExchangeRate>,
) -> bool
    decreases items.len(),
{
    if items.len() == 0 {
        true
    } else {
        let prev = liquidate_seq(v, items.drop_last(), rates).0;
        let (k, amount) = items.last();
        let p = liquidation_proceeds(rates, k, amount);
        &&& liquidate_fits(v, items.drop_last(), rates)
        &&& (amount.smallest_units == 0 || p == 0 || {
            let removed = LedgerView {
                holdings: prev.holdings.remove(k),
                cash: (prev.cash + p) as u128,
                ..prev
            };
            &&& prev.cash + p <= u128::MAX
            &&& sell_pnl_fits(removed, k, amount.smallest_units as int, p)
        })
    }
}

/// Law: a swap moves the portfolio's realized P&L by exactly the change in
/// the realized P&L of the token it sells, and leaves every other token's
/// realized P&L as it was.
pub proof fn lemma_swap_pnl_attribution(
    v: LedgerView,
    from: Seq<char>,
    from_amount: int,
    to: Seq<char>,
    to_amount: int,
)
    requires
        swap_ok(v, from, from_amount, to, to_amount),
    ensures
        swap_result(v, from, from_amount, to, to_amount).realized_pnl - v.realized_pnl == pnl_of(
            swap_result(v, from, from_amount, to, to_amount).pnl_by_token,
            from,
        ) - pnl_of(v.pnl_by_token, from),
        forall|k: Seq<char>|
            k != from ==> pnl_of(#[trigger] swap_result(v, from, from_amount, to, to_amount).pnl_by_token, k)
                == pnl_of(v.pnl_by_token, k),
{
    let w = swap_result(v, from, from_amount, to, to_amount);
    match swap_amounts(v, from, from_amount, to_amount) {
        None => {},
        Some((actual, out)) => {
            if from != v.quote {
                let reduced = reduce_holding(v, from, actual);
                let proceeds = sell_proceeds(v, from, to, actual, out);
                let sold = record_sell(reduced, from, actual, proceeds);
                assert(sell_pnl_fits(reduced, from, actual, proceeds));
                assert(sold.realized_pnl == v.realized_pnl + (proceeds - sold_cost(reduced, from, actual)));
                assert(pnl_of(sold.pnl_by_token, from) == pnl_of(v.pnl_by_token, from) + (proceeds - sold_cost(
                    reduced,
                    from,
                    actual,
                )));
            }
        },
    }
}

/// Law: a swap from one token straight into another token (neither of them
/// wNEAR) realizes no profit or loss: the sold units leave at their average
/// cost, so the realized P&L, in total and per token, and the cash stay as
/// they were. The sold token's cost basis drops by the average cost of the
/// units taken, `cost × taken / held` rounded down (when that product fits
/// in 128 bits), and goes when the whole position is sold; the bought
/// token's cost basis does not change.
pub proof fn lemma_token_swap_realizes_nothing(
    v: LedgerView,
    from: Seq<char>,
    from_amount: int,
    to: Seq<char>,
    to_amount: int,
)
    requires
        0 <= from_amount <= u128::MAX,
        0 <= to_amount <= u128::MAX,
        swap_ok(v, from, from_amount, to, to_amount),
        from != v.quote,
        to != v.quote,
        from != to,
    ensures
        swap_result(v, from, from_amount, to, to_amount).realized_pnl == v.realized_pnl,
        forall|k: Seq<char>|
            #[trigger] pnl_of(swap_result(v, from, from_amount, to, to_amount).pnl_by_token, k) == pnl_of(
                v.pnl_by_token,
                k,
            ),
        swap_result(v, from, from_amount, to, to_amount).cash == v.cash,
        cost_of(swap_result(v, from, from_amount, to, to_amount).cost_basis, to) == cost_of(v.cost_basis, to),
        ({
            let held = units_of(v.holdings, from);
            let taken = if from_amount <= held {
                from_amount
            } else {
                held
            };
            let cost = cost_of(v.cost_basis, from);
            let after = swap_result(v, from, from_amount, to, to_amount);
            &&& (swap_amounts(v, from, from_amount, to_amount) is Some && 0 < taken < held && cost * taken
                <= u128::MAX) ==> cost_of(after.cost_basis, from) == cost - (cost * taken) / held
            &&& (swap_amounts(v, from, from_amount, to_amount) is Some && taken == held) ==> !after.cost_basis.contains_key(
                from,
            )
            &&& swap_amounts(v, from, from_amount, to_amount) matches Some((t, o)) ==> (t == taken && units_of(
                after.holdings,
                from,
            ) == held - taken && units_of(after.holdings, to) == units_of(v.holdings, to) + o && o == (if taken
                == from_amount {
                to_amount
            } else {
                (to_amount * taken) / from_amount
            }))
        }),
{
    match swap_amounts(v, from, from_amount, to_amount) {
        None => {},
        Some((actual, out)) => {
            let reduced = reduce_holding(v, from, actual);
            assert(v.holdings.contains_key(from));
            assert(units_of(reduced.holdings, from) + actual == units_of(v.holdings, from));
            assert(reduced.cost_basis == v.cost_basis);
            assert(sold_cost(reduced, from, actual) == sell_proceeds(v, from, to, actual, out));
            let held = units_of(v.holdings, from);
            let cost = cost_of(v.cost_basis, from);
            if 0 < actual < held && cost * actual <= u128::MAX {
                assert((cost * actual) / held <= cost) by (nonlinear_arith)
                    requires
                        0 < actual < held,
                        cost >= 0,
                ;
            }
        },
    }
}

/// Law: what a swap moves. It takes `taken = min(from_amount, available)`
/// of the source (cash for wNEAR, the held units otherwise) and credits
/// `out = to_amount` when the whole request was taken, else
/// `to_amount × taken / from_amount` rounded down; nothing moves when
/// either is zero. Buying a token with wNEAR spends `taken` cash, adds
/// `out` units and adds `taken` to the token's cost basis, realizing
/// nothing; selling a token for wNEAR adds `out` cash, leaves
/// `held − taken` units and realizes `out` minus the average cost of the
/// units taken (`cost × taken / held` rounded down when that product fits
/// in 128 bits, the whole cost when everything is sold).
pub proof fn lemma_swap_moves(v: LedgerView, from: Seq<char>, from_amount: int, to: Seq<char>, to_amount: int)
    requires
        0 <= from_amount <= u128::MAX,
        0 <= to_amount <= u128::MAX,
        swap_ok(v, from, from_amount, to, to_amount),
        from != to,
    ensures
        ({
            let available = if from == v.quote {
                v.cash as int
            } else {
                units_of(v.holdings, from)
            };
            let taken = if from_amount <= available {
                from_amount
            } else {
                available
            };
            let out = if taken == from_amount {
                to_amount
            } else {
                (to_amount * taken) / from_amount
            };
            let after = swap_result(v, from, from_amount, to, to_amount);
            let cost = cost_of(v.cost_basis, from);
            &&& (taken == 0 || out == 0) ==> after == v
            &&& (taken > 0 && out > 0 && from == v.quote) ==> {
                &&& after.cash == v.cash - taken
                &&& units_of(after.holdings, to) == units_of(v.holdings, to) + out
                &&& cost_of(after.cost_basis, to) == cost_of(v.cost_basis, to) + taken
                &&& after.realized_pnl == v.realized_pnl
            }
            &&& (taken > 0 && out > 0 && to == v.quote) ==> {
                &&& after.cash == v.cash + out
                &&& units_of(after.holdings, from) == available - taken
                &&& (taken < available && cost * taken <= u128::MAX) ==> after.realized_pnl == v.realized_pnl + out - (
                cost * taken) / available
                &&& taken == available ==> after.realized_pnl == v.realized_pnl + out - cost
            }
        }),
{
    match swap_amounts(v, from, from_amount, to_amount) {
        None => {},
        Some((actual, out)) => {
            if from != v.quote {
                let reduced = reduce_holding(v, from, actual);
                assert(v.holdings.contains_key(from));
                assert(units_of(reduced.holdings, from) + actual == units_of(v.holdings, from));
                assert(reduced.cost_basis == v.cost_basis);
            }
        },
    }
}

/// Law: buying a token that is not held with `c` yoctoNEAR of cash for `u`
/// units, then selling those `u` units back for `c`, restores cash,
/// holdings and cost basis and realizes no profit or loss.
pub proof fn lemma_round_trip_at_cost(v: LedgerView, t: Seq<char>, c: int, u: int)
    requires
        t != v.quote,
        !v.holdings.contains_key(t),
        !v.cost_basis.contains_key(t),
        0 < c <= v.cash,
        c <= i128::MAX,
        0 < u <= u128::MAX,
    ensures
        swap_ok(v, v.quote, c, t, u),
        swap_ok(swap_result(v, v.quote, c, t, u), t, u, v.quote, c),
        ({
            let v2 = swap_result(swap_result(v, v.quote, c, t, u), t, u, v.quote, c);
            &&& v2.cash == v.cash
            &&& v2.holdings == v.holdings
            &&& v2.cost_basis == v.cost_basis
            &&& v2.realized_pnl == v.realized_pnl
            &&& forall|k: Seq<char>| #[trigger] pnl_of(v2.pnl_by_token, k) == pnl_of(v.pnl_by_token, k)
        }),
{
    let q = v.quote;
    assert(swap_amounts(v, q, c, u) == Some((c, u)));
    let d1 = swap_deduct(v, q, t, c, u);
    let v1 = swap_credit(d1, q, t, c, u);
    assert(swap_result(v, q, c, t, u) == v1);
    assert(v1.holdings[t].smallest_units == u);
    assert(units_of(v1.holdings, t) == u);
    assert(cost_of(v1.cost_basis, t) == c);
    assert(swap_amounts(v1, t, u, c) == Some((u, c)));
    let reduced = reduce_holding(v1, t, u);
    assert(units_of(reduced.holdings, t) == 0);
    assert(sold_cost(reduced, t, u) == c);
    let sold = record_sell(reduced, t, u, c);
    assert(sell_pnl_fits(reduced, t, u, c));
    let d2 = swap_deduct(v1, t, q, u, c);
    let v2 = swap_credit(d2, t, q, u, c);
    assert(swap_result(v1, t, u, q, c) == v2);
    assert(v2.holdings =~= v.holdings);
    assert(v2.cost_basis =~= v.cost_basis);
    assert forall|k: Seq<char>| #[trigger] pnl_of(v2.pnl_by_token, k) == pnl_of(v.pnl_by_token, k) by {}
}

/// The total proceeds of a list of liquidation records.
pub open spec fn total_proceeds(recs: Seq<(Seq<char>, TokenAmount, int, int)>) -> int
    decreases recs.len(),
{
    if recs.len() == 0 {
        0
    } else {
        total_proceeds(recs.drop_last()) + recs.last().2
    }
}

/// The total realized P&L of a list of liquidation records.
pub open spec fn total_liquidation_pnl(recs: Seq<(Seq<char>, TokenAmount, int, int)>) -> int
    decreases recs.len(),
{
    if recs.len() == 0 {
        0
    } else {
        total_liquidation_pnl(recs.drop_last()) + recs.last().3
    }
}

/// Law: liquidating positions adds exactly the recorded proceeds to cash
/// and exactly the recorded P&L to the realized P&L.
pub proof fn lemma_liquidation_totals(
    v: LedgerView,
    items: Seq<(Seq<char>, TokenAmount)>,
    rates: Map<Seq<char>, ExchangeRate>,
)
    requires
        liquidate_fits(v, items, rates),
    ensures
        liquidate_seq(v, items, rates).0.cash == v.cash + total_proceeds(liquidate_seq(v, items, rates).1),
        liquidate_seq(v, items, rates).0.realized_pnl == v.realized_pnl + total_liquidation_pnl(
            liquidate_seq(v, items, rates).1,
        ),
    decreases items.len(),
{
    if items.len() > 0 {
        lemma_liquidation_totals(v, items.drop_last(), rates);
        let (prev, recs) = liquidate_seq(v, items.drop_last(), rates);
        let (k, amount) = items.last();
        let p = liquidation_proceeds(rates, k, amount);
        if !(amount.smallest_units == 0 || p == 0) {
            let next = liquidate_position(prev, k, amount.smallest_units as int, p);
            let pnl = next.realized_pnl - prev.realized_pnl;
            let recs2 = recs.push((k, amount, p, pnl));
            assert(recs2.drop_last() =~= recs);
            assert(next.cash == prev.cash + p);
        }
    }
}

/// Total yoctoNEAR value of the positions in `items` at `rates`, each
/// valued as what liquidating it would bring.
pub open spec fn holdings_value(
    items: Seq<(Seq<char>, TokenAmount)>,
    rates: Map<Seq<char>, ExchangeRate>,
) -> int
    decreases items.len(),
{
    if items.len() == 0 {
        0
    } else {
        holdings_value(items.drop_last(), rates) + liquidation_proceeds(rates, items.last().0, items.last().1)
    }
}

/// A position is never worth less than nothing.
proof fn lemma_proceeds_nonneg(rates: Map<Seq<char>, ExchangeRate>, k: Seq<char>, amount: TokenAmount)
    ensures
        liquidation_proceeds(rates, k, amount) >= 0,
        amount.smallest_units == 0 ==> liquidation_proceeds(rates, k, amount) == 0,
{
    match rate_for(rates, k) {
        None => {},
        Some(r) => {
            if r.raw_rate != 0 {
                let u = amount.smallest_units as int;
                let y = YOCTO_PER_NEAR as int;
                let d = r.raw_rate as int;
                assert(floor_mul_div(u, y, d) >= 0) by (nonlinear_arith)
                    requires
                        u >= 0,
                        y >= 0,
                        d > 0,
                ;
                if u == 0 {
                    assert(floor_mul_div(u, y, d) == 0) by (nonlinear_arith)
                        requires
                            u == 0,
                            d > 0,
                    ;
                }
            }
        },
    }
}

/// The value of a prefix of `items` never exceeds the value of all of them.
proof fn lemma_holdings_value_prefix(
    items: Seq<(Seq<char>, TokenAmount)>,
    rates: Map<Seq<char>, ExchangeRate>,
    len: int,
)
    requires
        0 <= len <= items.len(),
    ensures
        0 <= holdings_value(items.take(len), rates) <= holdings_value(items, rates),
    decreases items.len() - len,
{
    if len < items.len() {
        lemma_holdings_value_prefix(items, rates, len + 1);
        let next = items.take(len + 1);
        assert(next.drop_last() =~= items.take(len));
        lemma_proceeds_nonneg(rates, next.last().0, next.last().1);
        lemma_holdings_value_nonneg(items.take(len), rates);
    } else {
        assert(items.take(len) =~= items);
        lemma_holdings_value_nonneg(items, rates);
    }
}

/// A set of positions is never worth less than nothing.
proof fn lemma_holdings_value_nonneg(items: Seq<(Seq<char>, TokenAmount)>, rates: Map<Seq<char>, ExchangeRate>)
    ensures
        holdings_value(items, rates) >= 0,
    decreases items.len(),
{
    if items.len() > 0 {
        lemma_holdings_value_nonneg(items.drop_last(), rates);
        lemma_proceeds_nonneg(rates, items.last().0, items.last().1);
    }
}

/// Law: liquidating positions turns exactly their value at the liquidation
/// rates into cash; the positions it leaves in place are worth nothing at
/// those rates.
pub proof fn lemma_liquidation_realizes_value(
    v: LedgerView,
    items: Seq<(Seq<char>, TokenAmount)>,
    rates: Map<Seq<char>, ExchangeRate>,
)
    requires
        liquidate_fits(v, items, rates),
    ensures
        liquidate_seq(v, items, rates).0.cash == v.cash + holdings_value(items, rates),
    decreases items.len(),
{
    if items.len() > 0 {
        lemma_liquidation_realizes_value(v, items.drop_last(), rates);
        lemma_proceeds_nonneg(rates, items.last().0, items.last().1);
    }
}

/// Liquidating positions none of which is `k` leaves the cost basis and
/// the realized P&L of `k` as they were.
proof fn lemma_liquidation_untouched(
    v: LedgerView,
    items: Seq<(Seq<char>, TokenAmount)>,
    rates: Map<Seq<char>, ExchangeRate>,
    k: Seq<char>,
)
    requires
        forall|q: int| 0 <= q < items.len() ==> (#[trigger] items[q]).0 != k,
    ensures
        cost_of(liquidate_seq(v, items, rates).0.cost_basis, k) == cost_of(v.cost_basis, k),
        pnl_of(liquidate_seq(v, items, rates).0.pnl_by_token, k) == pnl_of(v.pnl_by_token, k),
    decreases items.len(),
{
    if items.len() > 0 {
        let rest = items.drop_last();
        assert forall|q: int| 0 <= q < rest.len() implies (#[trigger] rest[q]).0 != k by {
            assert(rest[q] == items[q]);
        }
        lemma_liquidation_untouched(v, rest, rates, k);
        assert(items.last() == items[items.len() - 1]);
    }
}

/// Simulated wallet: wNEAR cash, token holdings, cost basis and P&L.
pub struct PortfolioState {
    quote_token: String,
    cash_balance: u128,
    holdings: TokenMap<TokenAmount>,
    cost_basis: TokenMap<u128>,
    realized_pnl: i128,
    realized_pnl_by_token: TokenMap<i128>,
    swap_events: Vec<SwapEvent>,
}

impl PortfolioState {
    /// Abstract view of the ledger.
    pub closed spec fn view(&self) -> LedgerView {
        LedgerView {
            quote: self.quote_token@,
            cash: self.cash_balance,
            holdings: self.holdings.view(),
            cost_basis: self.cost_basis.view(),
            realized_pnl: self.realized_pnl,
            pnl_by_token: self.realized_pnl_by_token.view(),
            events: self.swap_events@.map_values(|e: SwapEvent| event_view(e)),
        }
    }

    /// Internal consistency of the maps.
    pub closed spec fn wf(&self) -> bool {
        &&& self.holdings.wf()
        &&& self.cost_basis.wf()
        &&& self.realized_pnl_by_token.wf()
    }

    /// Held positions in the order the ledger keeps them.
    pub closed spec fn holding_items(&self) -> Seq<(Seq<char>, TokenAmount)> {
        self.holdings.key_seq().map_values(|k: Seq<char>| (k, self.holdings.view()[k]))
    }

    /// A ledger holding `initial_capital` yoctoNEAR of cash in `quote_token`
    /// (wNEAR) and nothing else.
    pub fn new(initial_capital: u128, quote_token: String) -> (s: Self)
        ensures
            s.wf(),
            s.view().quote == quote_token@,
            s.view().cash == initial_capital,
            s.view().holdings == Map::<Seq<char>, TokenAmount>::empty(),
            s.view().cost_basis == Map::<Seq<char>, u128>::empty(),
            s.view().realized_pnl == 0,
            s.view().pnl_by_token == Map::<Seq<char>, i128>::empty(),
            s.view().events == Seq::<SwapEventView>::empty(),
    {
        PortfolioState {
            quote_token,
            cash_balance: initial_capital,
            holdings: TokenMap::new(),
            cost_basis: TokenMap::new(),
            realized_pnl: 0,
            realized_pnl_by_token: TokenMap::new(),
            swap_events: Vec::new(),
        }
    }

    /// Appends `event` to the swap events; nothing else changes.
    pub fn record_swap_event(&mut self, event: SwapEvent)
        requires
            old(self).wf(),
        ensures
            final(self).wf(),
            final(self).view() == (LedgerView {
                events: old(self).view().events.push(event_view(event)),
                ..old(self).view()
            }),
    {
        let ghost before = self.swap_events@;
        self.swap_events.push(event);
        proof {
            assert(self.swap_events@.map_values(|e: SwapEvent| event_view(e)) =~= before.map_values(
                |e: SwapEvent| event_view(e),
            ).push(event_view(event)));
        }
    }

    /// The swap events, oldest first.
    pub fn swap_events(&self) -> (r: &Vec<SwapEvent>)
        ensures
            r@.map_values(|e: SwapEvent| event_view(e)) == self.view().events,
    {
        &self.swap_events
    }

    /// How each recorded swap was priced, oldest first: the input of
    /// `SwapStats::from_events`.
    pub fn swap_methods(&self) -> (r: Vec<SwapMethod>)
        ensures
            r@ == self.view().events.map_values(|e: SwapEventView| e.swap_method),
    {
        let mut r: Vec<SwapMethod> = Vec::new();
        let mut i: usize = 0;
        while i < self.swap_events.len()
            invariant
                i <= self.swap_events@.len(),
                r@ == self.swap_events@.take(i as int).map_values(|e: SwapEvent| e.swap_method),
            decreases self.swap_events@.len() - i,
        {
            r.push(self.swap_events[i].swap_method);
            proof {
                assert(self.swap_events@.take(i as int + 1).map_values(|e: SwapEvent| e.swap_method)
                    =~= self.swap_events@.take(i as int).map_values(|e: SwapEvent| e.swap_method).push(
                    self.swap_events@[i as int].swap_method,
                ));
            }
            i = i + 1;
        }
        proof {
            assert(self.swap_events@.take(self.swap_events@.len() as int) =~= self.swap_events@);
            assert(r@ =~= self.view().events.map_values(|e: SwapEventView| e.swap_method));
        }
        r
    }

    /// Cash (wNEAR) balance in yoctoNEAR.
    pub fn cash_balance(&self) -> (r: u128)
        ensures
            r == self.view().cash,
    {
        self.cash_balance
    }

    /// The quote (wNEAR) token id.
    pub fn quote_token(&self) -> (r: &String)
        ensures
            r@ == self.view().quote,
    {
        &self.quote_token
    }

    /// Cumulative realized P&L in yoctoNEAR.
    pub fn realized_pnl(&self) -> (r: i128)
        ensures
            r == self.view().realized_pnl,
    {
        self.realized_pnl
    }

    /// Holding of `token`, if any.
    pub fn holding(&self, token: &String) -> (r: Option<TokenAmount>)
        requires
            self.wf(),
        ensures
            r == (if self.view().holdings.contains_key(token@) {
                Some(self.view().holdings[token@])
            } else {
                None
            }),
    {
        self.holdings.get(token)
    }

    /// Cost basis of `token` in yoctoNEAR, if tracked.
    pub fn cost_basis_of(&self, token: &String) -> (r: Option<u128>)
        requires
            self.wf(),
        ensures
            r == (if self.view().cost_basis.contains_key(token@) {
                Some(self.view().cost_basis[token@])
            } else {
                None
            }),
    {
        self.cost_basis.get(token)
    }

    /// Realized P&L recorded for `token`, if any.
    pub fn realized_pnl_of(&self, token: &String) -> (r: Option<i128>)
        requires
            self.wf(),
        ensures
            r == (if self.view().pnl_by_token.contains_key(token@) {
                Some(self.view().pnl_by_token[token@])
            } else {
                None
            }),
    {
        self.realized_pnl_by_token.get(token)
    }

    /// Number of held positions.
    pub fn holdings_count(&self) -> (n: usize)
        requires
            self.wf(),
        ensures
            n == self.view().holdings.len(),
            n == self.holding_items().len(),
    {
        self.holdings.len()
    }

    /// The `i`-th held position in the ledger's order.
    pub fn holding_at(&self, i: usize) -> (r: (&String, TokenAmount))
        requires
            self.wf(),
            i < self.holding_items().len(),
        ensures
            (r.0@, r.1) == self.holding_items()[i as int],
    {
        (self.holdings.key_at(i), self.holdings.value_at(i))
    }

    /// Sets the holding of `token`.
    pub fn set_holding(&mut self, token: String, amount: TokenAmount)
        requires
            old(self).wf(),
        ensures
            final(self).wf(),
            final(self).view() == (LedgerView {
                holdings: old(self).view().holdings.insert(token@, amount),
                ..old(self).view()
            }),
    {
        self.holdings.insert(token, amount);
    }

    /// Sets the cost basis of `token`.
    pub fn set_cost_basis(&mut self, token: String, cost_yocto: u128)
        requires
            old(self).wf(),
        ensures
            final(self).wf(),
            final(self).view() == (LedgerView {
                cost_basis: old(self).view().cost_basis.insert(token@, cost_yocto),
                ..old(self).view()
            }),
    {
        self.cost_basis.insert(token, cost_yocto);
    }

    /// Scales the output of a swap to the input actually taken:
    /// `to_amount × actual / requested`, rounded down, or `to_amount` itself
    /// when the whole request was taken.
    pub fn scale_output(to_amount: u128, actual: u128, requested: u128) -> (r: u128)
        requires
            actual <= requested,
        ensures
            r as int == scaled_output(to_amount as int, actual as int, requested as int),
            r <= to_amount,
    {
        if actual == requested {
            return to_amount;
        }
        mul_div_below(actual, to_amount, requested)
    }

    /// Average-cost basis of `sell_amount` out of `total_holding` units of
    /// `token`.
    fn average_cost_of_sold(&self, token: &String, sell_amount: u128, total_holding: u128) -> (r: u128)
        requires
            self.wf(),
            sell_amount <= total_holding,
        ensures
            r as int == average_cost_of_sold(
                cost_of(self.view().cost_basis, token@),
                sell_amount as int,
                total_holding as int,
            ),
            r as int <= cost_of(self.view().cost_basis, token@),
    {
        let total_cost: u128 = match self.cost_basis.get(token) {
            Some(c) => c,
            None => 0,
        };
        if sell_amount == total_holding {
            total_cost
        } else if total_holding > 0 {
            match total_cost.checked_mul(sell_amount) {
                Some(v) => {
                    proof {
                        assert(v as int / total_holding as int <= total_cost) by (nonlinear_arith)
                            requires
                                v == total_cost * sell_amount,
                                sell_amount <= total_holding,
                                total_holding > 0,
                        ;
                    }
                    v / total_holding
                },
                None => {
                    proof {
                        assert((total_cost / total_holding) * sell_amount <= total_cost) by (nonlinear_arith)
                            requires
                                sell_amount <= total_holding,
                                total_holding > 0,
                        ;
                    }
                    (total_cost / total_holding) * sell_amount
                },
            }
        } else {
            0
        }
    }

    /// Records realized P&L for selling `sell_amount` units of `token` for
    /// `sell_proceeds_yocto`, using the average-cost method. The holding must
    /// already be reduced by `sell_amount`. Returns the P&L in yoctoNEAR.
    fn record_sell_pnl(&mut self, token: &String, sell_amount: u128, sell_proceeds_yocto: u128) -> (pnl: i128)
        requires
            old(self).wf(),
            units_of(old(self).view().holdings, token@) + sell_amount <= u128::MAX,
            sell_pnl_fits(old(self).view(), token@, sell_amount as int, sell_proceeds_yocto as int),
        ensures
            final(self).wf(),
            final(self).view() == record_sell(
                old(self).view(),
                token@,
                sell_amount as int,
                sell_proceeds_yocto as int,
            ),
            pnl == sell_proceeds_yocto - sold_cost(old(self).view(), token@, sell_amount as int),
    {
        let ghost v = self.view();
        let remaining: u128 = match self.holdings.get(token) {
            Some(a) => a.smallest_units,
            None => 0,
        };
        let total_holding = remaining + sell_amount;
        let cost_of_sold = self.average_cost_of_sold(token, sell_amount, total_holding);
        let pnl = sell_proceeds_yocto as i128 - cost_of_sold as i128;

        match self.cost_basis.get(token) {
            Some(basis) => {
                let reduced = if basis >= cost_of_sold {
                    basis - cost_of_sold
                } else {
                    0
                };
                self.cost_basis.insert(token.clone(), reduced);
            },
            None => {},
        }

        self.realized_pnl = self.realized_pnl + pnl;
        let prev: i128 = match self.realized_pnl_by_token.get(token) {
            Some(p) => p,
            None => 0,
        };
        self.realized_pnl_by_token.insert(token.clone(), prev + pnl);

        let closed = match self.holdings.get(token) {
            Some(a) => a.smallest_units == 0,
            None => true,
        };
        if closed {
            self.cost_basis.remove(token);
        }
        proof {
            assert(self.view().cost_basis =~= record_sell(v, token@, sell_amount as int, sell_proceeds_yocto as int).cost_basis);
            assert(self.view().pnl_by_token =~= record_sell(v, token@, sell_amount as int, sell_proceeds_yocto as int).pnl_by_token);
        }
        pnl
    }

    /// Whether a swap of `from_amount` of `from_token` for `to_amount` of
    /// `to_token` keeps every balance, cost basis and P&L value within its
    /// integer type, as `execute_simulated_swap` requires.
    pub fn swap_fits(&self, from_token: &String, from_amount: u128, to_token: &String, to_amount: u128) -> (r: bool)
        requires
            self.wf(),
        ensures
            r == swap_ok(self.view(), from_token@, from_amount as int, to_token@, to_amount as int),
    {
        let ghost v = self.view();
        let from_is_quote = *from_token == self.quote_token;
        let to_is_quote = *to_token == self.quote_token;
        let held: u128 = match self.holdings.get(from_token) {
            Some(a) => a.smallest_units,
            None => 0,
        };
        let available: u128 = if from_is_quote {
            self.cash_balance
        } else {
            held
        };
        let actual = if from_amount <= available {
            from_amount
        } else {
            available
        };
        if actual == 0 {
            return true;
        }
        let out = Self::scale_output(to_amount, actual, from_amount);
        if out == 0 {
            return true;
        }
        // The sale side: proceeds, cost of the units sold, and the P&L sums.
        if !from_is_quote {
            let cost = self.average_cost_of_sold(from_token, actual, held);
            let proceeds: u128 = if to_is_quote {
                out
            } else {
                cost
            };
            let limit: u128 = i128::MAX as u128;
            if proceeds > limit || cost > limit {
                return false;
            }
            let pnl: i128 = proceeds as i128 - cost as i128;
            if self.realized_pnl.checked_add(pnl).is_none() {
                return false;
            }
            let prev: i128 = match self.realized_pnl_by_token.get(from_token) {
                Some(p) => p,
                None => 0,
            };
            if prev.checked_add(pnl).is_none() {
                return false;
            }
        }
        proof {
            let reduced = reduce_holding(v, from_token@, actual as int);
            if !from_is_quote {
                assert(units_of(reduced.holdings, from_token@) + actual == held);
            }
        }
        if to_is_quote {
            let cash_after: u128 = if from_is_quote {
                self.cash_balance - actual
            } else {
                self.cash_balance
            };
            cash_after.checked_add(out).is_some()
        } else {
            let to_units: u128 = if from_is_quote {
                match self.holdings.get(to_token) {
                    Some(a) => a.smallest_units,
                    None => 0,
                }
            } else if *to_token == *from_token {
                held - actual
            } else {
                match self.holdings.get(to_token) {
                    Some(a) => a.smallest_units,
                    None => 0,
                }
            };
            if to_units.checked_add(out).is_none() {
                return false;
            }
            if from_is_quote {
                let basis: u128 = match self.cost_basis.get(to_token) {
                    Some(b) => b,
                    None => 0,
                };
                basis.checked_add(actual).is_some()
            } else {
                true
            }
        }
    }

    /// Executes a simulated swap of up to `from_amount` of `from_token` for
    /// `to_amount` of `to_token`, updating cash, holdings, cost basis and
    /// realized P&L.
    ///
    /// The input is capped at the available balance and the output scaled in
    /// proportion. Returns `None`, changing nothing, when nothing can be
    /// taken or the scaled output is zero.
    pub fn execute_simulated_swap(
        &mut self,
        from_token: &String,
        from_amount: u128,
        to_token: &String,
        to_amount: u128,
    ) -> (r: Option<SwapResult>)
        requires
            old(self).wf(),
            swap_ok(old(self).view(), from_token@, from_amount as int, to_token@, to_amount as int),
        ensures
            final(self).wf(),
            final(self).view() == swap_result(
                old(self).view(),
                from_token@,
                from_amount as int,
                to_token@,
                to_amount as int,
            ),
            match swap_amounts(old(self).view(), from_token@, from_amount as int, to_amount as int) {
                None => r.is_none(),
                Some((a, o)) => r == Some(SwapResult { actual_in: a as u128, actual_out: o as u128 }),
            },
            r.is_none() ==> final(self).view() == old(self).view(),
    {
        let ghost v0 = self.view();
        let from_is_quote = *from_token == self.quote_token;
        let to_is_quote = *to_token == self.quote_token;
        let available: u128 = if from_is_quote {
            self.cash_balance
        } else {
            match self.holdings.get(from_token) {
                Some(a) => a.smallest_units,
                None => 0,
            }
        };
        let actual_from = if from_amount <= available {
            from_amount
        } else {
            available
        };
        if actual_from == 0 {
            return None;
        }
        let actual_to = Self::scale_output(to_amount, actual_from, from_amount);
        if actual_to == 0 {
            return None;
        }

        // Deduct from the source.
        if from_is_quote {
            self.cash_balance = self.cash_balance - actual_from;
        } else {
            let held = match self.holdings.get(from_token) {
                Some(a) => a,
                None => TokenAmount { smallest_units: 0, decimals: DEFAULT_DECIMALS },
            };
            let current = held.smallest_units;
            self.holdings.insert(
                from_token.clone(),
                TokenAmount { smallest_units: current - actual_from, decimals: held.decimals },
            );
            let ghost v_reduced = self.view();
            proof {
                assert(v_reduced == reduce_holding(v0, from_token@, actual_from as int));
            }
            let sell_proceeds_yocto = if to_is_quote {
                actual_to
            } else {
                self.average_cost_of_sold_of_total(from_token, actual_from, current)
            };
            self.record_sell_pnl(from_token, actual_from, sell_proceeds_yocto);
            let emptied = match self.holdings.get(from_token) {
                Some(a) => a.smallest_units == 0,
                None => true,
            };
            if emptied {
                self.holdings.remove(from_token);
            }
        }
        let ghost v_deducted = self.view();
        proof {
            assert(v_deducted == swap_deduct(v0, from_token@, to_token@, actual_from as int, actual_to as int));
        }

        // Credit the destination.
        if to_is_quote {
            self.cash_balance = self.cash_balance + actual_to;
        } else {
            let (prev_units, decimals) = match self.holdings.get(to_token) {
                Some(a) => (a.smallest_units, a.decimals),
                None => (0u128, DEFAULT_DECIMALS),
            };
            self.holdings.insert(
                to_token.clone(),
                TokenAmount { smallest_units: prev_units + actual_to, decimals },
            );
            if from_is_quote {
                let basis: u128 = match self.cost_basis.get(to_token) {
                    Some(b) => b,
                    None => 0,
                };
                self.cost_basis.insert(to_token.clone(), basis + actual_from);
            }
        }
        Some(SwapResult { actual_in: actual_from, actual_out: actual_to })
    }

    /// Average cost of `sell` units of `token` when `total` units were held
    /// before the sale (the ledger's cost basis is not yet reduced).
    fn average_cost_of_sold_of_total(&self, token: &String, sell: u128, total: u128) -> (r: u128)
        requires
            self.wf(),
            sell <= total,
        ensures
            r as int == average_cost_of_sold(cost_of(self.view().cost_basis, token@), sell as int, total as int),
    {
        self.average_cost_of_sold(token, sell, total)
    }

    /// Value of `amount` of `token` in yoctoNEAR at `rate`, or zero when no
    /// usable rate is given or the value does not fit in 128 bits.
    pub fn token_amount_to_yocto(amount: TokenAmount, rate: Option<ExchangeRate>) -> (r: u128)
        ensures
            r as int == yocto_value(amount.smallest_units as int, rate),
    {
        match rate {
            None => 0,
            Some(rt) => {
                if rt.raw_rate == 0 {
                    return 0;
                }
                match mul_div_floor(amount.smallest_units, YOCTO_PER_NEAR, rt.raw_rate) {
                    Some(y) => y,
                    None => 0,
                }
            },
        }
    }

    /// Total value of the ledger in yoctoNEAR: cash plus every holding
    /// valued at `rates`, a holding without a usable rate counting as
    /// nothing. `None` when the total does not fit in 128 bits.
    pub fn total_value_yocto(&self, rates: &TokenMap<ExchangeRate>) -> (r: Option<u128>)
        requires
            self.wf(),
            rates.wf(),
        ensures
            match r {
                Some(t) => t == self.view().cash + holdings_value(self.holding_items(), rates.view()),
                None => self.view().cash + holdings_value(self.holding_items(), rates.view()) > u128::MAX,
            },
    {
        let ghost items = self.holding_items();
        let n = self.holdings_count();
        let mut total: u128 = self.cash_balance;
        let mut i: usize = 0;
        while i < n
            invariant
                self.wf(),
                rates.wf(),
                items == self.holding_items(),
                n == items.len(),
                i <= n,
                total == self.view().cash + holdings_value(items.take(i as int), rates.view()),
            decreases n - i,
        {
            let ghost next = items.take(i as int + 1);
            proof {
                assert(next.drop_last() =~= items.take(i as int));
                assert(next.last() == items[i as int]);
            }
            let (token, amount) = self.holding_at(i);
            let value = if amount.smallest_units == 0 {
                proof {
                    lemma_proceeds_nonneg(rates.view(), token@, amount);
                }
                0
            } else {
                Self::token_amount_to_yocto(amount, rates.get(token))
            };
            match total.checked_add(value) {
                Some(t) => {
                    total = t;
                },
                None => {
                    proof {
                        lemma_holdings_value_prefix(items, rates.view(), i as int + 1);
                    }
                    return None;
                },
            }
            i = i + 1;
        }
        proof {
            assert(items.take(n as int) =~= items);
        }
        Some(total)
    }

    /// Whether liquidating every holding at `rates` keeps cash and the P&L
    /// values within their integer types, as `liquidate_all` requires.
    pub fn liquidation_fits(&self, rates: &TokenMap<ExchangeRate>) -> (r: bool)
        requires
            self.wf(),
            rates.wf(),
        ensures
            r == liquidate_fits(self.view(), self.holding_items(), rates.view()),
    {
        let ghost v = self.view();
        let ghost items = self.holding_items();
        proof {
            self.holdings.lemma_keys_distinct();
        }
        let n = self.holdings_count();
        let mut cash: u128 = self.cash_balance;
        let mut realized: i128 = self.realized_pnl;
        let mut i: usize = 0;
        while i < n
            invariant
                self.wf(),
                rates.wf(),
                v == self.view(),
                items == self.holding_items(),
                n == items.len(),
                self.holdings.key_seq().no_duplicates(),
                i <= n,
                liquidate_fits(v, items.take(i as int), rates.view()),
                cash == liquidate_seq(v, items.take(i as int), rates.view()).0.cash,
                realized == liquidate_seq(v, items.take(i as int), rates.view()).0.realized_pnl,
            decreases n - i,
        {
            let ghost prefix = items.take(i as int);
            let ghost next_prefix = items.take(i as int + 1);
            let ghost prev = liquidate_seq(v, prefix, rates.view()).0;
            proof {
                assert(next_prefix.drop_last() =~= prefix);
                assert(next_prefix.last() == items[i as int]);
            }
            let (token, amount) = self.holding_at(i);
            let rate = rates.get(token);
            let proceeds = Self::token_amount_to_yocto(amount, rate);
            if amount.smallest_units != 0 && proceeds != 0 {
                proof {
                    let keys = self.holdings.key_seq();
                    assert forall|q: int| 0 <= q < prefix.len() implies (#[trigger] prefix[q]).0 != token@ by {
                        assert(prefix[q] == items[q]);
                        assert(keys[q] != keys[i as int]);
                    }
                    lemma_liquidation_untouched(v, prefix, rates.view(), token@);
                }
                let cost: u128 = match self.cost_basis.get(token) {
                    Some(c) => c,
                    None => 0,
                };
                let limit: u128 = i128::MAX as u128;
                if proceeds > limit || cost > limit {
                    proof {
                        lemma_liquidate_fits_extend_fails(v, items, rates.view(), i as int, n as int);
                    }
                    return false;
                }
                let pnl: i128 = proceeds as i128 - cost as i128;
                let prev_token_pnl: i128 = match self.realized_pnl_by_token.get(token) {
                    Some(p) => p,
                    None => 0,
                };
                let fits = cash.checked_add(proceeds).is_some() && realized.checked_add(pnl).is_some()
                    && prev_token_pnl.checked_add(pnl).is_some();
                if !fits {
                    proof {
                        lemma_liquidate_fits_extend_fails(v, items, rates.view(), i as int, n as int);
                    }
                    return false;
                }
                cash = cash + proceeds;
                realized = realized + pnl;
            }
            i = i + 1;
        }
        proof {
            assert(items.take(n as int) =~= items);
        }
        true
    }

    /// Liquidates every non-zero holding back to wNEAR at the given rates,
    /// in the ledger's order. Holdings without a usable rate are kept.
    /// Returns one record per closed position.
    pub fn liquidate_all(&mut self, rates: &TokenMap<ExchangeRate>) -> (recs: Vec<Liquidation>)
        requires
            old(self).wf(),
            rates.wf(),
            liquidate_fits(old(self).view(), old(self).holding_items(), rates.view()),
        ensures
            final(self).wf(),
            final(self).view() == liquidate_seq(old(self).view(), old(self).holding_items(), rates.view()).0,
            recs@.map_values(|l: Liquidation| (l.token@, l.amount, l.proceeds_yocto as int, l.realized_pnl_yocto as int))
                == liquidate_seq(old(self).view(), old(self).holding_items(), rates.view()).1,
            final(self).view().cash == old(self).view().cash + holdings_value(old(self).holding_items(), rates.view()),
    {
        let ghost v0 = self.view();
        let ghost items = self.holding_items();
        // Snapshot the positions first: liquidation removes entries.
        let mut positions: Vec<(String, TokenAmount)> = Vec::new();
        let n = self.holdings_count();
        let mut j: usize = 0;
        while j < n
            invariant
                self.wf(),
                self.view() == v0,
                self.holding_items() == items,
                n == items.len(),
                j <= n,
                positions@.len() == j,
                forall|q: int| 0 <= q < j ==> (#[trigger] positions@[q].0@, positions@[q].1) == items[q],
            decreases n - j,
        {
            let (t, a) = self.holding_at(j);
            positions.push((t.clone(), a));
            j = j + 1;
        }
        let mut recs: Vec<Liquidation> = Vec::new();
        let mut i: usize = 0;
        while i < n
            invariant
                self.wf(),
                rates.wf(),
                n == items.len(),
                i <= n,
                positions@.len() == n,
                forall|q: int| 0 <= q < n ==> (#[trigger] positions@[q].0@, positions@[q].1) == items[q],
                liquidate_fits(v0, items, rates.view()),
                self.view() == liquidate_seq(v0, items.take(i as int), rates.view()).0,
                recs@.map_values(|l: Liquidation| (l.token@, l.amount, l.proceeds_yocto as int, l.realized_pnl_yocto as int))
                    == liquidate_seq(v0, items.take(i as int), rates.view()).1,
            decreases n - i,
        {
            let ghost before = self.view();
            let ghost prefix = items.take(i as int);
            let ghost next_prefix = items.take(i as int + 1);
            proof {
                assert(next_prefix.drop_last() =~= prefix);
                assert(next_prefix.last() == items[i as int]);
                lemma_liquidate_fits_prefix(v0, items, rates.view(), i as int + 1);
            }
            let token = positions[i].0.clone();
            let amount = positions[i].1;
            let rate = rates.get(&token);
            let proceeds = Self::token_amount_to_yocto(amount, rate);
            if amount.smallest_units != 0 && proceeds != 0 {
                self.holdings.remove(&token);
                self.cash_balance = self.cash_balance + proceeds;
                let pnl = self.record_sell_pnl(&token, amount.smallest_units, proceeds);
                recs.push(Liquidation {
                    token,
                    amount,
                    proceeds_yocto: proceeds,
                    realized_pnl_yocto: pnl,
                });
                proof {
                    assert(recs@.map_values(|l: Liquidation| (l.token@, l.amount, l.proceeds_yocto as int, l.realized_pnl_yocto as int))
                        =~= liquidate_seq(v0, next_prefix, rates.view()).1);
                }
            } else {
                proof {
                    assert(recs@.map_values(|l: Liquidation| (l.token@, l.amount, l.proceeds_yocto as int, l.realized_pnl_yocto as int))
                        =~= liquidate_seq(v0, next_prefix, rates.view()).1);
                }
            }
            i = i + 1;
        }
        proof {
            assert(items.take(n as int) =~= items);
            lemma_liquidation_realizes_value(v0, items, rates.view());
        }
        recs
    }
}

/// When the prefix of length `i + 1` does not fit, neither does the whole
/// sequence.
proof fn lemma_liquidate_fits_extend_fails(
    v: LedgerView,
    items: Seq<(Seq<char>, TokenAmount)>,
    rates: Map<Seq<char>, ExchangeRate>,
    i: int,
    n: int,
)
    requires
        0 <= i < n,
        n == items.len(),
        !liquidate_fits(v, items.take(i + 1), rates),
    ensures
        !liquidate_fits(v, items, rates),
{
    if liquidate_fits(v, items, rates) {
        lemma_liquidate_fits_prefix(v, items, rates, i + 1);
    }
}

/// Fitting a liquidation sequence implies fitting each of its prefixes.
proof fn lemma_liquidate_fits_prefix(
    v: LedgerView,
    items: Seq<(Seq<char>, TokenAmount)>,
    rates: Map<Seq<char>, ExchangeRate>,
    len: int,
)
    requires
        0 <= len <= items.len(),
        liquidate_fits(v, items, rates),
    ensures
        liquidate_fits(v, items.take(len), rates),
    decreases items.len() - len,
{
    if len < items.len() {
        lemma_liquidate_fits_prefix(v, items, rates, len + 1);
        assert(items.take(len + 1).drop_last() =~= items.take(len));
    } else {
        assert(items.take(len) =~= items);
    }
}

} // verus!
