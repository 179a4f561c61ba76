//! Splitting a wNEAR balance among purchases.
//!
//! Weights are given as non-negative integers on a common scale (for
//! example a decimal weight's digits at the largest scale among the
//! weights); only their proportions matter.
use crate::arith::{floor_mul_div, mul_div_floor};
use vstd::prelude::*;

verus! {

/// Basis points in one.
pub const BPS_ONE: u128 = 10_000;

/// Sum of the first `n` weights.
pub open spec fn weight_prefix(w: Seq<(usize, u128)>, n: int) -> int
    decreases n,
{
    if n <= 0 {
        0
    } else {
        weight_prefix(w, n - 1) + w[n - 1].1
    }
}

/// Sum of all weights.
pub open spec fn weight_total(w: Seq<(usize, u128)>) -> int {
    weight_prefix(w, w.len() as int)
}

/// Weight `i` in basis points of the total, rounded down (zero when all
/// weights are zero).
pub open spec fn weight_bps(w: Seq<(usize, u128)>, i: int) -> int {
    if weight_total(w) == 0 {
        0
    } else {
        floor_mul_div(w[i].1 as int, BPS_ONE as int, weight_total(w))
    }
}

/// Sum of the first `n` basis-point weights.
pub open spec fn bps_prefix(w: Seq<(usize, u128)>, n: int) -> int
    decreases n,
{
    if n <= 0 {
        0
    } else {
        bps_prefix(w, n - 1) + weight_bps(w, n - 1)
    }
}

/// Sum of all basis-point weights.
pub open spec fn bps_total(w: Seq<(usize, u128)>) -> int {
    bps_prefix(w, w.len() as int)
}

/// Share of `balance` for position `i` in proportion to its basis points,
/// rounded down.
pub open spec fn bps_share(w: Seq<(usize, u128)>, balance: int, i: int) -> int {
    if bps_total(w) > 0 {
        floor_mul_div(balance, weight_bps(w, i), bps_total(w))
    } else {
        0
    }
}

/// Sum of the shares of the first `n` positions.
pub open spec fn share_prefix(w: Seq<(usize, u128)>, balance: int, n: int) -> int
    decreases n,
{
    if n <= 0 {
        0
    } else {
        share_prefix(w, balance, n - 1) + bps_share(w, balance, n - 1)
    }
}

proof fn lemma_weight_prefix_bounds(w: Seq<(usize, u128)>, n: int)
    requires
        0 <= n <= w.len(),
    ensures
        0 <= weight_prefix(w, n) <= weight_total(w),
        forall|k: int| 0 <= k < n ==> w[k].1 <= weight_prefix(w, n),
    decreases w.len() - n,
{
    lemma_weight_prefix_mono(w, n);
}

proof fn lemma_weight_prefix_mono(w: Seq<(usize, u128)>, n: int)
    requires
        0 <= n <= w.len(),
    ensures
        0 <= weight_prefix(w, n) <= weight_total(w),
        forall|k: int| 0 <= k < n ==> w[k].1 <= weight_prefix(w, n),
    decreases w.len() - n,
{
    lemma_weight_prefix_nonneg(w, n);
    if n < w.len() {
        lemma_weight_prefix_mono(w, n + 1);
    }
}

proof fn lemma_weight_prefix_nonneg(w: Seq<(usize, u128)>, n: int)
    requires
        0 <= n <= w.len(),
    ensures
        0 <= weight_prefix(w, n),
        forall|k: int| 0 <= k < n ==> w[k].1 <= weight_prefix(w, n),
    decreases n,
{
    if n > 0 {
        lemma_weight_prefix_nonneg(w, n - 1);
    }
}

proof fn lemma_bps_bounds(w: Seq<(usize, u128)>, i: int)
    requires
        0 <= i < w.len(),
    ensures
        0 <= weight_bps(w, i) <= BPS_ONE,
{
    lemma_weight_prefix_bounds(w, w.len() as int);
    if weight_total(w) > 0 {
        let t = weight_total(w);
        let x = w[i].1 as int;
        assert(x <= t);
        assert(0 <= (x * 10000) / t <= 10000) by (nonlinear_arith)
            requires
                0 <= x <= t,
                t > 0,
        ;
    }
}

proof fn lemma_bps_prefix_bounds(w: Seq<(usize, u128)>, n: int)
    requires
        0 <= n <= w.len(),
    ensures
        0 <= bps_prefix(w, n) <= BPS_ONE * n,
        bps_prefix(w, n) <= bps_total(w),
    decreases w.len() - n,
{
    lemma_bps_prefix_lower(w, n);
    if n < w.len() {
        lemma_bps_prefix_bounds(w, n + 1);
        lemma_bps_bounds(w, n);
    }
}

proof fn lemma_bps_prefix_lower(w: Seq<(usize, u128)>, n: int)
    requires
        0 <= n <= w.len(),
    ensures
        0 <= bps_prefix(w, n) <= BPS_ONE * n,
    decreases n,
{
    if n > 0 {
        lemma_bps_prefix_lower(w, n - 1);
        lemma_bps_bounds(w, n - 1);
    }
}

/// The shares of the first `n` positions never exceed the balance.
proof fn lemma_share_prefix_bound(w: Seq<(usize, u128)>, balance: int, n: int)
    requires
        0 <= n <= w.len(),
        balance >= 0,
    ensures
        share_prefix(w, balance, n) * bps_total(w) <= balance * bps_prefix(w, n),
        0 <= share_prefix(w, balance, n),
        bps_total(w) > 0 ==> share_prefix(w, balance, n) <= balance,
        bps_total(w) == 0 ==> share_prefix(w, balance, n) == 0,
    decreases n,
{
    lemma_bps_prefix_bounds(w, n);
    if n > 0 {
        lemma_share_prefix_bound(w, balance, n - 1);
        lemma_bps_bounds(w, n - 1);
        let t = bps_total(w);
        let x = weight_bps(w, n - 1);
        let sp = share_prefix(w, balance, n - 1);
        let bp = bps_prefix(w, n - 1);
        if t > 0 {
            let q = (balance * x) / t;
            assert(q * t <= balance * x && q >= 0) by (nonlinear_arith)
                requires
                    t > 0,
                    balance >= 0,
                    x >= 0,
                    q == (balance * x) / t,
            ;
            assert((sp + q) * t <= balance * (bp + x)) by (nonlinear_arith)
                requires
                    sp * t <= balance * bp,
                    q * t <= balance * x,
            ;
            assert(sp + q <= balance) by (nonlinear_arith)
                requires
                    (sp + q) * t <= balance * (bp + x),
                    bp + x <= t,
                    t > 0,
                    balance >= 0,
            ;
        }
    }
}

/// Splits `balance` among AddPosition actions in proportion to their
/// weights, keeping each action's index.
///
/// Each weight is converted to basis points of the total weight (rounded
/// down) and every position but the last receives
/// `balance × bps / Σ bps`, rounded down; the last position takes what is
/// left, so the amounts always add up to `balance`.
pub fn allocate_add_position_amounts(add_positions: &Vec<(usize, u128)>, balance: u128) -> (r: Vec<(usize, u128)>)
    requires
        weight_total(add_positions@) <= u128::MAX,
    ensures
        r@.len() == add_positions@.len(),
        forall|i: int| 0 <= i < r@.len() ==> (#[trigger] r@[i]).0 == add_positions@[i].0,
        forall|i: int|
            0 <= i < r@.len() - 1 ==> (#[trigger] r@[i]).1 == bps_share(add_positions@, balance as int, i),
        r@.len() > 0 ==> r@[r@.len() - 1].1 == balance - share_prefix(
            add_positions@,
            balance as int,
            r@.len() - 1,
        ),
        r@.len() > 0 ==> share_prefix(add_positions@, balance as int, r@.len() - 1)
            + r@[r@.len() - 1].1 == balance,
{
    let n = add_positions.len();
    let mut result: Vec<(usize, u128)> = Vec::new();
    if n == 0 {
        return result;
    }
    let ghost w = add_positions@;
    // Total weight.
    let mut total_weight: u128 = 0;
    let mut k: usize = 0;
    while k < n
        invariant
            w == add_positions@,
            n == w.len(),
            k <= n,
            total_weight == weight_prefix(w, k as int),
            weight_total(w) <= u128::MAX,
        decreases n - k,
    {
        proof {
            lemma_weight_prefix_bounds(w, k as int + 1);
        }
        total_weight = total_weight + add_positions[k].1;
        k = k + 1;
    }
    // Weights in basis points.
    let mut weights_bps: Vec<u128> = Vec::new();
    let mut total_bps: u128 = 0;
    k = 0;
    while k < n
        invariant
            w == add_positions@,
            n == w.len(),
            k <= n,
            total_weight == weight_total(w),
            weights_bps@.len() == k,
            forall|q: int| 0 <= q < k ==> weights_bps@[q] == weight_bps(w, q),
            total_bps == bps_prefix(w, k as int),
        decreases n - k,
    {
        let bps: u128 = if total_weight == 0 {
            0
        } else {
            proof {
                lemma_weight_prefix_bounds(w, n as int);
            }
            match mul_div_floor(add_positions[k].1, BPS_ONE, total_weight) {
                Some(v) => v,
                None => 0,
            }
        };
        proof {
            lemma_bps_bounds(w, k as int);
            lemma_bps_prefix_bounds(w, k as int + 1);
            if total_weight != 0 {
                assert(weight_bps(w, k as int) <= BPS_ONE);
            }
        }
        weights_bps.push(bps);
        total_bps = total_bps + bps;
        k = k + 1;
    }
    // Allocation: the last position takes the remainder.
    let mut allocated_sum: u128 = 0;
    let mut i: usize = 0;
    while i < n
        invariant
            w == add_positions@,
            n == w.len(),
            n > 0,
            i <= n,
            weights_bps@.len() == n,
            forall|q: int| 0 <= q < n ==> weights_bps@[q] == weight_bps(w, q),
            total_bps == bps_total(w),
            result@.len() == i,
            forall|q: int| 0 <= q < i ==> (#[trigger] result@[q]).0 == w[q].0,
            forall|q: int| 0 <= q < i && q < n - 1 ==> (#[trigger] result@[q]).1 == bps_share(w, balance as int, q),
            i < n ==> allocated_sum == share_prefix(w, balance as int, i as int),
            i == n ==> result@[n - 1].1 == balance - share_prefix(w, balance as int, n - 1),
            i == n ==> share_prefix(w, balance as int, n - 1) + result@[n - 1].1 == balance,
        decreases n - i,
    {
        proof {
            lemma_share_prefix_bound(w, balance as int, i as int);
            lemma_share_prefix_bound(w, balance as int, i as int + 1);
        }
        let amount: u128 = if i == n - 1 {
            balance - allocated_sum
        } else if total_bps > 0 {
            proof {
                lemma_bps_prefix_bounds(w, n as int);
                lemma_bps_bounds(w, i as int);
            }
            match mul_div_floor(balance, weights_bps[i], total_bps) {
                Some(v) => v,
                None => 0,
            }
        } else {
            0
        };
        proof {
            if i < n - 1 && total_bps > 0 {
                let x = weight_bps(w, i as int);
                let t = bps_total(w);
                lemma_bps_prefix_bounds(w, n as int);
                lemma_bps_prefix_bounds(w, i as int + 1);
                lemma_bps_prefix_lower(w, i as int);
                assert(bps_prefix(w, i as int + 1) == bps_prefix(w, i as int) + x);
                assert(x <= t);
                assert((balance as int * x) / t <= balance as int) by (nonlinear_arith)
                    requires
                        0 <= x <= t,
                        t > 0,
                        balance >= 0,
                ;
            }
        }
        if i < n - 1 {
            allocated_sum = allocated_sum + amount;
        }
        result.push((add_positions[i].0, amount));
        i = i + 1;
    }
    result
}

/// Sum of the first `n` values.
pub open spec fn value_prefix(v: Seq<u128>, n: int) -> int
    decreases n,
{
    if n <= 0 {
        0
    } else {
        value_prefix(v, n - 1) + v[n - 1]
    }
}

/// Sum of all values.
pub open spec fn value_total(v: Seq<u128>) -> int {
    value_prefix(v, v.len() as int)
}

/// Value `i` scaled down to what is available: `v × available / total`,
/// rounded down.
pub open spec fn scaled_share(v: Seq<u128>, available: int, i: int) -> int {
    floor_mul_div(v[i] as int, available, value_total(v))
}

/// Sum of the first `n` scaled values.
pub open spec fn scaled_prefix(v: Seq<u128>, available: int, n: int) -> int
    decreases n,
{
    if n <= 0 {
        0
    } else {
        scaled_prefix(v, available, n - 1) + scaled_share(v, available, n - 1)
    }
}

proof fn lemma_value_prefix(v: Seq<u128>, n: int)
    requires
        0 <= n <= v.len(),
    ensures
        0 <= value_prefix(v, n) <= value_total(v),
    decreases v.len() - n,
{
    lemma_value_prefix_nonneg(v, n);
    if n < v.len() {
        lemma_value_prefix(v, n + 1);
    }
}

proof fn lemma_value_prefix_nonneg(v: Seq<u128>, n: int)
    requires
        0 <= n <= v.len(),
    ensures
        0 <= value_prefix(v, n),
    decreases n,
{
    if n > 0 {
        lemma_value_prefix_nonneg(v, n - 1);
    }
}

proof fn lemma_scaled_prefix_bound(v: Seq<u128>, available: int, n: int)
    requires
        0 <= n <= v.len(),
        available >= 0,
        value_total(v) > 0,
    ensures
        scaled_prefix(v, available, n) * value_total(v) <= available * value_prefix(v, n),
        0 <= scaled_prefix(v, available, n) <= available,
    decreases n,
{
    lemma_value_prefix(v, n);
    if n > 0 {
        lemma_scaled_prefix_bound(v, available, n - 1);
        lemma_value_prefix(v, n - 1);
        let t = value_total(v);
        let x = v[n - 1] as int;
        let sp = scaled_prefix(v, available, n - 1);
        let bp = value_prefix(v, n - 1);
        let q = (x * available) / t;
        assert(q * t <= available * x && q >= 0) by (nonlinear_arith)
            requires
                t > 0,
                available >= 0,
                x >= 0,
                q == (x * available) / t,
        ;
        assert((sp + q) * t <= available * (bp + x)) by (nonlinear_arith)
            requires
                sp * t <= available * bp,
                q * t <= available * x,
        ;
        assert(sp + q <= available) by (nonlinear_arith)
            requires
                (sp + q) * t <= available * (bp + x),
                bp + x <= t,
                t > 0,
                available >= 0,
        ;
    }
}

/// wNEAR amounts for the remaining purchases of a rebalance.
///
/// When the purchases together cost more than the `available` wNEAR, each
/// is scaled by `available / total` (rounded down) and the last one takes
/// what is left so that exactly `available` is spent; otherwise each
/// purchase gets its own value.
pub fn allocate_remaining_buy_amounts(values: &Vec<u128>, available: u128) -> (r: Vec<u128>)
    requires
        value_total(values@) <= u128::MAX,
    ensures
        r@.len() == values@.len(),
        value_total(values@) <= available ==> r@ == values@,
        value_total(values@) > available ==> {
            &&& forall|i: int| 0 <= i < r@.len() - 1 ==> #[trigger] r@[i] == scaled_share(values@, available as int, i)
            &&& r@[r@.len() - 1] == available - scaled_prefix(values@, available as int, r@.len() - 1)
            &&& scaled_prefix(values@, available as int, r@.len() - 1) + r@[r@.len() - 1] == available
        },
{
    let n = values.len();
    let ghost v = values@;
    let mut total: u128 = 0;
    let mut k: usize = 0;
    while k < n
        invariant
            v == values@,
            n == v.len(),
            k <= n,
            total == value_prefix(v, k as int),
            value_total(v) <= u128::MAX,
        decreases n - k,
    {
        proof {
            lemma_value_prefix(v, k as int + 1);
        }
        total = total + values[k];
        k = k + 1;
    }
    let scale = total > available;
    let mut result: Vec<u128> = Vec::new();
    let mut allocated_sum: u128 = 0;
    let mut i: usize = 0;
    while i < n
        invariant
            v == values@,
            n == v.len(),
            i <= n,
            total == value_total(v),
            scale == (total > available),
            result@.len() == i,
            !scale ==> result@ == v.subrange(0, i as int),
            scale ==> forall|q: int| 0 <= q < i && q < n - 1 ==> #[trigger] result@[q] == scaled_share(v, available as int, q),
            scale && i < n ==> allocated_sum == scaled_prefix(v, available as int, i as int),
            scale && i == n ==> result@[n - 1] == available - scaled_prefix(v, available as int, n - 1),
            scale && i == n ==> scaled_prefix(v, available as int, n - 1) + result@[n - 1] == available,
        decreases n - i,
    {
        let amount: u128 = if scale {
            proof {
                lemma_scaled_prefix_bound(v, available as int, i as int);
                lemma_scaled_prefix_bound(v, available as int, i as int + 1);
                lemma_value_prefix(v, i as int + 1);
                lemma_value_prefix(v, i as int);
            }
            if i == n - 1 {
                available - allocated_sum
            } else {
                proof {
                    let x = v[i as int] as int;
                    let t = total as int;
                    assert(value_prefix(v, i as int + 1) == value_prefix(v, i as int) + x);
                    assert(x <= t);
                    assert((x * available) / t <= available) by (nonlinear_arith)
                        requires
                            0 <= x <= t,
                            t > 0,
                            available >= 0,
                    ;
                }
                match mul_div_floor(values[i], available, total) {
                    Some(a) => a,
                    None => 0,
                }
            }
        } else {
            values[i]
        };
        if scale && i < n - 1 {
            allocated_sum = allocated_sum + amount;
        }
        result.push(amount);
        i = i + 1;
        proof {
            if !scale {
                assert(result@ =~= v.subrange(0, i as int));
            }
        }
    }
    proof {
        if !scale {
            assert(result@ =~= v);
        }
    }
    result
}

} // verus!
