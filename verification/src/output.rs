//! The records that a simulation run reports, and the counts derived from
//! them.
use vstd::prelude::*;

verus! {

/// How a simulated swap obtained its output amount.
#[derive(Debug, Clone, Copy, PartialEq, Eq)]
pub enum SwapMethod {
    /// From the pool reserves along the route.
    PoolBased,
    /// From the recorded exchange rate, when no pool route was available.
    DbRate,
}

/// The kind of a recorded trade.
#[derive(Debug, Clone, Copy, PartialEq, Eq)]
pub enum TradeAction {
    Buy,
    Sell,
    Liquidation,
}

/// One simulated swap as written to the report.
#[derive(Debug, Clone)]
pub struct SwapEventEntry {
    pub timestamp: String,
    pub token_in: String,
    pub amount_in: String,
    pub amount_in_raw: u128,
    pub token_out: String,
    pub amount_out: String,
    pub amount_out_raw: u128,
    pub swap_method: SwapMethod,
    pub pool_ids: Vec<u32>,
}

/// How many swaps there were, and how many of them used each method.
#[derive(Debug, Clone, Copy, PartialEq, Eq)]
pub struct SwapStats {
    pub total_swaps: usize,
    pub pool_based_swaps: usize,
    pub fallback_swaps: usize,
}

/// The number of entries of `s` equal to `m`.
pub open spec fn method_count(s: Seq<SwapMethod>, m: SwapMethod) -> nat {
    s.filter(|x: SwapMethod| x == m).len()
}

/// The number of entries of `s` equal to `a`.
pub open spec fn action_count(s: Seq<TradeAction>, a: TradeAction) -> nat {
    s.filter(|x: TradeAction| x == a).len()
}

/// Counting an element of a sequence splits by whether it equals the
/// counted value.
proof fn lemma_filter_eq_push<A>(s: Seq<A>, x: A, v: A)
    ensures
        s.push(x).filter(|y: A| y == v).len() == s.filter(|y: A| y == v).len() + (if x == v {
            1int
        } else {
            0int
        }),
{
    reveal_with_fuel(Seq::filter, 1);
    assert(s.push(x).drop_last() =~= s);
}

/// Every entry of a sequence of methods is one of the two methods.
pub proof fn lemma_method_counts_partition(s: Seq<SwapMethod>)
    ensures
        method_count(s, SwapMethod::PoolBased) + method_count(s, SwapMethod::DbRate) == s.len(),
    decreases s.len(),
{
    if s.len() > 0 {
        lemma_method_counts_partition(s.drop_last());
        lemma_filter_eq_push(s.drop_last(), s.last(), SwapMethod::PoolBased);
        lemma_filter_eq_push(s.drop_last(), s.last(), SwapMethod::DbRate);
        assert(s.drop_last().push(s.last()) =~= s);
    }
}

/// Every entry of a sequence of trade actions is one of the three actions.
pub proof fn lemma_action_counts_partition(s: Seq<TradeAction>)
    ensures
        action_count(s, TradeAction::Buy) + action_count(s, TradeAction::Sell) + action_count(
            s,
            TradeAction::Liquidation,
        ) == s.len(),
    decreases s.len(),
{
    if s.len() > 0 {
        lemma_action_counts_partition(s.drop_last());
        lemma_filter_eq_push(s.drop_last(), s.last(), TradeAction::Buy);
        lemma_filter_eq_push(s.drop_last(), s.last(), TradeAction::Sell);
        lemma_filter_eq_push(s.drop_last(), s.last(), TradeAction::Liquidation);
        assert(s.drop_last().push(s.last()) =~= s);
    }
}

impl SwapStats {
    /// Counts the swaps by method: every swap is either pool based or a
    /// fallback to recorded rates.
    pub fn from_events(methods: &Vec<SwapMethod>) -> (r: Self)
        ensures
            r.total_swaps == methods@.len(),
            r.pool_based_swaps == method_count(methods@, SwapMethod::PoolBased),
            r.fallback_swaps == method_count(methods@, SwapMethod::DbRate),
            r.pool_based_swaps + r.fallback_swaps == r.total_swaps,
    {
        let mut pool: usize = 0;
        let mut fallback: usize = 0;
        let mut i: usize = 0;
        while i < methods.len()
            invariant
                i <= methods@.len(),
                pool == method_count(methods@.take(i as int), SwapMethod::PoolBased),
                fallback == method_count(methods@.take(i as int), SwapMethod::DbRate),
                pool + fallback == i,
            decreases methods@.len() - i,
        {
            proof {
                assert(methods@.take(i as int + 1) =~= methods@.take(i as int).push(methods@[i as int]));
                lemma_filter_eq_push(methods@.take(i as int), methods@[i as int], SwapMethod::PoolBased);
                lemma_filter_eq_push(methods@.take(i as int), methods@[i as int], SwapMethod::DbRate);
            }
            match methods[i] {
                SwapMethod::PoolBased => {
                    pool = pool + 1;
                },
                SwapMethod::DbRate => {
                    fallback = fallback + 1;
                },
            }
            i = i + 1;
        }
        proof {
            assert(methods@.take(methods@.len() as int) =~= methods@);
        }
        SwapStats { total_swaps: methods.len(), pool_based_swaps: pool, fallback_swaps: fallback }
    }
}

/// The number of trades that are not liquidations, and the number of
/// liquidations.
pub fn trade_and_liquidation_counts(actions: &Vec<TradeAction>) -> (r: (usize, usize))
    ensures
        r.0 == action_count(actions@, TradeAction::Buy) + action_count(actions@, TradeAction::Sell),
        r.1 == action_count(actions@, TradeAction::Liquidation),
        r.0 + r.1 == actions@.len(),
{
    let mut trades: usize = 0;
    let mut liquidations: usize = 0;
    let mut i: usize = 0;
    while i < actions.len()
        invariant
            i <= actions@.len(),
            trades == action_count(actions@.take(i as int), TradeAction::Buy) + action_count(
                actions@.take(i as int),
                TradeAction::Sell,
            ),
            liquidations == action_count(actions@.take(i as int), TradeAction::Liquidation),
            trades + liquidations == i,
        decreases actions@.len() - i,
    {
        proof {
            assert(actions@.take(i as int + 1) =~= actions@.take(i as int).push(actions@[i as int]));
            lemma_filter_eq_push(actions@.take(i as int), actions@[i as int], TradeAction::Buy);
            lemma_filter_eq_push(actions@.take(i as int), actions@[i as int], TradeAction::Sell);
            lemma_filter_eq_push(actions@.take(i as int), actions@[i as int], TradeAction::Liquidation);
        }
        match actions[i] {
            TradeAction::Liquidation => {
                liquidations = liquidations + 1;
            },
            _ => {
                trades = trades + 1;
            },
        }
        i = i + 1;
    }
    proof {
        assert(actions@.take(actions@.len() as int) =~= actions@);
    }
    (trades, liquidations)
}

} // verus!
