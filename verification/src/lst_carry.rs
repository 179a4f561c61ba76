//! Liquid-staking carry strategy: buy and hold a fixed universe of
//! liquid-staking tokens, skipping any whose rate has de-pegged from its
//! reference.
use crate::arith::{floor_mul_div, mul_div_floor};
use crate::portfolio_state::ExchangeRate;
use crate::token_map::TokenMap;
use vstd::prelude::*;

verus! {

/// Parts per million in one.
pub const PPM_ONE: u128 = 1_000_000;

/// The carry universe: LiNEAR and stNEAR account ids.
pub fn carry_universe() -> (u: Vec<String>)
    ensures
        u@.len() == 2,
        u@[0]@ == "linear-protocol.near"@,
        u@[1]@ == "meta-pool.near"@,
{
    let mut u: Vec<String> = Vec::new();
    u.push("linear-protocol.near".to_owned());
    u.push("meta-pool.near".to_owned());
    u
}

/// `|observed - reference|`.
pub open spec fn abs_diff(a: int, b: int) -> int {
    if a >= b {
        a - b
    } else {
        b - a
    }
}

/// Whether `observed` deviates from `reference` by more than
/// `max_depeg_ppm` parts per million of `reference`. A zero reference cannot
/// be assessed and counts as de-pegged.
pub open spec fn depegged(observed: int, reference: int, max_depeg_ppm: int) -> bool {
    if reference == 0 {
        true
    } else {
        abs_diff(observed, reference) * PPM_ONE > max_depeg_ppm * reference
    }
}

/// Whether a token's observed rate has de-pegged beyond the tolerance
/// versus its reference rate (fails closed on a zero reference).
pub fn is_depegged(observed: &ExchangeRate, reference: &ExchangeRate, max_depeg_ppm: u64) -> (r: bool)
    ensures
        r == depegged(observed.raw_rate as int, reference.raw_rate as int, max_depeg_ppm as int),
{
    if reference.raw_rate == 0 {
        return true;
    }
    let diff: u128 = if observed.raw_rate >= reference.raw_rate {
        observed.raw_rate - reference.raw_rate
    } else {
        reference.raw_rate - observed.raw_rate
    };
    // diff × 10^6 > tol × ref  <=>  diff > floor(tol × ref / 10^6)
    let threshold = mul_div_floor(reference.raw_rate, max_depeg_ppm as u128, PPM_ONE);
    proof {
        let t = floor_mul_div(reference.raw_rate as int, max_depeg_ppm as int, PPM_ONE as int);
        let x = reference.raw_rate as int * max_depeg_ppm as int;
        let d = diff as int;
        assert(t * 1_000_000 <= x < t * 1_000_000 + 1_000_000) by (nonlinear_arith)
            requires
                t == x / 1_000_000,
        ;
        assert(d > t <==> d * 1_000_000 > x) by (nonlinear_arith)
            requires
                t * 1_000_000 <= x < t * 1_000_000 + 1_000_000,
        ;
        assert(x == max_depeg_ppm as int * reference.raw_rate as int) by (nonlinear_arith)
            requires
                x == reference.raw_rate as int * max_depeg_ppm as int,
        ;
        assert(d == abs_diff(observed.raw_rate as int, reference.raw_rate as int));
        assert(d <= u128::MAX);
    }
    match threshold {
        None => false,
        Some(t) => diff > t,
    }
}

/// Whether `token` may be bought: it has an observed rate, and either no
/// reference rate or one it has not de-pegged from.
pub open spec fn carry_healthy(
    observed: Map<Seq<char>, ExchangeRate>,
    reference: Map<Seq<char>, ExchangeRate>,
    token: Seq<char>,
    max_depeg_ppm: int,
) -> bool {
    observed.contains_key(token) && (!reference.contains_key(token) || !depegged(
        observed[token].raw_rate as int,
        reference[token].raw_rate as int,
        max_depeg_ppm,
    ))
}

/// The healthy tokens of the universe, in universe order: those with an
/// observed rate that have not de-pegged from their reference rate (a token
/// without a reference rate is accepted).
pub fn carry_targets(
    universe: &Vec<String>,
    observed: &TokenMap<ExchangeRate>,
    reference: &TokenMap<ExchangeRate>,
    max_depeg_ppm: u64,
) -> (healthy: Vec<String>)
    requires
        observed.wf(),
        reference.wf(),
    ensures
        healthy@.map_values(|t: String| t@) == universe@.map_values(|t: String| t@).filter(
            |t: Seq<char>| carry_healthy(observed.view(), reference.view(), t, max_depeg_ppm as int),
        ),
{
    let ghost keep = |t: Seq<char>| carry_healthy(observed.view(), reference.view(), t, max_depeg_ppm as int);
    let ghost names = universe@.map_values(|t: String| t@);
    let mut healthy: Vec<String> = Vec::new();
    let mut i: usize = 0;
    while i < universe.len()
        invariant
            observed.wf(),
            reference.wf(),
            i <= universe@.len(),
            names == universe@.map_values(|t: String| t@),
            keep == (|t: Seq<char>| carry_healthy(observed.view(), reference.view(), t, max_depeg_ppm as int)),
            healthy@.map_values(|t: String| t@) == names.take(i as int).filter(keep),
        decreases universe@.len() - i,
    {
        let token = &universe[i];
        let ok = match observed.get(token) {
            None => false,
            Some(obs) => match reference.get(token) {
                None => true,
                Some(rf) => !is_depegged(&obs, &rf, max_depeg_ppm),
            },
        };
        proof {
            assert(names.take(i as int + 1).drop_last() =~= names.take(i as int));
            assert(names.take(i as int + 1).last() == token@);
            reveal_with_fuel(Seq::filter, 1);
            assert(ok == keep(token@));
        }
        if ok {
            healthy.push(token.clone());
        }
        proof {
            assert(healthy@.map_values(|t: String| t@) =~= names.take(i as int + 1).filter(keep));
        }
        i = i + 1;
    }
    proof {
        assert(names.take(universe@.len() as int) =~= names);
    }
    healthy
}

/// Equal target weights over `tokens`: each token with weight `1/n` where
/// `n` is the number of tokens, given as the pair `(token, n)`. Empty for an
/// empty list.
pub fn equal_weight_targets(tokens: &Vec<String>) -> (w: Vec<(String, usize)>)
    ensures
        w@.len() == tokens@.len(),
        forall|i: int| 0 <= i < w@.len() ==> #[trigger] w@[i].0 == tokens@[i] && w@[i].1 == tokens@.len(),
{
    let n = tokens.len();
    let mut w: Vec<(String, usize)> = Vec::new();
    let mut i: usize = 0;
    while i < n
        invariant
            n == tokens@.len(),
            i <= n,
            w@.len() == i,
            forall|q: int| 0 <= q < i ==> #[trigger] w@[q].0 == tokens@[q] && w@[q].1 == n,
        decreases n - i,
    {
        w.push((tokens[i].clone(), n));
        i = i + 1;
    }
    w
}

/// Entry confinement: the carry mode rebalances into `targets` only on the
/// cycle that opens a new evaluation period, and only when there is
/// something to buy; otherwise it holds.
pub fn carry_actions(is_new_period: bool, targets: Vec<String>) -> (r: Option<Vec<String>>)
    ensures
        is_new_period && targets@.len() > 0 ==> r == Some(targets),
        !(is_new_period && targets@.len() > 0) ==> r.is_none(),
{
    if is_new_period && targets.len() > 0 {
        Some(targets)
    } else {
        None
    }
}

} // verus!
