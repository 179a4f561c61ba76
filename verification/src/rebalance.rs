//! Planning a rebalance: from target weights, current holdings and rates
//! to the sell and buy operations that move the portfolio toward the
//! targets, and the outcome of executing them.
use vstd::prelude::*;
use crate::arith::{
    floor_mul_div, lemma_div_at_least, lemma_floor_of_difference, mul_div_below, mul_div_floor, mul_div_rem,
};
use vstd::arithmetic::div_mod::lemma_mod_bound;
use crate::matching::{BuyOperation, DirectSwap, SellOperation};
use crate::portfolio_state::ExchangeRate;

verus! {

/// Target weights are fixed-point numbers with 18 decimals.
pub const WEIGHT_SCALE: u128 = 1_000_000_000_000_000_000;

/// yoctoNEAR per NEAR.
pub const YOCTO_PER_NEAR: u128 = 1_000_000_000_000_000_000_000_000;

/// The smallest difference worth trading: 1 NEAR.
pub const MIN_TRADE_YOCTO: u128 = 1_000_000_000_000_000_000_000_000;

/// One token of the target portfolio: its target weight (on
/// `WEIGHT_SCALE`), the smallest units currently held, and its latest rate
/// against NEAR where one was looked up.
#[derive(Debug, Clone)]
pub struct RebalanceEntry {
    pub token: String,
    pub weight: i128,
    pub current_units: u128,
    pub rate: Option<ExchangeRate>,
}

/// Whether the entry's holding can be valued: something is held and the
/// rate is at least one smallest unit per NEAR.
pub open spec fn valued(e: RebalanceEntry) -> bool {
    e.current_units > 0 && (e.rate matches Some(r) && r.raw_rate > 0)
}

/// The current value of the holding in yoctoNEAR is `cur_num / cur_den`
/// exactly: `units × 10^24 / rate`, or zero when it cannot be valued.
pub open spec fn cur_num(e: RebalanceEntry) -> int {
    if valued(e) {
        e.current_units as int * YOCTO_PER_NEAR as int
    } else {
        0
    }
}

/// Denominator of the current value.
pub open spec fn cur_den(e: RebalanceEntry) -> int {
    if valued(e) {
        e.rate->0.raw_rate as int
    } else {
        1
    }
}

/// The target value in yoctoNEAR is `tgt_num / WEIGHT_SCALE` exactly: the
/// weight's share of the total value.
pub open spec fn tgt_num(e: RebalanceEntry, total: int) -> int {
    total * e.weight as int
}

/// The exact gap to the target (target minus current value, in
/// yoctoNEAR) is `gap_num / gap_den`.
pub open spec fn gap_num(e: RebalanceEntry, total: int) -> int {
    tgt_num(e, total) * cur_den(e) - cur_num(e) * WEIGHT_SCALE as int
}

/// Denominator of the gap.
pub open spec fn gap_den(e: RebalanceEntry) -> int {
    WEIGHT_SCALE as int * cur_den(e)
}

/// Whether the entry takes part: a non-negative weight, and not the quote
/// token itself.
pub open spec fn considered(e: RebalanceEntry, quote: Seq<char>) -> bool {
    e.weight >= 0 && e.token@ != quote
}

/// Whether the entry needs a sale: its exact value exceeds its exact
/// target by at least the minimum trade.
pub open spec fn needs_sell(e: RebalanceEntry, total: int, quote: Seq<char>) -> bool {
    considered(e, quote) && -gap_num(e, total) >= MIN_TRADE_YOCTO as int * gap_den(e)
}

/// Whether the entry needs a purchase: its exact target exceeds its exact
/// value by at least the minimum trade.
pub open spec fn needs_buy(e: RebalanceEntry, total: int, quote: Seq<char>) -> bool {
    considered(e, quote) && gap_num(e, total) >= MIN_TRADE_YOCTO as int * gap_den(e)
}

/// Value of a planned sale: the excess over the target, in whole
/// yoctoNEAR, rounded down.
pub open spec fn sell_value(e: RebalanceEntry, total: int) -> int {
    -gap_num(e, total) / gap_den(e)
}

/// Value of a planned purchase: the shortfall below the target, in whole
/// yoctoNEAR, rounded down.
pub open spec fn buy_value(e: RebalanceEntry, total: int) -> int {
    gap_num(e, total) / gap_den(e)
}

/// Why an entry stops the plan.
#[derive(Debug, Clone, Copy, PartialEq, Eq)]
pub enum PlanRefusal {
    /// A holding of the token exists but no rate was found for it.
    MissingRate,
    /// The target or the current value, in whole yoctoNEAR, does not fit in
    /// 128 bits.
    ValueOverflow,
}

/// A refused plan: the refusal and the token it concerns.
#[derive(Debug, Clone, PartialEq, Eq)]
pub struct PlanError {
    pub kind: PlanRefusal,
    pub token: String,
}

/// The refusal an entry causes, if any.
pub open spec fn refusal(e: RebalanceEntry, total: int, quote: Seq<char>) -> Option<PlanRefusal> {
    if !considered(e, quote) {
        None
    } else if e.current_units > 0 && e.rate is None {
        Some(PlanRefusal::MissingRate)
    } else if tgt_num(e, total) / (WEIGHT_SCALE as int) > u128::MAX || cur_num(e) / cur_den(e) > u128::MAX {
        Some(PlanRefusal::ValueOverflow)
    } else {
        None
    }
}

/// The index of the first of the first `n` entries that is refused.
pub open spec fn first_refusal(s: Seq<RebalanceEntry>, total: int, quote: Seq<char>, n: int) -> Option<int>
    decreases n,
{
    if n <= 0 {
        None
    } else {
        match first_refusal(s, total, quote, n - 1) {
            Some(i) => Some(i),
            None => if refusal(s[n - 1], total, quote) is Some {
                Some(n - 1)
            } else {
                None
            },
        }
    }
}

/// Once an entry is refused, it stays the first refusal of every longer
/// prefix.
proof fn lemma_first_refusal_stays(s: Seq<RebalanceEntry>, total: int, quote: Seq<char>, k: int, n: int)
    requires
        0 <= k <= n,
        first_refusal(s, total, quote, k) is Some,
    ensures
        first_refusal(s, total, quote, n) == first_refusal(s, total, quote, k),
    decreases n - k,
{
    if k < n {
        lemma_first_refusal_stays(s, total, quote, k, n - 1);
    }
}

/// The planned sales of the first `n` entries, in entry order: token, value
/// and rate of each.
pub open spec fn planned_sells(s: Seq<RebalanceEntry>, total: int, quote: Seq<char>, n: int) -> Seq<(Seq<char>, int, ExchangeRate)>
    decreases n,
{
    if n <= 0 {
        Seq::empty()
    } else {
        let e = s[n - 1];
        let rest = planned_sells(s, total, quote, n - 1);
        if needs_sell(e, total, quote) {
            rest.push((e.token@, sell_value(e, total), e.rate->0))
        } else {
            rest
        }
    }
}

/// The planned purchases of the first `n` entries, in entry order: token
/// and value of each.
pub open spec fn planned_buys(s: Seq<RebalanceEntry>, total: int, quote: Seq<char>, n: int) -> Seq<(Seq<char>, int)>
    decreases n,
{
    if n <= 0 {
        Seq::empty()
    } else {
        let e = s[n - 1];
        let rest = planned_buys(s, total, quote, n - 1);
        if needs_buy(e, total, quote) {
            rest.push((e.token@, buy_value(e, total)))
        } else {
            rest
        }
    }
}

/// The entry that the `a`-th planned sale among the first `n` entries
/// comes from: one that needs a sale.
proof fn sell_source(s: Seq<RebalanceEntry>, total: int, quote: Seq<char>, n: int, a: int) -> (i: int)
    requires
        0 <= n <= s.len(),
        0 <= a < planned_sells(s, total, quote, n).len(),
    ensures
        0 <= i < n,
        needs_sell(s[i], total, quote),
        s[i].token@ == planned_sells(s, total, quote, n)[a].0,
        planned_sells(s, total, quote, n)[a] == (s[i].token@, sell_value(s[i], total), s[i].rate->0),
    decreases n,
{
    let prev = planned_sells(s, total, quote, n - 1);
    if a < prev.len() {
        sell_source(s, total, quote, n - 1, a)
    } else {
        n - 1
    }
}

/// The entry that the `b`-th planned purchase among the first `n` entries
/// comes from: one that needs a purchase.
proof fn buy_source(s: Seq<RebalanceEntry>, total: int, quote: Seq<char>, n: int, b: int) -> (i: int)
    requires
        0 <= n <= s.len(),
        0 <= b < planned_buys(s, total, quote, n).len(),
    ensures
        0 <= i < n,
        needs_buy(s[i], total, quote),
        s[i].token@ == planned_buys(s, total, quote, n)[b].0,
        planned_buys(s, total, quote, n)[b] == (s[i].token@, buy_value(s[i], total)),
    decreases n,
{
    let prev = planned_buys(s, total, quote, n - 1);
    if b < prev.len() {
        buy_source(s, total, quote, n - 1, b)
    } else {
        n - 1
    }
}

/// Where the planned sale of entry `i` stands among the planned sales of
/// the first `n` entries.
proof fn sell_index(s: Seq<RebalanceEntry>, total: int, quote: Seq<char>, n: int, i: int) -> (a: int)
    requires
        0 <= i < n <= s.len(),
        needs_sell(s[i], total, quote),
    ensures
        0 <= a < planned_sells(s, total, quote, n).len(),
        planned_sells(s, total, quote, n)[a] == (s[i].token@, sell_value(s[i], total), s[i].rate->0),
    decreases n,
{
    if i < n - 1 {
        sell_index(s, total, quote, n - 1, i)
    } else {
        planned_sells(s, total, quote, n - 1).len() as int
    }
}

/// Where the planned purchase of entry `i` stands among the planned
/// purchases of the first `n` entries.
proof fn buy_index(s: Seq<RebalanceEntry>, total: int, quote: Seq<char>, n: int, i: int) -> (b: int)
    requires
        0 <= i < n <= s.len(),
        needs_buy(s[i], total, quote),
    ensures
        0 <= b < planned_buys(s, total, quote, n).len(),
        planned_buys(s, total, quote, n)[b] == (s[i].token@, buy_value(s[i], total)),
    decreases n,
{
    if i < n - 1 {
        buy_index(s, total, quote, n - 1, i)
    } else {
        planned_buys(s, total, quote, n - 1).len() as int
    }
}

/// Whether the `a`-th planned sale is that of an entry with a non-negative
/// weight, other than the quote token, holding units at a positive rate
/// `r`, whose exact excess over its target (scaled by `S·r`),
/// `x = u·Y·S − total·w·r`, is at least one NEAR (`x >= Y·S·r`), sold for
/// `floor(x / (S·r))` at its rate.
pub open spec fn sale_of_excess(s: Seq<RebalanceEntry>, total: int, quote: Seq<char>, a: int) -> bool {
    exists|i: int|
        0 <= i < s.len() && (#[trigger] s[i]).weight >= 0 && s[i].token@ != quote && s[i].current_units > 0
            && s[i].rate is Some && s[i].rate->0.raw_rate > 0 && s[i].current_units as int * (YOCTO_PER_NEAR as int)
            * (WEIGHT_SCALE as int) - total * (s[i].weight as int) * (s[i].rate->0.raw_rate as int) >= (
        YOCTO_PER_NEAR as int) * (WEIGHT_SCALE as int) * (s[i].rate->0.raw_rate as int) && planned_sells(
            s,
            total,
            quote,
            s.len() as int,
        )[a] == (
            s[i].token@,
            (s[i].current_units as int * (YOCTO_PER_NEAR as int) * (WEIGHT_SCALE as int) - total * (
            s[i].weight as int) * (s[i].rate->0.raw_rate as int)) / ((WEIGHT_SCALE as int) * (
            s[i].rate->0.raw_rate as int)),
            s[i].rate->0,
        )
}

/// Law: the plan sells exactly the holdings worth at least one NEAR more
/// than their targets. Writing `S = 10^18` (the weight scale), `Y = 10^24`
/// and, for a holding of `u` units at a rate of `r` units per NEAR with
/// weight `w`, `x = u·Y·S − total·w·r` (its exact excess over its target,
/// scaled by `S·r`): every entry with a non-negative weight, other than the
/// quote token, holding units at a positive rate, with `x >= Y·S·r` is sold
/// for `floor(x / (S·r))` at its rate (a zero weight sells the whole
/// holding); and every planned sale is such an entry's.
pub proof fn lemma_plan_sells_every_excess(s: Seq<RebalanceEntry>, total: int, quote: Seq<char>)
    requires
        total >= 0,
    ensures
        forall|i: int|
            0 <= i < s.len() && (#[trigger] s[i]).weight >= 0 && s[i].token@ != quote && s[i].current_units > 0
                && s[i].rate is Some && s[i].rate->0.raw_rate > 0 && s[i].current_units as int * (YOCTO_PER_NEAR as int)
                * (WEIGHT_SCALE as int) - total * (s[i].weight as int) * (s[i].rate->0.raw_rate as int) >= (YOCTO_PER_NEAR as int)
                * (WEIGHT_SCALE as int) * (s[i].rate->0.raw_rate as int) ==> exists|a: int|
                0 <= a < planned_sells(s, total, quote, s.len() as int).len() && #[trigger] planned_sells(
                    s,
                    total,
                    quote,
                    s.len() as int,
                )[a] == (s[i].token@, (s[i].current_units as int * (YOCTO_PER_NEAR as int) * (WEIGHT_SCALE as int) - total
                    * (s[i].weight as int) * (s[i].rate->0.raw_rate as int)) / ((WEIGHT_SCALE as int) * (
                s[i].rate->0.raw_rate as int)), s[i].rate->0),
        forall|a: int|
            0 <= a < planned_sells(s, total, quote, s.len() as int).len() ==> #[trigger] sale_of_excess(
                s,
                total,
                quote,
                a,
            ),
{
    let n = s.len() as int;
    assert forall|i: int|
        0 <= i < s.len() && (#[trigger] s[i]).weight >= 0 && s[i].token@ != quote && s[i].current_units > 0
            && s[i].rate is Some && s[i].rate->0.raw_rate > 0 && s[i].current_units as int * (YOCTO_PER_NEAR as int)
            * (WEIGHT_SCALE as int) - total * (s[i].weight as int) * (s[i].rate->0.raw_rate as int) >= (YOCTO_PER_NEAR as int)
            * (WEIGHT_SCALE as int) * (s[i].rate->0.raw_rate as int) implies exists|a: int|
            0 <= a < planned_sells(s, total, quote, n).len() && #[trigger] planned_sells(s, total, quote, n)[a] == (
                s[i].token@,
                (s[i].current_units as int * (YOCTO_PER_NEAR as int) * (WEIGHT_SCALE as int) - total * (
                s[i].weight as int) * (s[i].rate->0.raw_rate as int)) / ((WEIGHT_SCALE as int) * (
                s[i].rate->0.raw_rate as int)),
                s[i].rate->0,
            ) by {
        let e = s[i];
        assert(valued(e));
        assert(needs_sell(e, total, quote));
        let a = sell_index(s, total, quote, n, i);
        assert(planned_sells(s, total, quote, n)[a] == (e.token@, sell_value(e, total), e.rate->0));
    }
    assert forall|a: int| 0 <= a < planned_sells(s, total, quote, s.len() as int).len() implies #[trigger] sale_of_excess(
        s,
        total,
        quote,
        a,
    ) by {
        let i = planned_sell_origin(s, total, quote, a);
        assert(s[i].weight >= 0);
    }
}

/// The entry that a planned sale comes from, with its exact excess.
proof fn planned_sell_origin(s: Seq<RebalanceEntry>, total: int, quote: Seq<char>, a: int) -> (i: int)
    requires
        total >= 0,
        0 <= a < planned_sells(s, total, quote, s.len() as int).len(),
    ensures
        0 <= i < s.len(),
        s[i].weight >= 0,
        s[i].token@ != quote,
        s[i].current_units > 0,
        s[i].rate is Some,
        s[i].rate->0.raw_rate > 0,
        s[i].current_units as int * (YOCTO_PER_NEAR as int) * (WEIGHT_SCALE as int) - total * (s[i].weight as int) * (
        s[i].rate->0.raw_rate as int) >= (YOCTO_PER_NEAR as int) * (WEIGHT_SCALE as int) * (s[i].rate->0.raw_rate as int),
        planned_sells(s, total, quote, s.len() as int)[a] == (
            s[i].token@,
            (s[i].current_units as int * (YOCTO_PER_NEAR as int) * (WEIGHT_SCALE as int) - total * (s[i].weight as int) * (
            s[i].rate->0.raw_rate as int)) / ((WEIGHT_SCALE as int) * (s[i].rate->0.raw_rate as int)),
            s[i].rate->0,
        ),
{
    let n = s.len() as int;
    let i = sell_source(s, total, quote, n, a);
    let e = s[i];
    if !valued(e) {
        assert(cur_num(e) == 0);
        assert(tgt_num(e, total) >= 0) by (nonlinear_arith)
            requires
                tgt_num(e, total) == total * e.weight as int,
                total >= 0,
                e.weight >= 0,
        ;
        assert(gap_num(e, total) == tgt_num(e, total) * 1 - 0 * (WEIGHT_SCALE as int));
        assert(gap_den(e) > 0);
        assert(false);
    }
    let r = e.rate->0.raw_rate as int;
    let x = e.current_units as int * (YOCTO_PER_NEAR as int) * (WEIGHT_SCALE as int) - total * (e.weight as int) * r;
    assert(gap_den(e) == (WEIGHT_SCALE as int) * r);
    assert(-gap_num(e, total) == x);
    assert(x >= (YOCTO_PER_NEAR as int) * (WEIGHT_SCALE as int) * r) by (nonlinear_arith)
        requires
            x >= (MIN_TRADE_YOCTO as int) * ((WEIGHT_SCALE as int) * r),
            MIN_TRADE_YOCTO == YOCTO_PER_NEAR,
    ;
    i
}

/// The exact shortfall of an entry below its target, scaled by `S·d`, and
/// the scale `d`: with a holding of `u` units at a positive rate `r`,
/// `(total·w·r − u·Y·S, r)`; without a priced holding, `(total·w, 1)`.
pub open spec fn shortfall_parts(e: RebalanceEntry, total: int) -> (int, int) {
    if e.current_units > 0 && e.rate is Some && e.rate->0.raw_rate > 0 {
        (
            total * (e.weight as int) * (e.rate->0.raw_rate as int) - e.current_units as int * (YOCTO_PER_NEAR as int) * (
            WEIGHT_SCALE as int),
            e.rate->0.raw_rate as int,
        )
    } else {
        (total * (e.weight as int), 1)
    }
}

/// Whether the `b`-th planned purchase is that of an entry with a
/// non-negative weight, other than the quote token, whose exact shortfall
/// `y` (scale `d`, see `shortfall_parts`) is at least one NEAR
/// (`y >= Y·S·d`), bought for `floor(y / (S·d))`.
pub open spec fn purchase_of_shortfall(s: Seq<RebalanceEntry>, total: int, quote: Seq<char>, b: int) -> bool {
    exists|i: int|
        0 <= i < s.len() && (#[trigger] s[i]).weight >= 0 && s[i].token@ != quote && shortfall_parts(s[i], total).0
            >= (YOCTO_PER_NEAR as int) * (WEIGHT_SCALE as int) * shortfall_parts(s[i], total).1 && planned_buys(
            s,
            total,
            quote,
            s.len() as int,
        )[b] == (
            s[i].token@,
            shortfall_parts(s[i], total).0 / ((WEIGHT_SCALE as int) * shortfall_parts(s[i], total).1),
        )
}

/// Law: the plan buys exactly the tokens worth at least one NEAR less than
/// their targets: every entry with a non-negative weight, other than the
/// quote token, whose exact shortfall is at least one NEAR is bought for
/// its shortfall rounded down; and every planned purchase is such an
/// entry's.
pub proof fn lemma_plan_buys_every_shortfall(s: Seq<RebalanceEntry>, total: int, quote: Seq<char>)
    requires
        total >= 0,
    ensures
        forall|i: int|
            0 <= i < s.len() && (#[trigger] s[i]).weight >= 0 && s[i].token@ != quote && shortfall_parts(s[i], total).0
                >= (YOCTO_PER_NEAR as int) * (WEIGHT_SCALE as int) * shortfall_parts(s[i], total).1 ==> exists|b: int|
                0 <= b < planned_buys(s, total, quote, s.len() as int).len() && #[trigger] planned_buys(
                    s,
                    total,
                    quote,
                    s.len() as int,
                )[b] == (
                    s[i].token@,
                    shortfall_parts(s[i], total).0 / ((WEIGHT_SCALE as int) * shortfall_parts(s[i], total).1),
                ),
        forall|b: int|
            0 <= b < planned_buys(s, total, quote, s.len() as int).len() ==> #[trigger] purchase_of_shortfall(
                s,
                total,
                quote,
                b,
            ),
{
    let n = s.len() as int;
    assert forall|i: int|
        0 <= i < s.len() && (#[trigger] s[i]).weight >= 0 && s[i].token@ != quote && shortfall_parts(s[i], total).0
            >= (YOCTO_PER_NEAR as int) * (WEIGHT_SCALE as int) * shortfall_parts(s[i], total).1 implies exists|b: int|
            0 <= b < planned_buys(s, total, quote, n).len() && #[trigger] planned_buys(s, total, quote, n)[b] == (
                s[i].token@,
                shortfall_parts(s[i], total).0 / ((WEIGHT_SCALE as int) * shortfall_parts(s[i], total).1),
            ) by {
        let e = s[i];
        lemma_shortfall_is_gap(e, total);
        let b = buy_index(s, total, quote, n, i);
    }
    assert forall|b: int| 0 <= b < planned_buys(s, total, quote, s.len() as int).len() implies #[trigger] purchase_of_shortfall(
        s,
        total,
        quote,
        b,
    ) by {
        let i = buy_source(s, total, quote, n, b);
        lemma_shortfall_is_gap(s[i], total);
    }
}

/// The shortfall parts are the gap's numerator and its scale.
proof fn lemma_shortfall_is_gap(e: RebalanceEntry, total: int)
    ensures
        shortfall_parts(e, total).0 == gap_num(e, total),
        (WEIGHT_SCALE as int) * shortfall_parts(e, total).1 == gap_den(e),
        (YOCTO_PER_NEAR as int) * (WEIGHT_SCALE as int) * shortfall_parts(e, total).1 == MIN_TRADE_YOCTO as int * gap_den(
            e,
        ),
        buy_value(e, total) == shortfall_parts(e, total).0 / ((WEIGHT_SCALE as int) * shortfall_parts(e, total).1),
{
    let d = shortfall_parts(e, total).1;
    assert((YOCTO_PER_NEAR as int) * (WEIGHT_SCALE as int) * d == (MIN_TRADE_YOCTO as int) * ((WEIGHT_SCALE as int) * d))
        by (nonlinear_arith)
        requires
            MIN_TRADE_YOCTO == YOCTO_PER_NEAR,
    ;
}

/// Law: a rebalance plan never trades the quote token, and when the
/// entries name distinct tokens no token is both sold and bought.
pub proof fn lemma_plan_is_one_sided_per_token(s: Seq<RebalanceEntry>, total: int, quote: Seq<char>)
    requires
        forall|i: int, j: int| 0 <= i < j < s.len() ==> #[trigger] s[i].token@ != #[trigger] s[j].token@,
    ensures
        forall|a: int|
            0 <= a < planned_sells(s, total, quote, s.len() as int).len() ==> #[trigger] planned_sells(
                s,
                total,
                quote,
                s.len() as int,
            )[a].0 != quote,
        forall|b: int|
            0 <= b < planned_buys(s, total, quote, s.len() as int).len() ==> #[trigger] planned_buys(
                s,
                total,
                quote,
                s.len() as int,
            )[b].0 != quote,
        forall|a: int, b: int|
            0 <= a < planned_sells(s, total, quote, s.len() as int).len() && 0 <= b < planned_buys(
                s,
                total,
                quote,
                s.len() as int,
            ).len() ==> #[trigger] planned_sells(s, total, quote, s.len() as int)[a].0 != #[trigger] planned_buys(
                s,
                total,
                quote,
                s.len() as int,
            )[b].0,
{
    let n = s.len() as int;
    let sells = planned_sells(s, total, quote, n);
    let buys = planned_buys(s, total, quote, n);
    assert forall|a: int| 0 <= a < sells.len() implies #[trigger] sells[a].0 != quote by {
        let i = sell_source(s, total, quote, n, a);
    }
    assert forall|b: int| 0 <= b < buys.len() implies #[trigger] buys[b].0 != quote by {
        let i = buy_source(s, total, quote, n, b);
    }
    assert forall|a: int, b: int| 0 <= a < sells.len() && 0 <= b < buys.len() implies #[trigger] sells[a].0
        != #[trigger] buys[b].0 by {
        let i = sell_source(s, total, quote, n, a);
        let j = buy_source(s, total, quote, n, b);
        if i != j && sells[a].0 == buys[b].0 {
            if i < j {
                assert(s[i].token@ != s[j].token@);
            } else {
                assert(s[j].token@ != s[i].token@);
            }
        }
    }
}

/// The abstract form of a list of sales.
pub open spec fn sells_view(v: Seq<SellOperation>) -> Seq<(Seq<char>, int, ExchangeRate)> {
    v.map_values(|o: SellOperation| (o.token@, o.near_value as int, o.exchange_rate))
}

/// The abstract form of a list of purchases.
pub open spec fn buys_view(v: Seq<BuyOperation>) -> Seq<(Seq<char>, int)> {
    v.map_values(|o: BuyOperation| (o.token@, o.near_value as int))
}

/// The gap computation of one considered entry, from the quotients and
/// remainders of its exact target and current value: whether it needs a
/// sale or a purchase, and of how much.
proof fn lemma_gap_parts(e: RebalanceEntry, total: int, qa: int, ra: int, qb: int, rb: int)
    requires
        total >= 0,
        e.weight >= 0,
        qa == tgt_num(e, total) / (WEIGHT_SCALE as int),
        ra == tgt_num(e, total) % (WEIGHT_SCALE as int),
        qb == cur_num(e) / cur_den(e),
        rb == cur_num(e) % cur_den(e),
    ensures
        gap_den(e) > 0,
        buy_value(e, total) == qa - qb - (if ra * cur_den(e) >= rb * (WEIGHT_SCALE as int) {
            0int
        } else {
            1int
        }),
        sell_value(e, total) == qb - qa - (if rb * (WEIGHT_SCALE as int) >= ra * cur_den(e) {
            0int
        } else {
            1int
        }),
        (gap_num(e, total) >= MIN_TRADE_YOCTO as int * gap_den(e)) == (buy_value(e, total)
            >= MIN_TRADE_YOCTO as int),
        (-gap_num(e, total) >= MIN_TRADE_YOCTO as int * gap_den(e)) == (sell_value(e, total)
            >= MIN_TRADE_YOCTO as int),
{
    let sc = WEIGHT_SCALE as int;
    let d = cur_den(e);
    let a = tgt_num(e, total);
    let b = cur_num(e);
    assert(a >= 0) by (nonlinear_arith)
        requires
            a == total * e.weight as int,
            total >= 0,
            e.weight >= 0,
    ;
    assert(b >= 0) by (nonlinear_arith)
        requires
            b == cur_num(e),
            cur_num(e) == 0 || cur_num(e) == e.current_units as int * YOCTO_PER_NEAR as int,
    ;
    assert(gap_den(e) == sc * d);
    assert(sc * d > 0 && d * sc == sc * d) by (nonlinear_arith)
        requires
            sc > 0,
            d > 0,
    ;
    lemma_floor_of_difference(a, sc, b, d);
    lemma_floor_of_difference(b, d, a, sc);
    assert(-gap_num(e, total) == b * sc - a * d);
    lemma_div_at_least(gap_num(e, total), gap_den(e), MIN_TRADE_YOCTO as int);
    lemma_div_at_least(-gap_num(e, total), gap_den(e), MIN_TRADE_YOCTO as int);
}

/// The sales and purchases that move each considered token toward its
/// target weight of `total_value`, comparing exact values: a token whose
/// value exceeds its target by at least one NEAR is sold down by the
/// excess, one whose target exceeds its value by at least one NEAR is
/// bought up by the shortfall (each rounded down to whole yoctoNEAR);
/// smaller gaps, negative weights and the quote token itself are left
/// alone. Both lists keep the entries' order.
///
/// Refused at the first considered entry that holds units without a rate,
/// or whose target or current value does not fit in 128 bits.
pub fn plan_rebalance(entries: &Vec<RebalanceEntry>, total_value: u128, quote_token: &String) -> (r: Result<
    (Vec<SellOperation>, Vec<BuyOperation>),
    PlanError,
>)
    ensures
        match first_refusal(entries@, total_value as int, quote_token@, entries@.len() as int) {
            None => r matches Ok((sells, buys)) && sells_view(sells@) == planned_sells(
                entries@,
                total_value as int,
                quote_token@,
                entries@.len() as int,
            ) && buys_view(buys@) == planned_buys(
                entries@,
                total_value as int,
                quote_token@,
                entries@.len() as int,
            ),
            Some(i) => r matches Err(err) && err.token@ == entries@[i].token@ && refusal(
                entries@[i],
                total_value as int,
                quote_token@,
            ) == Some(err.kind),
        },
{
    let mut sells: Vec<SellOperation> = Vec::new();
    let mut buys: Vec<BuyOperation> = Vec::new();
    let ghost total = total_value as int;
    let mut i: usize = 0;
    while i < entries.len()
        invariant
            i <= entries@.len(),
            total == total_value as int,
            first_refusal(entries@, total, quote_token@, i as int) is None,
            sells_view(sells@) == planned_sells(entries@, total, quote_token@, i as int),
            buys_view(buys@) == planned_buys(entries@, total, quote_token@, i as int),
        decreases entries@.len() - i,
    {
        let e = &entries[i];
        if e.weight >= 0 && e.token != *quote_token {
            if e.current_units > 0 && e.rate.is_none() {
                proof {
                    lemma_first_refusal_stays(entries@, total, quote_token@, i as int + 1, entries@.len() as int);
                }
                return Err(PlanError { kind: PlanRefusal::MissingRate, token: e.token.clone() });
            }
            let w = e.weight as u128;
            let (qa, ra) = match mul_div_rem(total_value, w, WEIGHT_SCALE) {
                Some(x) => x,
                None => {
                    proof {
                        lemma_first_refusal_stays(entries@, total, quote_token@, i as int + 1, entries@.len() as int);
                    }
                    return Err(PlanError { kind: PlanRefusal::ValueOverflow, token: e.token.clone() });
                },
            };
            let is_valued = e.current_units > 0 && match e.rate {
                Some(rt) => rt.raw_rate > 0,
                None => false,
            };
            let (qb, rb, den): (u128, u128, u128) = if is_valued {
                let rt = match e.rate {
                    Some(rt) => rt.raw_rate,
                    None => 1,
                };
                match mul_div_rem(e.current_units, YOCTO_PER_NEAR, rt) {
                    Some((q, m)) => (q, m, rt),
                    None => {
                        proof {
                            lemma_first_refusal_stays(entries@, total, quote_token@, i as int + 1, entries@.len() as int);
                        }
                        return Err(PlanError { kind: PlanRefusal::ValueOverflow, token: e.token.clone() });
                    },
                }
            } else {
                (0, 0, 1)
            };
            proof {
                assert(is_valued == valued(*e));
                assert(den as int == cur_den(*e));
                assert(tgt_num(*e, total) == total_value as int * w as int);
                if !is_valued {
                    assert(cur_num(*e) == 0);
                    assert(0int / 1int == 0 && 0int % 1int == 0) by (nonlinear_arith);
                }
                assert(refusal(*e, total, quote_token@) is None);
                lemma_gap_parts(*e, total, qa as int, ra as int, qb as int, rb as int);
                lemma_div_at_least(ra as int * den as int, WEIGHT_SCALE as int, rb as int);
                lemma_div_at_least(rb as int * WEIGHT_SCALE as int, den as int, ra as int);
                assert(ra < WEIGHT_SCALE && rb < den) by {
                    lemma_mod_bound(tgt_num(*e, total), WEIGHT_SCALE as int);
                    lemma_mod_bound(cur_num(*e), cur_den(*e));
                }
            }
            let frac_ge = mul_div_below(ra, den, WEIGHT_SCALE) >= rb;
            let frac_le = mul_div_below(rb, WEIGHT_SCALE, den) >= ra;
            let d_buy: u128 = if frac_ge {
                0
            } else {
                1
            };
            let d_sell: u128 = if frac_le {
                0
            } else {
                1
            };
            if qa >= qb && qa - qb >= MIN_TRADE_YOCTO + d_buy {
                let op = BuyOperation { token: e.token.clone(), near_value: qa - qb - d_buy };
                let ghost before = buys@;
                buys.push(op);
                proof {
                    assert(needs_buy(*e, total, quote_token@));
                    assert(buys_view(buys@) =~= buys_view(before).push((e.token@, buy_value(*e, total))));
                }
            } else if qb >= qa && qb - qa >= MIN_TRADE_YOCTO + d_sell {
                proof {
                    assert(needs_sell(*e, total, quote_token@));
                    assert(is_valued) by {
                        if !is_valued {
                            assert(qb == 0);
                        }
                    }
                }
                let rate = match e.rate {
                    Some(rt) => rt,
                    None => ExchangeRate { raw_rate: 0, decimals: 0 },
                };
                let op = SellOperation { token: e.token.clone(), near_value: qb - qa - d_sell, exchange_rate: rate };
                let ghost before = sells@;
                sells.push(op);
                proof {
                    assert(sells_view(sells@) =~= sells_view(before).push(
                        (e.token@, sell_value(*e, total), e.rate->0),
                    ));
                }
            } else {
                proof {
                    assert(!needs_buy(*e, total, quote_token@));
                    assert(!needs_sell(*e, total, quote_token@));
                }
            }
        }
        i = i + 1;
    }
    Ok((sells, buys))
}

/// Successes and failures of one phase of a rebalance.
#[derive(Debug, Clone, Copy, PartialEq, Eq)]
pub struct PhaseCounters {
    pub success: u64,
    pub failed: u64,
}

/// A rebalance fails as a whole only when nothing succeeded and something
/// failed; partial failures are left to the next cycle. The error carries
/// the number of failed operations.
pub fn rebalance_outcome(direct: PhaseCounters, sells: PhaseCounters, buys: PhaseCounters) -> (r: Result<(), u128>)
    ensures
        (direct.success + sells.success + buys.success == 0 && direct.failed + sells.failed + buys.failed > 0)
            ==> r == Err::<(), u128>((direct.failed + sells.failed + buys.failed) as u128),
        !(direct.success + sells.success + buys.success == 0 && direct.failed + sells.failed + buys.failed
            > 0) ==> r == Ok::<(), u128>(()),
{
    let success: u128 = direct.success as u128 + sells.success as u128 + buys.success as u128;
    let failed: u128 = direct.failed as u128 + sells.failed as u128 + buys.failed as u128;
    if success == 0 && failed > 0 {
        Err(failed)
    } else {
        Ok(())
    }
}

/// The smallest units of the sold token that a swap worth `near_value`
/// yoctoNEAR moves at `rate`: `near_value × raw_rate / 10^24`, rounded
/// down; `None` when it does not fit in `u128`. A result of zero means the
/// swap is skipped and falls back to the route through wNEAR.
pub fn swap_token_amount(near_value: u128, rate: ExchangeRate) -> (r: Option<u128>)
    ensures
        match r {
            Some(v) => v as int == floor_mul_div(near_value as int, rate.raw_rate as int, YOCTO_PER_NEAR as int),
            None => floor_mul_div(near_value as int, rate.raw_rate as int, YOCTO_PER_NEAR as int) > u128::MAX,
        },
{
    mul_div_floor(near_value, rate.raw_rate, YOCTO_PER_NEAR)
}

/// What to do with one swap of a rebalance.
#[derive(Debug, Clone, Copy, PartialEq, Eq)]
pub enum SwapAttempt {
    /// Swap this amount of the input token.
    Execute { amount: u128 },
    /// The amount does not fit in 128 bits or rounds to zero: the swap
    /// counts as failed without being tried.
    Fail,
}

/// A swap that sells `near_value` yoctoNEAR worth of a token at `rate`:
/// executed with the amount `swap_token_amount` gives, unless that amount
/// does not fit in 128 bits or is zero.
pub fn sale_attempt(near_value: u128, rate: ExchangeRate) -> (r: SwapAttempt)
    ensures
        ({
            let a = floor_mul_div(near_value as int, rate.raw_rate as int, YOCTO_PER_NEAR as int);
            &&& (0 < a <= u128::MAX) ==> r == (SwapAttempt::Execute { amount: a as u128 })
            &&& !(0 < a <= u128::MAX) ==> r == SwapAttempt::Fail
        }),
{
    match swap_token_amount(near_value, rate) {
        Some(a) => {
            if a == 0 {
                SwapAttempt::Fail
            } else {
                SwapAttempt::Execute { amount: a }
            }
        },
        None => SwapAttempt::Fail,
    }
}

/// A purchase with `wrap_near_amount` yoctoNEAR of wNEAR: executed unless
/// the amount is zero.
pub fn purchase_attempt(wrap_near_amount: u128) -> (r: SwapAttempt)
    ensures
        wrap_near_amount > 0 ==> r == (SwapAttempt::Execute { amount: wrap_near_amount }),
        wrap_near_amount == 0 ==> r == SwapAttempt::Fail,
{
    if wrap_near_amount == 0 {
        SwapAttempt::Fail
    } else {
        SwapAttempt::Execute { amount: wrap_near_amount }
    }
}

impl PhaseCounters {
    /// No swap tried yet.
    pub fn new() -> (r: Self)
        ensures
            r == (PhaseCounters { success: 0, failed: 0 }),
    {
        PhaseCounters { success: 0, failed: 0 }
    }

    /// Counts one swap of the phase as a success or a failure.
    pub fn record(&mut self, succeeded: bool)
        requires
            old(self).success < u64::MAX,
            old(self).failed < u64::MAX,
        ensures
            succeeded ==> *final(self) == (PhaseCounters { success: (old(self).success + 1) as u64, ..*old(self) }),
            !succeeded ==> *final(self) == (PhaseCounters { failed: (old(self).failed + 1) as u64, ..*old(self) }),
    {
        if succeeded {
            self.success = self.success + 1;
        } else {
            self.failed = self.failed + 1;
        }
    }
}

/// Settles one direct swap of a rebalance: a success is counted; a failure
/// (including a swap not tried) is counted and falls back to a sale into
/// wNEAR and a purchase from wNEAR of the same value, appended to the
/// remaining operations.
pub fn settle_direct_swap(
    counters: &mut PhaseCounters,
    remaining_sells: &mut Vec<SellOperation>,
    remaining_buys: &mut Vec<BuyOperation>,
    ds: &DirectSwap,
    succeeded: bool,
)
    requires
        old(counters).success < u64::MAX,
        old(counters).failed < u64::MAX,
    ensures
        succeeded ==> *final(counters) == (PhaseCounters {
            success: (old(counters).success + 1) as u64,
            ..*old(counters)
        }) && final(remaining_sells)@ == old(remaining_sells)@ && final(remaining_buys)@ == old(
            remaining_buys,
        )@,
        !succeeded ==> *final(counters) == (PhaseCounters { failed: (old(counters).failed + 1) as u64, ..*old(counters) })
            && final(remaining_sells)@ == old(remaining_sells)@.push(
            SellOperation { token: ds.sell_token, near_value: ds.near_value, exchange_rate: ds.sell_exchange_rate },
        ) && final(remaining_buys)@ == old(remaining_buys)@.push(
            BuyOperation { token: ds.buy_token, near_value: ds.near_value },
        ),
{
    counters.record(succeeded);
    if !succeeded {
        remaining_sells.push(
            SellOperation {
                token: ds.sell_token.clone(),
                near_value: ds.near_value,
                exchange_rate: ds.sell_exchange_rate,
            },
        );
        remaining_buys.push(BuyOperation { token: ds.buy_token.clone(), near_value: ds.near_value });
    }
}

} // verus!
