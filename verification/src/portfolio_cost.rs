//! Integer parts of the cost-aware optimization: the thinnest wNEAR-side
//! liquidity along a round-trip route, and the iteration budget.
use vstd::prelude::*;

verus! {

/// The most iterations the cost-aware loop may run in total.
pub const MAX_TOTAL_ITERATIONS: usize = 100;

/// One hop of a swap route: the tokens it connects and the pool's reserves
/// on each side, where the pool could report them.
#[derive(Debug, Clone)]
pub struct RouteHop {
    pub token_in: String,
    pub token_out: String,
    pub amount_in: Option<u128>,
    pub amount_out: Option<u128>,
}

/// The wNEAR-side reserve of a hop: the input reserve when wNEAR goes in,
/// the output reserve when it comes out; `None` for a hop that does not
/// touch wNEAR or whose reserve is unknown.
pub open spec fn hop_wnear_tvl(h: RouteHop, wnear: Seq<char>) -> Option<u128> {
    if h.token_in@ == wnear {
        h.amount_in
    } else if h.token_out@ == wnear {
        h.amount_out
    } else {
        None
    }
}

/// The smallest wNEAR-side reserve over the first `n` hops; `None` when
/// there are none, or when one of them has no usable wNEAR-side reserve.
pub open spec fn min_wnear_tvl(hops: Seq<RouteHop>, wnear: Seq<char>, n: int) -> Option<u128>
    decreases n,
{
    if n <= 0 {
        None
    } else {
        match hop_wnear_tvl(hops[n - 1], wnear) {
            None => None,
            Some(t) => if n == 1 {
                Some(t)
            } else {
                match min_wnear_tvl(hops, wnear, n - 1) {
                    None => None,
                    Some(m) => Some(if t < m {
                        t
                    } else {
                        m
                    }),
                }
            },
        }
    }
}

/// The thinnest wNEAR-side reserve along the buy route followed by the
/// sell route. Fails closed: `None` for an empty route, for a middle hop
/// that does not touch wNEAR, and for a reserve that could not be read.
pub fn path_min_wnear_tvl_yocto(hops: &Vec<RouteHop>, wnear: &String) -> (r: Option<u128>)
    ensures
        r == min_wnear_tvl(hops@, wnear@, hops@.len() as int),
{
    let mut min_tvl: Option<u128> = None;
    let mut i: usize = 0;
    while i < hops.len()
        invariant
            i <= hops@.len(),
            i == 0 ==> min_tvl is None,
            i > 0 ==> (min_tvl is Some && min_tvl == min_wnear_tvl(hops@, wnear@, i as int)),
            forall|j: int| 0 < j <= i ==> #[trigger] min_wnear_tvl(hops@, wnear@, j) is Some,
        decreases hops@.len() - i,
    {
        let h = &hops[i];
        let hop_tvl = if h.token_in == *wnear {
            match h.amount_in {
                Some(v) => v,
                None => {
                    proof {
                        lemma_min_none_stays(hops@, wnear@, i as int + 1, hops@.len() as int);
                    }
                    return None;
                },
            }
        } else if h.token_out == *wnear {
            match h.amount_out {
                Some(v) => v,
                None => {
                    proof {
                        lemma_min_none_stays(hops@, wnear@, i as int + 1, hops@.len() as int);
                    }
                    return None;
                },
            }
        } else {
            proof {
                lemma_min_none_stays(hops@, wnear@, i as int + 1, hops@.len() as int);
            }
            return None;
        };
        min_tvl = match min_tvl {
            None => Some(hop_tvl),
            Some(m) => Some(if hop_tvl < m {
                hop_tvl
            } else {
                m
            }),
        };
        i = i + 1;
    }
    min_tvl
}

/// Whether hop `h` has a usable wNEAR-side reserve no smaller than `m`:
/// wNEAR goes in and the input reserve is known and at least `m`, or wNEAR
/// comes out and the output reserve is known and at least `m`.
pub open spec fn wnear_reserve_at_least(h: RouteHop, wnear: Seq<char>, m: int) -> bool {
    ||| (h.token_in@ == wnear && h.amount_in is Some && m <= h.amount_in->0)
    ||| (h.token_in@ != wnear && h.token_out@ == wnear && h.amount_out is Some && m <= h.amount_out->0)
}

/// Whether the wNEAR-side reserve of hop `h` is known and equals `m`.
pub open spec fn wnear_reserve_is(h: RouteHop, wnear: Seq<char>, m: int) -> bool {
    ||| (h.token_in@ == wnear && h.amount_in is Some && m == h.amount_in->0)
    ||| (h.token_in@ != wnear && h.token_out@ == wnear && h.amount_out is Some && m == h.amount_out->0)
}

/// Law: the route's thinnest wNEAR-side reserve is a lower bound of the
/// wNEAR-side reserve of every hop and is the reserve of one of them; there
/// is none exactly when the route is empty or some hop has no usable
/// wNEAR-side reserve (it does not touch wNEAR, or its reserve is unknown).
pub proof fn lemma_min_wnear_tvl_is_the_minimum(hops: Seq<RouteHop>, wnear: Seq<char>, n: int)
    requires
        0 <= n <= hops.len(),
    ensures
        min_wnear_tvl(hops, wnear, n) matches Some(m) ==> {
            &&& forall|k: int| 0 <= k < n ==> wnear_reserve_at_least(#[trigger] hops[k], wnear, m as int)
            &&& exists|k: int| 0 <= k < n && wnear_reserve_is(#[trigger] hops[k], wnear, m as int)
        },
        min_wnear_tvl(hops, wnear, n) is None <==> (n == 0 || exists|k: int|
            0 <= k < n && !wnear_reserve_at_least(#[trigger] hops[k], wnear, 0)),
    decreases n,
{
    if n > 0 {
        lemma_min_wnear_tvl_is_the_minimum(hops, wnear, n - 1);
        let h = hops[n - 1];
        match min_wnear_tvl(hops, wnear, n) {
            Some(m) => {
                assert(wnear_reserve_is(h, wnear, hop_wnear_tvl(h, wnear)->0 as int));
                if n == 1 {
                    assert(wnear_reserve_is(hops[0], wnear, m as int));
                    assert forall|k: int| 0 <= k < n implies wnear_reserve_at_least(#[trigger] hops[k], wnear, m as int) by {
                        assert(k == 0);
                    }
                } else {
                    let pm = min_wnear_tvl(hops, wnear, n - 1)->0;
                    assert forall|k: int| 0 <= k < n implies wnear_reserve_at_least(#[trigger] hops[k], wnear, m as int) by {
                        if k < n - 1 {
                            assert(wnear_reserve_at_least(hops[k], wnear, pm as int));
                        }
                    }
                    if m == pm {
                        let k0 = choose|k: int| 0 <= k < n - 1 && wnear_reserve_is(#[trigger] hops[k], wnear, pm as int);
                        assert(wnear_reserve_is(hops[k0], wnear, m as int));
                    } else {
                        assert(wnear_reserve_is(hops[n - 1], wnear, m as int));
                    }
                }
                assert forall|k: int| 0 <= k < n implies wnear_reserve_at_least(#[trigger] hops[k], wnear, 0) by {
                    assert(wnear_reserve_at_least(hops[k], wnear, m as int));
                }
            },
            None => {
                if hop_wnear_tvl(h, wnear) is None {
                    assert(!wnear_reserve_at_least(hops[n - 1], wnear, 0));
                } else if n > 1 {
                    assert(min_wnear_tvl(hops, wnear, n - 1) is None);
                    let k0 = choose|k: int| 0 <= k < n - 1 && !wnear_reserve_at_least(#[trigger] hops[k], wnear, 0);
                    assert(!wnear_reserve_at_least(hops[k0], wnear, 0));
                }
            },
        }
    }
}

/// Once a prefix has no minimum, no longer prefix has one.
proof fn lemma_min_none_stays(hops: Seq<RouteHop>, wnear: Seq<char>, a: int, b: int)
    requires
        0 < a <= b,
        min_wnear_tvl(hops, wnear, a) is None,
    ensures
        min_wnear_tvl(hops, wnear, b) is None,
    decreases b - a,
{
    if a < b {
        lemma_min_none_stays(hops, wnear, a, b - 1);
    }
}

/// The iteration budget of the cost-aware loop: the configured maximum
/// (at least one) times the damping scale (at least one), held at
/// `MAX_TOTAL_ITERATIONS`.
pub fn bounded_total_iterations(max_iter: usize, damping_scale: usize) -> (r: usize)
    ensures
        r == (if (if max_iter >= 1 {
            max_iter as int
        } else {
            1
        }) * (if damping_scale >= 1 {
            damping_scale as int
        } else {
            1
        }) <= MAX_TOTAL_ITERATIONS as int {
            ((if max_iter >= 1 {
                max_iter as int
            } else {
                1
            }) * (if damping_scale >= 1 {
                damping_scale as int
            } else {
                1
            })) as usize
        } else {
            MAX_TOTAL_ITERATIONS
        }),
        1 <= r <= MAX_TOTAL_ITERATIONS,
{
    let m: usize = if max_iter >= 1 {
        max_iter
    } else {
        1
    };
    let s: usize = if damping_scale >= 1 {
        damping_scale
    } else {
        1
    };
    if m > MAX_TOTAL_ITERATIONS || s > MAX_TOTAL_ITERATIONS {
        proof {
            assert(m * s > MAX_TOTAL_ITERATIONS) by (nonlinear_arith)
                requires
                    m >= 1,
                    s >= 1,
                    m > MAX_TOTAL_ITERATIONS || s > MAX_TOTAL_ITERATIONS,
            ;
        }
        return MAX_TOTAL_ITERATIONS;
    }
    proof {
        assert(m * s <= 10000) by (nonlinear_arith)
            requires
                m <= 100,
                s <= 100,
        ;
        assert(m * s >= 1) by (nonlinear_arith)
            requires
                m >= 1,
                s >= 1,
        ;
    }
    let product = m * s;
    if product > MAX_TOTAL_ITERATIONS {
        MAX_TOTAL_ITERATIONS
    } else {
        product
    }
}

} // verus!
