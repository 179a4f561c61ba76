//! Direct-swap matching for rebalancing.
//!
//! Sell and buy operations (each valued in yoctoNEAR of wNEAR) are paired
//! into direct token-to-token swaps so that fewer round trips through wNEAR
//! are needed. Whatever cannot be paired stays as remaining sells or buys.
use crate::portfolio_state::ExchangeRate;
use crate::seq_sum::{
    lemma_sum_concat, lemma_sum_empty, lemma_sum_permutation, lemma_sum_push, lemma_sum_single, lemma_sum_suffix_step,
    seq_sum,
};
use vstd::prelude::*;
use vstd::multiset::Multiset;

verus! {

broadcast use vstd::seq_lib::group_to_multiset_ensures;

/// A sale of `token` worth `near_value` yoctoNEAR.
#[derive(Debug, PartialEq, Eq)]
pub struct SellOperation {
    pub token: String,
    pub near_value: u128,
    pub exchange_rate: ExchangeRate,
}

/// A purchase of `token` worth `near_value` yoctoNEAR.
#[derive(Debug, PartialEq, Eq)]
pub struct BuyOperation {
    pub token: String,
    pub near_value: u128,
}

/// A matched direct swap from `sell_token` to `buy_token`.
#[derive(Debug, PartialEq, Eq)]
pub struct DirectSwap {
    pub sell_token: String,
    pub buy_token: String,
    pub near_value: u128,
    pub sell_exchange_rate: ExchangeRate,
}

/// Result of [`match_rebalance_operations`].
#[derive(Debug, PartialEq, Eq)]
pub struct MatchResult {
    pub direct_swaps: Vec<DirectSwap>,
    pub remaining_sells: Vec<SellOperation>,
    pub remaining_buys: Vec<BuyOperation>,
}

impl SellOperation {
    /// A copy of this operation.
    pub fn duplicate(&self) -> (r: Self)
        ensures
            r == *self,
    {
        SellOperation {
            token: self.token.clone(),
            near_value: self.near_value,
            exchange_rate: self.exchange_rate,
        }
    }
}

impl BuyOperation {
    /// A copy of this operation.
    pub fn duplicate(&self) -> (r: Self)
        ensures
            r == *self,
    {
        BuyOperation { token: self.token.clone(), near_value: self.near_value }
    }
}

/// Value of a sell operation.
pub open spec fn sell_value() -> spec_fn(SellOperation) -> int {
    |o: SellOperation| o.near_value as int
}

/// Value of a buy operation.
pub open spec fn buy_value() -> spec_fn(BuyOperation) -> int {
    |o: BuyOperation| o.near_value as int
}

/// Value of a direct swap.
pub open spec fn swap_value() -> spec_fn(DirectSwap) -> int {
    |o: DirectSwap| o.near_value as int
}

/// Sorted by value, largest first.
pub open spec fn sells_sorted_desc(s: Seq<SellOperation>) -> bool {
    forall|a: int, b: int| 0 <= a < b < s.len() ==> s[a].near_value >= s[b].near_value
}

/// Sorted by value, largest first.
pub open spec fn buys_sorted_desc(s: Seq<BuyOperation>) -> bool {
    forall|a: int, b: int| 0 <= a < b < s.len() ==> s[a].near_value >= s[b].near_value
}

/// `x` inserted into `t` just before the first entry whose value is not
/// greater than its own.
pub open spec fn insert_desc<A>(t: Seq<A>, x: A, val: spec_fn(A) -> int) -> Seq<A>
    decreases t.len(),
{
    if t.len() == 0 {
        seq![x]
    } else if val(t[0]) > val(x) {
        seq![t[0]] + insert_desc(t.drop_first(), x, val)
    } else {
        seq![x] + t
    }
}

/// `s` sorted by value, largest first; entries of equal value keep their
/// order in `s`.
pub open spec fn sort_desc<A>(s: Seq<A>, val: spec_fn(A) -> int) -> Seq<A>
    decreases s.len(),
{
    if s.len() == 0 {
        Seq::empty()
    } else {
        insert_desc(sort_desc(s.drop_first(), val), s[0], val)
    }
}

/// Inserting at the first position whose entry is not greater than `x` is
/// `insert_desc`.
proof fn lemma_insert_at_first_not_greater<A>(t: Seq<A>, x: A, val: spec_fn(A) -> int, p: int)
    requires
        0 <= p <= t.len(),
        forall|q: int| 0 <= q < p ==> val(#[trigger] t[q]) > val(x),
        p < t.len() ==> val(t[p]) <= val(x),
    ensures
        t.insert(p, x) == insert_desc(t, x, val),
    decreases p,
{
    if p == 0 {
        assert(t.insert(0, x) =~= seq![x] + t);
    } else {
        let t1 = t.drop_first();
        assert forall|q: int| 0 <= q < p - 1 implies val(#[trigger] t1[q]) > val(x) by {
            assert(t1[q] == t[q + 1]);
        }
        lemma_insert_at_first_not_greater(t1, x, val, p - 1);
        assert(t.insert(p, x) =~= seq![t[0]] + t1.insert(p - 1, x));
    }
}

/// `insert_desc` adds exactly `x` to the elements of `t`.
proof fn lemma_insert_desc_multiset<A>(t: Seq<A>, x: A, val: spec_fn(A) -> int)
    ensures
        insert_desc(t, x, val).to_multiset() == t.to_multiset().insert(x),
    decreases t.len(),
{
    broadcast use vstd::seq_lib::to_multiset_insert;

    if t.len() == 0 {
        assert(insert_desc(t, x, val) =~= t.insert(0, x));
    } else if val(t[0]) > val(x) {
        let t1 = t.drop_first();
        lemma_insert_desc_multiset(t1, x, val);
        let rest = insert_desc(t1, x, val);
        assert(insert_desc(t, x, val) =~= rest.insert(0, t[0]));
        assert(t =~= t1.insert(0, t[0]));
        assert(insert_desc(t, x, val).to_multiset() =~= t.to_multiset().insert(x));
    } else {
        assert(insert_desc(t, x, val) =~= t.insert(0, x));
    }
}

/// `sort_desc` reorders its input without adding or dropping elements.
proof fn lemma_sort_desc_permutes<A>(s: Seq<A>, val: spec_fn(A) -> int)
    ensures
        sort_desc(s, val).to_multiset() == s.to_multiset(),
    decreases s.len(),
{
    broadcast use vstd::seq_lib::to_multiset_insert;

    if s.len() > 0 {
        let s1 = s.drop_first();
        lemma_sort_desc_permutes(s1, val);
        lemma_insert_desc_multiset(sort_desc(s1, val), s[0], val);
        assert(s =~= s1.insert(0, s[0]));
    }
}

/// The greedy two-pointer matching over operations sorted largest first.
///
/// State: the current sell `i` with `sr` still unmatched and the current buy
/// `j` with `br` still unmatched. Each step matches `min(sr, br)`; an
/// exhausted side moves on to its next operation, and when one side runs
/// out the other side's leftovers become the remaining operations.
pub open spec fn greedy(
    s: Seq<SellOperation>,
    b: Seq<BuyOperation>,
    i: int,
    j: int,
    sr: int,
    br: int,
) -> (Seq<DirectSwap>, Seq<SellOperation>, Seq<BuyOperation>)
    decreases (s.len() - i) + (b.len() - j),
{
    if !(0 <= i < s.len() && 0 <= j < b.len()) {
        (Seq::empty(), Seq::empty(), Seq::empty())
    } else {
        let m = if sr <= br {
            sr
        } else {
            br
        };
        let d = if m > 0 {
            seq![
                DirectSwap {
                    sell_token: s[i].token,
                    buy_token: b[j].token,
                    near_value: m as u128,
                    sell_exchange_rate: s[i].exchange_rate,
                },
            ]
        } else {
            Seq::empty()
        };
        let sr1 = sr - m;
        let br1 = br - m;
        if sr1 == 0 {
            if i + 1 >= s.len() {
                let head = if br1 > 0 {
                    seq![BuyOperation { token: b[j].token, near_value: br1 as u128 }]
                } else {
                    Seq::empty()
                };
                (d, Seq::empty(), head + b.subrange(j + 1, b.len() as int))
            } else {
                let sr2 = s[i + 1].near_value as int;
                if br1 == 0 {
                    if j + 1 >= b.len() {
                        let head = if sr2 > 0 {
                            seq![
                                SellOperation {
                                    token: s[i + 1].token,
                                    near_value: sr2 as u128,
                                    exchange_rate: s[i + 1].exchange_rate,
                                },
                            ]
                        } else {
                            Seq::empty()
                        };
                        (d, head + s.subrange(i + 2, s.len() as int), Seq::empty())
                    } else {
                        let rest = greedy(s, b, i + 1, j + 1, sr2, b[j + 1].near_value as int);
                        (d + rest.0, rest.1, rest.2)
                    }
                } else {
                    let rest = greedy(s, b, i + 1, j, sr2, br1);
                    (d + rest.0, rest.1, rest.2)
                }
            }
        } else {
            if j + 1 >= b.len() {
                let head = seq![
                    SellOperation {
                        token: s[i].token,
                        near_value: sr1 as u128,
                        exchange_rate: s[i].exchange_rate,
                    },
                ];
                (d, head + s.subrange(i + 1, s.len() as int), Seq::empty())
            } else {
                let rest = greedy(s, b, i, j + 1, sr1, b[j + 1].near_value as int);
                (d + rest.0, rest.1, rest.2)
            }
        }
    }
}

/// The matching of `sells` against `buys`: the greedy matching of the
/// operations sorted largest first (equal values in their given order), or
/// everything left as is when either side is empty.
pub open spec fn matches_greedily(
    sells: Seq<SellOperation>,
    buys: Seq<BuyOperation>,
    r: (Seq<DirectSwap>, Seq<SellOperation>, Seq<BuyOperation>),
) -> bool {
    if sells.len() == 0 || buys.len() == 0 {
        r == (Seq::<DirectSwap>::empty(), sells, buys)
    } else {
        let s = sort_desc(sells, sell_value());
        let b = sort_desc(buys, buy_value());
        r == greedy(s, b, 0, 0, s[0].near_value as int, b[0].near_value as int)
    }
}

/// Conservation and maximality of the greedy matching from any state.
proof fn lemma_greedy_conserves(
    s: Seq<SellOperation>,
    b: Seq<BuyOperation>,
    i: int,
    j: int,
    sr: int,
    br: int,
)
    requires
        0 <= i < s.len(),
        0 <= j < b.len(),
        0 <= sr <= u128::MAX,
        0 <= br <= u128::MAX,
    ensures
        ({
            let r = greedy(s, b, i, j, sr, br);
            &&& seq_sum(r.0, swap_value()) + seq_sum(r.1, sell_value()) == sr + seq_sum(
                s.subrange(i + 1, s.len() as int),
                sell_value(),
            )
            &&& seq_sum(r.0, swap_value()) + seq_sum(r.2, buy_value()) == br + seq_sum(
                b.subrange(j + 1, b.len() as int),
                buy_value(),
            )
            &&& r.1.len() == 0 || r.2.len() == 0
            &&& forall|k: int| 0 <= k < r.0.len() ==> #[trigger] r.0[k].near_value > 0
        }),
    decreases (s.len() - i) + (b.len() - j),
{
    let r = greedy(s, b, i, j, sr, br);
    let m = if sr <= br {
        sr
    } else {
        br
    };
    let d = if m > 0 {
        seq![
            DirectSwap {
                sell_token: s[i].token,
                buy_token: b[j].token,
                near_value: m as u128,
                sell_exchange_rate: s[i].exchange_rate,
            },
        ]
    } else {
        Seq::empty()
    };
    assert(seq_sum(d, swap_value()) == m) by {
        if m > 0 {
            lemma_sum_single(d[0], swap_value());
            assert(d =~= seq![d[0]]);
        }
    }
    let sr1 = sr - m;
    let br1 = br - m;
    if sr1 == 0 {
        if i + 1 >= s.len() {
            let head = if br1 > 0 {
                seq![BuyOperation { token: b[j].token, near_value: br1 as u128 }]
            } else {
                Seq::empty()
            };
            let tail = b.subrange(j + 1, b.len() as int);
            lemma_sum_concat(head, tail, buy_value());
            if br1 > 0 {
                lemma_sum_single(head[0], buy_value());
                assert(head =~= seq![head[0]]);
            }
            assert(s.subrange(i + 1, s.len() as int).len() == 0);
            assert(r.1.len() == 0);
        } else {
            let sr2 = s[i + 1].near_value as int;
            lemma_sum_suffix_step(s, i + 1, sell_value());
            if br1 == 0 {
                if j + 1 >= b.len() {
                    let head = if sr2 > 0 {
                        seq![
                            SellOperation {
                                token: s[i + 1].token,
                                near_value: sr2 as u128,
                                exchange_rate: s[i + 1].exchange_rate,
                            },
                        ]
                    } else {
                        Seq::empty()
                    };
                    let tail = s.subrange(i + 2, s.len() as int);
                    lemma_sum_concat(head, tail, sell_value());
                    if sr2 > 0 {
                        lemma_sum_single(head[0], sell_value());
                        assert(head =~= seq![head[0]]);
                    }
                    assert(b.subrange(j + 1, b.len() as int).len() == 0);
                } else {
                    lemma_sum_suffix_step(b, j + 1, buy_value());
                    lemma_greedy_conserves(s, b, i + 1, j + 1, sr2, b[j + 1].near_value as int);
                    let rest = greedy(s, b, i + 1, j + 1, sr2, b[j + 1].near_value as int);
                    lemma_sum_concat(d, rest.0, swap_value());
                    assert(forall|k: int| 0 <= k < r.0.len() ==> #[trigger] r.0[k] == (if k < d.len() {
                        d[k]
                    } else {
                        rest.0[k - d.len()]
                    }));
                }
            } else {
                lemma_greedy_conserves(s, b, i + 1, j, sr2, br1);
                let rest = greedy(s, b, i + 1, j, sr2, br1);
                lemma_sum_concat(d, rest.0, swap_value());
                assert(forall|k: int| 0 <= k < r.0.len() ==> #[trigger] r.0[k] == (if k < d.len() {
                    d[k]
                } else {
                    rest.0[k - d.len()]
                }));
            }
        }
    } else {
        assert(br1 == 0);
        if j + 1 >= b.len() {
            let head = seq![
                SellOperation {
                    token: s[i].token,
                    near_value: sr1 as u128,
                    exchange_rate: s[i].exchange_rate,
                },
            ];
            let tail = s.subrange(i + 1, s.len() as int);
            lemma_sum_concat(head, tail, sell_value());
            lemma_sum_single(head[0], sell_value());
            assert(head =~= seq![head[0]]);
            assert(b.subrange(j + 1, b.len() as int).len() == 0);
        } else {
            lemma_sum_suffix_step(b, j + 1, buy_value());
            lemma_greedy_conserves(s, b, i, j + 1, sr1, b[j + 1].near_value as int);
            let rest = greedy(s, b, i, j + 1, sr1, b[j + 1].near_value as int);
            lemma_sum_concat(d, rest.0, swap_value());
            assert(forall|k: int| 0 <= k < r.0.len() ==> #[trigger] r.0[k] == (if k < d.len() {
                d[k]
            } else {
                rest.0[k - d.len()]
            }));
        }
    }
}

/// Value of a sell operation of token `t`, zero for any other token.
pub open spec fn sell_value_of(t: Seq<char>) -> spec_fn(SellOperation) -> int {
    |o: SellOperation| if o.token@ == t {
        o.near_value as int
    } else {
        0
    }
}

/// Value of a direct swap selling token `t`, zero for any other token.
pub open spec fn swap_value_from(t: Seq<char>) -> spec_fn(DirectSwap) -> int {
    |o: DirectSwap| if o.sell_token@ == t {
        o.near_value as int
    } else {
        0
    }
}

/// A sum of non-negative values is non-negative.
proof fn lemma_sum_sells_nonneg(s: Seq<SellOperation>, t: Seq<char>)
    ensures
        seq_sum(s, sell_value_of(t)) >= 0,
    decreases s.len(),
{
    if s.len() > 0 {
        lemma_sum_sells_nonneg(s.drop_last(), t);
        lemma_sum_push(s.drop_last(), s.last(), sell_value_of(t));
        assert(s.drop_last().push(s.last()) =~= s);
    }
}

/// Per-token conservation of the greedy matching from any state: what is
/// matched from token `t` plus what remains to sell of it equals what there
/// was to sell of it.
proof fn lemma_greedy_conserves_token(
    s: Seq<SellOperation>,
    b: Seq<BuyOperation>,
    i: int,
    j: int,
    sr: int,
    br: int,
    t: Seq<char>,
)
    requires
        0 <= i < s.len(),
        0 <= j < b.len(),
        0 <= sr <= u128::MAX,
        0 <= br <= u128::MAX,
    ensures
        ({
            let r = greedy(s, b, i, j, sr, br);
            seq_sum(r.0, swap_value_from(t)) + seq_sum(r.1, sell_value_of(t)) == (if s[i].token@ == t {
                sr
            } else {
                0
            }) + seq_sum(s.subrange(i + 1, s.len() as int), sell_value_of(t))
        }),
    decreases (s.len() - i) + (b.len() - j),
{
    let r = greedy(s, b, i, j, sr, br);
    let m = if sr <= br {
        sr
    } else {
        br
    };
    let d = if m > 0 {
        seq![
            DirectSwap {
                sell_token: s[i].token,
                buy_token: b[j].token,
                near_value: m as u128,
                sell_exchange_rate: s[i].exchange_rate,
            },
        ]
    } else {
        Seq::empty()
    };
    let own = if s[i].token@ == t {
        m
    } else {
        0
    };
    assert(seq_sum(d, swap_value_from(t)) == own) by {
        if m > 0 {
            lemma_sum_single(d[0], swap_value_from(t));
            assert(d =~= seq![d[0]]);
        }
    }
    let sr1 = sr - m;
    let br1 = br - m;
    if sr1 == 0 {
        if i + 1 >= s.len() {
            assert(s.subrange(i + 1, s.len() as int).len() == 0);
            assert(r.1.len() == 0);
        } else {
            let sr2 = s[i + 1].near_value as int;
            lemma_sum_suffix_step(s, i + 1, sell_value_of(t));
            if br1 == 0 {
                if j + 1 >= b.len() {
                    let head = if sr2 > 0 {
                        seq![
                            SellOperation {
                                token: s[i + 1].token,
                                near_value: sr2 as u128,
                                exchange_rate: s[i + 1].exchange_rate,
                            },
                        ]
                    } else {
                        Seq::empty()
                    };
                    let tail = s.subrange(i + 2, s.len() as int);
                    lemma_sum_concat(head, tail, sell_value_of(t));
                    if sr2 > 0 {
                        lemma_sum_single(head[0], sell_value_of(t));
                        assert(head =~= seq![head[0]]);
                    }
                } else {
                    lemma_greedy_conserves_token(s, b, i + 1, j + 1, sr2, b[j + 1].near_value as int, t);
                    let rest = greedy(s, b, i + 1, j + 1, sr2, b[j + 1].near_value as int);
                    lemma_sum_concat(d, rest.0, swap_value_from(t));
                }
            } else {
                lemma_greedy_conserves_token(s, b, i + 1, j, sr2, br1, t);
                let rest = greedy(s, b, i + 1, j, sr2, br1);
                lemma_sum_concat(d, rest.0, swap_value_from(t));
            }
        }
    } else {
        if j + 1 >= b.len() {
            let head = seq![
                SellOperation {
                    token: s[i].token,
                    near_value: sr1 as u128,
                    exchange_rate: s[i].exchange_rate,
                },
            ];
            let tail = s.subrange(i + 1, s.len() as int);
            lemma_sum_concat(head, tail, sell_value_of(t));
            lemma_sum_single(head[0], sell_value_of(t));
            assert(head =~= seq![head[0]]);
        } else {
            lemma_greedy_conserves_token(s, b, i, j + 1, sr1, b[j + 1].near_value as int, t);
            let rest = greedy(s, b, i, j + 1, sr1, b[j + 1].near_value as int);
            lemma_sum_concat(d, rest.0, swap_value_from(t));
        }
    }
}

/// Value of a buy operation of token `t`, zero for any other token.
pub open spec fn buy_value_of(t: Seq<char>) -> spec_fn(BuyOperation) -> int {
    |o: BuyOperation| if o.token@ == t {
        o.near_value as int
    } else {
        0
    }
}

/// Value of a direct swap buying token `t`, zero for any other token.
pub open spec fn swap_value_to(t: Seq<char>) -> spec_fn(DirectSwap) -> int {
    |o: DirectSwap| if o.buy_token@ == t {
        o.near_value as int
    } else {
        0
    }
}

/// Per-token conservation of the greedy matching on the buy side: what is
/// matched into token `t` plus what remains to buy of it equals what there
/// was to buy of it.
proof fn lemma_greedy_conserves_buy_token(
    s: Seq<SellOperation>,
    b: Seq<BuyOperation>,
    i: int,
    j: int,
    sr: int,
    br: int,
    t: Seq<char>,
)
    requires
        0 <= i < s.len(),
        0 <= j < b.len(),
        0 <= sr <= u128::MAX,
        0 <= br <= u128::MAX,
    ensures
        ({
            let r = greedy(s, b, i, j, sr, br);
            seq_sum(r.0, swap_value_to(t)) + seq_sum(r.2, buy_value_of(t)) == (if b[j].token@ == t {
                br
            } else {
                0
            }) + seq_sum(b.subrange(j + 1, b.len() as int), buy_value_of(t))
        }),
    decreases (s.len() - i) + (b.len() - j),
{
    let r = greedy(s, b, i, j, sr, br);
    let m = if sr <= br {
        sr
    } else {
        br
    };
    let d = if m > 0 {
        seq![
            DirectSwap {
                sell_token: s[i].token,
                buy_token: b[j].token,
                near_value: m as u128,
                sell_exchange_rate: s[i].exchange_rate,
            },
        ]
    } else {
        Seq::empty()
    };
    let own = if b[j].token@ == t {
        m
    } else {
        0
    };
    assert(seq_sum(d, swap_value_to(t)) == own) by {
        if m > 0 {
            lemma_sum_single(d[0], swap_value_to(t));
            assert(d =~= seq![d[0]]);
        }
    }
    let sr1 = sr - m;
    let br1 = br - m;
    if sr1 == 0 {
        if i + 1 >= s.len() {
            let head = if br1 > 0 {
                seq![BuyOperation { token: b[j].token, near_value: br1 as u128 }]
            } else {
                Seq::empty()
            };
            let tail = b.subrange(j + 1, b.len() as int);
            lemma_sum_concat(head, tail, buy_value_of(t));
            if br1 > 0 {
                lemma_sum_single(head[0], buy_value_of(t));
                assert(head =~= seq![head[0]]);
            }
        } else {
            let sr2 = s[i + 1].near_value as int;
            if br1 == 0 {
                if j + 1 >= b.len() {
                    assert(b.subrange(j + 1, b.len() as int).len() == 0);
                    assert(r.2.len() == 0);
                } else {
                    lemma_sum_suffix_step(b, j + 1, buy_value_of(t));
                    lemma_greedy_conserves_buy_token(s, b, i + 1, j + 1, sr2, b[j + 1].near_value as int, t);
                    let rest = greedy(s, b, i + 1, j + 1, sr2, b[j + 1].near_value as int);
                    lemma_sum_concat(d, rest.0, swap_value_to(t));
                }
            } else {
                lemma_greedy_conserves_buy_token(s, b, i + 1, j, sr2, br1, t);
                let rest = greedy(s, b, i + 1, j, sr2, br1);
                lemma_sum_concat(d, rest.0, swap_value_to(t));
            }
        }
    } else {
        if j + 1 >= b.len() {
            assert(b.subrange(j + 1, b.len() as int).len() == 0);
            assert(r.2.len() == 0);
        } else {
            lemma_sum_suffix_step(b, j + 1, buy_value_of(t));
            lemma_greedy_conserves_buy_token(s, b, i, j + 1, sr1, b[j + 1].near_value as int, t);
            let rest = greedy(s, b, i, j + 1, sr1, b[j + 1].near_value as int);
            lemma_sum_concat(d, rest.0, swap_value_to(t));
        }
    }
}

/// Law: the direct swaps that sell a token, split over several purchases
/// or not, together with what remains to sell of it, add up to exactly
/// what there was to sell of it; so the swaps from one token never exceed
/// what was to be sold of it. Likewise, the direct swaps into a token and
/// what remains to buy of it add up to exactly what there was to buy of it.
pub proof fn lemma_matching_per_token(
    sells: Seq<SellOperation>,
    buys: Seq<BuyOperation>,
    r: (Seq<DirectSwap>, Seq<SellOperation>, Seq<BuyOperation>),
    t: Seq<char>,
)
    requires
        matches_greedily(sells, buys, r),
    ensures
        seq_sum(r.0, swap_value_from(t)) + seq_sum(r.1, sell_value_of(t)) == seq_sum(sells, sell_value_of(t)),
        seq_sum(r.0, swap_value_from(t)) <= seq_sum(sells, sell_value_of(t)),
        seq_sum(r.0, swap_value_to(t)) + seq_sum(r.2, buy_value_of(t)) == seq_sum(buys, buy_value_of(t)),
{
    lemma_sum_sells_nonneg(r.1, t);
    if sells.len() == 0 || buys.len() == 0 {
        lemma_sum_empty(r.0, swap_value_from(t));
        lemma_sum_empty(r.0, swap_value_to(t));
    } else {
        let s = sort_desc(sells, sell_value());
        let b = sort_desc(buys, buy_value());
        lemma_sort_desc_permutes(sells, sell_value());
        lemma_sort_desc_permutes(buys, buy_value());
        vstd::seq_lib::to_multiset_len(sells);
        vstd::seq_lib::to_multiset_len(s);
        vstd::seq_lib::to_multiset_len(buys);
        vstd::seq_lib::to_multiset_len(b);
        lemma_greedy_conserves_token(s, b, 0, 0, s[0].near_value as int, b[0].near_value as int, t);
        lemma_sum_suffix_step(s, 0, sell_value_of(t));
        assert(s.subrange(0, s.len() as int) =~= s);
        lemma_sum_permutation(s, sells, sell_value_of(t));
        lemma_greedy_conserves_buy_token(s, b, 0, 0, s[0].near_value as int, b[0].near_value as int, t);
        lemma_sum_suffix_step(b, 0, buy_value_of(t));
        assert(b.subrange(0, b.len() as int) =~= b);
        lemma_sum_permutation(b, buys, buy_value_of(t));
    }
}

/// Whether some sell operation of `s` from index `lo` on sells `token` at
/// `rate`.
pub open spec fn sold_from(s: Seq<SellOperation>, lo: int, token: String, rate: ExchangeRate) -> bool {
    exists|k: int| lo <= k < s.len() && #[trigger] s[k].token == token && s[k].exchange_rate == rate
}

/// Whether some buy operation of `b` from index `lo` on buys `token`.
pub open spec fn bought_from(b: Seq<BuyOperation>, lo: int, token: String) -> bool {
    exists|l: int| lo <= l < b.len() && #[trigger] b[l].token == token
}

/// Where the greedy matching's outputs come from: every direct swap sells
/// the token of a remaining sell operation at that operation's rate and buys
/// the token of a remaining buy operation, and every leftover operation
/// keeps the token (and, for a sale, the rate) of one of them.
proof fn lemma_greedy_origins(s: Seq<SellOperation>, b: Seq<BuyOperation>, i: int, j: int, sr: int, br: int)
    requires
        0 <= i < s.len(),
        0 <= j < b.len(),
    ensures
        origins_hold(s, b, i, j, greedy(s, b, i, j, sr, br)),
    decreases (s.len() - i) + (b.len() - j),
{
    let r = greedy(s, b, i, j, sr, br);
    let m = if sr <= br {
        sr
    } else {
        br
    };
    let d = if m > 0 {
        seq![
            DirectSwap {
                sell_token: s[i].token,
                buy_token: b[j].token,
                near_value: m as u128,
                sell_exchange_rate: s[i].exchange_rate,
            },
        ]
    } else {
        Seq::empty()
    };
    assert forall|k: int| 0 <= k < d.len() implies sold_from(s, i, (#[trigger] d[k]).sell_token, d[k].sell_exchange_rate)
        && bought_from(b, j, d[k].buy_token) by {
        assert(s[i].token == d[k].sell_token);
        assert(b[j].token == d[k].buy_token);
    }
    let sr1 = sr - m;
    let br1 = br - m;
    if sr1 == 0 {
        if i + 1 >= s.len() {
            let head = if br1 > 0 {
                seq![BuyOperation { token: b[j].token, near_value: br1 as u128 }]
            } else {
                Seq::empty()
            };
            let tail = b.subrange(j + 1, b.len() as int);
            assert(r.2 == head + tail);
            assert forall|k: int| 0 <= k < r.2.len() implies bought_from(b, j, (#[trigger] r.2[k]).token) by {
                if k < head.len() {
                    assert(b[j].token == r.2[k].token);
                } else {
                    assert(b[j + 1 + (k - head.len())].token == r.2[k].token);
                }
            }
        } else {
            let sr2 = s[i + 1].near_value as int;
            if br1 == 0 {
                if j + 1 >= b.len() {
                    let head = if sr2 > 0 {
                        seq![
                            SellOperation {
                                token: s[i + 1].token,
                                near_value: sr2 as u128,
                                exchange_rate: s[i + 1].exchange_rate,
                            },
                        ]
                    } else {
                        Seq::empty()
                    };
                    let tail = s.subrange(i + 2, s.len() as int);
                    assert(r.1 == head + tail);
                    assert forall|k: int| 0 <= k < r.1.len() implies sold_from(s, i, (#[trigger] r.1[k]).token, r.1[k].exchange_rate) by {
                        if k < head.len() {
                            assert(s[i + 1].token == r.1[k].token && s[i + 1].exchange_rate == r.1[k].exchange_rate);
                        } else {
                            let q = i + 2 + (k - head.len());
                            assert(s[q].token == r.1[k].token && s[q].exchange_rate == r.1[k].exchange_rate);
                        }
                    }
                } else {
                    lemma_greedy_origins(s, b, i + 1, j + 1, sr2, b[j + 1].near_value as int);
                    let rest = greedy(s, b, i + 1, j + 1, sr2, b[j + 1].near_value as int);
                    lemma_origins_step(s, b, i, j, i + 1, j + 1, d, rest, r);
                }
            } else {
                lemma_greedy_origins(s, b, i + 1, j, sr2, br1);
                let rest = greedy(s, b, i + 1, j, sr2, br1);
                lemma_origins_step(s, b, i, j, i + 1, j, d, rest, r);
            }
        }
    } else {
        if j + 1 >= b.len() {
            let head = seq![
                SellOperation {
                    token: s[i].token,
                    near_value: sr1 as u128,
                    exchange_rate: s[i].exchange_rate,
                },
            ];
            let tail = s.subrange(i + 1, s.len() as int);
            assert(r.1 == head + tail);
            assert forall|k: int| 0 <= k < r.1.len() implies sold_from(s, i, (#[trigger] r.1[k]).token, r.1[k].exchange_rate) by {
                if k < head.len() {
                    assert(s[i].token == r.1[k].token && s[i].exchange_rate == r.1[k].exchange_rate);
                } else {
                    let q = i + 1 + (k - head.len());
                    assert(s[q].token == r.1[k].token && s[q].exchange_rate == r.1[k].exchange_rate);
                }
            }
        } else {
            lemma_greedy_origins(s, b, i, j + 1, sr1, b[j + 1].near_value as int);
            let rest = greedy(s, b, i, j + 1, sr1, b[j + 1].near_value as int);
            lemma_origins_step(s, b, i, j, i, j + 1, d, rest, r);
        }
    }
}

/// One recursive step of `lemma_greedy_origins`: the result is this step's
/// swaps followed by the rest, whose origins lie at or after `i` and `j`.
proof fn lemma_origins_step(
    s: Seq<SellOperation>,
    b: Seq<BuyOperation>,
    i: int,
    j: int,
    i2: int,
    j2: int,
    d: Seq<DirectSwap>,
    rest: (Seq<DirectSwap>, Seq<SellOperation>, Seq<BuyOperation>),
    r: (Seq<DirectSwap>, Seq<SellOperation>, Seq<BuyOperation>),
)
    requires
        i <= i2,
        j <= j2,
        origins_hold(s, b, i2, j2, rest),
        r == (d + rest.0, rest.1, rest.2),
        forall|k: int|
            0 <= k < d.len() ==> sold_from(s, i, (#[trigger] d[k]).sell_token, d[k].sell_exchange_rate) && bought_from(
                b,
                j,
                d[k].buy_token,
            ),
    ensures
        origins_hold(s, b, i, j, r),
{
    assert forall|k: int| 0 <= k < r.0.len() implies sold_from(s, i, (#[trigger] r.0[k]).sell_token, r.0[k].sell_exchange_rate)
        && bought_from(b, j, r.0[k].buy_token) by {
        if k < d.len() {
            assert(r.0[k] == d[k]);
        } else {
            let x = rest.0[k - d.len()];
            assert(r.0[k] == x);
            assert(sold_from(s, i2, x.sell_token, x.sell_exchange_rate));
            let q = choose|q: int| i2 <= q < s.len() && #[trigger] s[q].token == x.sell_token && s[q].exchange_rate
                == x.sell_exchange_rate;
            assert(s[q].token == x.sell_token);
            assert(bought_from(b, j2, x.buy_token));
            let l = choose|l: int| j2 <= l < b.len() && #[trigger] b[l].token == x.buy_token;
            assert(b[l].token == x.buy_token);
        }
    }
    assert forall|k: int| 0 <= k < r.1.len() implies sold_from(s, i, (#[trigger] r.1[k]).token, r.1[k].exchange_rate) by {
        assert(sold_from(s, i2, r.1[k].token, r.1[k].exchange_rate));
        let q = choose|q: int| i2 <= q < s.len() && #[trigger] s[q].token == r.1[k].token && s[q].exchange_rate
            == r.1[k].exchange_rate;
        assert(s[q].token == r.1[k].token);
    }
    assert forall|k: int| 0 <= k < r.2.len() implies bought_from(b, j, (#[trigger] r.2[k]).token) by {
        assert(bought_from(b, j2, r.2[k].token));
        let l = choose|l: int| j2 <= l < b.len() && #[trigger] b[l].token == r.2[k].token;
        assert(b[l].token == r.2[k].token);
    }
}

/// The origins property of a matching result, relative to the operations
/// of `s` from `i` on and of `b` from `j` on.
pub open spec fn origins_hold(
    s: Seq<SellOperation>,
    b: Seq<BuyOperation>,
    i: int,
    j: int,
    r: (Seq<DirectSwap>, Seq<SellOperation>, Seq<BuyOperation>),
) -> bool {
    &&& forall|k: int|
        0 <= k < r.0.len() ==> sold_from(s, i, (#[trigger] r.0[k]).sell_token, r.0[k].sell_exchange_rate)
            && bought_from(b, j, r.0[k].buy_token)
    &&& forall|k: int| 0 <= k < r.1.len() ==> sold_from(s, i, (#[trigger] r.1[k]).token, r.1[k].exchange_rate)
    &&& forall|k: int| 0 <= k < r.2.len() ==> bought_from(b, j, (#[trigger] r.2[k]).token)
}

/// An operation found in a reordering of `a` is found in `a`.
proof fn lemma_sells_in_permutation(a: Seq<SellOperation>, s: Seq<SellOperation>, k: int)
    requires
        s.to_multiset() == a.to_multiset(),
        0 <= k < s.len(),
    ensures
        sold_from(a, 0, s[k].token, s[k].exchange_rate),
{
    broadcast use vstd::seq_lib::to_multiset_contains;

    assert(s.contains(s[k]));
    assert(s.to_multiset().count(s[k]) > 0);
    assert(a.contains(s[k]));
    let q = choose|q: int| 0 <= q < a.len() && a[q] == s[k];
    assert(a[q].token == s[k].token);
}

/// An operation found in a reordering of `a` is found in `a`.
proof fn lemma_buys_in_permutation(a: Seq<BuyOperation>, b: Seq<BuyOperation>, k: int)
    requires
        b.to_multiset() == a.to_multiset(),
        0 <= k < b.len(),
    ensures
        bought_from(a, 0, b[k].token),
{
    broadcast use vstd::seq_lib::to_multiset_contains;

    assert(b.contains(b[k]));
    assert(b.to_multiset().count(b[k]) > 0);
    assert(a.contains(b[k]));
    let q = choose|q: int| 0 <= q < a.len() && a[q] == b[k];
    assert(a[q].token == b[k].token);
}

/// Law: the matching moves each rate with the token it prices. Every direct
/// swap sells the token of an input sale at that sale's own rate and buys
/// the token of an input purchase; every remaining sale keeps the token and
/// rate of an input sale; every remaining purchase the token of an input
/// purchase.
pub proof fn lemma_matching_keeps_rates(
    sells: Seq<SellOperation>,
    buys: Seq<BuyOperation>,
    r: (Seq<DirectSwap>, Seq<SellOperation>, Seq<BuyOperation>),
)
    requires
        matches_greedily(sells, buys, r),
    ensures
        origins_hold(sells, buys, 0, 0, r),
{
    if sells.len() == 0 || buys.len() == 0 {
        assert forall|k: int| 0 <= k < r.1.len() implies sold_from(sells, 0, (#[trigger] r.1[k]).token, r.1[k].exchange_rate) by {
            assert(sells[k].token == r.1[k].token);
        }
        assert forall|k: int| 0 <= k < r.2.len() implies bought_from(buys, 0, (#[trigger] r.2[k]).token) by {
            assert(buys[k].token == r.2[k].token);
        }
    } else {
        let s = sort_desc(sells, sell_value());
        let b = sort_desc(buys, buy_value());
        lemma_sort_desc_permutes(sells, sell_value());
        lemma_sort_desc_permutes(buys, buy_value());
        vstd::seq_lib::to_multiset_len(sells);
        vstd::seq_lib::to_multiset_len(s);
        vstd::seq_lib::to_multiset_len(buys);
        vstd::seq_lib::to_multiset_len(b);
        lemma_greedy_origins(s, b, 0, 0, s[0].near_value as int, b[0].near_value as int);
        assert forall|k: int| 0 <= k < r.0.len() implies sold_from(sells, 0, (#[trigger] r.0[k]).sell_token, r.0[k].sell_exchange_rate)
            && bought_from(buys, 0, r.0[k].buy_token) by {
            let x = r.0[k];
            assert(sold_from(s, 0, x.sell_token, x.sell_exchange_rate));
            let q = choose|q: int| 0 <= q < s.len() && #[trigger] s[q].token == x.sell_token && s[q].exchange_rate
                == x.sell_exchange_rate;
            lemma_sells_in_permutation(sells, s, q);
            assert(bought_from(b, 0, x.buy_token));
            let l = choose|l: int| 0 <= l < b.len() && #[trigger] b[l].token == x.buy_token;
            lemma_buys_in_permutation(buys, b, l);
        }
        assert forall|k: int| 0 <= k < r.1.len() implies sold_from(sells, 0, (#[trigger] r.1[k]).token, r.1[k].exchange_rate) by {
            let x = r.1[k];
            assert(sold_from(s, 0, x.token, x.exchange_rate));
            let q = choose|q: int| 0 <= q < s.len() && #[trigger] s[q].token == x.token && s[q].exchange_rate
                == x.exchange_rate;
            lemma_sells_in_permutation(sells, s, q);
        }
        assert forall|k: int| 0 <= k < r.2.len() implies bought_from(buys, 0, (#[trigger] r.2[k]).token) by {
            let x = r.2[k];
            assert(bought_from(b, 0, x.token));
            let l = choose|l: int| 0 <= l < b.len() && #[trigger] b[l].token == x.token;
            lemma_buys_in_permutation(buys, b, l);
        }
    }
}

/// Sorts sell operations by value, largest first, keeping the order of
/// equal values.
fn sort_sells_desc(v: Vec<SellOperation>) -> (r: Vec<SellOperation>)
    ensures
        r@ == sort_desc(v@, sell_value()),
        r@.to_multiset() == v@.to_multiset(),
        sells_sorted_desc(r@),
{
    let mut rest = v;
    let mut out: Vec<SellOperation> = Vec::new();
    let ghost orig = rest@;
    proof {
        assert(orig.subrange(orig.len() as int, orig.len() as int) =~= Seq::<SellOperation>::empty());
    }
    while rest.len() > 0
        invariant
            out@.to_multiset().add(rest@.to_multiset()) == orig.to_multiset(),
            sells_sorted_desc(out@),
            rest@ == orig.take(rest@.len() as int),
            rest@.len() <= orig.len(),
            out@ == sort_desc(orig.subrange(rest@.len() as int, orig.len() as int), sell_value()),
        decreases rest.len(),
    {
        let ghost before = rest@;
        let ghost k = rest@.len() as int;
        let x = rest.pop().unwrap();
        proof {
            assert(before =~= rest@.push(x));
            assert(rest@ =~= orig.take(k - 1));
            assert(x == orig[k - 1]);
        }
        let mut p: usize = 0;
        while p < out.len() && out[p].near_value > x.near_value
            invariant
                p <= out@.len(),
                forall|q: int| 0 <= q < p ==> out@[q].near_value > x.near_value,
            decreases out@.len() - p,
        {
            p = p + 1;
        }
        let ghost out_before = out@;
        out.insert(p, x);
        proof {
            assert(forall|q: int| p <= q < out_before.len() ==> out_before[q].near_value <= x.near_value) by {
                if p < out_before.len() {
                    assert(out_before[p as int].near_value <= x.near_value);
                }
            }
            assert(out@ =~= out_before.insert(p as int, x));
            assert forall|q: int| 0 <= q < p implies sell_value()(#[trigger] out_before[q]) > sell_value()(x) by {}
            lemma_insert_at_first_not_greater(out_before, x, sell_value(), p as int);
            let suffix = orig.subrange(k - 1, orig.len() as int);
            assert(suffix.drop_first() =~= orig.subrange(k, orig.len() as int));
            assert(suffix[0] == x);
        }
    }
    proof {
        assert(rest@.to_multiset() =~= Multiset::empty());
        assert(out@.to_multiset().add(Multiset::empty()) =~= out@.to_multiset());
        assert(orig.subrange(0, orig.len() as int) =~= orig);
    }
    out
}

/// Sorts buy operations by value, largest first, keeping the order of
/// equal values.
fn sort_buys_desc(v: Vec<BuyOperation>) -> (r: Vec<BuyOperation>)
    ensures
        r@ == sort_desc(v@, buy_value()),
        r@.to_multiset() == v@.to_multiset(),
        buys_sorted_desc(r@),
{
    let mut rest = v;
    let mut out: Vec<BuyOperation> = Vec::new();
    let ghost orig = rest@;
    proof {
        assert(orig.subrange(orig.len() as int, orig.len() as int) =~= Seq::<BuyOperation>::empty());
    }
    while rest.len() > 0
        invariant
            out@.to_multiset().add(rest@.to_multiset()) == orig.to_multiset(),
            buys_sorted_desc(out@),
            rest@ == orig.take(rest@.len() as int),
            rest@.len() <= orig.len(),
            out@ == sort_desc(orig.subrange(rest@.len() as int, orig.len() as int), buy_value()),
        decreases rest.len(),
    {
        let ghost before = rest@;
        let ghost k = rest@.len() as int;
        let x = rest.pop().unwrap();
        proof {
            assert(before =~= rest@.push(x));
            assert(rest@ =~= orig.take(k - 1));
            assert(x == orig[k - 1]);
        }
        let mut p: usize = 0;
        while p < out.len() && out[p].near_value > x.near_value
            invariant
                p <= out@.len(),
                forall|q: int| 0 <= q < p ==> out@[q].near_value > x.near_value,
            decreases out@.len() - p,
        {
            p = p + 1;
        }
        let ghost out_before = out@;
        out.insert(p, x);
        proof {
            assert(forall|q: int| p <= q < out_before.len() ==> out_before[q].near_value <= x.near_value) by {
                if p < out_before.len() {
                    assert(out_before[p as int].near_value <= x.near_value);
                }
            }
            assert(out@ =~= out_before.insert(p as int, x));
            assert forall|q: int| 0 <= q < p implies buy_value()(#[trigger] out_before[q]) > buy_value()(x) by {}
            lemma_insert_at_first_not_greater(out_before, x, buy_value(), p as int);
            let suffix = orig.subrange(k - 1, orig.len() as int);
            assert(suffix.drop_first() =~= orig.subrange(k, orig.len() as int));
            assert(suffix[0] == x);
        }
    }
    proof {
        assert(rest@.to_multiset() =~= Multiset::empty());
        assert(out@.to_multiset().add(Multiset::empty()) =~= out@.to_multiset());
        assert(orig.subrange(0, orig.len() as int) =~= orig);
    }
    out
}

/// Pairs sell and buy operations into direct swaps (pure function).
///
/// Both sides are sorted by value, largest first (equal values keep their
/// order), and matched greedily with
/// two pointers; what is left over on either side is returned as remaining
/// operations.
///
/// The matched value plus the remaining sells equals the total sold, the
/// matched value plus the remaining buys equals the total bought, and at
/// most one side has anything left.
pub fn match_rebalance_operations(
    sell_operations: Vec<SellOperation>,
    buy_operations: Vec<BuyOperation>,
) -> (r: MatchResult)
    ensures
        matches_greedily(
            sell_operations@,
            buy_operations@,
            (r.direct_swaps@, r.remaining_sells@, r.remaining_buys@),
        ),
        seq_sum(r.direct_swaps@, swap_value()) + seq_sum(r.remaining_sells@, sell_value())
            == seq_sum(sell_operations@, sell_value()),
        seq_sum(r.direct_swaps@, swap_value()) + seq_sum(r.remaining_buys@, buy_value())
            == seq_sum(buy_operations@, buy_value()),
        r.remaining_sells@.len() == 0 || r.remaining_buys@.len() == 0,
        forall|k: int| 0 <= k < r.direct_swaps@.len() ==> #[trigger] r.direct_swaps@[k].near_value > 0,
{
    if sell_operations.len() == 0 || buy_operations.len() == 0 {
        proof {
            lemma_sum_empty(Seq::<DirectSwap>::empty(), swap_value());
        }
        return MatchResult {
            direct_swaps: Vec::new(),
            remaining_sells: sell_operations,
            remaining_buys: buy_operations,
        };
    }
    let ghost sells0 = sell_operations@;
    let ghost buys0 = buy_operations@;
    let sells = sort_sells_desc(sell_operations);
    let buys = sort_buys_desc(buy_operations);
    let ghost s = sells@;
    let ghost b = buys@;
    let ns = sells.len();
    let nb = buys.len();
    proof {
        vstd::seq_lib::to_multiset_len(sells0);
        vstd::seq_lib::to_multiset_len(s);
        vstd::seq_lib::to_multiset_len(buys0);
        vstd::seq_lib::to_multiset_len(b);
    }
    let mut direct_swaps: Vec<DirectSwap> = Vec::new();
    let mut i: usize = 0;
    let mut j: usize = 0;
    let mut sell_remaining: u128 = sells[0].near_value;
    let mut buy_remaining: u128 = buys[0].near_value;
    let ghost full = greedy(s, b, 0, 0, s[0].near_value as int, b[0].near_value as int);
    proof {
        assert(direct_swaps@ + full.0 =~= full.0);
    }
    loop
        invariant
            s == sells@,
            b == buys@,
            ns == s.len(),
            nb == b.len(),
            s.to_multiset() == sells0.to_multiset(),
            b.to_multiset() == buys0.to_multiset(),
            sells0 == sell_operations@,
            buys0 == buy_operations@,
            sells_sorted_desc(s),
            buys_sorted_desc(b),
            s == sort_desc(sells0, sell_value()),
            b == sort_desc(buys0, buy_value()),
            0 <= i < ns,
            0 <= j < nb,
            full == greedy(s, b, 0, 0, s[0].near_value as int, b[0].near_value as int),
            ({
                let g = greedy(s, b, i as int, j as int, sell_remaining as int, buy_remaining as int);
                full == (direct_swaps@ + g.0, g.1, g.2)
            }),
        decreases (ns - i) + (nb - j),
    {
        let ghost g = greedy(s, b, i as int, j as int, sell_remaining as int, buy_remaining as int);
        let ghost prev = direct_swaps@;
        let match_value = if sell_remaining <= buy_remaining {
            sell_remaining
        } else {
            buy_remaining
        };
        if match_value > 0 {
            direct_swaps.push(
                DirectSwap {
                    sell_token: sells[i].token.clone(),
                    buy_token: buys[j].token.clone(),
                    near_value: match_value,
                    sell_exchange_rate: sells[i].exchange_rate,
                },
            );
        }
        sell_remaining = sell_remaining - match_value;
        buy_remaining = buy_remaining - match_value;

        if sell_remaining == 0 {
            if i + 1 >= ns {
                let mut remaining_buys: Vec<BuyOperation> = Vec::new();
                if buy_remaining > 0 {
                    remaining_buys.push(
                        BuyOperation { token: buys[j].token.clone(), near_value: buy_remaining },
                    );
                }
                let mut q = j + 1;
                let ghost head = remaining_buys@;
                while q < nb
                    invariant
                        b == buys@,
                        nb == b.len(),
                        j + 1 <= q <= nb,
                        remaining_buys@ == head + b.subrange(j as int + 1, q as int),
                    decreases nb - q,
                {
                    remaining_buys.push(buys[q].duplicate());
                    q = q + 1;
                    proof {
                        assert(remaining_buys@ =~= head + b.subrange(j as int + 1, q as int));
                    }
                }
                proof {
                    assert(direct_swaps@ =~= prev + g.0);
                    assert(remaining_buys@ =~= g.2);
                    assert(full.0 =~= direct_swaps@);
                    assert(g.1 =~= Seq::<SellOperation>::empty());
                    assert(full == (direct_swaps@, Seq::<SellOperation>::empty(), remaining_buys@));
                    finish_match_proof(sells0, buys0, s, b, full);
                }
                return MatchResult {
                    direct_swaps,
                    remaining_sells: Vec::new(),
                    remaining_buys,
                };
            }
            i = i + 1;
            sell_remaining = sells[i].near_value;
        }
        if buy_remaining == 0 {
            if j + 1 >= nb {
                let mut remaining_sells: Vec<SellOperation> = Vec::new();
                if sell_remaining > 0 {
                    remaining_sells.push(
                        SellOperation {
                            token: sells[i].token.clone(),
                            near_value: sell_remaining,
                            exchange_rate: sells[i].exchange_rate,
                        },
                    );
                }
                let mut q = i + 1;
                let ghost head = remaining_sells@;
                while q < ns
                    invariant
                        s == sells@,
                        ns == s.len(),
                        i + 1 <= q <= ns,
                        remaining_sells@ == head + s.subrange(i as int + 1, q as int),
                    decreases ns - q,
                {
                    remaining_sells.push(sells[q].duplicate());
                    q = q + 1;
                    proof {
                        assert(remaining_sells@ =~= head + s.subrange(i as int + 1, q as int));
                    }
                }
                proof {
                    assert(direct_swaps@ =~= prev + g.0);
                    assert(remaining_sells@ =~= g.1);
                    assert(full.0 =~= direct_swaps@);
                    assert(g.2 =~= Seq::<BuyOperation>::empty());
                    assert(full == (direct_swaps@, remaining_sells@, Seq::<BuyOperation>::empty()));
                    finish_match_proof(sells0, buys0, s, b, full);
                }
                return MatchResult {
                    direct_swaps,
                    remaining_sells,
                    remaining_buys: Vec::new(),
                };
            }
            j = j + 1;
            buy_remaining = buys[j].near_value;
        }
        proof {
            let g2 = greedy(s, b, i as int, j as int, sell_remaining as int, buy_remaining as int);
            assert(g.0 =~= (direct_swaps@.subrange(prev.len() as int, direct_swaps@.len() as int)) + g2.0);
            assert(direct_swaps@ + g2.0 =~= prev + g.0);
        }
    }
}

/// From the greedy result to the public postconditions.
proof fn finish_match_proof(
    sells0: Seq<SellOperation>,
    buys0: Seq<BuyOperation>,
    s: Seq<SellOperation>,
    b: Seq<BuyOperation>,
    full: (Seq<DirectSwap>, Seq<SellOperation>, Seq<BuyOperation>),
)
    requires
        s.len() > 0,
        b.len() > 0,
        s.to_multiset() == sells0.to_multiset(),
        b.to_multiset() == buys0.to_multiset(),
        sells_sorted_desc(s),
        buys_sorted_desc(b),
        s == sort_desc(sells0, sell_value()),
        b == sort_desc(buys0, buy_value()),
        full == greedy(s, b, 0, 0, s[0].near_value as int, b[0].near_value as int),
    ensures
        matches_greedily(sells0, buys0, full),
        seq_sum(full.0, swap_value()) + seq_sum(full.1, sell_value()) == seq_sum(sells0, sell_value()),
        seq_sum(full.0, swap_value()) + seq_sum(full.2, buy_value()) == seq_sum(buys0, buy_value()),
        full.1.len() == 0 || full.2.len() == 0,
        forall|k: int| 0 <= k < full.0.len() ==> #[trigger] full.0[k].near_value > 0,
{
    vstd::seq_lib::to_multiset_len(sells0);
    vstd::seq_lib::to_multiset_len(s);
    vstd::seq_lib::to_multiset_len(buys0);
    vstd::seq_lib::to_multiset_len(b);
    lemma_greedy_conserves(s, b, 0, 0, s[0].near_value as int, b[0].near_value as int);
    lemma_sum_suffix_step(s, 0, sell_value());
    lemma_sum_suffix_step(b, 0, buy_value());
    assert(s.subrange(0, s.len() as int) =~= s);
    assert(b.subrange(0, b.len() as int) =~= b);
    lemma_sum_permutation(s, sells0, sell_value());
    lemma_sum_permutation(b, buys0, buy_value());
}

} // verus!
