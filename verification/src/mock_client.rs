//! The simulated exchange account: which tokens it has registered, what it
//! reports for deposits, storage and metadata, and what a swap priced from
//! recorded rates yields.
use vstd::prelude::*;
use crate::arith::{floor_mul_div, mul_div_floor};
use crate::output::SwapMethod;
use crate::portfolio_state::{
    swap_amounts, swap_ok, swap_result, ExchangeRate, LedgerView, PortfolioState, SwapEvent, SwapEventView,
    SwapResult, TokenAmount, DEFAULT_DECIMALS,
};
use crate::token_map::TokenMap;

verus! {

/// The exchange's minimum storage balance per registered slot, in
/// yoctoNEAR.
pub const STORAGE_BOUND_MIN_YOCTO: u128 = 1_250_000_000_000_000_000_000;

/// yoctoNEAR per NEAR.
pub const YOCTO_PER_NEAR: u128 = 1_000_000_000_000_000_000_000_000;

/// The set of tokens registered on the simulated exchange account.
pub struct RegisteredTokens {
    tokens: TokenMap<()>,
}

/// What a contract call does to the simulated account.
#[derive(Debug, Clone, Copy, PartialEq, Eq)]
pub enum ContractCall {
    /// A swap, priced and applied to the portfolio.
    Swap,
    /// Registers the listed tokens on the exchange.
    RegisterTokens,
    /// Unregisters the listed tokens.
    UnregisterTokens,
    /// A token transfer with a call; a deposit into the exchange registers
    /// the token.
    TransferCall,
    /// Anything else leaves the account as it is.
    Other,
}

/// The elements of a sequence with one more entry are those of the
/// sequence and the new entry.
proof fn lemma_push_to_set(s: Seq<Seq<char>>, v: Seq<char>)
    ensures
        s.push(v).to_set() == s.to_set().insert(v),
{
    assert forall|x: Seq<char>| s.push(v).to_set().contains(x) == s.to_set().insert(v).contains(x) by {
        if s.push(v).contains(x) {
            let i = choose|i: int| 0 <= i < s.push(v).len() && s.push(v)[i] == x;
            if i < s.len() {
                assert(s[i] == x);
            }
        }
        if s.contains(x) {
            let i = choose|i: int| 0 <= i < s.len() && s[i] == x;
            assert(s.push(v)[i] == x);
        }
        if x == v {
            assert(s.push(v)[s.len() as int] == x);
        }
    }
    assert(s.push(v).to_set() =~= s.to_set().insert(v));
}

/// Appending an element not yet present keeps a sequence free of
/// duplicates and adds the element to its set.
proof fn lemma_push_fresh(s: Seq<Seq<char>>, v: Seq<char>)
    requires
        s.no_duplicates(),
        !s.contains(v),
    ensures
        s.push(v).no_duplicates(),
        s.push(v).to_set() == s.to_set().insert(v),
{
    lemma_push_to_set(s, v);
    assert forall|a: int, b: int| 0 <= a < b < s.push(v).len() implies s.push(v)[a] != s.push(v)[b] by {
        if b == s.len() {
            assert(s[a] == s.push(v)[a]);
        } else {
            assert(s[a] != s[b]);
        }
    }
}

/// The token ids of a list of deposits.
pub open spec fn entry_keys(r: Seq<(String, u128)>) -> Seq<Seq<char>> {
    r.map_values(|e: (String, u128)| e.0@)
}

impl RegisteredTokens {
    /// The registered token ids.
    pub closed spec fn view(&self) -> Set<Seq<char>> {
        self.tokens.view().dom()
    }

    /// Internal consistency.
    pub closed spec fn wf(&self) -> bool {
        self.tokens.wf()
    }

    /// No token registered, as on a fresh account.
    pub fn new() -> (r: Self)
        ensures
            r.wf(),
            r@ == Set::<Seq<char>>::empty(),
    {
        RegisteredTokens { tokens: TokenMap::new() }
    }

    /// Whether `token` is registered.
    pub fn contains(&self, token: &String) -> (r: bool)
        requires
            self.wf(),
        ensures
            r == self@.contains(token@),
    {
        self.tokens.get(token).is_some()
    }

    /// The number of registered tokens.
    pub fn count(&self) -> (n: usize)
        requires
            self.wf(),
        ensures
            n == self@.len(),
    {
        self.tokens.len()
    }

    /// Registers every token of `ids`.
    pub fn register_tokens(&mut self, ids: &Vec<String>)
        requires
            old(self).wf(),
        ensures
            final(self).wf(),
            final(self)@ == old(self)@.union(ids@.map_values(|t: String| t@).to_set()),
    {
        let mut i: usize = 0;
        while i < ids.len()
            invariant
                self.wf(),
                i <= ids@.len(),
                self@ == old(self)@.union(ids@.take(i as int).map_values(|t: String| t@).to_set()),
            decreases ids@.len() - i,
        {
            self.tokens.insert(ids[i].clone(), ());
            proof {
                assert(ids@.take(i as int + 1).map_values(|t: String| t@) =~= ids@.take(i as int).map_values(
                    |t: String| t@,
                ).push(ids@[i as int]@));
                lemma_push_to_set(ids@.take(i as int).map_values(|t: String| t@), ids@[i as int]@);
                assert(self@ =~= old(self)@.union(ids@.take(i as int + 1).map_values(|t: String| t@).to_set()));
            }
            i = i + 1;
        }
        proof {
            assert(ids@.take(ids@.len() as int) =~= ids@);
        }
    }

    /// Unregisters every token of `ids`.
    pub fn unregister_tokens(&mut self, ids: &Vec<String>)
        requires
            old(self).wf(),
        ensures
            final(self).wf(),
            final(self)@ == old(self)@.difference(ids@.map_values(|t: String| t@).to_set()),
    {
        let mut i: usize = 0;
        while i < ids.len()
            invariant
                self.wf(),
                i <= ids@.len(),
                self@ == old(self)@.difference(ids@.take(i as int).map_values(|t: String| t@).to_set()),
            decreases ids@.len() - i,
        {
            self.tokens.remove(&ids[i]);
            proof {
                assert(ids@.take(i as int + 1).map_values(|t: String| t@) =~= ids@.take(i as int).map_values(
                    |t: String| t@,
                ).push(ids@[i as int]@));
                lemma_push_to_set(ids@.take(i as int).map_values(|t: String| t@), ids@[i as int]@);
                assert(self@ =~= old(self)@.difference(
                    ids@.take(i as int + 1).map_values(|t: String| t@).to_set(),
                ));
            }
            i = i + 1;
        }
        proof {
            assert(ids@.take(ids@.len() as int) =~= ids@);
        }
    }

    /// The deposits the exchange reports: wNEAR with the cash balance, every
    /// held token with its held amount, and every registered token (a
    /// registered token not held reports zero); each token once, with the
    /// amount that `deposit_of` gives for it.
    pub fn deposits(&self, wrap_near: &String, cash_balance: u128, holdings: &TokenMap<TokenAmount>) -> (r: Vec<(String, u128)>)
        requires
            self.wf(),
            holdings.wf(),
        ensures
            entry_keys(r@).to_set() == self@.union(holdings@.dom()).insert(wrap_near@),
            entry_keys(r@).no_duplicates(),
            forall|i: int|
                0 <= i < r@.len() ==> (#[trigger] r@[i]).1 == deposit_of(
                    r@[i].0@,
                    wrap_near@,
                    cash_balance,
                    holdings@,
                ),
    {
        let ghost w = wrap_near@;
        let ghost hkeys = holdings.key_seq();
        let ghost rkeys = self.tokens.key_seq();
        proof {
            holdings.lemma_keys_distinct();
            self.tokens.lemma_keys_distinct();
        }
        let mut r: Vec<(String, u128)> = Vec::new();
        let cash = deposit_amount(wrap_near, wrap_near, cash_balance, holdings);
        r.push((wrap_near.clone(), cash));
        proof {
            assert(entry_keys(r@) =~= seq![w]);
            assert(seq![w].to_set() =~= Set::<Seq<char>>::empty().insert(w)) by {
                lemma_push_to_set(Seq::<Seq<char>>::empty(), w);
                assert(Seq::<Seq<char>>::empty().push(w) =~= seq![w]);
                assert(Seq::<Seq<char>>::empty().to_set() =~= Set::<Seq<char>>::empty());
            }
            assert(hkeys.take(0) =~= Seq::<Seq<char>>::empty());
            assert(hkeys.take(0).to_set() =~= Set::<Seq<char>>::empty());
            assert(entry_keys(r@).to_set() =~= hkeys.take(0).to_set().insert(w));
        }
        let n = holdings.len();
        let mut i: usize = 0;
        while i < n
            invariant
                self.wf(),
                holdings.wf(),
                w == wrap_near@,
                hkeys == holdings.key_seq(),
                hkeys.no_duplicates(),
                hkeys.to_set() == holdings@.dom(),
                n == hkeys.len(),
                i <= n,
                entry_keys(r@).no_duplicates(),
                entry_keys(r@).to_set() == hkeys.take(i as int).to_set().insert(w),
                forall|j: int|
                    0 <= j < r@.len() ==> (#[trigger] r@[j]).1 == deposit_of(
                        r@[j].0@,
                        wrap_near@,
                        cash_balance,
                        holdings@,
                    ),
            decreases n - i,
        {
            let token = holdings.key_at(i);
            proof {
                assert(hkeys.take(i as int + 1) =~= hkeys.take(i as int).push(hkeys[i as int]));
                lemma_push_to_set(hkeys.take(i as int), hkeys[i as int]);
            }
            if *token != *wrap_near {
                proof {
                    assert(!hkeys.take(i as int).contains(token@)) by {
                        if hkeys.take(i as int).contains(token@) {
                            let k = choose|k: int| 0 <= k < i && hkeys.take(i as int)[k] == token@;
                            assert(hkeys[k] == hkeys[i as int]);
                        }
                    }
                    assert(!entry_keys(r@).contains(token@)) by {
                        assert(!entry_keys(r@).to_set().contains(token@));
                    }
                }
                let amount = deposit_amount(token, wrap_near, cash_balance, holdings);
                let ghost prev = r@;
                r.push((token.clone(), amount));
                proof {
                    assert(entry_keys(r@) =~= entry_keys(prev).push(token@));
                    lemma_push_fresh(entry_keys(prev), token@);
                    assert(entry_keys(r@).to_set() =~= hkeys.take(i as int + 1).to_set().insert(w));
                }
            } else {
                proof {
                    assert(entry_keys(r@).to_set() =~= hkeys.take(i as int + 1).to_set().insert(w));
                }
            }
            i = i + 1;
        }
        proof {
            assert(hkeys.take(n as int) =~= hkeys);
            assert(rkeys.take(0) =~= Seq::<Seq<char>>::empty());
            assert(rkeys.take(0).to_set() =~= Set::<Seq<char>>::empty());
            assert(entry_keys(r@).to_set() =~= holdings@.dom().union(rkeys.take(0).to_set()).insert(w));
        }
        let m = self.tokens.len();
        let mut j: usize = 0;
        while j < m
            invariant
                self.wf(),
                holdings.wf(),
                w == wrap_near@,
                rkeys == self.tokens.key_seq(),
                rkeys.no_duplicates(),
                rkeys.to_set() == self@,
                m == rkeys.len(),
                j <= m,
                entry_keys(r@).no_duplicates(),
                entry_keys(r@).to_set() == holdings@.dom().union(rkeys.take(j as int).to_set()).insert(w),
                forall|k: int|
                    0 <= k < r@.len() ==> (#[trigger] r@[k]).1 == deposit_of(
                        r@[k].0@,
                        wrap_near@,
                        cash_balance,
                        holdings@,
                    ),
            decreases m - j,
        {
            let token = self.tokens.key_at(j);
            proof {
                assert(rkeys.take(j as int + 1) =~= rkeys.take(j as int).push(rkeys[j as int]));
                lemma_push_to_set(rkeys.take(j as int), rkeys[j as int]);
            }
            if *token != *wrap_near && holdings.get(token).is_none() {
                proof {
                    assert(!rkeys.take(j as int).contains(token@)) by {
                        if rkeys.take(j as int).contains(token@) {
                            let k = choose|k: int| 0 <= k < j && rkeys.take(j as int)[k] == token@;
                            assert(rkeys[k] == rkeys[j as int]);
                        }
                    }
                    assert(!entry_keys(r@).contains(token@)) by {
                        assert(!entry_keys(r@).to_set().contains(token@));
                    }
                }
                let amount = deposit_amount(token, wrap_near, cash_balance, holdings);
                let ghost prev = r@;
                r.push((token.clone(), amount));
                proof {
                    assert(entry_keys(r@) =~= entry_keys(prev).push(token@));
                    lemma_push_fresh(entry_keys(prev), token@);
                    assert(entry_keys(r@).to_set() =~= holdings@.dom().union(rkeys.take(j as int + 1).to_set()).insert(
                        w,
                    ));
                }
            } else {
                proof {
                    assert(entry_keys(r@).to_set() =~= holdings@.dom().union(rkeys.take(j as int + 1).to_set()).insert(
                        w,
                    ));
                }
            }
            j = j + 1;
        }
        proof {
            assert(rkeys.take(m as int) =~= rkeys);
            assert(entry_keys(r@).to_set() =~= self@.union(holdings@.dom()).insert(w));
        }
        r
    }

    /// A transfer of `token` with a call: a deposit into the exchange
    /// registers the token; a transfer elsewhere changes nothing.
    pub fn note_transfer_call(&mut self, token: String, receiver_is_exchange: bool)
        requires
            old(self).wf(),
        ensures
            final(self).wf(),
            receiver_is_exchange ==> final(self)@ == old(self)@.insert(token@),
            !receiver_is_exchange ==> final(self)@ == old(self)@,
    {
        if receiver_is_exchange {
            self.tokens.insert(token, ());
            proof {
                assert(self@ =~= old(self)@.insert(token@));
            }
        }
    }
}

/// Law: unregistering the tokens that were just registered restores the
/// registered set, provided none of them was registered before; and
/// registering again what was just unregistered restores it, provided all
/// of them were registered before.
pub proof fn lemma_registration_round_trip(before: Set<Seq<char>>, ids: Seq<Seq<char>>)
    ensures
        before.disjoint(ids.to_set()) ==> before.union(ids.to_set()).difference(ids.to_set()) == before,
        ids.to_set().subset_of(before) ==> before.difference(ids.to_set()).union(ids.to_set()) == before,
{
    if before.disjoint(ids.to_set()) {
        assert(before.union(ids.to_set()).difference(ids.to_set()) =~= before);
    }
    if ids.to_set().subset_of(before) {
        assert(before.difference(ids.to_set()).union(ids.to_set()) =~= before);
    }
}

/// Classifies a contract call by method name; registrations count only
/// when they are addressed to the exchange contract.
pub fn classify_contract_call(method_name: &String, receiver_is_exchange: bool) -> (r: ContractCall)
    ensures
        method_name@ == "swap"@ ==> r == ContractCall::Swap,
        method_name@ == "register_tokens"@ ==> r == (if receiver_is_exchange {
            ContractCall::RegisterTokens
        } else {
            ContractCall::Other
        }),
        method_name@ == "unregister_tokens"@ ==> r == (if receiver_is_exchange {
            ContractCall::UnregisterTokens
        } else {
            ContractCall::Other
        }),
        method_name@ == "ft_transfer_call"@ ==> r == ContractCall::TransferCall,
        (method_name@ != "swap"@ && method_name@ != "register_tokens"@ && method_name@
            != "unregister_tokens"@ && method_name@ != "ft_transfer_call"@) ==> r == ContractCall::Other,
{
    proof {
        reveal_strlit("swap");
        reveal_strlit("register_tokens");
        reveal_strlit("unregister_tokens");
        reveal_strlit("ft_transfer_call");
        assert("swap"@.len() == 4);
        assert("register_tokens"@.len() == 15);
        assert("unregister_tokens"@.len() == 17);
        assert("ft_transfer_call"@.len() == 16);
    }
    let swap = String::from_str("swap");
    let register = String::from_str("register_tokens");
    let unregister = String::from_str("unregister_tokens");
    let transfer_call = String::from_str("ft_transfer_call");
    if *method_name == swap {
        ContractCall::Swap
    } else if *method_name == register {
        if receiver_is_exchange {
            ContractCall::RegisterTokens
        } else {
            ContractCall::Other
        }
    } else if *method_name == unregister {
        if receiver_is_exchange {
            ContractCall::UnregisterTokens
        } else {
            ContractCall::Other
        }
    } else if *method_name == transfer_call {
        ContractCall::TransferCall
    } else {
        ContractCall::Other
    }
}

/// The storage balance the exchange reports: one minimum slot for the
/// account itself and one per registered token, held at `u128::MAX`.
pub fn storage_balance_total(registered_count: usize) -> (r: u128)
    ensures
        r == (if STORAGE_BOUND_MIN_YOCTO * (registered_count + 1) > u128::MAX {
            u128::MAX as int
        } else {
            STORAGE_BOUND_MIN_YOCTO * (registered_count + 1)
        }),
{
    let slots: u128 = registered_count as u128 + 1;
    match STORAGE_BOUND_MIN_YOCTO.checked_mul(slots) {
        Some(v) => v,
        None => u128::MAX,
    }
}

/// The deposit reported for `token`: the cash balance for wNEAR, the held
/// smallest units for another token, zero for a token not held.
pub open spec fn deposit_of(
    token: Seq<char>,
    wrap_near: Seq<char>,
    cash_balance: u128,
    holdings: Map<Seq<char>, TokenAmount>,
) -> u128 {
    if token == wrap_near {
        cash_balance
    } else if holdings.contains_key(token) {
        holdings[token].smallest_units
    } else {
        0
    }
}

/// The deposit the exchange reports for a registered token: the cash
/// balance for wNEAR, the held smallest units for any other token, zero
/// for a token not held.
pub fn deposit_amount(
    token: &String,
    wrap_near: &String,
    cash_balance: u128,
    holdings: &TokenMap<TokenAmount>,
) -> (r: u128)
    requires
        holdings.wf(),
    ensures
        r == deposit_of(token@, wrap_near@, cash_balance, holdings@),
{
    if *token == *wrap_near {
        cash_balance
    } else {
        match holdings.get(token) {
            Some(h) => h.smallest_units,
            None => 0,
        }
    }
}

/// The decimals reported in a token's metadata: the cached value, else the
/// held amount's decimals, else the default of 24.
pub fn metadata_decimals(cached: Option<u8>, held: Option<u8>) -> (r: u8)
    ensures
        r == match cached {
            Some(d) => d,
            None => match held {
                Some(d) => d,
                None => DEFAULT_DECIMALS,
            },
        },
{
    match cached {
        Some(d) => d,
        None => match held {
            Some(d) => d,
            None => DEFAULT_DECIMALS,
        },
    }
}

/// A rate usable for conversion: at least one smallest unit per NEAR.
pub open spec fn usable(rate: Option<ExchangeRate>) -> bool {
    rate matches Some(r) && r.raw_rate > 0
}

/// The output of a swap priced from recorded rates, before rounding to a
/// whole number of smallest units: in yoctoNEAR of value when the input is
/// wNEAR, then in the output token at its rate.
pub open spec fn rate_swap_output(
    in_is_wnear: bool,
    amount_in: int,
    rate_in: Option<ExchangeRate>,
    out_is_wnear: bool,
    rate_out: Option<ExchangeRate>,
) -> int {
    if !in_is_wnear && !usable(rate_in) {
        0
    } else if !out_is_wnear && !usable(rate_out) {
        0
    } else {
        let num = if out_is_wnear {
            YOCTO_PER_NEAR as int
        } else {
            rate_out->0.raw_rate as int
        };
        let den = if in_is_wnear {
            YOCTO_PER_NEAR as int
        } else {
            rate_in->0.raw_rate as int
        };
        let out = floor_mul_div(amount_in, num, den);
        if out > u128::MAX {
            0
        } else {
            out
        }
    }
}

/// The fallback price of a swap from recorded rates, without fee or
/// slippage: the input is valued in NEAR (wNEAR at par, another token at
/// its rate), then converted into the output token, rounded down. Zero
/// when a needed rate is missing or below one smallest unit per NEAR, and
/// when the output does not fit in `u128`.
pub fn swap_output_via_rates(
    in_is_wnear: bool,
    amount_in: u128,
    rate_in: Option<ExchangeRate>,
    out_is_wnear: bool,
    rate_out: Option<ExchangeRate>,
) -> (r: u128)
    ensures
        r == rate_swap_output(in_is_wnear, amount_in as int, rate_in, out_is_wnear, rate_out),
{
    let den: u128 = if in_is_wnear {
        YOCTO_PER_NEAR
    } else {
        match rate_in {
            Some(r) if r.raw_rate > 0 => r.raw_rate,
            _ => {
                return 0;
            },
        }
    };
    let num: u128 = if out_is_wnear {
        YOCTO_PER_NEAR
    } else {
        match rate_out {
            Some(r) if r.raw_rate > 0 => r.raw_rate,
            _ => {
                return 0;
            },
        }
    };
    match mul_div_floor(amount_in, num, den) {
        Some(v) => v,
        None => 0,
    }
}

/// The output that prices a simulated swap, and how it was obtained: the
/// estimate from the pools along the route when they could price it,
/// otherwise the estimate from recorded rates.
pub open spec fn priced_swap(pool_out: Option<u128>, rate_out: u128) -> (u128, SwapMethod) {
    match pool_out {
        Some(o) => (o, SwapMethod::PoolBased),
        None => (rate_out, SwapMethod::DbRate),
    }
}

/// Settles a swap request of `amount_in` of `token_in` for `token_out` on
/// the simulated portfolio on day `day_secs`, along the route through the
/// pools `pool_ids`. The output is the pool-based estimate (`pool_out`)
/// when there is one, else the recorded-rate estimate (`rate_out`).
/// Nothing happens for a zero input or a zero output; else the portfolio
/// executes the swap and, when it moved anything, records one swap event
/// (with the amounts in `decimals_in` and `decimals_out`); what it moved is
/// returned with the pricing method (`None` when the portfolio skipped it).
pub fn settle_swap(
    portfolio: &mut PortfolioState,
    day_secs: i64,
    token_in: &String,
    amount_in: u128,
    token_out: &String,
    pool_ids: Vec<u32>,
    pool_out: Option<u128>,
    rate_out: u128,
    decimals_in: u8,
    decimals_out: u8,
) -> (r: Option<(SwapResult, SwapMethod)>)
    requires
        old(portfolio).wf(),
        swap_ok(
            old(portfolio).view(),
            token_in@,
            amount_in as int,
            token_out@,
            priced_swap(pool_out, rate_out).0 as int,
        ),
    ensures
        final(portfolio).wf(),
        (amount_in == 0 || priced_swap(pool_out, rate_out).0 == 0) ==> r is None,
        ({
            let priced = priced_swap(pool_out, rate_out);
            let moved = swap_result(old(portfolio).view(), token_in@, amount_in as int, token_out@, priced.0 as int);
            match swap_amounts(old(portfolio).view(), token_in@, amount_in as int, priced.0 as int) {
                None => r is None && final(portfolio).view() == old(portfolio).view(),
                Some((a, o)) => r == Some(
                    (SwapResult { actual_in: a as u128, actual_out: o as u128 }, priced.1),
                ) && final(portfolio).view() == (LedgerView {
                    events: moved.events.push(
                        SwapEventView {
                            day_secs,
                            token_in: token_in@,
                            amount_in: TokenAmount { smallest_units: a as u128, decimals: decimals_in },
                            token_out: token_out@,
                            amount_out: TokenAmount { smallest_units: o as u128, decimals: decimals_out },
                            swap_method: priced.1,
                            pool_ids: pool_ids@,
                        },
                    ),
                    ..moved
                }),
            }
        }),
{
    if amount_in == 0 {
        return None;
    }
    let (amount_out, method) = match pool_out {
        Some(o) => (o, SwapMethod::PoolBased),
        None => (rate_out, SwapMethod::DbRate),
    };
    if amount_out == 0 {
        return None;
    }
    match portfolio.execute_simulated_swap(token_in, amount_in, token_out, amount_out) {
        Some(res) => {
            let event = SwapEvent {
                day_secs,
                token_in: token_in.clone(),
                amount_in: TokenAmount { smallest_units: res.actual_in, decimals: decimals_in },
                token_out: token_out.clone(),
                amount_out: TokenAmount { smallest_units: res.actual_out, decimals: decimals_out },
                swap_method: method,
                pool_ids,
            };
            portfolio.record_swap_event(event);
            Some((res, method))
        },
        None => None,
    }
}

} // verus!
