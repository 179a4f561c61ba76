//! The alpha gate in front of the optimizer: which candidate tokens reach
//! it, and how a gate that rejects too much is topped up.
//!
//! Candidates are indexed by their position in the candidate list. Whether
//! a candidate's expected return covers its round-trip cost, and the order
//! of the rejected candidates by expected return, are computed on floating
//! point by the caller and handed in.
use vstd::prelude::*;

verus! {

/// How the alpha gate treats one token.
#[derive(Debug, Clone, Copy, PartialEq, Eq, Structural)]
pub enum GateVerdict {
    /// Already held: always kept, so the position can be exited.
    Held,
    /// No swap route is known: kept, the route failure is handled later.
    NoBundle,
    /// Its expected return over the holding period beats the cost.
    Passed,
    /// Its expected return does not cover the cost, or the cost could not
    /// be estimated.
    Rejected,
}

/// What the alpha gate hands on: per token whether it is kept, and whether
/// and how many rejected candidates were reinstated.
#[derive(Debug, Clone)]
pub struct AlphaGateOutcome {
    pub kept: Vec<bool>,
    pub fallback_used: bool,
    pub fallback_count: usize,
}

/// `0` when the token already has a deposit registered with the exchange,
/// `1` when a fresh storage deposit is needed.
pub fn new_token_count(existing_deposits: &Vec<String>, token: &String) -> (r: usize)
    ensures
        r == (if existing_deposits@.map_values(|t: String| t@).contains(token@) {
            0usize
        } else {
            1usize
        }),
{
    let mut i: usize = 0;
    while i < existing_deposits.len()
        invariant
            i <= existing_deposits@.len(),
            forall|j: int| 0 <= j < i ==> existing_deposits@[j]@ != token@,
        decreases existing_deposits@.len() - i,
    {
        if existing_deposits[i] == *token {
            proof {
                assert(existing_deposits@.map_values(|t: String| t@)[i as int] == token@);
            }
            return 0;
        }
        i = i + 1;
    }
    proof {
        let names = existing_deposits@.map_values(|t: String| t@);
        if names.contains(token@) {
            let j = choose|j: int| 0 <= j < names.len() && #[trigger] names[j] == token@;
            assert(existing_deposits@[j]@ == token@);
        }
    }
    1
}

/// The number of kept candidates that are not held.
pub open spec fn non_held_kept(kept: Seq<bool>, held: Seq<bool>, n: int) -> nat
    decreases n,
{
    if n <= 0 {
        0
    } else {
        non_held_kept(kept, held, n - 1) + (if kept[n - 1] && !held[n - 1] {
            1nat
        } else {
            0nat
        })
    }
}

/// How many rejected candidates the fallback reinstates: enough to bring
/// the non-held kept candidates up to `min_pass_count`, as far as there
/// are ranked rejections; none when the minimum is `0`.
pub open spec fn fallback_take(kept: Seq<bool>, held: Seq<bool>, ranked_len: int, min_pass_count: int) -> int {
    let have = non_held_kept(kept, held, kept.len() as int);
    if min_pass_count == 0 || have >= min_pass_count {
        0
    } else if min_pass_count - have <= ranked_len {
        min_pass_count - have
    } else {
        ranked_len
    }
}

/// The ranked rejections: indices of candidates that are not kept, with
/// no index twice.
pub open spec fn ranked_ok(kept: Seq<bool>, ranked: Seq<usize>) -> bool {
    &&& ranked.no_duplicates()
    &&& forall|k: int| 0 <= k < ranked.len() ==> ranked[k] < kept.len() && !kept[ranked[k] as int]
}

/// Reinstates the highest ranked rejections until at least
/// `min_pass_count` non-held candidates are kept, or the ranking runs out.
/// Returns whether any were reinstated, and how many.
pub fn apply_min_pass_fallback(
    kept: &mut Vec<bool>,
    held: &Vec<bool>,
    ranked: &Vec<usize>,
    min_pass_count: usize,
) -> (r: (bool, usize))
    requires
        held@.len() == old(kept)@.len(),
        ranked_ok(old(kept)@, ranked@),
    ensures
        final(kept)@.len() == old(kept)@.len(),
        r.1 == fallback_take(old(kept)@, held@, ranked@.len() as int, min_pass_count as int),
        r.0 == (r.1 > 0),
        forall|i: int|
            0 <= i < final(kept)@.len() ==> #[trigger] final(kept)@[i] == (old(kept)@[i]
                || ranked@.take(r.1 as int).contains(i as usize)),
{
    let ghost k0 = kept@;
    let ghost take = fallback_take(k0, held@, ranked@.len() as int, min_pass_count as int);
    if min_pass_count == 0 {
        proof {
            assert(ranked@.take(0) =~= Seq::<usize>::empty());
        }
        return (false, 0);
    }
    let mut have: usize = 0;
    let mut i: usize = 0;
    while i < kept.len()
        invariant
            kept@ == k0,
            held@.len() == k0.len(),
            i <= k0.len(),
            have == non_held_kept(k0, held@, i as int),
            have <= i,
        decreases k0.len() - i,
    {
        if kept[i] && !held[i] {
            have = have + 1;
        }
        i = i + 1;
    }
    if have >= min_pass_count {
        proof {
            assert(ranked@.take(0) =~= Seq::<usize>::empty());
        }
        return (false, 0);
    }
    let needed = min_pass_count - have;
    let n: usize = kept.len();
    let mut count: usize = 0;
    while count < needed && count < ranked.len()
        invariant
            ranked_ok(k0, ranked@),
            kept@.len() == k0.len(),
            k0.len() == n,
            count <= ranked@.len(),
            count <= needed,
            needed == min_pass_count - non_held_kept(k0, held@, k0.len() as int),
            forall|j: int|
                0 <= j < kept@.len() ==> #[trigger] kept@[j] == (k0[j] || ranked@.take(
                    count as int,
                ).contains(j as usize)),
        decreases ranked@.len() - count,
    {
        let idx = ranked[count];
        let ghost prev = kept@;
        kept.set(idx, true);
        proof {
            let t0 = ranked@.take(count as int);
            let t1 = ranked@.take(count as int + 1);
            assert(t1 =~= t0.push(idx));
            assert forall|j: int| 0 <= j < kept@.len() implies #[trigger] kept@[j] == (k0[j]
                || t1.contains(j as usize)) by {
                if t0.contains(j as usize) {
                    let m = choose|m: int| 0 <= m < t0.len() && #[trigger] t0[m] == j as usize;
                    assert(t1[m] == j as usize);
                }
                if t1.contains(j as usize) && j != idx as int {
                    let m = choose|m: int| 0 <= m < t1.len() && #[trigger] t1[m] == j as usize;
                    assert(j as usize as int == j);
                    assert(t1[count as int] == idx);
                    assert(m != count as int);
                    assert(t0[m] == j as usize);
                }
                if j == idx as int {
                    assert(t1[count as int] == idx);
                }
                assert(prev[j] == (k0[j] || t0.contains(j as usize)));
            }
        }
        count = count + 1;
    }
    (count > 0, count)
}

/// Runs the alpha gate: every token but a rejected one is kept, then the
/// fallback tops up the kept set from the ranked rejections (`ranked`
/// lists the rejected candidates by expected return, highest first).
pub fn apply_alpha_gate(verdicts: &Vec<GateVerdict>, ranked: &Vec<usize>, min_pass_count: usize) -> (r: AlphaGateOutcome)
    requires
        ranked@.no_duplicates(),
        forall|k: int|
            0 <= k < ranked@.len() ==> ranked@[k] < verdicts@.len() && verdicts@[ranked@[k] as int]
                == GateVerdict::Rejected,
    ensures
        r.kept@.len() == verdicts@.len(),
        r.fallback_count == fallback_take(
            verdicts@.map_values(|v: GateVerdict| v != GateVerdict::Rejected),
            verdicts@.map_values(|v: GateVerdict| v == GateVerdict::Held),
            ranked@.len() as int,
            min_pass_count as int,
        ),
        r.fallback_used == (r.fallback_count > 0),
        forall|i: int|
            0 <= i < verdicts@.len() ==> #[trigger] r.kept@[i] == (verdicts@[i] != GateVerdict::Rejected
                || ranked@.take(r.fallback_count as int).contains(i as usize)),
{
    let mut kept: Vec<bool> = Vec::new();
    let mut held: Vec<bool> = Vec::new();
    let mut i: usize = 0;
    while i < verdicts.len()
        invariant
            i <= verdicts@.len(),
            kept@ == verdicts@.take(i as int).map_values(|v: GateVerdict| v != GateVerdict::Rejected),
            held@ == verdicts@.take(i as int).map_values(|v: GateVerdict| v == GateVerdict::Held),
        decreases verdicts@.len() - i,
    {
        let v = verdicts[i];
        kept.push(v != GateVerdict::Rejected);
        held.push(v == GateVerdict::Held);
        proof {
            assert(verdicts@.take(i as int + 1) =~= verdicts@.take(i as int).push(v));
            assert(kept@ =~= verdicts@.take(i as int + 1).map_values(
                |v: GateVerdict| v != GateVerdict::Rejected,
            ));
            assert(held@ =~= verdicts@.take(i as int + 1).map_values(
                |v: GateVerdict| v == GateVerdict::Held,
            ));
        }
        i = i + 1;
    }
    proof {
        assert(verdicts@.take(verdicts@.len() as int) =~= verdicts@);
    }
    let (fallback_used, fallback_count) = apply_min_pass_fallback(&mut kept, &held, ranked, min_pass_count);
    AlphaGateOutcome { kept, fallback_used, fallback_count }
}

} // verus!
