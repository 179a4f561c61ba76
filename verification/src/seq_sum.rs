//! Sums over sequences, defined as left folds so that sums of permuted
//! sequences can be compared.
use vstd::prelude::*;
use vstd::seq_lib::*;

verus! {

/// The step function adding `val(x)` to an accumulator.
pub open spec fn adder<A>(val: spec_fn(A) -> int) -> spec_fn(int, A) -> int {
    |acc: int, x: A| acc + val(x)
}

/// `Σ val(x)` over `s`.
pub open spec fn seq_sum<A>(s: Seq<A>, val: spec_fn(A) -> int) -> int {
    s.fold_left(0, adder(val))
}

/// Folding with a start value adds that value to the sum.
pub proof fn lemma_fold_offset<A>(s: Seq<A>, b: int, val: spec_fn(A) -> int)
    ensures
        s.fold_left(b, adder(val)) == b + seq_sum(s, val),
    decreases s.len(),
{
    if s.len() > 0 {
        lemma_fold_offset(s.drop_last(), b, val);
    }
}

/// Appending an element adds its value.
pub proof fn lemma_sum_push<A>(s: Seq<A>, x: A, val: spec_fn(A) -> int)
    ensures
        seq_sum(s.push(x), val) == seq_sum(s, val) + val(x),
{
    assert(s.push(x).drop_last() =~= s);
}

/// The empty sequence sums to zero.
pub proof fn lemma_sum_empty<A>(s: Seq<A>, val: spec_fn(A) -> int)
    requires
        s.len() == 0,
    ensures
        seq_sum(s, val) == 0,
{
}

/// A singleton sums to its element's value.
pub proof fn lemma_sum_single<A>(x: A, val: spec_fn(A) -> int)
    ensures
        seq_sum(seq![x], val) == val(x),
{
    let e = Seq::<A>::empty();
    lemma_sum_push(e, x, val);
    assert(e.push(x) =~= seq![x]);
}

/// The sum of a concatenation is the sum of the parts.
pub proof fn lemma_sum_concat<A>(a: Seq<A>, b: Seq<A>, val: spec_fn(A) -> int)
    ensures
        seq_sum(a + b, val) == seq_sum(a, val) + seq_sum(b, val),
    decreases b.len(),
{
    if b.len() == 0 {
        assert(a + b =~= a);
    } else {
        lemma_sum_concat(a, b.drop_last(), val);
        assert((a + b).drop_last() =~= a + b.drop_last());
        assert((a + b).last() == b.last());
    }
}

/// Splitting off the element at `i` of the suffix starting at `i`.
pub proof fn lemma_sum_suffix_step<A>(s: Seq<A>, i: int, val: spec_fn(A) -> int)
    requires
        0 <= i < s.len(),
    ensures
        seq_sum(s.subrange(i, s.len() as int), val) == val(s[i]) + seq_sum(
            s.subrange(i + 1, s.len() as int),
            val,
        ),
{
    let suffix = s.subrange(i, s.len() as int);
    assert(suffix =~= seq![s[i]] + s.subrange(i + 1, s.len() as int));
    lemma_sum_concat(seq![s[i]], s.subrange(i + 1, s.len() as int), val);
    lemma_sum_single(s[i], val);
}

/// Permuted sequences have equal sums.
pub proof fn lemma_sum_permutation<A>(a: Seq<A>, b: Seq<A>, val: spec_fn(A) -> int)
    requires
        a.to_multiset() == b.to_multiset(),
    ensures
        seq_sum(a, val) == seq_sum(b, val),
{
    let f = adder(val);
    assert(commutative_foldl(f));
    lemma_fold_left_permutation(a, b, f, 0);
}

} // verus!
