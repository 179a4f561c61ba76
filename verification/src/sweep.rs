//! The parameter grid of a sweep: every combination of one value from each
//! dimension, the first dimension varying slowest.
//!
//! A combination is given by one index into each dimension's value list;
//! mapping the indices back to values is a lookup per dimension.
use vstd::prelude::*;

verus! {

/// The number of combinations of dimensions of the given sizes.
pub open spec fn grid_size(sizes: Seq<usize>) -> nat
    decreases sizes.len(),
{
    if sizes.len() == 0 {
        1
    } else {
        grid_size(sizes.drop_last()) * (sizes.last() as nat)
    }
}

/// The `k`-th combination, in the order where the last dimension varies
/// fastest: the digits of `k` in the mixed radix given by `sizes`.
pub open spec fn combination(sizes: Seq<usize>, k: int) -> Seq<usize>
    decreases sizes.len(),
{
    if sizes.len() == 0 {
        Seq::empty()
    } else {
        combination(sizes.drop_last(), k / (sizes.last() as int)).push((k % (sizes.last() as int)) as usize)
    }
}

proof fn lemma_grid_step(p: int, d: int, j: int)
    requires
        d > 0,
        0 <= j < d,
        0 <= p,
    ensures
        (p * d + j) / d == p,
        (p * d + j) % d == j,
{
    assert((p * d + j) / d == p) by (nonlinear_arith)
        requires
            d > 0,
            0 <= j < d,
            0 <= p,
    ;
    assert((p * d + j) % d == j) by (nonlinear_arith)
        requires
            d > 0,
            0 <= j < d,
            0 <= p,
    ;
}

proof fn lemma_index_bound(p: int, d: int, j: int, n: int)
    requires
        0 <= p < n,
        0 <= j < d,
    ensures
        p * d + j < n * d,
        0 <= p * d + j,
{
    assert(p * d + j < n * d) by (nonlinear_arith)
        requires
            0 <= p < n,
            0 <= j < d,
    ;
    assert(0 <= p * d) by (nonlinear_arith)
        requires
            0 <= p,
            0 <= j < d,
    ;
}

proof fn lemma_grid_monotone(sizes: Seq<usize>, i: int)
    requires
        0 <= i <= sizes.len(),
        forall|m: int| 0 <= m < sizes.len() ==> sizes[m] > 0,
    ensures
        grid_size(sizes.take(i)) <= grid_size(sizes),
    decreases sizes.len() - i,
{
    if i < sizes.len() {
        lemma_grid_monotone(sizes, i + 1);
        assert(sizes.take(i + 1).drop_last() =~= sizes.take(i));
        let a = grid_size(sizes.take(i)) as int;
        let b = sizes[i] as int;
        assert(a <= a * b) by (nonlinear_arith)
            requires
                a >= 0,
                b >= 1,
        ;
    } else {
        assert(sizes.take(i) =~= sizes);
    }
}

/// Every combination of one index per dimension, the first dimension
/// varying slowest. A dimension of size 0 leaves no combination.
pub fn index_combinations(sizes: &Vec<usize>) -> (r: Vec<Vec<usize>>)
    requires
        grid_size(sizes@) <= usize::MAX,
    ensures
        r@.len() == grid_size(sizes@),
        forall|k: int| 0 <= k < r@.len() ==> #[trigger] r@[k]@ == combination(sizes@, k),
{
    let mut i: usize = 0;
    while i < sizes.len()
        invariant
            i <= sizes@.len(),
            forall|m: int| 0 <= m < i ==> sizes@[m] > 0,
        decreases sizes@.len() - i,
    {
        if sizes[i] == 0 {
            proof {
                lemma_grid_zero(sizes@, i as int);
            }
            return Vec::new();
        }
        i = i + 1;
    }
    let mut cur: Vec<Vec<usize>> = Vec::new();
    cur.push(Vec::new());
    proof {
        assert(sizes@.take(0) =~= Seq::<usize>::empty());
        assert(cur@[0]@ =~= combination(sizes@.take(0), 0));
    }
    let mut dim: usize = 0;
    while dim < sizes.len()
        invariant
            dim <= sizes@.len(),
            forall|m: int| 0 <= m < sizes@.len() ==> sizes@[m] > 0,
            grid_size(sizes@) <= usize::MAX,
            cur@.len() == grid_size(sizes@.take(dim as int)),
            forall|k: int| 0 <= k < cur@.len() ==> #[trigger] cur@[k]@ == combination(sizes@.take(dim as int), k),
        decreases sizes@.len() - dim,
    {
        let d = sizes[dim];
        let ghost prev = sizes@.take(dim as int);
        let ghost next_sizes = sizes@.take(dim as int + 1);
        proof {
            assert(next_sizes.drop_last() =~= prev);
            assert(next_sizes.last() == d);
            lemma_grid_monotone(sizes@, dim as int + 1);
        }
        let mut next: Vec<Vec<usize>> = Vec::new();
        let mut p: usize = 0;
        while p < cur.len()
            invariant
                d == sizes@[dim as int],
                d > 0,
                dim < sizes@.len(),
                next_sizes == sizes@.take(dim as int + 1),
                next_sizes.drop_last() == prev,
                next_sizes.last() == d,
                prev == sizes@.take(dim as int),
                grid_size(next_sizes) <= usize::MAX,
                grid_size(next_sizes) == grid_size(prev) * (d as nat),
                cur@.len() == grid_size(prev),
                forall|k: int| 0 <= k < cur@.len() ==> #[trigger] cur@[k]@ == combination(prev, k),
                p <= cur@.len(),
                next@.len() == p * d,
                forall|k: int| 0 <= k < next@.len() ==> #[trigger] next@[k]@ == combination(next_sizes, k),
            decreases cur@.len() - p,
        {
            let mut j: usize = 0;
            while j < d
                invariant
                    d == sizes@[dim as int],
                    d > 0,
                    next_sizes.len() > 0,
                    next_sizes.drop_last() == prev,
                    next_sizes.last() == d,
                    grid_size(next_sizes) <= usize::MAX,
                    grid_size(next_sizes) == grid_size(prev) * (d as nat),
                    cur@.len() == grid_size(prev),
                    forall|k: int| 0 <= k < cur@.len() ==> #[trigger] cur@[k]@ == combination(prev, k),
                    p < cur@.len(),
                    j <= d,
                    next@.len() == p * d + j,
                    forall|k: int| 0 <= k < next@.len() ==> #[trigger] next@[k]@ == combination(next_sizes, k),
                decreases d - j,
            {
                proof {
                    lemma_index_bound(p as int, d as int, j as int, cur@.len() as int);
                }
                let mut q: Vec<usize> = Vec::new();
                let mut t: usize = 0;
                while t < cur[p].len()
                    invariant
                        p < cur@.len(),
                        t <= cur@[p as int]@.len(),
                        q@ == cur@[p as int]@.take(t as int),
                    decreases cur@[p as int]@.len() - t,
                {
                    q.push(cur[p][t]);
                    proof {
                        assert(q@ =~= cur@[p as int]@.take(t as int + 1));
                    }
                    t = t + 1;
                }
                q.push(j);
                proof {
                    assert(cur@[p as int]@.take(t as int) =~= cur@[p as int]@);
                    lemma_grid_step(p as int, d as int, j as int);
                    let k: int = p * d + j;
                    assert(k / (d as int) == p as int);
                    assert(k % (d as int) == j as int);
                    assert(combination(next_sizes, k) == combination(next_sizes.drop_last(), k / (d as int)).push(
                        (k % (d as int)) as usize,
                    ));
                    assert(combination(next_sizes, k) == combination(prev, p as int).push(j));
                    assert(q@ =~= combination(next_sizes, k as int));
                }
                next.push(q);
                j = j + 1;
            }
            proof {
                assert((p + 1) * d == p * d + d) by (nonlinear_arith);
            }
            p = p + 1;
        }
        cur = next;
        dim = dim + 1;
    }
    proof {
        assert(sizes@.take(sizes@.len() as int) =~= sizes@);
    }
    cur
}

/// Law: different positions in the grid are different combinations, so
/// the sweep runs every combination exactly once.
pub proof fn lemma_combinations_distinct(sizes: Seq<usize>, k1: int, k2: int)
    requires
        0 <= k1 < grid_size(sizes),
        0 <= k2 < grid_size(sizes),
        k1 != k2,
    ensures
        combination(sizes, k1) != combination(sizes, k2),
    decreases sizes.len(),
{
    if sizes.len() > 0 {
        let d = sizes.last() as int;
        let g = grid_size(sizes.drop_last()) as int;
        assert(d > 0) by (nonlinear_arith)
            requires
                0 <= k1 < g * d,
                g >= 0,
                d >= 0,
        ;
        let c1 = combination(sizes, k1);
        let c2 = combination(sizes, k2);
        if k1 % d != k2 % d {
            assert(c1.last() != c2.last());
        } else {
            assert(k1 / d != k2 / d) by (nonlinear_arith)
                requires
                    d > 0,
                    k1 % d == k2 % d,
                    k1 != k2,
            ;
            assert(0 <= k1 / d < g) by (nonlinear_arith)
                requires
                    d > 0,
                    0 <= k1 < g * d,
            ;
            assert(0 <= k2 / d < g) by (nonlinear_arith)
                requires
                    d > 0,
                    0 <= k2 < g * d,
            ;
            lemma_combinations_distinct(sizes.drop_last(), k1 / d, k2 / d);
            assert(c1.drop_last() == combination(sizes.drop_last(), k1 / d));
            assert(c2.drop_last() == combination(sizes.drop_last(), k2 / d));
        }
    }
}

proof fn lemma_grid_zero(sizes: Seq<usize>, i: int)
    requires
        0 <= i < sizes.len(),
        sizes[i] == 0,
    ensures
        grid_size(sizes) == 0,
    decreases sizes.len(),
{
    let a = grid_size(sizes.drop_last()) as int;
    if i == sizes.len() - 1 {
        assert(a * 0 == 0) by (nonlinear_arith);
    } else {
        lemma_grid_zero(sizes.drop_last(), i);
        let b = sizes.last() as int;
        assert(0 * b == 0) by (nonlinear_arith);
    }
}

} // verus!
