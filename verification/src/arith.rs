//! Exact integer helpers shared by the amount computations.
//!
//! Token amounts and yoctoNEAR values are 128-bit integers, and several
//! computations need `floor(a × b / c)` where the product `a × b` does not
//! fit in 128 bits. The helpers here compute that quotient exactly without
//! a wider integer type.
use vstd::arithmetic::div_mod::*;
use vstd::arithmetic::mul::*;
use vstd::prelude::*;

verus! {

/// `floor(a × b / c)` over the integers.
pub open spec fn floor_mul_div(a: int, b: int, c: int) -> int {
    (a * b) / c
}

/// The floor of `a/s − b/d` from the quotients and remainders of `a/s`
/// and `b/d`: the difference of the quotients, less one when the fraction
/// of `a/s` is smaller than that of `b/d`.
pub proof fn lemma_floor_of_difference(a: int, s: int, b: int, d: int)
    requires
        a >= 0,
        b >= 0,
        s > 0,
        d > 0,
    ensures
        (a * d - b * s) / (s * d) == a / s - b / d - (if (a % s) * d >= (b % d) * s {
            0int
        } else {
            1int
        }),
{
    let qa = a / s;
    let ra = a % s;
    let qb = b / d;
    let rb = b % d;
    lemma_fundamental_div_mod(a, s);
    lemma_mod_bound(a, s);
    lemma_fundamental_div_mod(b, d);
    lemma_mod_bound(b, d);
    let t = ra * d - rb * s;
    let sd = s * d;
    assert(a * d - b * s == (qa - qb) * sd + t) by (nonlinear_arith)
        requires
            a == s * qa + ra,
            b == d * qb + rb,
            t == ra * d - rb * s,
            sd == s * d,
    ;
    assert(-sd < t < sd && sd > 0) by (nonlinear_arith)
        requires
            0 <= ra < s,
            0 <= rb < d,
            t == ra * d - rb * s,
            sd == s * d,
            s > 0,
            d > 0,
    ;
    if t >= 0 {
        lemma_fundamental_div_mod_converse(a * d - b * s, sd, qa - qb, t);
    } else {
        assert(a * d - b * s == (qa - qb - 1) * sd + (t + sd)) by (nonlinear_arith)
            requires
                a * d - b * s == (qa - qb) * sd + t,
        ;
        lemma_fundamental_div_mod_converse(a * d - b * s, sd, qa - qb - 1, t + sd);
    }
}

/// For a positive divisor, `x / d >= m` exactly when `x >= m × d`.
pub proof fn lemma_div_at_least(x: int, d: int, m: int)
    requires
        d > 0,
    ensures
        (x / d >= m) == (x >= m * d),
{
    lemma_fundamental_div_mod(x, d);
    lemma_mod_bound(x, d);
    let q = x / d;
    let r = x % d;
    if q >= m {
        assert(x >= m * d) by (nonlinear_arith)
            requires
                x == d * q + r,
                r >= 0,
                q >= m,
                d > 0,
        ;
    } else {
        assert(x < m * d) by (nonlinear_arith)
            requires
                x == d * q + r,
                r < d,
                q < m,
                d > 0,
        ;
    }
}

/// One step of the binary multiplication keeps `acc + term × k` unchanged.
proof fn lemma_halving_step(acc: int, term: int, k: int)
    requires
        k > 0,
    ensures
        acc + term * k == (acc + term * (k % 2)) + (2 * term) * (k / 2),
{
    assert(k == 2 * (k / 2) + k % 2);
    assert(term * k == term * (2 * (k / 2)) + term * (k % 2)) by (nonlinear_arith)
        requires
            k == 2 * (k / 2) + k % 2,
    ;
    assert(term * (2 * (k / 2)) == (2 * term) * (k / 2)) by (nonlinear_arith);
}

/// `term × k >= term` for `k >= 1` and non-negative `term`.
proof fn lemma_mul_ge_self(term: int, k: int)
    requires
        term >= 0,
        k >= 1,
    ensures
        term * k >= term,
{
    assert(term * k >= term * 1) by (nonlinear_arith)
        requires
            term >= 0,
            k >= 1,
    ;
}

/// Adds two remainders modulo `m` without overflow: returns the sum's
/// remainder and whether it wrapped (the carry into the quotient).
fn add_mod(r1: u128, r2: u128, m: u128) -> (res: (u128, u128))
    requires
        r1 < m,
        r2 < m,
    ensures
        res.0 < m,
        res.1 <= 1,
        r1 + r2 == res.1 * m + res.0,
{
    if r1 >= m - r2 {
        (r1 - (m - r2), 1)
    } else {
        (r1 + r2, 0)
    }
}

/// `floor(x × y / m)` for `x < m`, computed exactly by binary multiplication
/// while tracking each partial product as a quotient and a remainder.
pub fn mul_div_below(x: u128, y: u128, m: u128) -> (r: u128)
    requires
        x < m,
    ensures
        r as int == floor_mul_div(x as int, y as int, m as int),
        r <= y,
{
    mul_div_below_rem(x, y, m).0
}

/// `floor(x × y / m)` and `(x × y) mod m` for `x < m`.
fn mul_div_below_rem(x: u128, y: u128, m: u128) -> (r: (u128, u128))
    requires
        x < m,
    ensures
        r.0 as int == floor_mul_div(x as int, y as int, m as int),
        r.1 as int == (x as int * y as int) % (m as int),
        r.0 <= y,
{
    let mut acc_q: u128 = 0;
    let mut acc_r: u128 = 0;
    let mut t_q: u128 = 0;
    let mut t_r: u128 = x;
    let mut k: u128 = y;
    let ghost total: int = x as int * y as int;
    proof {
        assert(total >= 0) by (nonlinear_arith)
            requires
                total == x as int * y as int,
        ;
        assert(total <= (m as int) * (y as int)) by (nonlinear_arith)
            requires
                total == x as int * y as int,
                x < m,
        ;
    }
    while k > 0
        invariant
            x < m,
            acc_r < m,
            t_r < m,
            total == x as int * y as int,
            total <= (m as int) * (y as int),
            (acc_q as int * m as int + acc_r) + (t_q as int * m as int + t_r) * (k as int) == total,
            acc_q as int * m as int + acc_r >= 0,
            t_q as int * m as int + t_r >= 0,
        decreases k,
    {
        let ghost acc: int = acc_q as int * m as int + acc_r;
        let ghost term: int = t_q as int * m as int + t_r;
        let ghost k0: int = k as int;
        proof {
            lemma_halving_step(acc, term, k0);
            lemma_mul_ge_self(term, k0);
        }
        if k % 2 == 1 {
            let (nr, carry) = add_mod(acc_r, t_r, m);
            proof {
                // acc + term <= total <= m * y, so the new quotient fits below y.
                let s: int = acc_q as int + t_q as int + carry as int;
                assert(s * m as int + nr == acc + term) by (nonlinear_arith)
                    requires
                        acc == acc_q as int * m as int + acc_r,
                        term == t_q as int * m as int + t_r,
                        acc_r + t_r == carry * m + nr,
                        s == acc_q as int + t_q as int + carry as int,
                ;
                assert(s <= y as int) by (nonlinear_arith)
                    requires
                        s * m as int + nr == acc + term,
                        acc + term <= total,
                        total <= (m as int) * (y as int),
                        nr >= 0,
                        m > 0,
                ;
            }
            acc_q = acc_q + t_q + carry;
            acc_r = nr;
        }
        k = k / 2;
        if k > 0 {
            let (nr, carry) = add_mod(t_r, t_r, m);
            proof {
                let s: int = 2 * t_q as int + carry as int;
                assert(s * m as int + nr == 2 * term) by (nonlinear_arith)
                    requires
                        term == t_q as int * m as int + t_r,
                        t_r + t_r == carry * m + nr,
                        s == 2 * t_q as int + carry as int,
                ;
                // 2 * term <= term * k0 <= total - acc <= m * y
                assert(2 * term <= term * k0) by (nonlinear_arith)
                    requires
                        term >= 0,
                        k0 >= 2,
                ;
                assert(acc >= 0);
                assert(s <= y as int) by (nonlinear_arith)
                    requires
                        s * m as int + nr == 2 * term,
                        2 * term <= term * k0,
                        acc + term * k0 == total,
                        acc >= 0,
                        total <= (m as int) * (y as int),
                        nr >= 0,
                        m > 0,
                ;
            }
            t_q = 2 * t_q + carry;
            t_r = nr;
        }
        proof {
            let acc2: int = acc_q as int * m as int + acc_r;
            let term2: int = t_q as int * m as int + t_r;
            if k0 % 2 == 1 {
                assert(acc2 == acc + term);
                let b = k0 % 2;
                assert(b == 1);
                assert(term * b == term) by (nonlinear_arith)
                    requires
                        b == 1,
                ;
            } else {
                assert(acc2 == acc);
                let b = k0 % 2;
                assert(b == 0);
                assert(term * b == 0) by (nonlinear_arith)
                    requires
                        b == 0,
                ;
            }
            assert(k as int == k0 / 2);
            if k > 0 {
                assert(term2 == 2 * term);
            } else {
                assert(term2 * (k as int) == 0) by (nonlinear_arith)
                    requires
                        k == 0,
                ;
                assert((2 * term) * (k as int) == 0) by (nonlinear_arith)
                    requires
                        k == 0,
                ;
            }
            assert(acc2 + term2 * (k as int) == total);
            assert(acc2 >= 0) by (nonlinear_arith)
                requires
                    acc2 == acc_q as int * m as int + acc_r,
                    acc_r >= 0,
                    m > 0,
            ;
            assert(term2 >= 0) by (nonlinear_arith)
                requires
                    term2 == t_q as int * m as int + t_r,
                    t_r >= 0,
                    m > 0,
            ;
        }
    }
    proof {
        assert((t_q as int * m as int + t_r) * (k as int) == 0);
        lemma_fundamental_div_mod_converse(total, m as int, acc_q as int, acc_r as int);
        assert(acc_q as int <= y as int) by (nonlinear_arith)
            requires
                acc_q as int * m as int + acc_r == total,
                total <= (m as int) * (y as int),
                acc_r >= 0,
                m > 0,
        ;
    }
    (acc_q, acc_r)
}

/// `floor(a × b / c)` when it fits in 128 bits, `None` when it does not.
pub fn mul_div_floor(a: u128, b: u128, c: u128) -> (r: Option<u128>)
    requires
        c > 0,
    ensures
        match r {
            Some(v) => v as int == floor_mul_div(a as int, b as int, c as int),
            None => floor_mul_div(a as int, b as int, c as int) > u128::MAX,
        },
{
    let q = a / c;
    let rem = a % c;
    let low = mul_div_below(rem, b, c);
    proof {
        let ai = a as int;
        let bi = b as int;
        let ci = c as int;
        assert(ai == ci * (q as int) + rem as int) by {
            lemma_fundamental_div_mod(ai, ci);
        }
        assert(ai * bi == (q as int * bi) * ci + rem as int * bi) by (nonlinear_arith)
            requires
                ai == ci * (q as int) + rem as int,
        ;
        let n = rem as int * bi;
        lemma_fundamental_div_mod(n, ci);
        lemma_mod_bound(n, ci);
        assert(ai * bi == (q as int * bi + n / ci) * ci + n % ci) by (nonlinear_arith)
            requires
                ai * bi == (q as int * bi) * ci + n,
                n == ci * (n / ci) + n % ci,
        ;
        lemma_fundamental_div_mod_converse(ai * bi, ci, q as int * bi + n / ci, n % ci);
        assert((ai * bi) / ci == q as int * bi + (rem as int * bi) / ci);
        assert((rem as int * bi) / ci >= 0) by {
            assert(rem as int * bi >= 0) by (nonlinear_arith)
                requires
                    rem >= 0,
                    bi >= 0,
            ;
            lemma_div_pos_is_pos(rem as int * bi, ci);
        }
    }
    match q.checked_mul(b) {
        None => None,
        Some(qb) => qb.checked_add(low),
    }
}

/// `floor(a × b / c)` together with `(a × b) mod c`, when the quotient
/// fits in 128 bits; `None` when it does not.
pub fn mul_div_rem(a: u128, b: u128, c: u128) -> (r: Option<(u128, u128)>)
    requires
        c > 0,
    ensures
        match r {
            Some((q, m)) => q as int == floor_mul_div(a as int, b as int, c as int) && m as int == (a as int
                * b as int) % (c as int),
            None => floor_mul_div(a as int, b as int, c as int) > u128::MAX,
        },
{
    let q = a / c;
    let rem = a % c;
    let (low, low_r) = mul_div_below_rem(rem, b, c);
    proof {
        let ai = a as int;
        let bi = b as int;
        let ci = c as int;
        assert(ai == ci * (q as int) + rem as int) by {
            lemma_fundamental_div_mod(ai, ci);
        }
        assert(ai * bi == (q as int * bi) * ci + rem as int * bi) by (nonlinear_arith)
            requires
                ai == ci * (q as int) + rem as int,
        ;
        let n = rem as int * bi;
        lemma_fundamental_div_mod(n, ci);
        lemma_mod_bound(n, ci);
        assert(ai * bi == (q as int * bi + n / ci) * ci + n % ci) by (nonlinear_arith)
            requires
                ai * bi == (q as int * bi) * ci + n,
                n == ci * (n / ci) + n % ci,
        ;
        lemma_fundamental_div_mod_converse(ai * bi, ci, q as int * bi + n / ci, n % ci);
        assert((rem as int * bi) / ci >= 0) by {
            assert(rem as int * bi >= 0) by (nonlinear_arith)
                requires
                    rem >= 0,
                    bi >= 0,
            ;
            lemma_div_pos_is_pos(rem as int * bi, ci);
        }
    }
    match q.checked_mul(b) {
        None => None,
        Some(qb) => match qb.checked_add(low) {
            None => None,
            Some(v) => Some((v, low_r)),
        },
    }
}

} // verus!
