//! The calendar of a simulation run (which days are simulated), and the
//! lookup of the sample nearest a target time.
use vstd::prelude::*;

verus! {

/// The number of simulated days from `start` to `end` (day numbers)
/// stepping by `interval` days: none when the start is after the end.
pub open spec fn simulated_day_count(start: int, end: int, interval: int) -> int {
    if start > end {
        0
    } else {
        (end - start) / interval + 1
    }
}

/// The simulated days, as day numbers: the start day, then every
/// `interval_days` days after it, up to and including the end day.
pub fn simulation_days(start_day: i64, end_day: i64, interval_days: i64) -> (r: Vec<i64>)
    requires
        interval_days >= 1,
    ensures
        r@.len() == simulated_day_count(start_day as int, end_day as int, interval_days as int),
        forall|k: int| 0 <= k < r@.len() ==> #[trigger] r@[k] == start_day + k * interval_days,
        forall|k: int| 0 <= k < r@.len() ==> start_day <= #[trigger] r@[k] <= end_day,
{
    let mut r: Vec<i64> = Vec::new();
    if start_day > end_day {
        return r;
    }
    let mut current: i64 = start_day;
    let ghost count = simulated_day_count(start_day as int, end_day as int, interval_days as int);
    proof {
        assert(count >= 1);
        assert(r@.len() * interval_days == 0) by (nonlinear_arith)
            requires
                r@.len() == 0,
        ;
    }
    loop
        invariant_except_break
            current == start_day + r@.len() * interval_days,
            current <= end_day ==> r@.len() < count,
            current > end_day ==> r@.len() == count,
        invariant
            interval_days >= 1,
            start_day <= end_day,
            count == (end_day - start_day) / (interval_days as int) + 1,
            r@.len() <= count,
            forall|k: int| 0 <= k < r@.len() ==> #[trigger] r@[k] == start_day + k * interval_days,
            forall|k: int| 0 <= k < r@.len() ==> start_day <= #[trigger] r@[k] <= end_day,
        ensures
            r@.len() == count,
            forall|k: int| 0 <= k < r@.len() ==> #[trigger] r@[k] == start_day + k * interval_days,
            forall|k: int| 0 <= k < r@.len() ==> start_day <= #[trigger] r@[k] <= end_day,
        decreases end_day - current + interval_days,
    {
        if current > end_day {
            break;
        }
        r.push(current);
        let ghost n = r@.len() as int;
        proof {
            lemma_step_count(start_day as int, end_day as int, interval_days as int, n);
        }
        if (end_day as i128) - (current as i128) < interval_days as i128 {
            proof {
                assert(start_day + n * interval_days > end_day) by (nonlinear_arith)
                    requires
                        current == start_day + (n - 1) * interval_days,
                        end_day - current < interval_days,
                ;
            }
            break;
        }
        current = current + interval_days;
        proof {
            assert(current == start_day + n * interval_days) by (nonlinear_arith)
                requires
                    current == start_day + (n - 1) * interval_days + interval_days,
            ;
        }
    }
    r
}

/// The days for which predictions are generated and evaluated, as day
/// numbers: every day from `start_day` through `end_day`. Refused, with
/// both days, when the start lies after the end.
pub fn prediction_days(start_day: i64, end_day: i64) -> (r: Result<Vec<i64>, (i64, i64)>)
    ensures
        start_day > end_day ==> r == Err::<Vec<i64>, (i64, i64)>((start_day, end_day)),
        start_day <= end_day ==> (r matches Ok(days) && days@.len() == end_day - start_day + 1 && forall|k: int|
            0 <= k < days@.len() ==> #[trigger] days@[k] == start_day + k),
{
    if start_day > end_day {
        return Err((start_day, end_day));
    }
    let days = simulation_days(start_day, end_day, 1);
    proof {
        assert((end_day - start_day) / 1 == end_day - start_day);
        assert forall|k: int| 0 <= k < days@.len() implies #[trigger] days@[k] == start_day + k by {
            assert(k * 1 == k);
        }
    }
    Ok(days)
}

/// Counting the steps: after `n` days, the next day `start + n × interval`
/// lies within the range exactly when fewer than the total count are done.
proof fn lemma_step_count(start: int, end: int, interval: int, n: int)
    requires
        interval >= 1,
        start <= end,
        n >= 1,
        start + (n - 1) * interval <= end,
    ensures
        (start + n * interval <= end) <==> n < (end - start) / interval + 1,
        n <= (end - start) / interval + 1,
{
    let q = (end - start) / interval;
    let rem = (end - start) % interval;
    assert(end - start == q * interval + rem && 0 <= rem < interval) by (nonlinear_arith)
        requires
            interval >= 1,
            q == (end - start) / interval,
            rem == (end - start) % interval,
    ;
    assert((n - 1) * interval <= q * interval + rem);
    assert(n - 1 <= q) by (nonlinear_arith)
        requires
            (n - 1) * interval <= q * interval + rem,
            0 <= rem < interval,
            interval >= 1,
    ;
    if n <= q {
        assert(n * interval <= q * interval) by (nonlinear_arith)
            requires
                n <= q,
                interval >= 1,
        ;
    } else {
        assert(n * interval > q * interval + rem) by (nonlinear_arith)
            requires
                n == q + 1,
                0 <= rem < interval,
        ;
    }
}


/// `|a - b|`.
pub open spec fn distance(a: int, b: int) -> int {
    if a >= b {
        a - b
    } else {
        b - a
    }
}

/// The entry of `timestamps` (seconds) closest to `target` among those at
/// most `tolerance` seconds away; the first of equally close entries.
/// `None` when no entry is close enough.
pub fn approx_match(timestamps: &Vec<i64>, target: i64, tolerance: i64) -> (r: Option<usize>)
    ensures
        r is None ==> forall|k: int| 0 <= k < timestamps@.len() ==> distance(#[trigger] timestamps@[k] as int, target as int) > tolerance,
        r matches Some(i) ==> {
            &&& i < timestamps@.len()
            &&& distance(timestamps@[i as int] as int, target as int) <= tolerance
            &&& forall|k: int| 0 <= k < timestamps@.len() && distance(#[trigger] timestamps@[k] as int, target as int) <= tolerance
                ==> distance(timestamps@[i as int] as int, target as int) <= distance(timestamps@[k] as int, target as int)
            &&& forall|k: int| 0 <= k < i && distance(#[trigger] timestamps@[k] as int, target as int) <= tolerance
                ==> distance(timestamps@[i as int] as int, target as int) < distance(timestamps@[k] as int, target as int)
        },
{
    let mut best: Option<usize> = None;
    let mut best_dist: u128 = 0;
    let mut k: usize = 0;
    while k < timestamps.len()
        invariant
            k <= timestamps@.len(),
            best is None ==> forall|q: int| 0 <= q < k ==> distance(#[trigger] timestamps@[q] as int, target as int) > tolerance,
            best matches Some(i) ==> {
                &&& i < k
                &&& best_dist == distance(timestamps@[i as int] as int, target as int)
                &&& best_dist <= tolerance
                &&& forall|q: int| 0 <= q < k && distance(#[trigger] timestamps@[q] as int, target as int) <= tolerance
                    ==> best_dist <= distance(timestamps@[q] as int, target as int)
                &&& forall|q: int| 0 <= q < i && distance(#[trigger] timestamps@[q] as int, target as int) <= tolerance
                    ==> best_dist < distance(timestamps@[q] as int, target as int)
            },
        decreases timestamps@.len() - k,
    {
        let t = timestamps[k];
        let d: u128 = if t >= target {
            (t as i128 - target as i128) as u128
        } else {
            (target as i128 - t as i128) as u128
        };
        let within = (d as i128) <= (tolerance as i128);
        if within {
            match best {
                None => {
                    best = Some(k);
                    best_dist = d;
                },
                Some(_) => {
                    if d < best_dist {
                        best = Some(k);
                        best_dist = d;
                    }
                },
            }
        }
        k = k + 1;
    }
    best
}

} // verus!
