//! The integer side of the trade cost estimate: the fixed cost of a round
//! trip (gas plus storage deposits) and the token amount that a sell leg
//! routes.
use vstd::prelude::*;
use crate::arith::{floor_mul_div, mul_div_floor};

verus! {

/// Sanity cap on the per-token storage deposit: 1 NEAR in yoctoNEAR.
pub const STORAGE_MIN_SANE_CAP: u128 = 1_000_000_000_000_000_000_000_000;

/// The largest number of fresh token registrations one estimate may charge.
pub const MAX_NEW_TOKEN_COUNT: usize = 16;

/// yoctoNEAR in one NEAR.
pub const YOCTO_PER_NEAR: u128 = 1_000_000_000_000_000_000_000_000;

/// Why a cost estimate was refused.
#[derive(Debug, Clone, Copy, PartialEq, Eq)]
pub enum CostError {
    /// More fresh token registrations than `MAX_NEW_TOKEN_COUNT`.
    TooManyNewTokens { count: usize },
    /// The gas cost in yoctoNEAR does not fit in `u128`.
    GasOverflow,
    /// The sell leg's input in smallest units does not fit in `u128`.
    SellInputOverflow,
}

/// The storage deposit per token, capped at `STORAGE_MIN_SANE_CAP`; a
/// value that does not fit in `u128` (`None`) is capped too.
pub fn clamp_storage_min(raw: Option<u128>) -> (r: u128)
    ensures
        r == match raw {
            Some(v) => if v <= STORAGE_MIN_SANE_CAP {
                v
            } else {
                STORAGE_MIN_SANE_CAP
            },
            None => STORAGE_MIN_SANE_CAP,
        },
{
    let v = match raw {
        Some(v) => v,
        None => u128::MAX,
    };
    if v > STORAGE_MIN_SANE_CAP {
        STORAGE_MIN_SANE_CAP
    } else {
        v
    }
}

/// `a + b`, held at `u128::MAX`.
pub open spec fn sat_add(a: int, b: int) -> int {
    if a + b > u128::MAX {
        u128::MAX as int
    } else {
        a + b
    }
}

/// `a * b`, held at `u128::MAX`.
pub open spec fn sat_mul(a: int, b: int) -> int {
    if a * b > u128::MAX {
        u128::MAX as int
    } else {
        a * b
    }
}

/// The storage per token as charged: the raw deposit capped.
pub open spec fn capped_storage(raw: Option<u128>) -> int {
    match raw {
        Some(v) => if v <= STORAGE_MIN_SANE_CAP {
            v as int
        } else {
            STORAGE_MIN_SANE_CAP as int
        },
        None => STORAGE_MIN_SANE_CAP as int,
    }
}

/// The fixed cost of a round trip in yoctoNEAR: the gas of both swap legs
/// plus one capped storage deposit per fresh token, each sum and product
/// held at `u128::MAX`.
///
/// Refused when more than `MAX_NEW_TOKEN_COUNT` fresh tokens are charged,
/// and when the gas cost did not fit in `u128` (`gas_yocto` is `None`).
pub fn fixed_trade_cost(
    gas_yocto: Option<u128>,
    storage_min_raw: Option<u128>,
    new_token_count: usize,
) -> (r: Result<u128, CostError>)
    ensures
        new_token_count > MAX_NEW_TOKEN_COUNT ==> r == Err::<u128, CostError>(
            CostError::TooManyNewTokens { count: new_token_count },
        ),
        new_token_count <= MAX_NEW_TOKEN_COUNT && gas_yocto is None ==> r == Err::<u128, CostError>(
            CostError::GasOverflow,
        ),
        new_token_count <= MAX_NEW_TOKEN_COUNT ==> (gas_yocto matches Some(g) ==> (r matches Ok(c)
            && c == sat_add(g as int, sat_mul(capped_storage(storage_min_raw), new_token_count as int)))),
{
    if new_token_count > MAX_NEW_TOKEN_COUNT {
        return Err(CostError::TooManyNewTokens { count: new_token_count });
    }
    let per_token = clamp_storage_min(storage_min_raw);
    let count = new_token_count as u128;
    let storage = match per_token.checked_mul(count) {
        Some(v) => v,
        None => u128::MAX,
    };
    match gas_yocto {
        None => Err(CostError::GasOverflow),
        Some(g) => Ok(g.saturating_add(storage)),
    }
}

/// The token amount, in smallest units, that the sell leg routes for a
/// trade of `trade_yocto` at `raw_rate` smallest units per NEAR:
/// `floor(trade_yocto * raw_rate / 10^24)`.
///
/// `Ok(None)` where no price impact can be measured: an empty trade, a
/// rate below one smallest unit per NEAR, or an amount that rounds to
/// zero. Refused when the amount does not fit in `u128`.
pub fn sell_leg_input(trade_yocto: u128, raw_rate: u128) -> (r: Result<Option<u128>, CostError>)
    ensures
        (trade_yocto == 0 || raw_rate == 0) ==> r == Ok::<Option<u128>, CostError>(None),
        (trade_yocto > 0 && raw_rate > 0) ==> {
            let units = floor_mul_div(trade_yocto as int, raw_rate as int, YOCTO_PER_NEAR as int);
            &&& units > u128::MAX ==> r == Err::<Option<u128>, CostError>(CostError::SellInputOverflow)
            &&& units == 0 ==> r == Ok::<Option<u128>, CostError>(None)
            &&& 0 < units <= u128::MAX ==> r == Ok::<Option<u128>, CostError>(Some(units as u128))
        },
{
    if trade_yocto == 0 || raw_rate == 0 {
        return Ok(None);
    }
    match mul_div_floor(trade_yocto, raw_rate, YOCTO_PER_NEAR) {
        None => Err(CostError::SellInputOverflow),
        Some(0) => Ok(None),
        Some(units) => Ok(Some(units)),
    }
}

} // verus!
