//! Dispatch of a trading action to the swaps that carry it out.
use vstd::prelude::*;

verus! {

/// What the strategy asks to do with one token or with the portfolio.
#[derive(Debug, Clone, PartialEq, Eq)]
pub enum TradingAction {
    /// Keep everything as it is.
    Hold,
    /// Sell `token` and buy `target` with the proceeds, through wNEAR.
    Sell { token: String, target: String },
    /// Swap `from` directly into `to`.
    Switch { from: String, to: String },
    /// Move the portfolio toward its target weights.
    Rebalance,
    /// Buy `token` with a precomputed amount of wNEAR; `weight` (on the
    /// scale shared by all AddPosition actions) sets its share of the
    /// balance.
    AddPosition { token: String, weight: u128 },
    /// Sell `token` back to wNEAR.
    ReducePosition { token: String },
}

/// One swap to execute: the whole balance of `from` when `amount` is
/// `None`, else `amount` smallest units of it.
#[derive(Debug, Clone, PartialEq, Eq)]
pub struct SwapLeg {
    pub from: String,
    pub to: String,
    pub amount: Option<u128>,
}

/// How an action is carried out.
#[derive(Debug, Clone, PartialEq, Eq)]
pub enum ActionStep {
    /// Execute these swaps in order, stopping at the first failure.
    Swaps { legs: Vec<SwapLeg> },
    /// Plan and execute a rebalance.
    Rebalance,
}

/// Why an action cannot be carried out.
#[derive(Debug, Clone, PartialEq, Eq)]
pub enum ActionError {
    /// No wNEAR amount was precomputed for the purchase of `token`.
    MissingAmount { token: String },
    /// The precomputed wNEAR amount for the purchase of `token` is zero.
    ZeroAmount { token: String },
}

/// The abstract form of a list of swaps: from, to and amount of each.
pub open spec fn legs_view(v: Seq<SwapLeg>) -> Seq<(Seq<char>, Seq<char>, Option<u128>)> {
    v.map_values(|l: SwapLeg| (l.from@, l.to@, l.amount))
}

/// The swaps of a sale of `token` for `target` through wNEAR `w`: the sale
/// into wNEAR unless `token` is wNEAR, then the purchase unless `target` is.
pub open spec fn sell_legs(token: Seq<char>, target: Seq<char>, w: Seq<char>) -> Seq<(Seq<char>, Seq<char>, Option<u128>)> {
    let first = if token != w {
        seq![(token, w, None::<u128>)]
    } else {
        Seq::empty()
    };
    let second = if target != w {
        seq![(w, target, None::<u128>)]
    } else {
        Seq::empty()
    };
    first + second
}

/// How `action` is carried out with wNEAR `wrap_near`; `add_amount` is the
/// wNEAR amount precomputed for an AddPosition. Holding does nothing; a
/// sale goes through wNEAR; a switch is one direct swap; adding a position
/// buys with the precomputed amount, refused when there is none or it is
/// zero; reducing a position sells it to wNEAR. Adding or reducing wNEAR
/// itself does nothing.
pub fn action_step(action: &TradingAction, wrap_near: &String, add_amount: Option<u128>) -> (r: Result<
    ActionStep,
    ActionError,
>)
    ensures
        match action {
            TradingAction::Hold => r matches Ok(ActionStep::Swaps { legs }) && legs@.len() == 0,
            TradingAction::Sell { token, target } => r matches Ok(ActionStep::Swaps { legs }) && legs_view(legs@)
                == sell_legs(token@, target@, wrap_near@),
            TradingAction::Switch { from, to } => r matches Ok(ActionStep::Swaps { legs }) && legs_view(legs@)
                == seq![(from@, to@, None::<u128>)],
            TradingAction::Rebalance => r == Ok::<ActionStep, ActionError>(ActionStep::Rebalance),
            TradingAction::AddPosition { token, .. } => if token@ == wrap_near@ {
                r matches Ok(ActionStep::Swaps { legs }) && legs@.len() == 0
            } else {
                match add_amount {
                    None => r matches Err(ActionError::MissingAmount { token: t }) && t@ == token@,
                    Some(a) => if a == 0 {
                        r matches Err(ActionError::ZeroAmount { token: t }) && t@ == token@
                    } else {
                        r matches Ok(ActionStep::Swaps { legs }) && legs_view(legs@) == seq![
                            (wrap_near@, token@, Some(a)),
                        ]
                    },
                }
            },
            TradingAction::ReducePosition { token } => r matches Ok(ActionStep::Swaps { legs }) && legs_view(
                legs@,
            ) == if token@ == wrap_near@ {
                Seq::empty()
            } else {
                seq![(token@, wrap_near@, None::<u128>)]
            },
        },
{
    match action {
        TradingAction::Hold => Ok(ActionStep::Swaps { legs: Vec::new() }),
        TradingAction::Sell { token, target } => {
            let mut legs: Vec<SwapLeg> = Vec::new();
            if *token != *wrap_near {
                legs.push(SwapLeg { from: token.clone(), to: wrap_near.clone(), amount: None });
            }
            if *target != *wrap_near {
                legs.push(SwapLeg { from: wrap_near.clone(), to: target.clone(), amount: None });
            }
            proof {
                assert(legs_view(legs@) =~= sell_legs(token@, target@, wrap_near@));
            }
            Ok(ActionStep::Swaps { legs })
        },
        TradingAction::Switch { from, to } => {
            let mut legs: Vec<SwapLeg> = Vec::new();
            legs.push(SwapLeg { from: from.clone(), to: to.clone(), amount: None });
            proof {
                assert(legs_view(legs@) =~= seq![(from@, to@, None::<u128>)]);
            }
            Ok(ActionStep::Swaps { legs })
        },
        TradingAction::Rebalance => Ok(ActionStep::Rebalance),
        TradingAction::AddPosition { token, .. } => {
            if *token == *wrap_near {
                return Ok(ActionStep::Swaps { legs: Vec::new() });
            }
            match add_amount {
                None => Err(ActionError::MissingAmount { token: token.clone() }),
                Some(a) => {
                    if a == 0 {
                        Err(ActionError::ZeroAmount { token: token.clone() })
                    } else {
                        let mut legs: Vec<SwapLeg> = Vec::new();
                        legs.push(SwapLeg { from: wrap_near.clone(), to: token.clone(), amount: Some(a) });
                        proof {
                            assert(legs_view(legs@) =~= seq![(wrap_near@, token@, Some(a))]);
                        }
                        Ok(ActionStep::Swaps { legs })
                    }
                },
            }
        },
        TradingAction::ReducePosition { token } => {
            let mut legs: Vec<SwapLeg> = Vec::new();
            if *token != *wrap_near {
                legs.push(SwapLeg { from: token.clone(), to: wrap_near.clone(), amount: None });
            }
            proof {
                assert(legs_view(legs@) =~= if token@ == wrap_near@ {
                    Seq::empty()
                } else {
                    seq![(token@, wrap_near@, None::<u128>)]
                });
            }
            Ok(ActionStep::Swaps { legs })
        },
    }
}

/// The AddPosition actions among `actions`, in order, as (index, weight).
pub open spec fn add_positions(actions: Seq<TradingAction>, n: int) -> Seq<(usize, u128)>
    decreases n,
{
    if n <= 0 {
        Seq::empty()
    } else {
        let rest = add_positions(actions, n - 1);
        match actions[n - 1] {
            TradingAction::AddPosition { weight, .. } => rest.push(((n - 1) as usize, weight)),
            _ => rest,
        }
    }
}

/// The index and weight of every AddPosition action, in order: the input
/// of the split of the wNEAR balance among the purchases.
pub fn add_position_weights(actions: &Vec<TradingAction>) -> (r: Vec<(usize, u128)>)
    ensures
        r@ == add_positions(actions@, actions@.len() as int),
{
    let mut r: Vec<(usize, u128)> = Vec::new();
    let mut i: usize = 0;
    while i < actions.len()
        invariant
            i <= actions@.len(),
            r@ == add_positions(actions@, i as int),
        decreases actions@.len() - i,
    {
        match &actions[i] {
            TradingAction::AddPosition { weight, .. } => {
                r.push((i, *weight));
            },
            _ => {},
        }
        i = i + 1;
    }
    r
}

/// Progress through the swaps of an action.
#[derive(Debug, Clone, Copy, PartialEq, Eq)]
pub enum LegRun {
    /// Execute the swap at this index next.
    Execute { index: usize },
    /// Every swap succeeded: the action succeeded.
    Completed,
    /// The swap at this index failed: the action fails and no later swap
    /// is tried.
    Aborted { index: usize },
}

/// The first step of executing `count` swaps in order.
pub fn first_leg(count: usize) -> (r: LegRun)
    ensures
        count == 0 ==> r == LegRun::Completed,
        count > 0 ==> r == (LegRun::Execute { index: 0 }),
{
    if count == 0 {
        LegRun::Completed
    } else {
        LegRun::Execute { index: 0 }
    }
}

/// The step after the swap at `index` of `count` swaps finished: the next
/// swap after a success, completion after the last one, and an abort at
/// the first failure.
pub fn after_leg(index: usize, count: usize, succeeded: bool) -> (r: LegRun)
    requires
        index < count,
    ensures
        !succeeded ==> r == (LegRun::Aborted { index }),
        succeeded && index + 1 < count ==> r == (LegRun::Execute { index: (index + 1) as usize }),
        succeeded && index + 1 == count ==> r == LegRun::Completed,
{
    if !succeeded {
        LegRun::Aborted { index }
    } else if index + 1 < count {
        LegRun::Execute { index: index + 1 }
    } else {
        LegRun::Completed
    }
}

} // verus!
