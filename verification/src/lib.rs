pub mod arith;
pub mod token_map;
pub mod seq_sum;
pub mod matching;
pub mod allocation;
pub mod portfolio_state;

pub mod execution_guard;
pub mod harvest;
pub mod lst_carry;
pub mod period;
pub mod cli;
pub mod output;
pub mod alpha_gate;
pub mod cost;
pub mod sweep;
pub mod rebalance;
pub mod actions;
pub mod mock_client;
pub mod schedule;
pub mod portfolio_cost;
pub mod engine;
