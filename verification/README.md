# zaciraci

The decision logic of an automated NEAR/REF Finance portfolio trader and of
its backtest simulator, written in Verus and proved against its contracts.

- `src/` is the verified library. Amounts are integers: yoctoNEAR for NEAR
  values, smallest units for token amounts, exchange rates as smallest units
  per NEAR. Weights are integers on a common scale.
  - `actions`, `matching`, `allocation`, `rebalance`: dispatching a
    trading action to its swaps, pairing sells with buys, splitting a wNEAR
    balance among purchases, planning a rebalance and counting its phases.
  - `portfolio_state`, `token_map`: the simulated wallet ledger (cash,
    holdings, average-cost basis, realized P&L) and its liquidation.
  - `harvest`, `period`, `execution_guard`, `alpha_gate`, `lst_carry`,
    `cost`, `portfolio_cost`: trading rules.
  - `mock_client`, `engine`, `output`, `sweep`, `schedule`, `cli`: the
    simulated exchange account, the simulation calendar, report counts,
    the sweep grid, scheduling decisions and date arguments.
- `tests/` runs the library on concrete values.
- `app/` is the `simulate` command: argument parsing, files, printed
  reports and the floating-point metrics.
