# astraport

The logic of the AstraPort portfolio contracts, as a library whose behaviour
is stated in `requires`/`ensures` contracts and proved with Verus, plus the
Soroban contracts that host it.

## Layout

- `src/` — the verified library.
  - `staking/` — fixed-point math (`exp`, `ln`, `pow`, `mul`/`div` with wide
    intermediates), daily and continuous compounding, APR/APY conversion,
    projections, the yield engine (checkpointed accrual, rate changes,
    history, distributions), multi-asset positions with stake limits and
    unlock schedules, and the contract's operations.
  - `rebalancing/` — portfolios, target allocations and holdings, drift
    plans, schedules, roles and permissions, and the contract's operations.
  - `events/` — AI-analysis triggers, analyses and recommendations, the
    per-portfolio event feed with subscriptions, filters and delivery
    metrics.
  - `valuation/` — performance measures (Sharpe, Sortino, drawdown,
    time-weighted return) in 18-decimal fixed point.
  - `audit/` — audit-log queries and the byte layouts that audit hashes
    are taken over.
  - `bytes.rs`, `wide.rs` — big-endian encodings and 256-bit arithmetic.
- `tests/` — tests of the library.
- `app/` — the Soroban contracts: storage, authorization, ledger time,
  hashing and published events around calls into the library.

Every operation that the contracts make on their stored state is a function
of the library over plain values: the host side loads the state, calls the
library, and writes the result back.
