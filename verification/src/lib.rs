//! Accounting and lifecycle rules of a backstop bootstrapper.
//!
//! A bootstrapper commits one side of a liquidity pair, joiners add the other
//! side, and after the close ledger the combined funds are converted into
//! backstop tokens that are shared out in proportion. The library decides and
//! keeps the books; moving tokens and talking to the liquidity pool is left to
//! the caller, who is told what to do through plain values.
//!
//! - `types`, `constants`, `errors`: the data, the fixed numbers and the
//!   reasons for a refusal.
//! - `fixed_point`: multiplication and division with seven decimal places,
//!   rounded down.
//! - `pro_rata`: a part of an amount, rounded down, whatever the size of the
//!   product.
//! - `bootstrap`: the status of a bootstrap and what joining, exiting and
//!   converting do to its balances.
//! - `comet_utils`, `close`: how much to bring into the liquidity pool, and
//!   the conversion step by step.
//! - `distribution`: what a claim and a refund pay, and that together they
//!   never pay more than there is.
//! - `deposits`, `conservation`: the joiners' deposits and their sum.
//! - `contract`: the state of the whole contract and its entry points.

pub mod bootstrap;
pub mod close;
pub mod comet_utils;
pub mod conservation;
pub mod constants;
pub mod contract;
pub mod deposits;
pub mod distribution;
pub mod errors;
pub mod fixed_point;
pub mod pro_rata;
pub mod types;
