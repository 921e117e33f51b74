use crate::bootstrap::Bootstrap;
use crate::constants::{JOIN_POOL_MARGIN, MAX_IN_RATIO, SCALAR_7};
use crate::errors::BackstopBootstrapperError;
use crate::fixed_point::{fixed_div, fixed_div_floor, fixed_mul, fixed_mul_floor};
use crate::types::BootstrapData;
use vstd::prelude::*;

verus! {

/// The pool shares that `amount` of a token would mint if it were deposited
/// alone, at the pool's balance `pool_balance` of that token and
/// `pool_shares` shares in all: the amount's ratio to the balance, times the
/// shares.
pub open spec fn side_shares(amount: i128, pool_balance: i128, pool_shares: i128) -> Option<i128> {
    match fixed_div(amount, pool_balance, SCALAR_7) {
        Some(ratio) => fixed_mul(ratio, pool_shares, SCALAR_7),
        None => None,
    }
}

/// The lesser of two amounts.
pub open spec fn min_amount(a: i128, b: i128) -> i128 {
    if a <= b {
        a
    } else {
        b
    }
}

/// The pool shares that a two-sided join asks for: what the scarcer side
/// would mint, less the margin for rounding. Nothing where one of the
/// fixed-point steps is not defined.
pub open spec fn join_pool_shares(
    data: BootstrapData,
    pool_bootstrap_balance: i128,
    pool_pair_balance: i128,
    pool_shares: i128,
) -> Option<i128> {
    match (
        side_shares(data.bootstrap_amount, pool_bootstrap_balance, pool_shares),
        side_shares(data.pair_amount, pool_pair_balance, pool_shares),
    ) {
        (Some(by_bootstrap), Some(by_pair)) => fixed_mul(
            min_amount(by_bootstrap, by_pair),
            JOIN_POOL_MARGIN,
            SCALAR_7,
        ),
        _ => None,
    }
}

/// The amount that one single-sided deposit brings in: all of `amount`, but no
/// more than the allowed share of the pool's balance of the token.
pub open spec fn single_sided_amount(amount: i128, pool_balance: i128) -> Option<i128> {
    match fixed_mul(pool_balance, MAX_IN_RATIO, SCALAR_7) {
        Some(cap) => Some(min_amount(amount, cap)),
        None => None,
    }
}

/// A pool deep enough takes all of an amount at once: where the allowed share
/// of the pool's balance is at least the amount, the single-sided deposit is
/// the amount itself.
pub proof fn lemma_deep_pool_takes_all(amount: i128, pool_balance: i128)
    requires
        fixed_mul(pool_balance, MAX_IN_RATIO, SCALAR_7) is Some,
        amount <= fixed_mul(pool_balance, MAX_IN_RATIO, SCALAR_7)->Some_0,
    ensures
        single_sided_amount(amount, pool_balance) == Some(amount),
{
}

/// The number of pool shares to ask for in a two-sided join of all that the
/// bootstrap still holds, given the pool's balances of the two tokens and its
/// shares in all. Zero means that there is nothing to join with.
///
/// Fails with `OverflowError` where a fixed-point step has no result: a
/// product leaves `i128`, or a pool balance is zero.
pub fn join_pool(
    bootstrap: &Bootstrap,
    comet_bootstrap_bal: i128,
    comet_pair_bal: i128,
    comet_shares: i128,
) -> (r: Result<i128, BackstopBootstrapperError>)
    ensures
        match join_pool_shares(bootstrap.data, comet_bootstrap_bal, comet_pair_bal, comet_shares) {
            Some(shares) => r == Ok::<i128, BackstopBootstrapperError>(shares),
            None => r == Err::<i128, BackstopBootstrapperError>(
                BackstopBootstrapperError::OverflowError,
            ),
        },
{
    let by_bootstrap: i128 = match fixed_div_floor(
        bootstrap.data.bootstrap_amount,
        comet_bootstrap_bal,
        SCALAR_7,
    ) {
        Some(ratio) => match fixed_mul_floor(ratio, comet_shares, SCALAR_7) {
            Some(shares) => shares,
            None => { return Err(BackstopBootstrapperError::OverflowError); },
        },
        None => { return Err(BackstopBootstrapperError::OverflowError); },
    };
    let by_pair: i128 = match fixed_div_floor(bootstrap.data.pair_amount, comet_pair_bal, SCALAR_7) {
        Some(ratio) => match fixed_mul_floor(ratio, comet_shares, SCALAR_7) {
            Some(shares) => shares,
            None => { return Err(BackstopBootstrapperError::OverflowError); },
        },
        None => { return Err(BackstopBootstrapperError::OverflowError); },
    };
    let scarcer: i128 = if by_bootstrap <= by_pair {
        by_bootstrap
    } else {
        by_pair
    };
    match fixed_mul_floor(scarcer, JOIN_POOL_MARGIN, SCALAR_7) {
        Some(shares) => Ok(shares),
        None => Err(BackstopBootstrapperError::OverflowError),
    }
}

/// The amount to bring into the pool in one single-sided deposit, where
/// `amount` is held and the pool's balance of the token is `comet_bal`.
///
/// Fails with `OverflowError` where the cap cannot be computed in `i128`.
pub fn single_sided_join(amount: i128, comet_bal: i128) -> (r: Result<
    i128,
    BackstopBootstrapperError,
>)
    ensures
        match single_sided_amount(amount, comet_bal) {
            Some(deposit) => r == Ok::<i128, BackstopBootstrapperError>(deposit),
            None => r == Err::<i128, BackstopBootstrapperError>(
                BackstopBootstrapperError::OverflowError,
            ),
        },
{
    match fixed_mul_floor(comet_bal, MAX_IN_RATIO, SCALAR_7) {
        Some(cap) => if amount <= cap {
            Ok(amount)
        } else {
            Ok(cap)
        },
        None => Err(BackstopBootstrapperError::OverflowError),
    }
}

} // verus!
