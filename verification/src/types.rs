use crate::constants::{MAX_OPEN_LEDGERS, ONE_DAY_LEDGERS};
use crate::errors::BackstopBootstrapperError;
use vstd::prelude::*;

verus! {

/// A principal: an account or a contract, named by its 32-byte key, held as
/// two halves.
#[derive(Clone, Copy, PartialEq, Eq, Structural, Debug)]
pub struct Address {
    /// Whether the key names a contract rather than an account.
    pub contract: bool,
    /// The first sixteen bytes of the key, big-endian.
    pub hi: u128,
    /// The last sixteen bytes of the key, big-endian.
    pub lo: u128,
}

/// Where a bootstrap stands in its life. It is never stored: it follows from
/// the bootstrap's configuration, its balances and the current ledger.
#[derive(Clone, Copy, PartialEq, Eq, Structural, Debug)]
pub enum BootstrapStatus {
    Active,
    Closing,
    Completed,
    Cancelled,
}

impl BootstrapStatus {
    /// The number that stands for the status.
    pub open spec fn spec_to_u32(self) -> u32 {
        match self {
            BootstrapStatus::Active => 0,
            BootstrapStatus::Closing => 1,
            BootstrapStatus::Completed => 2,
            BootstrapStatus::Cancelled => 3,
        }
    }

    /// The number that stands for the status.
    pub fn to_u32(&self) -> (value: u32)
        ensures
            value == self.spec_to_u32(),
    {
        match self {
            BootstrapStatus::Active => 0,
            BootstrapStatus::Closing => 1,
            BootstrapStatus::Completed => 2,
            BootstrapStatus::Cancelled => 3,
        }
    }

    /// The status that `value` stands for. Numbers above 3 stand for none and
    /// are a bad request.
    pub fn from_u32(value: u32) -> (r: Result<BootstrapStatus, BackstopBootstrapperError>)
        ensures
            value <= 3 ==> r is Ok && r->Ok_0.spec_to_u32() == value,
            value > 3 ==> r == Err::<BootstrapStatus, BackstopBootstrapperError>(
                BackstopBootstrapperError::BadRequest,
            ),
    {
        if value == 0 {
            Ok(BootstrapStatus::Active)
        } else if value == 1 {
            Ok(BootstrapStatus::Closing)
        } else if value == 2 {
            Ok(BootstrapStatus::Completed)
        } else if value == 3 {
            Ok(BootstrapStatus::Cancelled)
        } else {
            Err(BackstopBootstrapperError::BadRequest)
        }
    }
}

/// One of the two tokens that the liquidity pool holds.
#[derive(Clone, Copy, PartialEq, Eq, Structural, Debug)]
pub struct TokenInfo {
    /// The token's contract.
    pub address: Address,
    /// The token's normalized weight in the pool, with 7 decimal places.
    pub weight: i128,
}

/// What a bootstrapper fixes when opening a bootstrap.
#[derive(Clone, Copy, PartialEq, Eq, Structural, Debug)]
pub struct BootstrapConfig {
    /// The principal creating the bootstrap.
    pub bootstrapper: Address,
    /// The pool whose backstop receives the claimed tokens.
    pub pool: Address,
    /// The amount of the bootstrap token committed.
    pub amount: i128,
    /// The least total of pair tokens with which the bootstrap goes ahead.
    pub pair_min: i128,
    /// The index, 0 or 1, of the pool token that is being bootstrapped; the
    /// other one is the pair token.
    pub token_index: u32,
    /// The ledger at which joining and exiting end.
    pub close_ledger: u32,
}

/// The number of ledgers from `sequence` to `close_ledger`: none where the
/// close ledger is not ahead.
pub open spec fn ledgers_until(close_ledger: u32, sequence: u32) -> int {
    if close_ledger >= sequence {
        close_ledger - sequence
    } else {
        0
    }
}

/// Whether a configuration can open a bootstrap at ledger `sequence`, and if
/// not, the first reason why.
pub open spec fn validate_spec(config: BootstrapConfig, sequence: u32) -> Result<
    (),
    BackstopBootstrapperError,
> {
    if config.token_index > 1 {
        Err(BackstopBootstrapperError::InvalidBootstrapToken)
    } else if config.amount <= 0 {
        Err(BackstopBootstrapperError::InvalidBootstrapAmount)
    } else if config.pair_min < 0 {
        Err(BackstopBootstrapperError::NegativeAmountError)
    } else if ledgers_until(config.close_ledger, sequence) < ONE_DAY_LEDGERS || ledgers_until(
        config.close_ledger,
        sequence,
    ) > MAX_OPEN_LEDGERS {
        Err(BackstopBootstrapperError::InvalidCloseLedger)
    } else {
        Ok(())
    }
}

impl BootstrapConfig {
    /// What holds of every configuration that a bootstrap was opened with:
    /// the token index is 0 or 1, the amount is positive and the minimum is
    /// not negative.
    pub open spec fn wf(self) -> bool {
        &&& self.token_index <= 1
        &&& self.amount > 0
        &&& self.pair_min >= 0
    }

    /// Checks the configuration for a bootstrap to be opened at ledger
    /// `sequence`: the token index must be 0 or 1, the amount positive, the
    /// minimum of pair tokens not negative, and the close ledger between one
    /// and fourteen days ahead. The first of these that fails gives the
    /// error.
    pub fn validate(&self, sequence: u32) -> (r: Result<(), BackstopBootstrapperError>)
        ensures
            r == validate_spec(*self, sequence),
            r is Ok ==> self.wf(),
    {
        if self.token_index > 1 {
            return Err(BackstopBootstrapperError::InvalidBootstrapToken);
        }
        if self.amount <= 0 {
            return Err(BackstopBootstrapperError::InvalidBootstrapAmount);
        }
        if self.pair_min < 0 {
            return Err(BackstopBootstrapperError::NegativeAmountError);
        }
        let duration: u32 = if self.close_ledger >= sequence {
            self.close_ledger - sequence
        } else {
            0
        };
        if duration < ONE_DAY_LEDGERS || duration > MAX_OPEN_LEDGERS {
            return Err(BackstopBootstrapperError::InvalidCloseLedger);
        }
        Ok(())
    }
}

/// The running balances of a bootstrap.
#[derive(Clone, Copy, PartialEq, Eq, Structural, Debug)]
pub struct BootstrapData {
    /// The net total of pair tokens deposited: joins less exits. It is the
    /// basis of every joiner's share and stays as it is once joining ends.
    pub total_pair: i128,
    /// The backstop tokens minted for this bootstrap so far.
    pub total_backstop_tokens: i128,
    /// The bootstrap tokens held that are not yet converted.
    pub bootstrap_amount: i128,
    /// The pair tokens held that are not yet converted.
    pub pair_amount: i128,
}

impl BootstrapData {
    /// The balances of a bootstrap that has just been opened with `amount`
    /// bootstrap tokens.
    pub open spec fn spec_opened(amount: i128) -> BootstrapData {
        BootstrapData {
            total_pair: 0,
            total_backstop_tokens: 0,
            bootstrap_amount: amount,
            pair_amount: 0,
        }
    }

    /// No balance is negative, and no more pair tokens are held than were
    /// deposited.
    pub open spec fn wf(self) -> bool {
        &&& 0 <= self.bootstrap_amount
        &&& 0 <= self.pair_amount <= self.total_pair
        &&& 0 <= self.total_backstop_tokens
    }
}

} // verus!
