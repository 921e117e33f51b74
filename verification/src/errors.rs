use vstd::prelude::*;

verus! {

/// The reasons for which an operation is refused.
#[derive(Clone, Copy, PartialEq, Eq, Structural, Debug)]
pub enum BackstopBootstrapperError {
    InternalError,
    AlreadyInitializedError,
    UnauthorizedError,
    NegativeAmountError,
    AllowanceError,
    BalanceError,
    OverflowError,
    BadRequest,
    InvalidCloseLedger,
    InvalidBootstrapToken,
    InvalidBootstrapAmount,
    InvalidPoolAddressError,
    InvalidBootstrapStatus,
    AlreadyClaimedError,
    InsufficientDepositError,
    ReceivedNoBackstopTokens,
    AlreadyRefundedError,
}

impl BackstopBootstrapperError {
    /// The number under which the error is reported to a caller.
    pub open spec fn spec_code(self) -> u32 {
        match self {
            BackstopBootstrapperError::InternalError => 1,
            BackstopBootstrapperError::AlreadyInitializedError => 3,
            BackstopBootstrapperError::UnauthorizedError => 4,
            BackstopBootstrapperError::NegativeAmountError => 8,
            BackstopBootstrapperError::AllowanceError => 9,
            BackstopBootstrapperError::BalanceError => 10,
            BackstopBootstrapperError::OverflowError => 12,
            BackstopBootstrapperError::BadRequest => 50,
            BackstopBootstrapperError::InvalidCloseLedger => 100,
            BackstopBootstrapperError::InvalidBootstrapToken => 101,
            BackstopBootstrapperError::InvalidBootstrapAmount => 102,
            BackstopBootstrapperError::InvalidPoolAddressError => 103,
            BackstopBootstrapperError::InvalidBootstrapStatus => 104,
            BackstopBootstrapperError::AlreadyClaimedError => 105,
            BackstopBootstrapperError::InsufficientDepositError => 106,
            BackstopBootstrapperError::ReceivedNoBackstopTokens => 107,
            BackstopBootstrapperError::AlreadyRefundedError => 108,
        }
    }

    /// The number under which the error is reported to a caller.
    pub fn code(&self) -> (c: u32)
        ensures
            c == self.spec_code(),
    {
        match self {
            BackstopBootstrapperError::InternalError => 1,
            BackstopBootstrapperError::AlreadyInitializedError => 3,
            BackstopBootstrapperError::UnauthorizedError => 4,
            BackstopBootstrapperError::NegativeAmountError => 8,
            BackstopBootstrapperError::AllowanceError => 9,
            BackstopBootstrapperError::BalanceError => 10,
            BackstopBootstrapperError::OverflowError => 12,
            BackstopBootstrapperError::BadRequest => 50,
            BackstopBootstrapperError::InvalidCloseLedger => 100,
            BackstopBootstrapperError::InvalidBootstrapToken => 101,
            BackstopBootstrapperError::InvalidBootstrapAmount => 102,
            BackstopBootstrapperError::InvalidPoolAddressError => 103,
            BackstopBootstrapperError::InvalidBootstrapStatus => 104,
            BackstopBootstrapperError::AlreadyClaimedError => 105,
            BackstopBootstrapperError::InsufficientDepositError => 106,
            BackstopBootstrapperError::ReceivedNoBackstopTokens => 107,
            BackstopBootstrapperError::AlreadyRefundedError => 108,
        }
    }
}

} // verus!
