use crate::constants::{MAX_DUST_AMOUNT, MAX_OPEN_LEDGERS};
use crate::errors::BackstopBootstrapperError;
use crate::types::{BootstrapConfig, BootstrapData, BootstrapStatus};
use vstd::prelude::*;

verus! {

/// The last ledger at which a bootstrap that closes at `close_ledger` can
/// still be converted.
pub open spec fn grace_end(close_ledger: u32) -> int {
    close_ledger + MAX_OPEN_LEDGERS
}

/// Whether all that was committed counts as converted: what is left of both
/// sides is dust, and backstop tokens were minted.
pub open spec fn fully_converted(data: BootstrapData) -> bool {
    &&& data.pair_amount <= MAX_DUST_AMOUNT
    &&& data.bootstrap_amount <= MAX_DUST_AMOUNT
    &&& data.total_backstop_tokens >= MAX_DUST_AMOUNT
}

/// The status of a bootstrap at ledger `sequence`.
pub open spec fn status_of(
    config: BootstrapConfig,
    data: BootstrapData,
    sequence: u32,
) -> BootstrapStatus {
    if sequence < config.close_ledger {
        BootstrapStatus::Active
    } else if data.total_pair < config.pair_min {
        BootstrapStatus::Cancelled
    } else if fully_converted(data) {
        BootstrapStatus::Completed
    } else if grace_end(config.close_ledger) < sequence {
        BootstrapStatus::Cancelled
    } else {
        BootstrapStatus::Closing
    }
}

/// Whether a bootstrap that has status `a` can have status `b` later on: an
/// active one any, a closing one any but active, a completed or cancelled one
/// only its own.
pub open spec fn reaches(a: BootstrapStatus, b: BootstrapStatus) -> bool {
    match a {
        BootstrapStatus::Active => true,
        BootstrapStatus::Closing => b != BootstrapStatus::Active,
        BootstrapStatus::Completed => b == BootstrapStatus::Completed,
        BootstrapStatus::Cancelled => b == BootstrapStatus::Cancelled,
    }
}

/// Whether balances `after` can have come from `before` by conversion alone:
/// nothing was added to what is held, nothing minted was taken back, and the
/// total of pair tokens deposited is as it was.
pub open spec fn converted_from(after: BootstrapData, before: BootstrapData) -> bool {
    &&& after.total_pair == before.total_pair
    &&& 0 <= after.bootstrap_amount <= before.bootstrap_amount
    &&& 0 <= after.pair_amount <= before.pair_amount
    &&& before.total_backstop_tokens <= after.total_backstop_tokens
}

/// Whether the balances of a bootstrap may change from `before` to `after` at
/// ledger `sequence`: in any way while the bootstrap is active, by conversion
/// while it is closing, and not at all once it is completed or cancelled.
pub open spec fn changes_in_order(
    config: BootstrapConfig,
    before: BootstrapData,
    after: BootstrapData,
    sequence: u32,
) -> bool {
    match status_of(config, before, sequence) {
        BootstrapStatus::Active => true,
        BootstrapStatus::Closing => converted_from(after, before),
        _ => after == before,
    }
}

/// As the ledger advances and nothing else changes, the status of a bootstrap
/// only moves forward: it never comes back to active, and a completed or
/// cancelled bootstrap stays what it is.
pub proof fn lemma_status_forward_in_time(
    config: BootstrapConfig,
    data: BootstrapData,
    earlier: u32,
    later: u32,
)
    requires
        earlier <= later,
    ensures
        reaches(status_of(config, data, earlier), status_of(config, data, later)),
{
}

/// The status of a bootstrap only moves forward, whatever is done to it in
/// its order: if its balances change at one ledger as they may at that
/// ledger, its status at any later ledger is one that the status before can
/// reach. So it never comes back to active, and a completed or cancelled
/// bootstrap stays what it is.
pub proof fn lemma_status_forward(
    config: BootstrapConfig,
    before: BootstrapData,
    after: BootstrapData,
    sequence: u32,
    later: u32,
)
    requires
        sequence <= later,
        changes_in_order(config, before, after, sequence),
    ensures
        reaches(status_of(config, before, sequence), status_of(config, after, later)),
{
}

/// A bootstrap as one operation sees it: its stored parts, and the status that
/// they have at the ledger of the operation.
#[derive(Clone, Copy, PartialEq, Eq, Structural, Debug)]
pub struct Bootstrap {
    pub id: u32,
    pub status: BootstrapStatus,
    pub config: BootstrapConfig,
    pub data: BootstrapData,
}

/// What a join does to the balances and to the joiner's deposit, or why it is
/// refused.
pub open spec fn join_spec(b: Bootstrap, deposit: i128, amount: i128) -> Result<
    (BootstrapData, i128),
    BackstopBootstrapperError,
> {
    if amount < 0 {
        Err(BackstopBootstrapperError::NegativeAmountError)
    } else if b.status != BootstrapStatus::Active {
        Err(BackstopBootstrapperError::InvalidBootstrapStatus)
    } else if b.data.pair_amount + amount > i128::MAX || b.data.total_pair + amount > i128::MAX
        || deposit + amount > i128::MAX {
        Err(BackstopBootstrapperError::OverflowError)
    } else {
        Ok(
            (
                BootstrapData {
                    pair_amount: (b.data.pair_amount + amount) as i128,
                    total_pair: (b.data.total_pair + amount) as i128,
                    ..b.data
                },
                (deposit + amount) as i128,
            ),
        )
    }
}

/// What an exit does to the balances and to the joiner's deposit, or why it is
/// refused.
pub open spec fn exit_spec(b: Bootstrap, deposit: i128, amount: i128) -> Result<
    (BootstrapData, i128),
    BackstopBootstrapperError,
> {
    if amount < 0 {
        Err(BackstopBootstrapperError::NegativeAmountError)
    } else if b.status != BootstrapStatus::Active {
        Err(BackstopBootstrapperError::InvalidBootstrapStatus)
    } else if deposit - amount < 0 || b.data.pair_amount - amount < 0 || b.data.total_pair - amount
        < 0 {
        Err(BackstopBootstrapperError::InsufficientDepositError)
    } else {
        Ok(
            (
                BootstrapData {
                    pair_amount: (b.data.pair_amount - amount) as i128,
                    total_pair: (b.data.total_pair - amount) as i128,
                    ..b.data
                },
                (deposit - amount) as i128,
            ),
        )
    }
}

/// The part of `amount` that counts as spent: an amount below zero counts as
/// nothing.
pub open spec fn spent(amount: i128) -> i128 {
    if amount > 0 {
        amount
    } else {
        0
    }
}

/// Whether `v` is a value of `i128`.
pub open spec fn fits(v: int) -> bool {
    i128::MIN <= v <= i128::MAX
}

/// What a conversion does to the balances: what was spent of either token
/// leaves what is held, and what was minted is added to the backstop tokens.
/// It fails only where one of the three results is no value of `i128`.
pub open spec fn convert_spec(
    data: BootstrapData,
    bootstrap_amount: i128,
    pair_amount: i128,
    backstop_tokens: i128,
) -> Result<BootstrapData, BackstopBootstrapperError> {
    if !fits(data.bootstrap_amount - spent(bootstrap_amount)) || !fits(
        data.pair_amount - spent(pair_amount),
    ) || !fits(data.total_backstop_tokens + backstop_tokens) {
        Err(BackstopBootstrapperError::OverflowError)
    } else {
        Ok(
            BootstrapData {
                bootstrap_amount: (data.bootstrap_amount - spent(bootstrap_amount)) as i128,
                pair_amount: (data.pair_amount - spent(pair_amount)) as i128,
                total_backstop_tokens: (data.total_backstop_tokens + backstop_tokens) as i128,
                ..data
            },
        )
    }
}

/// Whether a conversion stays within what is there: it spends no more of
/// either token than is held, and mints no less than nothing.
pub open spec fn conversion_in_bounds(
    data: BootstrapData,
    bootstrap_amount: i128,
    pair_amount: i128,
    backstop_tokens: i128,
) -> bool {
    &&& spent(bootstrap_amount) <= data.bootstrap_amount
    &&& spent(pair_amount) <= data.pair_amount
    &&& backstop_tokens >= 0
}

impl Bootstrap {
    /// The bootstrap `id` with the given stored parts, as it stands at ledger
    /// `sequence`.
    pub fn new(id: u32, config: BootstrapConfig, data: BootstrapData, sequence: u32) -> (b:
        Bootstrap)
        ensures
            b.id == id,
            b.config == config,
            b.data == data,
            b.status == status_of(config, data, sequence),
    {
        let grace_end: u64 = config.close_ledger as u64 + MAX_OPEN_LEDGERS as u64;
        let status = if sequence < config.close_ledger {
            BootstrapStatus::Active
        } else if data.total_pair < config.pair_min {
            BootstrapStatus::Cancelled
        } else if data.pair_amount <= MAX_DUST_AMOUNT && data.bootstrap_amount <= MAX_DUST_AMOUNT
            && data.total_backstop_tokens >= MAX_DUST_AMOUNT {
            BootstrapStatus::Completed
        } else if grace_end < sequence as u64 {
            BootstrapStatus::Cancelled
        } else {
            BootstrapStatus::Closing
        };
        Bootstrap { id, status, config, data }
    }

    /// Takes `amount` pair tokens from a joiner whose deposit so far is
    /// `deposit`, and returns the joiner's new deposit.
    ///
    /// The bootstrap must be active and the amount not negative. On a refusal
    /// nothing changes.
    pub fn join(&mut self, deposit: i128, amount: i128) -> (r: Result<
        i128,
        BackstopBootstrapperError,
    >)
        ensures
            match join_spec(*old(self), deposit, amount) {
                Ok((data, new_deposit)) => r == Ok::<i128, BackstopBootstrapperError>(new_deposit)
                    && *final(self) == (Bootstrap { data, ..*old(self) }),
                Err(e) => r == Err::<i128, BackstopBootstrapperError>(e) && *final(self) == *old(
                    self,
                ),
            },
    {
        if amount < 0 {
            return Err(BackstopBootstrapperError::NegativeAmountError);
        }
        if self.status != BootstrapStatus::Active {
            return Err(BackstopBootstrapperError::InvalidBootstrapStatus);
        }
        if self.data.pair_amount > i128::MAX - amount || self.data.total_pair > i128::MAX - amount
            || deposit > i128::MAX - amount {
            return Err(BackstopBootstrapperError::OverflowError);
        }
        self.data.pair_amount = self.data.pair_amount + amount;
        self.data.total_pair = self.data.total_pair + amount;
        Ok(deposit + amount)
    }

    /// Gives `amount` pair tokens back to a joiner whose deposit so far is
    /// `deposit`, and returns what is left of the deposit.
    ///
    /// The bootstrap must be active, the amount not negative, and neither the
    /// deposit nor the bootstrap's balances may fall below zero. On a refusal
    /// nothing changes.
    pub fn exit(&mut self, deposit: i128, amount: i128) -> (r: Result<
        i128,
        BackstopBootstrapperError,
    >)
        ensures
            match exit_spec(*old(self), deposit, amount) {
                Ok((data, new_deposit)) => r == Ok::<i128, BackstopBootstrapperError>(new_deposit)
                    && *final(self) == (Bootstrap { data, ..*old(self) }),
                Err(e) => r == Err::<i128, BackstopBootstrapperError>(e) && *final(self) == *old(
                    self,
                ),
            },
    {
        if amount < 0 {
            return Err(BackstopBootstrapperError::NegativeAmountError);
        }
        if self.status != BootstrapStatus::Active {
            return Err(BackstopBootstrapperError::InvalidBootstrapStatus);
        }
        if deposit < amount || self.data.pair_amount < amount || self.data.total_pair < amount {
            return Err(BackstopBootstrapperError::InsufficientDepositError);
        }
        self.data.pair_amount = self.data.pair_amount - amount;
        self.data.total_pair = self.data.total_pair - amount;
        Ok(deposit - amount)
    }

    /// Records that the liquidity pool took `bootstrap_amount` bootstrap
    /// tokens and `pair_amount` pair tokens and minted `backstop_tokens`: what
    /// was taken leaves the two balances, what was minted is added to the
    /// backstop tokens, and nothing else changes.
    ///
    /// An amount below zero counts as nothing spent. Whatever the amounts,
    /// they are recorded; it fails, with `OverflowError` and nothing
    /// changed, only where a balance would be no value of `i128`.
    pub fn convert(&mut self, bootstrap_amount: i128, pair_amount: i128, backstop_tokens: i128) -> (r:
        Result<(), BackstopBootstrapperError>)
        ensures
            match convert_spec(old(self).data, bootstrap_amount, pair_amount, backstop_tokens) {
                Ok(data) => r == Ok::<(), BackstopBootstrapperError>(()) && *final(self) == (
                Bootstrap { data, ..*old(self) }),
                Err(e) => r == Err::<(), BackstopBootstrapperError>(e) && *final(self) == *old(
                    self,
                ),
            },
    {
        let bootstrap_spent: i128 = if bootstrap_amount > 0 {
            bootstrap_amount
        } else {
            0
        };
        let pair_spent: i128 = if pair_amount > 0 {
            pair_amount
        } else {
            0
        };
        let bootstrap_left: i128 = match self.data.bootstrap_amount.checked_sub(bootstrap_spent) {
            Some(v) => v,
            None => { return Err(BackstopBootstrapperError::OverflowError); },
        };
        let pair_left: i128 = match self.data.pair_amount.checked_sub(pair_spent) {
            Some(v) => v,
            None => { return Err(BackstopBootstrapperError::OverflowError); },
        };
        let minted: i128 = match self.data.total_backstop_tokens.checked_add(backstop_tokens) {
            Some(v) => v,
            None => { return Err(BackstopBootstrapperError::OverflowError); },
        };
        self.data.bootstrap_amount = bootstrap_left;
        self.data.pair_amount = pair_left;
        self.data.total_backstop_tokens = minted;
        Ok(())
    }
}

} // verus!
