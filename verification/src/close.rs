use crate::bootstrap::{
    conversion_in_bounds, convert_spec, converted_from, fits, status_of, Bootstrap,
};
use crate::comet_utils::{
    join_pool, join_pool_shares, single_sided_amount, single_sided_join,
};
use crate::constants::MAX_DUST_AMOUNT;
use crate::errors::BackstopBootstrapperError;
use crate::types::{BootstrapData, BootstrapStatus};
use vstd::prelude::*;

verus! {

/// The balances that a conversion starts from, read before the liquidity pool
/// is touched.
#[derive(Clone, Copy, PartialEq, Eq, Structural, Debug)]
pub struct PoolBalances {
    /// The bootstrap tokens that the bootstrapper contract holds.
    pub bootstrap_token_balance: i128,
    /// The pair tokens that the bootstrapper contract holds.
    pub pair_token_balance: i128,
    /// The shares of the liquidity pool in all.
    pub comet_shares: i128,
    /// The bootstrap tokens that the liquidity pool holds.
    pub comet_bootstrap_token: i128,
    /// The pair tokens that the liquidity pool holds.
    pub comet_pair_token: i128,
}

/// What the caller is to do next for a conversion.
#[derive(Clone, Copy, PartialEq, Eq, Structural, Debug)]
pub enum CloseAction {
    /// Join the pool on both sides for exactly `shares` shares, spending at
    /// most the two amounts; then report the contract's two token balances.
    JoinPool { shares: i128, max_bootstrap: i128, max_pair: i128 },
    /// Deposit `amount` of the bootstrap token alone; then report the shares
    /// minted.
    DepositBootstrap { amount: i128 },
    /// Deposit `amount` of the pair token alone; then report the shares
    /// minted.
    DepositPair { amount: i128 },
    /// Nothing more to do with the pool: the balances can be stored.
    Finish,
}

/// What came of the action that a conversion was waiting for.
#[derive(Clone, Copy, PartialEq, Eq, Structural, Debug)]
pub enum CloseEvent {
    /// The two-sided join went through; these are the bootstrapper contract's
    /// balances of the two tokens after it.
    Joined { bootstrap_balance: i128, pair_balance: i128 },
    /// The single-sided deposit went through and minted `minted` shares.
    Deposited { minted: i128 },
}

/// One conversion under way: the bootstrap with its balances as converted so
/// far, the pool's balances as far as they are known, and the action that the
/// caller has to report on next.
#[derive(Clone, Copy, PartialEq, Eq, Structural, Debug)]
pub struct CloseSession {
    pub bootstrap: Bootstrap,
    pub balances: PoolBalances,
    pub pending: CloseAction,
}

/// The end of a conversion: it must have minted something, now or earlier.
pub open spec fn plan_finish(data: BootstrapData) -> Result<
    CloseAction,
    BackstopBootstrapperError,
> {
    if data.total_backstop_tokens > 0 {
        Ok(CloseAction::Finish)
    } else {
        Err(BackstopBootstrapperError::ReceivedNoBackstopTokens)
    }
}

/// The step after the bootstrap token's top-up: a single-sided deposit of the
/// pair tokens that are left, if any.
pub open spec fn plan_pair_deposit(data: BootstrapData, balances: PoolBalances) -> Result<
    CloseAction,
    BackstopBootstrapperError,
> {
    if data.pair_amount > 0 {
        match single_sided_amount(data.pair_amount, balances.comet_pair_token) {
            Some(amount) => Ok(CloseAction::DepositPair { amount }),
            None => Err(BackstopBootstrapperError::OverflowError),
        }
    } else {
        plan_finish(data)
    }
}

/// The step after the two-sided join: a single-sided deposit of the bootstrap
/// tokens that are left, if any.
pub open spec fn plan_bootstrap_deposit(data: BootstrapData, balances: PoolBalances) -> Result<
    CloseAction,
    BackstopBootstrapperError,
> {
    if data.bootstrap_amount > 0 {
        match single_sided_amount(data.bootstrap_amount, balances.comet_bootstrap_token) {
            Some(amount) => Ok(CloseAction::DepositBootstrap { amount }),
            None => Err(BackstopBootstrapperError::OverflowError),
        }
    } else {
        plan_pair_deposit(data, balances)
    }
}

/// The first step: a two-sided join where both sides hold more than dust and
/// the join would mint something.
pub open spec fn plan_join(data: BootstrapData, balances: PoolBalances) -> Result<
    CloseAction,
    BackstopBootstrapperError,
> {
    if data.bootstrap_amount > MAX_DUST_AMOUNT && data.pair_amount > MAX_DUST_AMOUNT {
        match join_pool_shares(
            data,
            balances.comet_bootstrap_token,
            balances.comet_pair_token,
            balances.comet_shares,
        ) {
            Some(shares) => if shares > 0 {
                Ok(
                    CloseAction::JoinPool {
                        shares,
                        max_bootstrap: data.bootstrap_amount,
                        max_pair: data.pair_amount,
                    },
                )
            } else {
                plan_bootstrap_deposit(data, balances)
            },
            None => Err(BackstopBootstrapperError::OverflowError),
        }
    } else {
        plan_bootstrap_deposit(data, balances)
    }
}

/// The session that a conversion of `bootstrap` starts with, or why it cannot
/// start: the bootstrap must be closing.
pub open spec fn start_spec(bootstrap: Bootstrap, balances: PoolBalances) -> Result<
    CloseSession,
    BackstopBootstrapperError,
> {
    if bootstrap.status != BootstrapStatus::Closing {
        Err(BackstopBootstrapperError::InvalidBootstrapStatus)
    } else {
        match plan_join(bootstrap.data, balances) {
            Ok(pending) => Ok(CloseSession { bootstrap, balances, pending }),
            Err(e) => Err(e),
        }
    }
}

/// What an outcome reported by the pool does to the balances, or why it is
/// refused: an outcome that spends more than is held, or mints less than
/// nothing, is one that no pool can have had, and is an internal error;
/// otherwise it is recorded as a conversion.
pub open spec fn absorb_spec(
    data: BootstrapData,
    bootstrap_amount: i128,
    pair_amount: i128,
    backstop_tokens: i128,
) -> Result<BootstrapData, BackstopBootstrapperError> {
    if !conversion_in_bounds(data, bootstrap_amount, pair_amount, backstop_tokens) {
        Err(BackstopBootstrapperError::InternalError)
    } else {
        convert_spec(data, bootstrap_amount, pair_amount, backstop_tokens)
    }
}

/// The session after a two-sided join for `shares` shares that left the
/// contract with the given balances: what left the contract was spent, and the
/// pool holds that much more.
pub open spec fn joined_spec(
    s: CloseSession,
    shares: i128,
    bootstrap_balance: i128,
    pair_balance: i128,
) -> Result<CloseSession, BackstopBootstrapperError> {
    let bootstrap_spent = s.balances.bootstrap_token_balance - bootstrap_balance;
    let pair_spent = s.balances.pair_token_balance - pair_balance;
    if !fits(bootstrap_spent) || !fits(pair_spent) {
        Err(BackstopBootstrapperError::OverflowError)
    } else {
        match absorb_spec(s.bootstrap.data, bootstrap_spent as i128, pair_spent as i128, shares) {
            Err(e) => Err(e),
            Ok(data) => if !fits(s.balances.comet_bootstrap_token + bootstrap_spent) || !fits(
                s.balances.comet_pair_token + pair_spent,
            ) {
                Err(BackstopBootstrapperError::OverflowError)
            } else {
                let balances = PoolBalances {
                    comet_bootstrap_token: (s.balances.comet_bootstrap_token
                        + bootstrap_spent) as i128,
                    comet_pair_token: (s.balances.comet_pair_token + pair_spent) as i128,
                    ..s.balances
                };
                match plan_bootstrap_deposit(data, balances) {
                    Ok(pending) => Ok(
                        CloseSession {
                            bootstrap: Bootstrap { data, ..s.bootstrap },
                            balances,
                            pending,
                        },
                    ),
                    Err(e) => Err(e),
                }
            },
        }
    }
}

/// The session after the event that reports on its pending action, or why the
/// conversion fails. An event that does not answer the pending action is a bad
/// request.
pub open spec fn advance_spec(s: CloseSession, event: CloseEvent) -> Result<
    CloseSession,
    BackstopBootstrapperError,
> {
    match (s.pending, event) {
        (
            CloseAction::JoinPool { shares, .. },
            CloseEvent::Joined { bootstrap_balance, pair_balance },
        ) => joined_spec(s, shares, bootstrap_balance, pair_balance),
        (CloseAction::DepositBootstrap { amount }, CloseEvent::Deposited { minted }) => {
            match absorb_spec(s.bootstrap.data, amount, 0, minted) {
                Err(e) => Err(e),
                Ok(data) => match plan_pair_deposit(data, s.balances) {
                    Ok(pending) => Ok(
                        CloseSession { bootstrap: Bootstrap { data, ..s.bootstrap }, pending, ..s },
                    ),
                    Err(e) => Err(e),
                },
            }
        },
        (CloseAction::DepositPair { amount }, CloseEvent::Deposited { minted }) => {
            match absorb_spec(s.bootstrap.data, 0, amount, minted) {
                Err(e) => Err(e),
                Ok(data) => match plan_finish(data) {
                    Ok(pending) => Ok(
                        CloseSession { bootstrap: Bootstrap { data, ..s.bootstrap }, pending, ..s },
                    ),
                    Err(e) => Err(e),
                },
            }
        },
        _ => Err(BackstopBootstrapperError::BadRequest),
    }
}

/// Records an outcome that the pool reported, after testing that it stays
/// within what is held.
fn absorb(
    bootstrap: &mut Bootstrap,
    bootstrap_amount: i128,
    pair_amount: i128,
    backstop_tokens: i128,
) -> (r: Result<(), BackstopBootstrapperError>)
    ensures
        match absorb_spec(old(bootstrap).data, bootstrap_amount, pair_amount, backstop_tokens) {
            Ok(data) => r == Ok::<(), BackstopBootstrapperError>(()) && *final(bootstrap) == (
            Bootstrap { data, ..*old(bootstrap) }),
            Err(e) => r == Err::<(), BackstopBootstrapperError>(e) && *final(bootstrap) == *old(
                bootstrap,
            ),
        },
{
    let bootstrap_spent: i128 = if bootstrap_amount > 0 {
        bootstrap_amount
    } else {
        0
    };
    let pair_spent: i128 = if pair_amount > 0 {
        pair_amount
    } else {
        0
    };
    if bootstrap_spent > bootstrap.data.bootstrap_amount || pair_spent > bootstrap.data.pair_amount
        || backstop_tokens < 0 {
        return Err(BackstopBootstrapperError::InternalError);
    }
    bootstrap.convert(bootstrap_amount, pair_amount, backstop_tokens)
}

fn finish_action(data: &BootstrapData) -> (r: Result<CloseAction, BackstopBootstrapperError>)
    ensures
        r == plan_finish(*data),
{
    if data.total_backstop_tokens > 0 {
        Ok(CloseAction::Finish)
    } else {
        Err(BackstopBootstrapperError::ReceivedNoBackstopTokens)
    }
}

fn pair_deposit_action(data: &BootstrapData, balances: &PoolBalances) -> (r: Result<
    CloseAction,
    BackstopBootstrapperError,
>)
    ensures
        r == plan_pair_deposit(*data, *balances),
{
    if data.pair_amount > 0 {
        match single_sided_join(data.pair_amount, balances.comet_pair_token) {
            Ok(amount) => Ok(CloseAction::DepositPair { amount }),
            Err(_) => Err(BackstopBootstrapperError::OverflowError),
        }
    } else {
        finish_action(data)
    }
}

fn bootstrap_deposit_action(data: &BootstrapData, balances: &PoolBalances) -> (r: Result<
    CloseAction,
    BackstopBootstrapperError,
>)
    ensures
        r == plan_bootstrap_deposit(*data, *balances),
{
    if data.bootstrap_amount > 0 {
        match single_sided_join(data.bootstrap_amount, balances.comet_bootstrap_token) {
            Ok(amount) => Ok(CloseAction::DepositBootstrap { amount }),
            Err(_) => Err(BackstopBootstrapperError::OverflowError),
        }
    } else {
        pair_deposit_action(data, balances)
    }
}

fn join_action(bootstrap: &Bootstrap, balances: &PoolBalances) -> (r: Result<
    CloseAction,
    BackstopBootstrapperError,
>)
    ensures
        r == plan_join(bootstrap.data, *balances),
{
    if bootstrap.data.bootstrap_amount > MAX_DUST_AMOUNT && bootstrap.data.pair_amount
        > MAX_DUST_AMOUNT {
        match join_pool(
            bootstrap,
            balances.comet_bootstrap_token,
            balances.comet_pair_token,
            balances.comet_shares,
        ) {
            Ok(shares) => if shares > 0 {
                Ok(
                    CloseAction::JoinPool {
                        shares,
                        max_bootstrap: bootstrap.data.bootstrap_amount,
                        max_pair: bootstrap.data.pair_amount,
                    },
                )
            } else {
                bootstrap_deposit_action(&bootstrap.data, balances)
            },
            Err(_) => Err(BackstopBootstrapperError::OverflowError),
        }
    } else {
        bootstrap_deposit_action(&bootstrap.data, balances)
    }
}

impl CloseSession {
    /// Starts the conversion of `bootstrap` from the balances `balances`, and
    /// says in `pending` what the caller is to do first.
    ///
    /// Fails with `InvalidBootstrapStatus` unless the bootstrap is closing.
    pub fn start(bootstrap: Bootstrap, balances: PoolBalances) -> (r: Result<
        CloseSession,
        BackstopBootstrapperError,
    >)
        ensures
            r == start_spec(bootstrap, balances),
    {
        if bootstrap.status != BootstrapStatus::Closing {
            return Err(BackstopBootstrapperError::InvalidBootstrapStatus);
        }
        match join_action(&bootstrap, &balances) {
            Ok(pending) => Ok(CloseSession { bootstrap, balances, pending }),
            Err(e) => Err(e),
        }
    }

    fn joined(&self, shares: i128, bootstrap_balance: i128, pair_balance: i128) -> (r: Result<
        CloseSession,
        BackstopBootstrapperError,
    >)
        ensures
            r == joined_spec(*self, shares, bootstrap_balance, pair_balance),
    {
        let bootstrap_spent: i128 = match self.balances.bootstrap_token_balance.checked_sub(
            bootstrap_balance,
        ) {
            Some(v) => v,
            None => { return Err(BackstopBootstrapperError::OverflowError); },
        };
        let pair_spent: i128 = match self.balances.pair_token_balance.checked_sub(pair_balance) {
            Some(v) => v,
            None => { return Err(BackstopBootstrapperError::OverflowError); },
        };
        let mut bootstrap = self.bootstrap;
        match absorb(&mut bootstrap, bootstrap_spent, pair_spent, shares) {
            Ok(()) => {},
            Err(e) => { return Err(e); },
        }
        let comet_bootstrap_token: i128 = match self.balances.comet_bootstrap_token.checked_add(
            bootstrap_spent,
        ) {
            Some(v) => v,
            None => { return Err(BackstopBootstrapperError::OverflowError); },
        };
        let comet_pair_token: i128 = match self.balances.comet_pair_token.checked_add(pair_spent) {
            Some(v) => v,
            None => { return Err(BackstopBootstrapperError::OverflowError); },
        };
        let balances = PoolBalances {
            bootstrap_token_balance: self.balances.bootstrap_token_balance,
            pair_token_balance: self.balances.pair_token_balance,
            comet_shares: self.balances.comet_shares,
            comet_bootstrap_token,
            comet_pair_token,
        };
        match bootstrap_deposit_action(&bootstrap.data, &balances) {
            Ok(pending) => Ok(CloseSession { bootstrap, balances, pending }),
            Err(e) => Err(e),
        }
    }

    /// Takes in the outcome of the pending action and says in `pending` what
    /// the caller is to do next.
    ///
    /// Whatever the outcome reported, a step never adds to what the bootstrap
    /// holds, never takes minted tokens back, and leaves the total of pair
    /// tokens as it was. On a failure the session is unchanged.
    pub fn advance(&mut self, event: CloseEvent) -> (r: Result<(), BackstopBootstrapperError>)
        ensures
            match advance_spec(*old(self), event) {
                Ok(next) => r == Ok::<(), BackstopBootstrapperError>(()) && *final(self) == next,
                Err(e) => r == Err::<(), BackstopBootstrapperError>(e) && *final(self) == *old(
                    self,
                ),
            },
            final(self).bootstrap.id == old(self).bootstrap.id,
            final(self).bootstrap.config == old(self).bootstrap.config,
            final(self).bootstrap.status == old(self).bootstrap.status,
            old(self).bootstrap.data.wf() ==> final(self).bootstrap.data.wf() && converted_from(
                final(self).bootstrap.data,
                old(self).bootstrap.data,
            ),
    {
        let next = match (self.pending, event) {
            (
                CloseAction::JoinPool { shares, max_bootstrap: _, max_pair: _ },
                CloseEvent::Joined { bootstrap_balance, pair_balance },
            ) => self.joined(shares, bootstrap_balance, pair_balance),
            (CloseAction::DepositBootstrap { amount }, CloseEvent::Deposited { minted }) => {
                let mut bootstrap = self.bootstrap;
                match absorb(&mut bootstrap, amount, 0, minted) {
                    Err(e) => Err(e),
                    Ok(()) => match pair_deposit_action(&bootstrap.data, &self.balances) {
                        Ok(pending) => Ok(
                            CloseSession { bootstrap, balances: self.balances, pending },
                        ),
                        Err(e) => Err(e),
                    },
                }
            },
            (CloseAction::DepositPair { amount }, CloseEvent::Deposited { minted }) => {
                let mut bootstrap = self.bootstrap;
                match absorb(&mut bootstrap, 0, amount, minted) {
                    Err(e) => Err(e),
                    Ok(()) => match finish_action(&bootstrap.data) {
                        Ok(pending) => Ok(
                            CloseSession { bootstrap, balances: self.balances, pending },
                        ),
                        Err(e) => Err(e),
                    },
                }
            },
            _ => Err(BackstopBootstrapperError::BadRequest),
        };
        match next {
            Ok(session) => {
                *self = session;
                Ok(())
            },
            Err(e) => Err(e),
        }
    }
}

/// The session after a sequence of events, each taken in as the outcome of
/// the action pending before it, or the first failure.
pub open spec fn run(s: CloseSession, events: Seq<CloseEvent>) -> Result<
    CloseSession,
    BackstopBootstrapperError,
>
    decreases events.len(),
{
    if events.len() == 0 {
        Ok(s)
    } else {
        match run(s, events.drop_last()) {
            Ok(t) => advance_spec(t, events.last()),
            Err(e) => Err(e),
        }
    }
}

/// Whether the single-sided deposit that is pending, if one is, is for all
/// that is held of its token: the cap of a third of the pool's balance does
/// not cut it short.
pub open spec fn asks_for_all(s: CloseSession) -> bool {
    match s.pending {
        CloseAction::DepositBootstrap { amount } => amount == s.bootstrap.data.bootstrap_amount,
        CloseAction::DepositPair { amount } => amount == s.bootstrap.data.pair_amount,
        _ => true,
    }
}

/// Whether no single-sided deposit is cut short at any point of the run of
/// `events` from `s`.
pub open spec fn asked_for_all(s: CloseSession, events: Seq<CloseEvent>) -> bool
    decreases events.len(),
{
    if events.len() == 0 {
        asks_for_all(s)
    } else {
        asked_for_all(s, events.drop_last()) && match run(s, events) {
            Ok(t) => asks_for_all(t),
            Err(_) => true,
        }
    }
}

/// What holds of a session at each point where no deposit was cut short: once
/// the pair token's deposit is pending, no bootstrap tokens are left; at the
/// end neither token is left, and something was minted.
pub open spec fn spent_so_far(s: CloseSession) -> bool {
    match s.pending {
        CloseAction::DepositPair { .. } => s.bootstrap.data.bootstrap_amount == 0,
        CloseAction::Finish => s.bootstrap.data.bootstrap_amount == 0
            && s.bootstrap.data.pair_amount == 0 && s.bootstrap.data.total_backstop_tokens > 0,
        _ => true,
    }
}

/// One step keeps the balances well formed, changes them by conversion alone,
/// and where no deposit is cut short keeps what was spent so far spent.
pub proof fn lemma_advance_keeps(s: CloseSession, event: CloseEvent)
    requires
        s.bootstrap.data.wf(),
        advance_spec(s, event) is Ok,
    ensures
        advance_spec(s, event)->Ok_0.bootstrap.data.wf(),
        converted_from(advance_spec(s, event)->Ok_0.bootstrap.data, s.bootstrap.data),
        advance_spec(s, event)->Ok_0.bootstrap.config == s.bootstrap.config,
        advance_spec(s, event)->Ok_0.bootstrap.id == s.bootstrap.id,
        spent_so_far(s) && asks_for_all(s) ==> spent_so_far(advance_spec(s, event)->Ok_0),
{
}

/// A run keeps the balances well formed, changes them by conversion alone,
/// and where no deposit is cut short keeps what was spent so far spent.
pub proof fn lemma_run_keeps(s: CloseSession, events: Seq<CloseEvent>)
    requires
        s.bootstrap.data.wf(),
        run(s, events) is Ok,
    ensures
        run(s, events)->Ok_0.bootstrap.data.wf(),
        converted_from(run(s, events)->Ok_0.bootstrap.data, s.bootstrap.data),
        run(s, events)->Ok_0.bootstrap.config == s.bootstrap.config,
        run(s, events)->Ok_0.bootstrap.id == s.bootstrap.id,
        spent_so_far(s) && asked_for_all(s, events) ==> spent_so_far(run(s, events)->Ok_0),
    decreases events.len(),
{
    if events.len() > 0 {
        lemma_run_keeps(s, events.drop_last());
        lemma_advance_keeps(run(s, events.drop_last())->Ok_0, events.last());
        if spent_so_far(s) && asked_for_all(s, events) {
            lemma_asked_for_all_at_end(s, events.drop_last());
        }
    }
}

/// Where no deposit is cut short in a run, none is pending cut short at its
/// end.
pub proof fn lemma_asked_for_all_at_end(s: CloseSession, events: Seq<CloseEvent>)
    requires
        asked_for_all(s, events),
        run(s, events) is Ok,
    ensures
        asks_for_all(run(s, events)->Ok_0),
{
}

/// The shares of a two-sided join count from the first event on: where a run
/// of one event or more starts with a two-sided join pending, the backstop
/// tokens after it are at least those before and the shares of the join,
/// whatever the later deposits mint.
pub proof fn lemma_join_counts(s: CloseSession, events: Seq<CloseEvent>)
    requires
        s.bootstrap.data.wf(),
        s.pending is JoinPool,
        events.len() >= 1,
        run(s, events) is Ok,
    ensures
        !(run(s, events)->Ok_0.pending is JoinPool),
        run(s, events)->Ok_0.bootstrap.data.total_backstop_tokens
            >= s.bootstrap.data.total_backstop_tokens + s.pending->JoinPool_shares,
    decreases events.len(),
{
    let before = events.drop_last();
    assert(run(s, before) is Ok);
    if events.len() == 1 {
        assert(run(s, before) == Ok::<CloseSession, BackstopBootstrapperError>(s));
    } else {
        lemma_join_counts(s, before);
        lemma_run_keeps(s, before);
        lemma_advance_keeps(run(s, before)->Ok_0, events.last());
    }
}

/// A conversion that the pool takes in full completes the bootstrap: from a
/// bootstrap that is closing at ledger `sequence`, with well-formed balances,
/// a run of events that comes to its end, and in which no single-sided
/// deposit is cut short by the cap, leaves nothing of either token and has
/// minted something. The total of pair tokens and the configuration are as
/// they were. If what was minted is at least the dust threshold, the
/// bootstrap is completed from that ledger on; and it is, whatever the
/// single-sided deposits mint, where the run starts with a two-sided join
/// for at least that many shares.
pub proof fn lemma_conversion_in_full(
    bootstrap: Bootstrap,
    sequence: u32,
    balances: PoolBalances,
    events: Seq<CloseEvent>,
)
    requires
        bootstrap.data.wf(),
        bootstrap.status == status_of(bootstrap.config, bootstrap.data, sequence),
        start_spec(bootstrap, balances) is Ok,
        run(start_spec(bootstrap, balances)->Ok_0, events) is Ok,
        run(start_spec(bootstrap, balances)->Ok_0, events)->Ok_0.pending == CloseAction::Finish,
        asked_for_all(start_spec(bootstrap, balances)->Ok_0, events),
    ensures
        ({
            let end = run(start_spec(bootstrap, balances)->Ok_0, events)->Ok_0.bootstrap;
            &&& end.data.bootstrap_amount == 0
            &&& end.data.pair_amount == 0
            &&& end.data.total_backstop_tokens > 0
            &&& end.data.total_backstop_tokens >= bootstrap.data.total_backstop_tokens
            &&& end.data.total_pair == bootstrap.data.total_pair
            &&& end.config == bootstrap.config
            &&& end.id == bootstrap.id
            &&& end.data.total_backstop_tokens >= MAX_DUST_AMOUNT ==> forall|later: u32|
                sequence <= later ==> #[trigger] status_of(
                    end.config,
                    end.data,
                    later,
                ) == BootstrapStatus::Completed
            &&& start_spec(bootstrap, balances)->Ok_0.pending is JoinPool && start_spec(
                bootstrap,
                balances,
            )->Ok_0.pending->JoinPool_shares >= MAX_DUST_AMOUNT
                ==> end.data.total_backstop_tokens >= MAX_DUST_AMOUNT
        }),
{
    let s = start_spec(bootstrap, balances)->Ok_0;
    assert(spent_so_far(s));
    lemma_run_keeps(s, events);
    if s.pending is JoinPool {
        if events.len() == 0 {
            assert(run(s, events) == Ok::<CloseSession, BackstopBootstrapperError>(s));
        } else {
            lemma_join_counts(s, events);
        }
    }
}

} // verus!
