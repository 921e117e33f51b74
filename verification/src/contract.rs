use crate::bootstrap::{
    changes_in_order, converted_from, exit_spec, join_spec, status_of, Bootstrap,
};
use crate::conservation::{balanced, moved, Books, Movement};
use crate::close::{start_spec, CloseAction, CloseSession, PoolBalances};
use crate::deposits::{
    amount_of, distinct, get_deposit, lemma_total_of_absent, lemma_total_of_bounds,
    lemma_with_deposit, non_negative, set_deposit, total_of, with_deposit, DepositEntry,
};
use crate::distribution::{
    bootstrapper_claim, claim_spec, execute_claim, execute_refund, joiner_claims,
    lemma_claims_bounded, lemma_refund_owed, lemma_refunds_bounded, joiner_refunds, refund_spec,
    Payout,
};
use crate::constants::SCALAR_7;
use crate::errors::BackstopBootstrapperError;
use crate::types::{
    validate_spec, Address, BootstrapConfig, BootstrapData, BootstrapStatus, TokenInfo,
};
use vstd::prelude::*;

verus! {

/// What is stored of one bootstrap.
#[derive(Clone, Copy, PartialEq, Eq, Structural, Debug)]
pub struct BootstrapRecord {
    pub config: BootstrapConfig,
    pub data: BootstrapData,
    /// Whether the bootstrapper has claimed.
    pub claimed: bool,
    /// Whether the bootstrapper was refunded.
    pub refunded: bool,
}

impl BootstrapRecord {
    /// The configuration is one that a bootstrap can be opened with, no
    /// balance is negative, and no more bootstrap tokens are held than were
    /// committed.
    pub open spec fn wf(self) -> bool {
        &&& self.config.wf()
        &&& self.data.wf()
        &&& self.data.bootstrap_amount <= self.config.amount
    }
}

/// A movement of tokens that the caller has to carry out for an operation to
/// stand: `amount` of `token` from `from` to `to`.
#[derive(Clone, Copy, PartialEq, Eq, Structural, Debug)]
pub struct Transfer {
    pub token: Address,
    pub from: Address,
    pub to: Address,
    pub amount: i128,
}

/// A deposit into the backstop that the caller has to make after a claim:
/// `amount` backstop tokens of `from`, for `pool`.
#[derive(Clone, Copy, PartialEq, Eq, Structural, Debug)]
pub struct BackstopDeposit {
    pub from: Address,
    pub pool: Address,
    pub amount: i128,
}

/// The index of the other one of the pool's two tokens.
pub open spec fn pair_index(token_index: u32) -> int {
    if token_index == 0 {
        1
    } else {
        0
    }
}

/// The bootstrapper contract: its setup, its bootstraps by id, and the
/// joiners' deposits.
pub struct BackstopBootstrapper {
    /// The contract's own address, which holds the tokens.
    pub address: Address,
    pub is_init: bool,
    pub backstop: Address,
    pub backstop_token: Address,
    pub pool_factory: Address,
    /// The two tokens of the liquidity pool with their weights, once the
    /// contract is initialized.
    pub comet_tokens: Vec<TokenInfo>,
    /// The bootstraps; the id of each is its place.
    pub records: Vec<BootstrapRecord>,
    pub deposits: Vec<DepositEntry>,
}

impl BackstopBootstrapper {
    /// The invariant of the contract's state: ids fit in `u32`; bootstraps
    /// exist only once the contract is initialized, and then the pool's two
    /// tokens are known; every record is well formed; each joiner has one
    /// deposit entry per bootstrap at most, none negative and none for a
    /// bootstrap that does not exist; and the deposits of a bootstrap add up
    /// to no more than its total of pair tokens.
    pub open spec fn wf(self) -> bool {
        &&& self.records@.len() <= u32::MAX
        &&& (self.is_init ==> self.comet_tokens@.len() == 2)
        &&& (self.records@.len() > 0 ==> self.is_init)
        &&& distinct(self.deposits@)
        &&& non_negative(self.deposits@)
        &&& forall|i: int|
            0 <= i < self.deposits@.len() ==> (#[trigger] self.deposits@[i]).id
                < self.records@.len()
        &&& forall|id: int|
            0 <= id < self.records@.len() ==> (#[trigger] self.records@[id]).wf() && total_of(
                self.deposits@,
                id as u32,
            ) <= self.records@[id].data.total_pair
    }

    /// Whether bootstrap `id` exists.
    pub open spec fn has(self, id: u32) -> bool {
        id < self.records@.len()
    }

    /// The setup of the contract is the same in both states.
    pub open spec fn same_setup(self, other: BackstopBootstrapper) -> bool {
        &&& self.address == other.address
        &&& self.is_init == other.is_init
        &&& self.backstop == other.backstop
        &&& self.backstop_token == other.backstop_token
        &&& self.pool_factory == other.pool_factory
        &&& self.comet_tokens@ == other.comet_tokens@
    }

    /// From this state to `after`, at ledger `sequence`, every bootstrap is
    /// still there with its configuration, and its balances have changed only
    /// as its status at that ledger allows.
    pub open spec fn kept_order(self, after: BackstopBootstrapper, sequence: u32) -> bool {
        forall|id: int|
            0 <= id < self.records@.len() ==> id < after.records@.len() && (
            #[trigger] after.records@[id]).config == self.records@[id].config && changes_in_order(
                self.records@[id].config,
                self.records@[id].data,
                after.records@[id].data,
                sequence,
            )
    }

    /// Bootstrap `id` as it stands at ledger `sequence`.
    pub open spec fn bootstrap_at(self, id: u32, sequence: u32) -> Bootstrap
        recommends
            self.has(id),
    {
        Bootstrap {
            id,
            status: status_of(
                self.records@[id as int].config,
                self.records@[id as int].data,
                sequence,
            ),
            config: self.records@[id as int].config,
            data: self.records@[id as int].data,
        }
    }

    /// The books of bootstrap `id` at ledger `sequence`, with nothing counted
    /// as brought in yet.
    pub open spec fn books(self, id: u32, sequence: u32) -> Books
        recommends
            self.has(id),
    {
        Books { bootstrap: self.bootstrap_at(id, sequence), deposits: self.deposits@, net: 0 }
    }

    /// What a claim by `from` on bootstrap `id` at ledger `sequence` comes to.
    pub open spec fn claim_outcome(self, sequence: u32, from: Address, id: u32) -> Result<
        Payout,
        BackstopBootstrapperError,
    >
        recommends
            self.has(id),
    {
        claim_spec(
            self.bootstrap_at(id, sequence),
            from,
            self.records@[id as int].claimed,
            self.deposit_of(id, from),
            self.bootstrap_token(id).weight,
            self.pair_token(id).weight,
        )
    }

    /// What a refund to `from` from bootstrap `id` at ledger `sequence` comes
    /// to.
    pub open spec fn refund_outcome(self, sequence: u32, from: Address, id: u32) -> Result<
        Payout,
        BackstopBootstrapperError,
    >
        recommends
            self.has(id),
    {
        refund_spec(
            self.bootstrap_at(id, sequence),
            from,
            self.records@[id as int].refunded,
            self.deposit_of(id, from),
        )
    }

    /// The amount that a claim by `from` on bootstrap `id` at ledger
    /// `sequence` pays, or why it is refused.
    pub open spec fn claim_amount(self, sequence: u32, from: Address, id: u32) -> Result<
        i128,
        BackstopBootstrapperError,
    >
        recommends
            self.has(id),
    {
        match self.claim_outcome(sequence, from, id) {
            Ok(payout) => Ok(payout.amount),
            Err(e) => Err(e),
        }
    }

    /// The amount that a refund to `from` from bootstrap `id` at ledger
    /// `sequence` pays, or why it is refused.
    pub open spec fn refund_amount(self, sequence: u32, from: Address, id: u32) -> Result<
        i128,
        BackstopBootstrapperError,
    >
        recommends
            self.has(id),
    {
        match self.refund_outcome(sequence, from, id) {
            Ok(payout) => Ok(payout.amount),
            Err(e) => Err(e),
        }
    }

    /// The deposit of `user` in bootstrap `id`.
    pub open spec fn deposit_of(self, id: u32, user: Address) -> i128 {
        amount_of(self.deposits@, id, user)
    }

    /// The token that bootstrap `id` is funded with.
    pub open spec fn bootstrap_token(self, id: u32) -> TokenInfo
        recommends
            self.has(id),
    {
        self.comet_tokens@[self.records@[id as int].config.token_index as int]
    }

    /// The token that joiners bring to bootstrap `id`.
    pub open spec fn pair_token(self, id: u32) -> TokenInfo
        recommends
            self.has(id),
    {
        self.comet_tokens@[pair_index(self.records@[id as int].config.token_index)]
    }

    /// A contract at `address` that is not initialized yet and has no
    /// bootstraps.
    pub fn new(address: Address) -> (s: BackstopBootstrapper)
        ensures
            s.wf(),
            s.address == address,
            !s.is_init,
            s.records@.len() == 0,
            s.deposits@.len() == 0,
    {
        BackstopBootstrapper {
            address,
            is_init: false,
            backstop: address,
            backstop_token: address,
            pool_factory: address,
            comet_tokens: Vec::new(),
            records: Vec::new(),
            deposits: Vec::new(),
        }
    }

    /// Sets the contract up, once: the backstop, the backstop token, which is
    /// the liquidity pool, the pool factory, and the pool's two tokens with
    /// their weights as the pool reports them.
    ///
    /// Fails with `AlreadyInitializedError` on a contract that is set up, and
    /// then changes nothing.
    pub fn initialize(
        &mut self,
        backstop: Address,
        backstop_token: Address,
        pool_factory_address: Address,
        token_data: Vec<TokenInfo>,
    ) -> (r: Result<(), BackstopBootstrapperError>)
        requires
            old(self).wf(),
            token_data@.len() == 2,
        ensures
            final(self).wf(),
            old(self).is_init ==> r == Err::<(), BackstopBootstrapperError>(
                BackstopBootstrapperError::AlreadyInitializedError,
            ) && *final(self) == *old(self),
            !old(self).is_init ==> r == Ok::<(), BackstopBootstrapperError>(()),
            !old(self).is_init ==> final(self).is_init,
            !old(self).is_init ==> final(self).backstop == backstop,
            !old(self).is_init ==> final(self).backstop_token == backstop_token,
            !old(self).is_init ==> final(self).pool_factory == pool_factory_address,
            !old(self).is_init ==> final(self).comet_tokens@ == token_data@,
            final(self).address == old(self).address,
            final(self).records@ == old(self).records@,
            final(self).deposits@ == old(self).deposits@,
    {
        if self.is_init {
            return Err(BackstopBootstrapperError::AlreadyInitializedError);
        }
        self.is_init = true;
        self.backstop = backstop;
        self.backstop_token = backstop_token;
        self.pool_factory = pool_factory_address;
        self.comet_tokens = token_data;
        Ok(())
    }

    /// The id that the next bootstrap gets: the number of bootstraps so far.
    pub fn get_next_id(&self) -> (id: u32)
        requires
            self.wf(),
        ensures
            id == self.records@.len(),
    {
        self.records.len() as u32
    }

    /// Bootstrap `id` as it stands at ledger `sequence`.
    pub fn get_bootstrap(&self, sequence: u32, id: u32) -> (b: Bootstrap)
        requires
            self.has(id),
        ensures
            b == self.bootstrap_at(id, sequence),
    {
        Bootstrap::load(self, sequence, id)
    }

    /// The deposit of `user` in bootstrap `id`; zero where there is none.
    pub fn get_deposit(&self, id: u32, user: Address) -> (amount: i128)
        requires
            self.wf(),
        ensures
            amount == self.deposit_of(id, user),
    {
        get_deposit(&self.deposits, id, user)
    }
}

impl Bootstrap {
    /// Bootstrap `id` of `contract` as it stands at ledger `sequence`.
    pub fn load(contract: &BackstopBootstrapper, sequence: u32, id: u32) -> (b: Bootstrap)
        requires
            contract.has(id),
        ensures
            b == contract.bootstrap_at(id, sequence),
    {
        let record = contract.records[id as usize];
        Bootstrap::new(id, record.config, record.data, sequence)
    }

    /// Whether the bootstrap's balances can be stored in `contract` without
    /// breaking its invariant: the bootstrap exists there, the balances are
    /// well formed and hold no more bootstrap tokens than were committed, and
    /// the deposits add up to no more than the total of pair tokens.
    pub open spec fn storable(self, contract: BackstopBootstrapper) -> bool {
        &&& contract.has(self.id)
        &&& self.data.wf()
        &&& self.data.bootstrap_amount <= contract.records@[self.id as int].config.amount
        &&& total_of(contract.deposits@, self.id) <= self.data.total_pair
    }

    /// Stores the bootstrap's balances in `contract`. Nothing else changes.
    pub fn store(&self, contract: &mut BackstopBootstrapper)
        requires
            old(contract).wf(),
            self.storable(*old(contract)),
        ensures
            final(contract).wf(),
            final(contract).same_setup(*old(contract)),
            final(contract).deposits@ == old(contract).deposits@,
            final(contract).records@ == old(contract).records@.update(
                self.id as int,
                BootstrapRecord { data: self.data, ..old(contract).records@[self.id as int] },
            ),
    {
        let record = contract.records[self.id as usize];
        contract.records.set(
            self.id as usize,
            BootstrapRecord {
                config: record.config,
                data: self.data,
                claimed: record.claimed,
                refunded: record.refunded,
            },
        );
    }
}

/// Every record is well formed and covers its deposits after a change to
/// bootstrap `id` alone: where the other records and the sums of their
/// deposits are as they were, and the record of `id` is well formed and
/// covers the sum of its deposits.
proof fn lemma_records_stay_covered(
    before: BackstopBootstrapper,
    after: BackstopBootstrapper,
    id: u32,
)
    requires
        before.wf(),
        before.has(id),
        after.records@.len() == before.records@.len(),
        forall|i: int|
            0 <= i < before.records@.len() && i != id ==> #[trigger] after.records@[i]
                == before.records@[i],
        after.records@[id as int].wf(),
        total_of(after.deposits@, id) <= after.records@[id as int].data.total_pair,
        forall|j: u32|
            j != id ==> #[trigger] total_of(after.deposits@, j) == total_of(before.deposits@, j),
    ensures
        forall|i: int|
            0 <= i < after.records@.len() ==> (#[trigger] after.records@[i]).wf() && total_of(
                after.deposits@,
                i as u32,
            ) <= after.records@[i].data.total_pair,
{
    assert forall|i: int| 0 <= i < after.records@.len() implies (#[trigger] after.records@[i]).wf()
        && total_of(after.deposits@, i as u32) <= after.records@[i].data.total_pair by {
        if i != id as int {
            assert(before.records@[i].wf());
            assert(total_of(after.deposits@, i as u32) == total_of(before.deposits@, i as u32));
        }
    }
}

/// Whether a bootstrap with `config` can be opened at ledger `sequence` among
/// `count` bootstraps, and if not, the first reason why: the configuration
/// must be valid, the pool known to the pool factory, and an id must be left.
pub open spec fn open_spec(
    config: BootstrapConfig,
    sequence: u32,
    is_pool: bool,
    count: nat,
) -> Result<(), BackstopBootstrapperError> {
    match validate_spec(config, sequence) {
        Err(e) => Err(e),
        Ok(()) => if !is_pool {
            Err(BackstopBootstrapperError::InvalidPoolAddressError)
        } else if count >= u32::MAX {
            Err(BackstopBootstrapperError::OverflowError)
        } else {
            Ok(())
        },
    }
}

/// Decides whether a bootstrap with `config` can be opened at ledger
/// `sequence` under the id `next_id`, and returns the balances that it starts
/// with: the committed amount of the bootstrap token and nothing else.
/// `is_pool` says whether the pool factory knows the pool of the
/// configuration.
///
/// The configuration is checked first; then the pool must be known, or the
/// error is `InvalidPoolAddressError`; then an id must be left after this
/// one, or it is `OverflowError`.
pub fn execute_start_bootstrap(
    config: BootstrapConfig,
    sequence: u32,
    is_pool: bool,
    next_id: u32,
) -> (r: Result<BootstrapData, BackstopBootstrapperError>)
    ensures
        match open_spec(config, sequence, is_pool, next_id as nat) {
            Ok(()) => r == Ok::<BootstrapData, BackstopBootstrapperError>(
                BootstrapData::spec_opened(config.amount),
            ),
            Err(e) => r == Err::<BootstrapData, BackstopBootstrapperError>(e),
        },
        r is Ok ==> config.wf(),
{
    match config.validate(sequence) {
        Ok(()) => {},
        Err(e) => { return Err(e); },
    }
    if !is_pool {
        return Err(BackstopBootstrapperError::InvalidPoolAddressError);
    }
    if next_id == u32::MAX {
        return Err(BackstopBootstrapperError::OverflowError);
    }
    Ok(
        BootstrapData {
            total_pair: 0,
            total_backstop_tokens: 0,
            bootstrap_amount: config.amount,
            pair_amount: 0,
        },
    )
}

impl BackstopBootstrapper {
    /// Opens a bootstrap at ledger `sequence` and returns its id with the
    /// transfer that funds it: the committed amount of the bootstrap token,
    /// from the bootstrapper to the contract. `is_pool` says whether the pool
    /// factory knows the pool of the configuration.
    ///
    /// The new bootstrap holds the committed amount and nothing else. On a
    /// refusal nothing changes.
    pub fn bootstrap(&mut self, sequence: u32, config: BootstrapConfig, is_pool: bool) -> (r:
        Result<(u32, Transfer), BackstopBootstrapperError>)
        requires
            old(self).wf(),
            old(self).is_init,
        ensures
            final(self).wf(),
            old(self).kept_order(*final(self), sequence),
            match open_spec(config, sequence, is_pool, old(self).records@.len()) {
                Ok(()) => r == Ok::<(u32, Transfer), BackstopBootstrapperError>(
                    (
                        old(self).records@.len() as u32,
                        Transfer {
                            token: old(self).comet_tokens@[config.token_index as int].address,
                            from: config.bootstrapper,
                            to: old(self).address,
                            amount: config.amount,
                        },
                    ),
                ) && final(self).records@ == old(self).records@.push(
                    BootstrapRecord {
                        config,
                        data: BootstrapData::spec_opened(config.amount),
                        claimed: false,
                        refunded: false,
                    },
                ) && final(self).deposits@ == old(self).deposits@ && final(self).same_setup(
                    *old(self),
                ),
                Err(e) => r == Err::<(u32, Transfer), BackstopBootstrapperError>(e) && *final(self)
                    == *old(self),
            },
            r is Ok ==> balanced(final(self).books(r->Ok_0.0, sequence)),
    {
        let id: u32 = self.get_next_id();
        let data = match execute_start_bootstrap(config, sequence, is_pool, id) {
            Ok(data) => data,
            Err(e) => { return Err(e); },
        };
        let token = self.comet_tokens[config.token_index as usize].address;
        proof {
            lemma_total_of_absent(self.deposits@, id);
        }
        self.records.push(BootstrapRecord { config, data, claimed: false, refunded: false });
        Ok((id, Transfer { token, from: config.bootstrapper, to: self.address, amount: config.amount }))
    }

    /// Takes `amount` pair tokens from `from` into bootstrap `id` at ledger
    /// `sequence`, and returns the joiner's deposit after it with the
    /// transfer that pays for it, from the joiner to the contract.
    ///
    /// The bootstrap must be active and the amount not negative. On a refusal
    /// nothing changes.
    pub fn join(&mut self, sequence: u32, from: Address, id: u32, amount: i128) -> (r: Result<
        (i128, Transfer),
        BackstopBootstrapperError,
    >)
        requires
            old(self).wf(),
            old(self).has(id),
        ensures
            final(self).wf(),
            old(self).kept_order(*final(self), sequence),
            match join_spec(
                old(self).bootstrap_at(id, sequence),
                old(self).deposit_of(id, from),
                amount,
            ) {
                Ok((data, deposit)) => r == Ok::<(i128, Transfer), BackstopBootstrapperError>(
                    (
                        deposit,
                        Transfer {
                            token: old(self).pair_token(id).address,
                            from,
                            to: old(self).address,
                            amount,
                        },
                    ),
                ) && final(self).records@ == old(self).records@.update(
                    id as int,
                    BootstrapRecord { data, ..old(self).records@[id as int] },
                ) && final(self).deposits@ == with_deposit(old(self).deposits@, id, from, deposit)
                    && final(self).same_setup(*old(self)),
                Err(e) => r == Err::<(i128, Transfer), BackstopBootstrapperError>(e) && *final(self)
                    == *old(self),
            },
            final(self).books(id, sequence).bootstrap == moved(
                old(self).books(id, sequence),
                Movement::Join { from, amount },
            ).bootstrap,
            final(self).books(id, sequence).deposits == moved(
                old(self).books(id, sequence),
                Movement::Join { from, amount },
            ).deposits,
    {
        let mut bootstrap = Bootstrap::load(self, sequence, id);
        let deposit: i128 = get_deposit(&self.deposits, id, from);
        let new_deposit: i128 = match bootstrap.join(deposit, amount) {
            Ok(d) => d,
            Err(e) => { return Err(e); },
        };
        let pair: usize = if bootstrap.config.token_index == 0 {
            1
        } else {
            0
        };
        let token = self.comet_tokens[pair].address;
        proof {
            lemma_total_of_bounds(self.deposits@, id, from);
            lemma_with_deposit(self.deposits@, id, from, new_deposit);
        }
        bootstrap.store(self);
        set_deposit(&mut self.deposits, id, from, new_deposit);
        proof {
            lemma_records_stay_covered(*old(self), *self, id);
        }
        Ok((new_deposit, Transfer { token, from, to: self.address, amount }))
    }

    /// Gives `amount` pair tokens of bootstrap `id` back to `from` at ledger
    /// `sequence`, and returns what is left of the joiner's deposit with the
    /// transfer that pays it out, from the contract to the joiner.
    ///
    /// The bootstrap must be active and the amount not negative, and it
    /// succeeds only if neither the joiner's deposit nor the bootstrap's two
    /// pair balances fall below zero. On a refusal nothing changes.
    pub fn exit(&mut self, sequence: u32, from: Address, id: u32, amount: i128) -> (r: Result<
        (i128, Transfer),
        BackstopBootstrapperError,
    >)
        requires
            old(self).wf(),
            old(self).has(id),
        ensures
            final(self).wf(),
            old(self).kept_order(*final(self), sequence),
            match exit_spec(
                old(self).bootstrap_at(id, sequence),
                old(self).deposit_of(id, from),
                amount,
            ) {
                Ok((data, deposit)) => r == Ok::<(i128, Transfer), BackstopBootstrapperError>(
                    (
                        deposit,
                        Transfer {
                            token: old(self).pair_token(id).address,
                            from: old(self).address,
                            to: from,
                            amount,
                        },
                    ),
                ) && final(self).records@ == old(self).records@.update(
                    id as int,
                    BootstrapRecord { data, ..old(self).records@[id as int] },
                ) && final(self).deposits@ == with_deposit(old(self).deposits@, id, from, deposit)
                    && final(self).same_setup(*old(self)),
                Err(e) => r == Err::<(i128, Transfer), BackstopBootstrapperError>(e) && *final(self)
                    == *old(self),
            },
            r is Ok ==> old(self).deposit_of(id, from) - amount >= 0,
            r is Ok ==> old(self).records@[id as int].data.pair_amount - amount >= 0,
            r is Ok ==> old(self).records@[id as int].data.total_pair - amount >= 0,
            final(self).books(id, sequence).bootstrap == moved(
                old(self).books(id, sequence),
                Movement::Exit { from, amount },
            ).bootstrap,
            final(self).books(id, sequence).deposits == moved(
                old(self).books(id, sequence),
                Movement::Exit { from, amount },
            ).deposits,
    {
        let mut bootstrap = Bootstrap::load(self, sequence, id);
        let deposit: i128 = get_deposit(&self.deposits, id, from);
        let new_deposit: i128 = match bootstrap.exit(deposit, amount) {
            Ok(d) => d,
            Err(e) => { return Err(e); },
        };
        let pair: usize = if bootstrap.config.token_index == 0 {
            1
        } else {
            0
        };
        let token = self.comet_tokens[pair].address;
        proof {
            lemma_total_of_bounds(self.deposits@, id, from);
            lemma_with_deposit(self.deposits@, id, from, new_deposit);
        }
        set_deposit(&mut self.deposits, id, from, new_deposit);
        proof {
            lemma_records_stay_covered(*old(self), *self, id);
        }
        bootstrap.store(self);
        Ok((new_deposit, Transfer { token, from: self.address, to: from, amount }))
    }
}

impl BackstopBootstrapper {
    /// What storing the outcome of a conversion at ledger `sequence` gives:
    /// the balances to store, or why the session is refused. The session must
    /// be for a bootstrap of this contract, which must be closing at that
    /// ledger; it must be at its end, and its balances must be well formed
    /// and come from the stored ones by conversion alone, or else it is a bad
    /// request. A conversion that has never minted anything is refused as
    /// well.
    pub open spec fn settle_spec(self, sequence: u32, session: CloseSession) -> Result<
        BootstrapData,
        BackstopBootstrapperError,
    > {
        if !self.has(session.bootstrap.id) {
            Err(BackstopBootstrapperError::BadRequest)
        } else if self.bootstrap_at(session.bootstrap.id, sequence).status
            != BootstrapStatus::Closing {
            Err(BackstopBootstrapperError::InvalidBootstrapStatus)
        } else if session.pending != CloseAction::Finish || session.bootstrap.config
            != self.records@[session.bootstrap.id as int].config || !session.bootstrap.data.wf()
            || !converted_from(
            session.bootstrap.data,
            self.records@[session.bootstrap.id as int].data,
        ) {
            Err(BackstopBootstrapperError::BadRequest)
        } else if session.bootstrap.data.total_backstop_tokens <= 0 {
            Err(BackstopBootstrapperError::ReceivedNoBackstopTokens)
        } else {
            Ok(session.bootstrap.data)
        }
    }

    /// Starts the conversion of bootstrap `id` at ledger `sequence`, from the
    /// balances that the caller has read. The session says what to do with
    /// the liquidity pool; the contract changes only when the session is
    /// settled.
    ///
    /// Fails with `InvalidBootstrapStatus` unless the bootstrap is closing.
    pub fn close(&self, sequence: u32, id: u32, balances: PoolBalances) -> (r: Result<
        CloseSession,
        BackstopBootstrapperError,
    >)
        requires
            self.has(id),
        ensures
            r == start_spec(self.bootstrap_at(id, sequence), balances),
    {
        CloseSession::start(Bootstrap::load(self, sequence, id), balances)
    }

    /// Stores, at ledger `sequence`, what a conversion has come to, and
    /// returns the backstop tokens minted for the bootstrap so far.
    ///
    /// Whatever session is handed in, the stored balances of pair and
    /// bootstrap tokens never rise or fall below zero, the backstop tokens
    /// never fall, and the total of pair tokens stays. On a refusal nothing
    /// changes.
    pub fn settle_close(&mut self, sequence: u32, session: &CloseSession) -> (r: Result<
        i128,
        BackstopBootstrapperError,
    >)
        requires
            old(self).wf(),
        ensures
            final(self).wf(),
            old(self).kept_order(*final(self), sequence),
            match old(self).settle_spec(sequence, *session) {
                Ok(data) => r == Ok::<i128, BackstopBootstrapperError>(data.total_backstop_tokens)
                    && final(self).records@ == old(self).records@.update(
                    session.bootstrap.id as int,
                    BootstrapRecord { data, ..old(self).records@[session.bootstrap.id as int] },
                ) && final(self).deposits@ == old(self).deposits@ && final(self).same_setup(
                    *old(self),
                ),
                Err(e) => r == Err::<i128, BackstopBootstrapperError>(e) && *final(self) == *old(
                    self,
                ),
            },
            r is Ok ==> r->Ok_0 > 0 && converted_from(
                final(self).records@[session.bootstrap.id as int].data,
                old(self).records@[session.bootstrap.id as int].data,
            ),
    {
        let bootstrap = session.bootstrap;
        if bootstrap.id as usize >= self.records.len() {
            return Err(BackstopBootstrapperError::BadRequest);
        }
        let record = self.records[bootstrap.id as usize];
        let stored = Bootstrap::load(self, sequence, bootstrap.id);
        if stored.status != BootstrapStatus::Closing {
            return Err(BackstopBootstrapperError::InvalidBootstrapStatus);
        }
        let data = bootstrap.data;
        let by_conversion = data.total_pair == record.data.total_pair && 0 <= data.bootstrap_amount
            && data.bootstrap_amount <= record.data.bootstrap_amount && 0 <= data.pair_amount
            && data.pair_amount <= record.data.pair_amount && record.data.total_backstop_tokens
            <= data.total_backstop_tokens;
        let well_formed = 0 <= data.bootstrap_amount && 0 <= data.pair_amount && data.pair_amount
            <= data.total_pair && 0 <= data.total_backstop_tokens;
        if session.pending != CloseAction::Finish || bootstrap.config != record.config
            || !well_formed || !by_conversion {
            return Err(BackstopBootstrapperError::BadRequest);
        }
        if data.total_backstop_tokens <= 0 {
            return Err(BackstopBootstrapperError::ReceivedNoBackstopTokens);
        }
        bootstrap.store(self);
        Ok(data.total_backstop_tokens)
    }

    /// Pays `from` the share of the backstop tokens of bootstrap `id` at
    /// ledger `sequence`, and returns the amount with what the caller has to
    /// carry out: the transfer of backstop tokens from the contract to the
    /// claimant, and then their deposit into the backstop of the bootstrap's
    /// pool on the claimant's behalf.
    ///
    /// The bootstrap must be completed. The bootstrapper can claim once; a
    /// joiner's claim uses the deposit up. What a claim pays to anyone else
    /// is the same before and after, so the order of claims does not matter.
    /// On a refusal nothing changes.
    pub fn claim(&mut self, sequence: u32, from: Address, id: u32) -> (r: Result<
        (i128, Transfer, BackstopDeposit),
        BackstopBootstrapperError,
    >)
        requires
            old(self).wf(),
            old(self).has(id),
        ensures
            final(self).wf(),
            old(self).kept_order(*final(self), sequence),
            r is Ok ==> forall|later: u32|
                sequence <= later ==> #[trigger] final(self).claim_outcome(later, from, id) == Err::<
                    Payout,
                    BackstopBootstrapperError,
                >(BackstopBootstrapperError::AlreadyClaimedError),
            forall|other: Address, later: u32|
                other != from ==> #[trigger] final(self).claim_amount(later, other, id) == old(
                    self,
                ).claim_amount(later, other, id),
            match old(self).claim_outcome(sequence, from, id) {
                Ok(payout) => r == Ok::<
                    (i128, Transfer, BackstopDeposit),
                    BackstopBootstrapperError,
                >(
                    (
                        payout.amount,
                        Transfer {
                            token: old(self).backstop_token,
                            from: old(self).address,
                            to: from,
                            amount: payout.amount,
                        },
                        BackstopDeposit {
                            from,
                            pool: old(self).records@[id as int].config.pool,
                            amount: payout.amount,
                        },
                    ),
                ) && final(self).records@ == old(self).records@.update(
                    id as int,
                    BootstrapRecord { claimed: payout.settled, ..old(self).records@[id as int] },
                ) && final(self).deposits@ == (if from == old(
                    self,
                ).records@[id as int].config.bootstrapper {
                    old(self).deposits@
                } else {
                    with_deposit(old(self).deposits@, id, from, payout.deposit)
                }) && final(self).same_setup(*old(self)),
                Err(e) => r == Err::<(i128, Transfer, BackstopDeposit), BackstopBootstrapperError>(
                    e,
                ) && *final(self) == *old(self),
            },
    {
        let bootstrap = Bootstrap::load(self, sequence, id);
        let record = self.records[id as usize];
        let deposit: i128 = get_deposit(&self.deposits, id, from);
        let pair: usize = if bootstrap.config.token_index == 0 {
            1
        } else {
            0
        };
        let bootstrap_weight: i128 = self.comet_tokens[bootstrap.config.token_index as usize].weight;
        let pair_weight: i128 = self.comet_tokens[pair].weight;
        let payout = match execute_claim(
            &bootstrap,
            from,
            record.claimed,
            deposit,
            bootstrap_weight,
            pair_weight,
        ) {
            Ok(p) => p,
            Err(e) => { return Err(e); },
        };
        self.records.set(
            id as usize,
            BootstrapRecord {
                config: record.config,
                data: record.data,
                claimed: payout.settled,
                refunded: record.refunded,
            },
        );
        if from != bootstrap.config.bootstrapper {
            proof {
                lemma_total_of_bounds(self.deposits@, id, from);
                lemma_with_deposit(self.deposits@, id, from, payout.deposit);
            }
            set_deposit(&mut self.deposits, id, from, payout.deposit);
        }
        proof {
            lemma_records_stay_covered(*old(self), *self, id);
        }
        Ok(
            (
                payout.amount,
                Transfer {
                    token: self.backstop_token,
                    from: self.address,
                    to: from,
                    amount: payout.amount,
                },
                BackstopDeposit { from, pool: record.config.pool, amount: payout.amount },
            ),
        )
    }

    /// Gives `from` back what bootstrap `id` still holds for them at ledger
    /// `sequence`, and returns the amount with the transfer from the contract
    /// to them: of the bootstrap token for the bootstrapper, of the pair
    /// token for a joiner.
    ///
    /// The bootstrap must be cancelled. The bootstrapper can be refunded
    /// once; a joiner's refund uses the deposit up. A joiner with a deposit is
    /// never refused, however large the amounts: the refund is the deposit's
    /// part of the pair tokens still held, rounded down, and the deposit
    /// itself where nothing was converted. The bootstrap's balances stay as
    /// they are, and so does what a refund pays to anyone else: the order of
    /// refunds does not matter. On a refusal nothing changes.
    pub fn refund(&mut self, sequence: u32, from: Address, id: u32) -> (r: Result<
        (i128, Transfer),
        BackstopBootstrapperError,
    >)
        requires
            old(self).wf(),
            old(self).has(id),
        ensures
            final(self).wf(),
            old(self).kept_order(*final(self), sequence),
            r is Ok ==> forall|later: u32|
                sequence <= later ==> #[trigger] final(self).refund_outcome(later, from, id) == Err::<
                    Payout,
                    BackstopBootstrapperError,
                >(BackstopBootstrapperError::AlreadyRefundedError),
            old(self).bootstrap_at(id, sequence).status == BootstrapStatus::Cancelled && from
                != old(self).records@[id as int].config.bootstrapper && old(self).deposit_of(
                id,
                from,
            ) > 0 ==> r is Ok && r->Ok_0.0 == (old(self).deposit_of(id, from) * old(
                self,
            ).records@[id as int].data.pair_amount) / (old(
                self,
            ).records@[id as int].data.total_pair as int) && r->Ok_0.0 <= old(self).deposit_of(
                id,
                from,
            ),
            r is Ok && from != old(self).records@[id as int].config.bootstrapper && old(
                self,
            ).records@[id as int].data.pair_amount == old(self).records@[id as int].data.total_pair
                ==> r->Ok_0.0 == old(self).deposit_of(id, from),
            forall|other: Address, later: u32|
                other != from ==> #[trigger] final(self).refund_amount(later, other, id) == old(
                    self,
                ).refund_amount(later, other, id),
            match old(self).refund_outcome(sequence, from, id) {
                Ok(payout) => r == Ok::<(i128, Transfer), BackstopBootstrapperError>(
                    (
                        payout.amount,
                        Transfer {
                            token: if from == old(self).records@[id as int].config.bootstrapper {
                                old(self).bootstrap_token(id).address
                            } else {
                                old(self).pair_token(id).address
                            },
                            from: old(self).address,
                            to: from,
                            amount: payout.amount,
                        },
                    ),
                ) && final(self).records@ == old(self).records@.update(
                    id as int,
                    BootstrapRecord { refunded: payout.settled, ..old(self).records@[id as int] },
                ) && final(self).deposits@ == (if from == old(
                    self,
                ).records@[id as int].config.bootstrapper {
                    old(self).deposits@
                } else {
                    with_deposit(old(self).deposits@, id, from, payout.deposit)
                }) && final(self).same_setup(*old(self)),
                Err(e) => r == Err::<(i128, Transfer), BackstopBootstrapperError>(e) && *final(self)
                    == *old(self),
            },
    {
        let bootstrap = Bootstrap::load(self, sequence, id);
        let record = self.records[id as usize];
        let deposit: i128 = get_deposit(&self.deposits, id, from);
        let pair: usize = if bootstrap.config.token_index == 0 {
            1
        } else {
            0
        };
        proof {
            lemma_total_of_bounds(self.deposits@, id, from);
            if bootstrap.status == BootstrapStatus::Cancelled && from
                != bootstrap.config.bootstrapper && deposit > 0 {
                lemma_refund_owed(bootstrap, from, record.refunded, deposit);
            }
        }
        let payout = match execute_refund(&bootstrap, from, record.refunded, deposit) {
            Ok(p) => p,
            Err(e) => { return Err(e); },
        };
        let token = if from == bootstrap.config.bootstrapper {
            self.comet_tokens[bootstrap.config.token_index as usize].address
        } else {
            self.comet_tokens[pair].address
        };
        self.records.set(
            id as usize,
            BootstrapRecord {
                config: record.config,
                data: record.data,
                claimed: record.claimed,
                refunded: payout.settled,
            },
        );
        if from != bootstrap.config.bootstrapper {
            proof {
                lemma_with_deposit(self.deposits@, id, from, payout.deposit);
            }
            set_deposit(&mut self.deposits, id, from, payout.deposit);
        }
        proof {
            lemma_records_stay_covered(*old(self), *self, id);
        }
        Ok((payout.amount, Transfer { token, from: self.address, to: from, amount: payout.amount }))
    }
}

impl BackstopBootstrapper {
    /// Claims never pay out more than was minted: in a well-formed contract
    /// whose two token weights are not negative and add up to no more than
    /// one, the bootstrapper's claim and the claims of all joiners of a
    /// bootstrap together are at most its backstop tokens.
    pub proof fn lemma_claims_within_minted(self, id: u32)
        requires
            self.wf(),
            self.has(id),
            self.bootstrap_token(id).weight >= 0,
            self.pair_token(id).weight >= 0,
            self.bootstrap_token(id).weight + self.pair_token(id).weight <= SCALAR_7,
        ensures
            bootstrapper_claim(self.records@[id as int].data, self.bootstrap_token(id).weight)
                + joiner_claims(
                self.records@[id as int].data,
                self.deposits@,
                id,
                self.pair_token(id).weight,
            ) <= self.records@[id as int].data.total_backstop_tokens,
    {
        assert(self.records@[id as int].wf());
        lemma_claims_bounded(
            self.records@[id as int].data,
            self.deposits@,
            id,
            self.bootstrap_token(id).weight,
            self.pair_token(id).weight,
        );
    }

    /// Refunds never pay out more than is held: in a well-formed contract the
    /// refunds of all joiners of a bootstrap together are at most the pair
    /// tokens that it still holds.
    pub proof fn lemma_refunds_within_held(self, id: u32)
        requires
            self.wf(),
            self.has(id),
        ensures
            0 <= joiner_refunds(self.records@[id as int].data, self.deposits@, id)
                <= self.records@[id as int].data.pair_amount,
    {
        assert(self.records@[id as int].wf());
        lemma_refunds_bounded(self.records@[id as int].data, self.deposits@, id);
    }
}

} // verus!
