use crate::bootstrap::Bootstrap;
use crate::constants::SCALAR_7;
use crate::errors::BackstopBootstrapperError;
use crate::deposits::{lemma_non_negative_rest, non_negative, total_of, DepositEntry};
use crate::fixed_point::{
    fixed_div, fixed_div_floor, fixed_mul, fixed_mul_floor, lemma_fixed_mul_bounds,
};
use crate::pro_rata::{lemma_share_of, pro_rata, share_of};
use crate::types::{Address, BootstrapData, BootstrapStatus};
use vstd::prelude::*;

verus! {

/// What one claim or refund pays, and what it leaves on record.
#[derive(Clone, Copy, PartialEq, Eq, Structural, Debug)]
pub struct Payout {
    /// The amount to pay to the caller.
    pub amount: i128,
    /// Whether the bootstrapper has now used this operation.
    pub settled: bool,
    /// The caller's deposit after the operation.
    pub deposit: i128,
    /// Whether the caller was served as the bootstrapper, and not as a
    /// joiner.
    pub bootstrapper: bool,
}

/// The bootstrapper's share of the backstop tokens: the weight of the
/// bootstrap token in the pool.
pub open spec fn bootstrapper_claim_amount(data: BootstrapData, bootstrap_weight: i128) -> Option<
    i128,
> {
    fixed_mul(data.total_backstop_tokens, bootstrap_weight, SCALAR_7)
}

/// A joiner's share of the backstop tokens: the deposit's part of all pair
/// tokens deposited, of the pair token's weight in the pool. Each of the three
/// steps rounds down.
pub open spec fn joiner_claim_amount(data: BootstrapData, deposit: i128, pair_weight: i128) -> Option<
    i128,
> {
    match fixed_div(deposit, data.total_pair, SCALAR_7) {
        Some(share) => match fixed_mul(share, data.total_backstop_tokens, SCALAR_7) {
            Some(tokens) => fixed_mul(tokens, pair_weight, SCALAR_7),
            None => None,
        },
        None => None,
    }
}

/// A joiner's refund: the part of the deposit that the pair tokens still held
/// are of all pair tokens deposited, rounded down. It is owed whenever the
/// balances are well formed; nothing stands for it only where they are not:
/// where an amount is negative, nothing was deposited, or the result is more
/// than `i128` holds.
pub open spec fn joiner_refund_amount(data: BootstrapData, deposit: i128) -> Option<i128> {
    share_of(deposit, data.pair_amount, data.total_pair)
}

/// What a claim by `from` pays, or why it is refused. `claimed` says whether
/// the bootstrapper has claimed before, `deposit` is the caller's deposit.
pub open spec fn claim_spec(
    b: Bootstrap,
    from: Address,
    claimed: bool,
    deposit: i128,
    bootstrap_weight: i128,
    pair_weight: i128,
) -> Result<Payout, BackstopBootstrapperError> {
    if b.status != BootstrapStatus::Completed {
        Err(BackstopBootstrapperError::InvalidBootstrapStatus)
    } else if from == b.config.bootstrapper {
        if claimed {
            Err(BackstopBootstrapperError::AlreadyClaimedError)
        } else {
            match bootstrapper_claim_amount(b.data, bootstrap_weight) {
                Some(amount) => Ok(Payout { amount, settled: true, deposit, bootstrapper: true }),
                None => Err(BackstopBootstrapperError::OverflowError),
            }
        }
    } else if deposit <= 0 {
        Err(BackstopBootstrapperError::AlreadyClaimedError)
    } else {
        match joiner_claim_amount(b.data, deposit, pair_weight) {
            Some(amount) => Ok(Payout { amount, settled: claimed, deposit: 0, bootstrapper: false }),
            None => Err(BackstopBootstrapperError::OverflowError),
        }
    }
}

/// What a refund to `from` pays, or why it is refused. `refunded` says whether
/// the bootstrapper was refunded before, `deposit` is the caller's deposit.
pub open spec fn refund_spec(b: Bootstrap, from: Address, refunded: bool, deposit: i128) -> Result<
    Payout,
    BackstopBootstrapperError,
> {
    if b.status != BootstrapStatus::Cancelled {
        Err(BackstopBootstrapperError::InvalidBootstrapStatus)
    } else if from == b.config.bootstrapper {
        if refunded {
            Err(BackstopBootstrapperError::AlreadyRefundedError)
        } else {
            Ok(
                Payout {
                    amount: b.data.bootstrap_amount,
                    settled: true,
                    deposit,
                    bootstrapper: true,
                },
            )
        }
    } else if deposit <= 0 {
        Err(BackstopBootstrapperError::AlreadyRefundedError)
    } else {
        match joiner_refund_amount(b.data, deposit) {
            Some(amount) => Ok(Payout { amount, settled: refunded, deposit: 0, bootstrapper: false }),
            None => Err(BackstopBootstrapperError::OverflowError),
        }
    }
}

/// Decides a claim by `from` on a completed bootstrap.
///
/// The bootstrapper is paid the bootstrap token's weight of all backstop
/// tokens, once. A joiner is paid in proportion to the deposit, which the
/// claim uses up. `claimed` says whether the bootstrapper has claimed before,
/// `deposit` is the caller's deposit, and the two weights are those of the
/// bootstrap token and of the pair token. Fails with `OverflowError` where a
/// fixed-point step has no result.
pub fn execute_claim(
    bootstrap: &Bootstrap,
    from: Address,
    claimed: bool,
    deposit: i128,
    bootstrap_weight: i128,
    pair_weight: i128,
) -> (r: Result<Payout, BackstopBootstrapperError>)
    ensures
        r == claim_spec(*bootstrap, from, claimed, deposit, bootstrap_weight, pair_weight),
{
    if bootstrap.status != BootstrapStatus::Completed {
        return Err(BackstopBootstrapperError::InvalidBootstrapStatus);
    }
    if from == bootstrap.config.bootstrapper {
        if claimed {
            return Err(BackstopBootstrapperError::AlreadyClaimedError);
        }
        match fixed_mul_floor(bootstrap.data.total_backstop_tokens, bootstrap_weight, SCALAR_7) {
            Some(amount) => Ok(Payout { amount, settled: true, deposit, bootstrapper: true }),
            None => Err(BackstopBootstrapperError::OverflowError),
        }
    } else {
        if deposit <= 0 {
            return Err(BackstopBootstrapperError::AlreadyClaimedError);
        }
        let share: i128 = match fixed_div_floor(deposit, bootstrap.data.total_pair, SCALAR_7) {
            Some(v) => v,
            None => { return Err(BackstopBootstrapperError::OverflowError); },
        };
        let tokens: i128 = match fixed_mul_floor(
            share,
            bootstrap.data.total_backstop_tokens,
            SCALAR_7,
        ) {
            Some(v) => v,
            None => { return Err(BackstopBootstrapperError::OverflowError); },
        };
        match fixed_mul_floor(tokens, pair_weight, SCALAR_7) {
            Some(amount) => Ok(Payout { amount, settled: claimed, deposit: 0, bootstrapper: false }),
            None => Err(BackstopBootstrapperError::OverflowError),
        }
    }
}

/// Decides a refund to `from` from a cancelled bootstrap.
///
/// The bootstrapper gets back the bootstrap tokens that are still held, once;
/// that may be nothing. A joiner gets back the deposit's part of the pair
/// tokens that are still held, and the refund uses the deposit up. `refunded`
/// says whether the bootstrapper was refunded before, `deposit` is the
/// caller's deposit. On well-formed balances a joiner with a deposit is
/// never refused, however large the amounts; `OverflowError` is left for
/// balances that no bootstrap can have.
pub fn execute_refund(bootstrap: &Bootstrap, from: Address, refunded: bool, deposit: i128) -> (r:
    Result<Payout, BackstopBootstrapperError>)
    ensures
        r == refund_spec(*bootstrap, from, refunded, deposit),
{
    if bootstrap.status != BootstrapStatus::Cancelled {
        return Err(BackstopBootstrapperError::InvalidBootstrapStatus);
    }
    if from == bootstrap.config.bootstrapper {
        if refunded {
            return Err(BackstopBootstrapperError::AlreadyRefundedError);
        }
        Ok(
            Payout {
                amount: bootstrap.data.bootstrap_amount,
                settled: true,
                deposit,
                bootstrapper: true,
            },
        )
    } else {
        if deposit <= 0 {
            return Err(BackstopBootstrapperError::AlreadyRefundedError);
        }
        match pro_rata(deposit, bootstrap.data.pair_amount, bootstrap.data.total_pair) {
            Some(amount) => Ok(Payout { amount, settled: refunded, deposit: 0, bootstrapper: false }),
            None => Err(BackstopBootstrapperError::OverflowError),
        }
    }
}

/// A claim can be made once: after a claim that was paid, the same claim
/// on what it left on record is refused as already claimed, and so pays
/// nothing.
pub proof fn lemma_claim_once(
    b: Bootstrap,
    from: Address,
    claimed: bool,
    deposit: i128,
    bootstrap_weight: i128,
    pair_weight: i128,
)
    requires
        claim_spec(b, from, claimed, deposit, bootstrap_weight, pair_weight) is Ok,
    ensures
        claim_spec(
            b,
            from,
            claim_spec(b, from, claimed, deposit, bootstrap_weight, pair_weight)->Ok_0.settled,
            claim_spec(b, from, claimed, deposit, bootstrap_weight, pair_weight)->Ok_0.deposit,
            bootstrap_weight,
            pair_weight,
        ) == Err::<Payout, BackstopBootstrapperError>(
            BackstopBootstrapperError::AlreadyClaimedError,
        ),
{
}

/// A refund can be had once: after a refund that was paid, the same refund
/// on what it left on record is refused as already refunded, and so pays
/// nothing.
pub proof fn lemma_refund_once(b: Bootstrap, from: Address, refunded: bool, deposit: i128)
    requires
        refund_spec(b, from, refunded, deposit) is Ok,
    ensures
        refund_spec(
            b,
            from,
            refund_spec(b, from, refunded, deposit)->Ok_0.settled,
            refund_spec(b, from, refunded, deposit)->Ok_0.deposit,
        ) == Err::<Payout, BackstopBootstrapperError>(
            BackstopBootstrapperError::AlreadyRefundedError,
        ),
{
}

/// What the bootstrapper's claim pays: nothing where it cannot be computed.
pub open spec fn bootstrapper_claim(data: BootstrapData, bootstrap_weight: i128) -> int {
    match bootstrapper_claim_amount(data, bootstrap_weight) {
        Some(amount) => amount as int,
        None => 0,
    }
}

/// What the claim of a joiner with deposit `deposit` pays: nothing where it
/// cannot be computed.
pub open spec fn joiner_claim(data: BootstrapData, deposit: i128, pair_weight: i128) -> int {
    match joiner_claim_amount(data, deposit, pair_weight) {
        Some(amount) => amount as int,
        None => 0,
    }
}

/// What the claims of all joiners of bootstrap `id` pay together.
pub open spec fn joiner_claims(
    data: BootstrapData,
    deposits: Seq<DepositEntry>,
    id: u32,
    pair_weight: i128,
) -> int
    decreases deposits.len(),
{
    if deposits.len() == 0 {
        0
    } else {
        joiner_claims(data, deposits.drop_last(), id, pair_weight) + if deposits.last().id == id {
            joiner_claim(data, deposits.last().amount, pair_weight)
        } else {
            0
        }
    }
}

/// A joiner's claim is not negative, and is no more than the deposit's part
/// of the pair token's weight of the backstop tokens: scaled up by the total
/// of pair tokens, it is at most the deposit times the backstop tokens times
/// the weight.
pub proof fn lemma_joiner_claim_bound(data: BootstrapData, deposit: i128, pair_weight: i128)
    requires
        data.wf(),
        deposit >= 0,
        pair_weight >= 0,
    ensures
        0 <= joiner_claim(data, deposit, pair_weight),
        joiner_claim(data, deposit, pair_weight) * SCALAR_7 * data.total_pair <= deposit
            * data.total_backstop_tokens * pair_weight,
{
    let p = data.total_pair as int;
    let t = data.total_backstop_tokens as int;
    let w = pair_weight as int;
    let d = deposit as int;
    let s = SCALAR_7 as int;
    let claim = joiner_claim(data, deposit, pair_weight);
    assert(0 <= d * t * w && 0 * s * p == 0) by (nonlinear_arith)
        requires
            d >= 0,
            t >= 0,
            w >= 0,
    ;
    match fixed_div(deposit, data.total_pair, SCALAR_7) {
        Some(share) => {
            lemma_fixed_mul_bounds(deposit, SCALAR_7, data.total_pair);
            match fixed_mul(share, data.total_backstop_tokens, SCALAR_7) {
                Some(tokens) => {
                    lemma_fixed_mul_bounds(share, data.total_backstop_tokens, SCALAR_7);
                    match fixed_mul(tokens, pair_weight, SCALAR_7) {
                        Some(amount) => {
                            lemma_fixed_mul_bounds(tokens, pair_weight, SCALAR_7);
                            let sh = share as int;
                            let tk = tokens as int;
                            let c = amount as int;
                            assert(c * s * p <= d * t * w) by (nonlinear_arith)
                                requires
                                    s == 10000000,
                                    p > 0,
                                    t >= 0,
                                    w >= 0,
                                    d >= 0,
                                    sh >= 0,
                                    tk >= 0,
                                    c >= 0,
                                    sh * p <= d * s,
                                    tk * s <= sh * t,
                                    c * s <= tk * w,
                            {
                                assert(c * s * (s * p) <= tk * w * (s * p));
                                assert(tk * s * (w * p) <= sh * t * (w * p));
                                assert(sh * p * (t * w) <= d * s * (t * w));
                                assert(c * s * (s * p) == (c * s * p) * s);
                                assert(tk * w * (s * p) == tk * s * (w * p));
                                assert(sh * t * (w * p) == sh * p * (t * w));
                                assert(d * s * (t * w) == (d * t * w) * s);
                                assert((c * s * p) * s <= (d * t * w) * s);
                            }
                            assert(claim == c);
                        },
                        None => {
                            assert(claim == 0);
                        },
                    }
                },
                None => {
                    assert(claim == 0);
                },
            }
        },
        None => {
            assert(claim == 0);
        },
    }
    assert(claim * s * p <= d * t * w);
}

/// The joiners' claims together are not negative, and scaled up by the total
/// of pair tokens they are at most the sum of the deposits times the backstop
/// tokens times the pair token's weight.
pub proof fn lemma_joiner_claims_bound(
    data: BootstrapData,
    deposits: Seq<DepositEntry>,
    id: u32,
    pair_weight: i128,
)
    requires
        data.wf(),
        non_negative(deposits),
        pair_weight >= 0,
    ensures
        0 <= joiner_claims(data, deposits, id, pair_weight),
        joiner_claims(data, deposits, id, pair_weight) * SCALAR_7 * data.total_pair <= total_of(
            deposits,
            id,
        ) * data.total_backstop_tokens * pair_weight,
    decreases deposits.len(),
{
    if deposits.len() > 0 {
        let rest = deposits.drop_last();
        lemma_non_negative_rest(deposits);
        lemma_joiner_claims_bound(data, rest, id, pair_weight);
        assert(deposits.last() == deposits[deposits.len() - 1]);
        let j = joiner_claims(data, rest, id, pair_weight);
        let tot = total_of(rest, id);
        let p = data.total_pair as int;
        let t = data.total_backstop_tokens as int;
        let w = pair_weight as int;
        let s = SCALAR_7 as int;
        if deposits.last().id == id {
            lemma_joiner_claim_bound(data, deposits.last().amount, pair_weight);
            let c = joiner_claim(data, deposits.last().amount, pair_weight);
            let d = deposits.last().amount as int;
            assert((j + c) * s * p <= (tot + d) * t * w) by (nonlinear_arith)
                requires
                    j * s * p <= tot * t * w,
                    c * s * p <= d * t * w,
            ;
            assert(joiner_claims(data, deposits, id, pair_weight) == j + c);
            assert(total_of(deposits, id) == tot + d);
        } else {
            assert(joiner_claims(data, deposits, id, pair_weight) == j);
            assert(total_of(deposits, id) == tot);
        }
    } else {
        assert(0 * SCALAR_7 * data.total_pair == 0 && 0 * data.total_backstop_tokens * pair_weight
            == 0) by (nonlinear_arith);
    }
}

/// Claims never pay out more than was minted: where the two weights are not
/// negative and add up to no more than one, and the deposits of the bootstrap
/// add up to no more than its total of pair tokens, the bootstrapper's claim
/// and the claims of all joiners together are at most the backstop tokens of
/// the bootstrap. What rounding down leaves stays unclaimed.
pub proof fn lemma_claims_bounded(
    data: BootstrapData,
    deposits: Seq<DepositEntry>,
    id: u32,
    bootstrap_weight: i128,
    pair_weight: i128,
)
    requires
        data.wf(),
        non_negative(deposits),
        total_of(deposits, id) <= data.total_pair,
        bootstrap_weight >= 0,
        pair_weight >= 0,
        bootstrap_weight + pair_weight <= SCALAR_7,
    ensures
        0 <= bootstrapper_claim(data, bootstrap_weight),
        0 <= joiner_claims(data, deposits, id, pair_weight),
        bootstrapper_claim(data, bootstrap_weight) + joiner_claims(data, deposits, id, pair_weight)
            <= data.total_backstop_tokens,
{
    let p = data.total_pair as int;
    let t = data.total_backstop_tokens as int;
    let bw = bootstrap_weight as int;
    let pw = pair_weight as int;
    let s = SCALAR_7 as int;
    let cb = bootstrapper_claim(data, bootstrap_weight);
    let j = joiner_claims(data, deposits, id, pair_weight);
    let tot = total_of(deposits, id);
    lemma_joiner_claims_bound(data, deposits, id, pair_weight);
    if bootstrapper_claim_amount(data, bootstrap_weight) is Some {
        lemma_fixed_mul_bounds(data.total_backstop_tokens, bootstrap_weight, SCALAR_7);
    }
    assert(cb * s <= t * bw && 0 <= cb) by (nonlinear_arith)
        requires
            t >= 0,
            bw >= 0,
            s == 10000000,
            cb == 0 || (cb >= 0 && cb * s <= t * bw),
    ;
    if p > 0 {
        assert(j * s <= t * pw) by (nonlinear_arith)
            requires
                j * s * p <= tot * t * pw,
                tot <= p,
                p > 0,
                t >= 0,
                pw >= 0,
                j >= 0,
                s == 10000000,
        {
            assert(tot * (t * pw) <= p * (t * pw));
            assert(tot * t * pw == tot * (t * pw));
            assert((j * s) * p <= (t * pw) * p);
        }
    } else {
        lemma_joiner_claims_none(data, deposits, id, pair_weight);
        assert(0 <= t * pw) by (nonlinear_arith)
            requires
                t >= 0,
                pw >= 0,
        ;
    }
    assert(cb + j <= t) by (nonlinear_arith)
        requires
            cb * s <= t * bw,
            j * s <= t * pw,
            bw + pw <= s,
            t >= 0,
            s == 10000000,
    {
        assert((cb + j) * s <= t * (bw + pw));
        assert(t * (bw + pw) <= t * s);
    }
}

/// Where no pair tokens were deposited, no joiner's claim pays anything.
pub proof fn lemma_joiner_claims_none(
    data: BootstrapData,
    deposits: Seq<DepositEntry>,
    id: u32,
    pair_weight: i128,
)
    requires
        data.total_pair == 0,
    ensures
        joiner_claims(data, deposits, id, pair_weight) == 0,
    decreases deposits.len(),
{
    if deposits.len() > 0 {
        lemma_joiner_claims_none(data, deposits.drop_last(), id, pair_weight);
    }
}

/// The number of joiners of bootstrap `id` with something deposited.
pub open spec fn joiners_of(deposits: Seq<DepositEntry>, id: u32) -> int
    decreases deposits.len(),
{
    if deposits.len() == 0 {
        0
    } else {
        joiners_of(deposits.drop_last(), id) + if deposits.last().id == id
            && deposits.last().amount > 0 {
            1int
        } else {
            0int
        }
    }
}

/// A joiner with nothing deposited is paid nothing.
pub proof fn lemma_joiner_claim_of_nothing(data: BootstrapData, pair_weight: i128)
    ensures
        joiner_claim(data, 0, pair_weight) == 0,
{
    let p = data.total_pair as int;
    let t = data.total_backstop_tokens as int;
    let w = pair_weight as int;
    let s = SCALAR_7 as int;
    assert(0 * s == 0 && 0 * t == 0 && 0 * w == 0) by (nonlinear_arith);
    if p != 0 {
        assert(0int / p == 0 && 0int / (-p) == 0) by (nonlinear_arith)
            requires
                p != 0,
        ;
    }
    assert(0int / s == 0) by (nonlinear_arith)
        requires
            s == 10000000,
    ;
}

/// Whether the claim of every joiner of bootstrap `id` with something
/// deposited can be computed.
pub open spec fn claims_defined(
    data: BootstrapData,
    deposits: Seq<DepositEntry>,
    id: u32,
    pair_weight: i128,
) -> bool {
    forall|i: int|
        0 <= i < deposits.len() && (#[trigger] deposits[i]).id == id && deposits[i].amount > 0
            ==> joiner_claim_amount(data, deposits[i].amount, pair_weight) is Some
}

/// Rounding down costs a joiner little: scaled up by the total of pair
/// tokens, the claim falls short of the deposit's exact part by less than
/// two units and a ten-millionth of the backstop tokens.
pub proof fn lemma_joiner_claim_floor(data: BootstrapData, deposit: i128, pair_weight: i128)
    requires
        data.wf(),
        deposit >= 0,
        0 <= pair_weight <= SCALAR_7,
        joiner_claim_amount(data, deposit, pair_weight) is Some,
    ensures
        joiner_claim(data, deposit, pair_weight) * SCALAR_7 * data.total_pair >= deposit
            * data.total_backstop_tokens * pair_weight - data.total_pair * (
        data.total_backstop_tokens + 2 * SCALAR_7),
{
    let p = data.total_pair as int;
    let t = data.total_backstop_tokens as int;
    let w = pair_weight as int;
    let d = deposit as int;
    let s = SCALAR_7 as int;
    let share = fixed_div(deposit, data.total_pair, SCALAR_7)->Some_0;
    let tokens = fixed_mul(share, data.total_backstop_tokens, SCALAR_7)->Some_0;
    let amount = fixed_mul(tokens, pair_weight, SCALAR_7)->Some_0;
    lemma_fixed_mul_bounds(deposit, SCALAR_7, data.total_pair);
    lemma_fixed_mul_bounds(share, data.total_backstop_tokens, SCALAR_7);
    lemma_fixed_mul_bounds(tokens, pair_weight, SCALAR_7);
    let sh = share as int;
    let tk = tokens as int;
    let c = amount as int;
    assert(joiner_claim(data, deposit, pair_weight) == c);
    assert(c * s * p >= d * t * w - p * (t + 2 * s)) by (nonlinear_arith)
        requires
            s == 10000000,
            p > 0,
            t >= 0,
            0 <= w <= s,
            d >= 0,
            sh >= 0,
            tk >= 0,
            c >= 0,
            d * s < (sh + 1) * p,
            sh * t < (tk + 1) * s,
            tk * w < (c + 1) * s,
    {
        // c*s >= tk*w - s, tk*s >= sh*t - s, sh*p >= d*s - p
        assert(c * s >= tk * w - s);
        assert(tk * s >= sh * t - s);
        assert(sh * p >= d * s - p);
        assert((c * s) * (s * p) >= (tk * w - s) * (s * p));
        assert((tk * s) * (w * p) >= (sh * t - s) * (w * p));
        assert((sh * p) * (t * w) >= (d * s - p) * (t * w));
        assert((c * s) * (s * p) == (c * s * p) * s);
        assert((tk * w - s) * (s * p) == (tk * s) * (w * p) - s * s * p);
        assert((sh * t - s) * (w * p) == (sh * p) * (t * w) - s * w * p);
        assert((d * s - p) * (t * w) == (d * t * w) * s - p * t * w);
        assert(p * t * w <= p * t * s);
        assert(s * w * p <= s * s * p);
        assert((c * s * p) * s >= (d * t * w) * s - p * t * s - s * s * p - s * s * p);
        assert((d * t * w) * s - p * t * s - s * s * p - s * s * p == (d * t * w - p * (t + 2
            * s)) * s);
        assert((c * s * p) * s >= (d * t * w - p * (t + 2 * s)) * s);
    }
}

/// Rounding down costs the joiners together little: scaled up by the total
/// of pair tokens, their claims fall short of the deposits' exact part by
/// less than two units and a ten-millionth of the backstop tokens for each
/// joiner with something deposited.
pub proof fn lemma_joiner_claims_floor(
    data: BootstrapData,
    deposits: Seq<DepositEntry>,
    id: u32,
    pair_weight: i128,
)
    requires
        data.wf(),
        non_negative(deposits),
        0 <= pair_weight <= SCALAR_7,
        claims_defined(data, deposits, id, pair_weight),
    ensures
        0 <= joiners_of(deposits, id),
        joiner_claims(data, deposits, id, pair_weight) * SCALAR_7 * data.total_pair >= total_of(
            deposits,
            id,
        ) * data.total_backstop_tokens * pair_weight - joiners_of(deposits, id) * (data.total_pair
            * (data.total_backstop_tokens + 2 * SCALAR_7)),
    decreases deposits.len(),
{
    let p = data.total_pair as int;
    let t = data.total_backstop_tokens as int;
    let w = pair_weight as int;
    let s = SCALAR_7 as int;
    if deposits.len() > 0 {
        let rest = deposits.drop_last();
        lemma_non_negative_rest(deposits);
        assert(claims_defined(data, rest, id, pair_weight)) by {
            assert forall|i: int|
                0 <= i < rest.len() && (#[trigger] rest[i]).id == id && rest[i].amount
                    > 0 implies joiner_claim_amount(data, rest[i].amount, pair_weight) is Some by {
                assert(rest[i] == deposits[i]);
            }
        }
        lemma_joiner_claims_floor(data, rest, id, pair_weight);
        assert(deposits.last() == deposits[deposits.len() - 1]);
        let j = joiner_claims(data, rest, id, pair_weight);
        let tot = total_of(rest, id);
        let n = joiners_of(rest, id);
        let k = p * (t + 2 * s);
        if deposits.last().id == id && deposits.last().amount > 0 {
            lemma_joiner_claim_floor(data, deposits.last().amount, pair_weight);
            let c = joiner_claim(data, deposits.last().amount, pair_weight);
            let d = deposits.last().amount as int;
            assert((j + c) * s * p >= (tot + d) * t * w - (n + 1) * k) by (nonlinear_arith)
                requires
                    j * s * p >= tot * t * w - n * k,
                    c * s * p >= d * t * w - k,
            ;
            assert(joiner_claims(data, deposits, id, pair_weight) == j + c);
            assert(total_of(deposits, id) == tot + d);
            assert(joiners_of(deposits, id) == n + 1);
        } else if deposits.last().id == id {
            lemma_joiner_claim_of_nothing(data, pair_weight);
            assert(deposits.last().amount == 0);
            assert(joiner_claims(data, deposits, id, pair_weight) == j);
            assert(total_of(deposits, id) == tot);
            assert(joiners_of(deposits, id) == n);
        } else {
            assert(joiner_claims(data, deposits, id, pair_weight) == j);
            assert(total_of(deposits, id) == tot);
            assert(joiners_of(deposits, id) == n);
        }
    } else {
        assert(0 * s * p == 0 && 0 * t * w == 0 && 0 * (p * (t + 2 * s)) == 0)
            by (nonlinear_arith);
    }
}

/// Claims pay out all that was minted but for rounding: where the two weights
/// are not negative and add up to one, the deposits of the bootstrap add up
/// to its total of pair tokens, and every claim can be computed, what the
/// bootstrapper's claim and the claims of all joiners together leave of the
/// backstop tokens is not negative, and it is less than one unit, and for
/// each joiner with something deposited two units more and a ten-millionth
/// of the backstop tokens.
pub proof fn lemma_claims_leave_dust(
    data: BootstrapData,
    deposits: Seq<DepositEntry>,
    id: u32,
    bootstrap_weight: i128,
    pair_weight: i128,
)
    requires
        data.wf(),
        data.total_pair > 0,
        non_negative(deposits),
        total_of(deposits, id) == data.total_pair,
        bootstrap_weight >= 0,
        pair_weight >= 0,
        bootstrap_weight + pair_weight == SCALAR_7,
        bootstrapper_claim_amount(data, bootstrap_weight) is Some,
        claims_defined(data, deposits, id, pair_weight),
    ensures
        0 <= data.total_backstop_tokens - (bootstrapper_claim(data, bootstrap_weight)
            + joiner_claims(data, deposits, id, pair_weight)),
        (data.total_backstop_tokens - (bootstrapper_claim(data, bootstrap_weight) + joiner_claims(
            data,
            deposits,
            id,
            pair_weight,
        ))) * SCALAR_7 < SCALAR_7 + joiners_of(deposits, id) * (data.total_backstop_tokens + 2
            * SCALAR_7),
{
    let p = data.total_pair as int;
    let t = data.total_backstop_tokens as int;
    let bw = bootstrap_weight as int;
    let pw = pair_weight as int;
    let s = SCALAR_7 as int;
    let cb = bootstrapper_claim(data, bootstrap_weight);
    let j = joiner_claims(data, deposits, id, pair_weight);
    let n = joiners_of(deposits, id);
    lemma_claims_bounded(data, deposits, id, bootstrap_weight, pair_weight);
    lemma_joiner_claims_floor(data, deposits, id, pair_weight);
    lemma_fixed_mul_bounds(data.total_backstop_tokens, bootstrap_weight, SCALAR_7);
    assert(j * s >= t * pw - n * (t + 2 * s)) by (nonlinear_arith)
        requires
            j * s * p >= p * t * pw - n * (p * (t + 2 * s)),
            p > 0,
    {
        assert(p * t * pw - n * (p * (t + 2 * s)) == (t * pw - n * (t + 2 * s)) * p);
        assert((j * s) * p >= (t * pw - n * (t + 2 * s)) * p);
    }
    assert((t - (cb + j)) * s < s + n * (t + 2 * s)) by (nonlinear_arith)
        requires
            j * s >= t * pw - n * (t + 2 * s),
            t * bw < (cb + 1) * s,
            bw + pw == s,
    {
        assert(cb * s + s > t * bw);
        assert(t * bw + t * pw == t * s);
    }
}

/// A joiner's refund is owed: from a cancelled bootstrap with well-formed
/// balances, a joiner with a deposit that is no more than the total of pair
/// tokens is never refused, however large the amounts. The refund is the
/// deposit's part of the pair tokens still held, rounded down, so it is no
/// more than the deposit, and it is the deposit where nothing was converted.
pub proof fn lemma_refund_owed(b: Bootstrap, from: Address, refunded: bool, deposit: i128)
    requires
        b.status == BootstrapStatus::Cancelled,
        from != b.config.bootstrapper,
        b.data.wf(),
        0 < deposit <= b.data.total_pair,
    ensures
        refund_spec(b, from, refunded, deposit) is Ok,
        refund_spec(b, from, refunded, deposit)->Ok_0.amount == (deposit * b.data.pair_amount) / (
        b.data.total_pair as int),
        0 <= refund_spec(b, from, refunded, deposit)->Ok_0.amount <= deposit,
        b.data.pair_amount == b.data.total_pair ==> refund_spec(
            b,
            from,
            refunded,
            deposit,
        )->Ok_0.amount == deposit,
{
    lemma_share_of(deposit, b.data.pair_amount, b.data.total_pair);
}

/// What the refund of a joiner with deposit `deposit` pays: nothing where
/// there is no deposit or no refund.
pub open spec fn joiner_refund(data: BootstrapData, deposit: i128) -> int {
    if deposit > 0 {
        match joiner_refund_amount(data, deposit) {
            Some(amount) => amount as int,
            None => 0,
        }
    } else {
        0
    }
}

/// What the refunds of all joiners of bootstrap `id` pay together.
pub open spec fn joiner_refunds(data: BootstrapData, deposits: Seq<DepositEntry>, id: u32) -> int
    decreases deposits.len(),
{
    if deposits.len() == 0 {
        0
    } else {
        joiner_refunds(data, deposits.drop_last(), id) + if deposits.last().id == id {
            joiner_refund(data, deposits.last().amount)
        } else {
            0
        }
    }
}

/// The joiners' refunds together are not negative, and times the total of pair
/// tokens they are at most the sum of the deposits times the pair tokens
/// still held.
pub proof fn lemma_joiner_refunds_bound(data: BootstrapData, deposits: Seq<DepositEntry>, id: u32)
    requires
        data.wf(),
        non_negative(deposits),
    ensures
        0 <= joiner_refunds(data, deposits, id),
        joiner_refunds(data, deposits, id) * data.total_pair <= total_of(deposits, id)
            * data.pair_amount,
    decreases deposits.len(),
{
    let p = data.total_pair as int;
    let r = data.pair_amount as int;
    if deposits.len() > 0 {
        let rest = deposits.drop_last();
        lemma_non_negative_rest(deposits);
        lemma_joiner_refunds_bound(data, rest, id);
        assert(deposits.last() == deposits[deposits.len() - 1]);
        let j = joiner_refunds(data, rest, id);
        let tot = total_of(rest, id);
        if deposits.last().id == id {
            let d = deposits.last().amount;
            let c = joiner_refund(data, d);
            if p > 0 {
                lemma_share_of(d, data.pair_amount, data.total_pair);
            }
            assert(0 <= c && c * p <= d * r) by (nonlinear_arith)
                requires
                    d >= 0,
                    r >= 0,
                    c == 0 || (0 <= c && c * p <= d * r),
            ;
            assert((j + c) * p <= (tot + d) * r) by (nonlinear_arith)
                requires
                    j * p <= tot * r,
                    c * p <= d * r,
            ;
            assert(joiner_refunds(data, deposits, id) == j + c);
            assert(total_of(deposits, id) == tot + d);
        } else {
            assert(joiner_refunds(data, deposits, id) == j);
            assert(total_of(deposits, id) == tot);
        }
    } else {
        assert(0 * p == 0 && 0 * r == 0) by (nonlinear_arith);
    }
}

/// Refunds never pay out more than is held: where the deposits of a bootstrap
/// add up to no more than its total of pair tokens, the refunds of all its
/// joiners together are at most the pair tokens that it still holds.
pub proof fn lemma_refunds_bounded(data: BootstrapData, deposits: Seq<DepositEntry>, id: u32)
    requires
        data.wf(),
        non_negative(deposits),
        total_of(deposits, id) <= data.total_pair,
    ensures
        0 <= joiner_refunds(data, deposits, id) <= data.pair_amount,
{
    let p = data.total_pair as int;
    let r = data.pair_amount as int;
    let j = joiner_refunds(data, deposits, id);
    let tot = total_of(deposits, id);
    lemma_joiner_refunds_bound(data, deposits, id);
    if p > 0 {
        assert(j <= r) by (nonlinear_arith)
            requires
                j * p <= tot * r,
                tot <= p,
                r >= 0,
                p > 0,
        {
            assert(tot * r <= p * r);
            assert(j * p <= r * p);
        }
    } else {
        lemma_joiner_refunds_none(data, deposits, id);
    }
}

/// Where no pair tokens were deposited, no joiner is refunded anything.
pub proof fn lemma_joiner_refunds_none(data: BootstrapData, deposits: Seq<DepositEntry>, id: u32)
    requires
        data.total_pair <= 0,
    ensures
        joiner_refunds(data, deposits, id) == 0,
    decreases deposits.len(),
{
    if deposits.len() > 0 {
        lemma_joiner_refunds_none(data, deposits.drop_last(), id);
    }
}

} // verus!
