//! The rules one by one, on values worked out by hand.

use backstop_bootstrapper::bootstrap::Bootstrap;
use backstop_bootstrapper::close::{CloseAction, CloseEvent, CloseSession, PoolBalances};
use backstop_bootstrapper::comet_utils::{join_pool, single_sided_join};
use backstop_bootstrapper::constants::{
    JOIN_POOL_MARGIN, MAX_DUST_AMOUNT, MAX_IN_RATIO, MAX_OPEN_LEDGERS, ONE_DAY_LEDGERS, SCALAR_7,
};
use backstop_bootstrapper::contract::{execute_start_bootstrap, BackstopBootstrapper};
use backstop_bootstrapper::deposits::{get_deposit, set_deposit, DepositEntry};
use backstop_bootstrapper::distribution::{execute_claim, execute_refund, Payout};
use backstop_bootstrapper::errors::BackstopBootstrapperError;
use backstop_bootstrapper::pro_rata::pro_rata;
use backstop_bootstrapper::errors::BackstopBootstrapperError::{
    AllowanceError, AlreadyClaimedError, AlreadyInitializedError, AlreadyRefundedError,
    BadRequest, BalanceError, InsufficientDepositError, InternalError, InvalidBootstrapAmount,
    InvalidBootstrapStatus, InvalidBootstrapToken, InvalidCloseLedger, InvalidPoolAddressError,
    NegativeAmountError, OverflowError, ReceivedNoBackstopTokens, UnauthorizedError,
};
use backstop_bootstrapper::types::{
    Address, BootstrapConfig, BootstrapData, BootstrapStatus, TokenInfo,
};

fn account(n: u128) -> Address {
    Address { contract: false, hi: 0, lo: n }
}

fn config(close_ledger: u32, pair_min: i128) -> BootstrapConfig {
    BootstrapConfig {
        bootstrapper: account(1),
        pool: account(50),
        amount: 1000 * SCALAR_7,
        pair_min,
        token_index: 0,
        close_ledger,
    }
}

fn data(total_pair: i128, tokens: i128, bootstrap_amount: i128, pair_amount: i128) -> BootstrapData {
    BootstrapData { total_pair, total_backstop_tokens: tokens, bootstrap_amount, pair_amount }
}

fn with_status(status: BootstrapStatus, data: BootstrapData) -> Bootstrap {
    Bootstrap { id: 7, status, config: config(1000, 0), data }
}

fn status_at(config: BootstrapConfig, data: BootstrapData, sequence: u32) -> BootstrapStatus {
    Bootstrap::new(0, config, data, sequence).status
}

#[test]
fn constants_have_their_values() {
    assert_eq!(SCALAR_7, 10_000_000);
    assert_eq!(MAX_DUST_AMOUNT, 100_000);
    assert_eq!(MAX_IN_RATIO, SCALAR_7 / 3);
    assert_eq!(ONE_DAY_LEDGERS, 17280);
    assert_eq!(MAX_OPEN_LEDGERS, 14 * ONE_DAY_LEDGERS);
    assert_eq!(JOIN_POOL_MARGIN, 9_999_000);
}

#[test]
fn error_codes() {
    let expected = [
        (InternalError, 1),
        (AlreadyInitializedError, 3),
        (UnauthorizedError, 4),
        (NegativeAmountError, 8),
        (AllowanceError, 9),
        (BalanceError, 10),
        (OverflowError, 12),
        (BadRequest, 50),
        (InvalidCloseLedger, 100),
        (InvalidBootstrapToken, 101),
        (InvalidBootstrapAmount, 102),
        (InvalidPoolAddressError, 103),
        (InvalidBootstrapStatus, 104),
        (AlreadyClaimedError, 105),
        (InsufficientDepositError, 106),
        (ReceivedNoBackstopTokens, 107),
        (AlreadyRefundedError, 108),
    ];
    for (error, code) in expected {
        assert_eq!(error.code(), code);
    }
}

#[test]
fn status_numbers_round_trip() {
    for value in 0..4u32 {
        let status = BootstrapStatus::from_u32(value).unwrap();
        assert_eq!(status.to_u32(), value);
    }
    assert_eq!(BootstrapStatus::from_u32(2), Ok(BootstrapStatus::Completed));
    assert_eq!(BootstrapStatus::from_u32(4), Err(BackstopBootstrapperError::BadRequest));
    assert_eq!(BootstrapStatus::from_u32(u32::MAX), Err(BackstopBootstrapperError::BadRequest));
}

#[test]
fn status_follows_the_ledger_and_the_balances() {
    let c = config(1000, 10);
    let open = data(10, 0, 500, 10);
    assert_eq!(status_at(c, open, 0), BootstrapStatus::Active);
    assert_eq!(status_at(c, open, 999), BootstrapStatus::Active);
    // at the close ledger joining is over
    assert_eq!(status_at(c, open, 1000), BootstrapStatus::Closing);
    // the last ledger of the time for conversion, and the one after it
    assert_eq!(status_at(c, open, 1000 + MAX_OPEN_LEDGERS), BootstrapStatus::Closing);
    assert_eq!(status_at(c, open, 1000 + MAX_OPEN_LEDGERS + 1), BootstrapStatus::Cancelled);
    // under the minimum
    let short = data(9, 0, 500, 9);
    assert_eq!(status_at(c, short, 999), BootstrapStatus::Active);
    assert_eq!(status_at(c, short, 1000), BootstrapStatus::Cancelled);
    // under the minimum wins over converted balances
    let short_converted = data(9, MAX_DUST_AMOUNT, 0, 0);
    assert_eq!(status_at(c, short_converted, 1000), BootstrapStatus::Cancelled);
    // dust on both sides and enough minted
    let done = data(10, MAX_DUST_AMOUNT, MAX_DUST_AMOUNT, MAX_DUST_AMOUNT);
    assert_eq!(status_at(c, done, 1000), BootstrapStatus::Completed);
    assert_eq!(status_at(c, done, u32::MAX), BootstrapStatus::Completed);
    // one stroop over the dust, or under it in tokens, is not completed
    assert_eq!(
        status_at(c, data(MAX_DUST_AMOUNT + 1, MAX_DUST_AMOUNT, 0, MAX_DUST_AMOUNT + 1), 1000),
        BootstrapStatus::Closing
    );
    assert_eq!(
        status_at(c, data(10, MAX_DUST_AMOUNT, MAX_DUST_AMOUNT + 1, 0), 1000),
        BootstrapStatus::Closing
    );
    assert_eq!(
        status_at(c, data(10, MAX_DUST_AMOUNT - 1, 0, 0), 1000),
        BootstrapStatus::Closing
    );
    // a close ledger at the end of the range does not wrap around
    let late = config(u32::MAX, 10);
    assert_eq!(status_at(late, open, u32::MAX - 1), BootstrapStatus::Active);
    assert_eq!(status_at(late, open, u32::MAX), BootstrapStatus::Closing);
}

#[test]
fn status_only_moves_forward() {
    let c = config(1000, 10);
    let cases = [data(10, 0, 500, 10), data(9, 0, 500, 9), data(10, MAX_DUST_AMOUNT, 0, 0)];
    let ledgers = [0u32, 999, 1000, 5000, 1000 + MAX_OPEN_LEDGERS, 1001 + MAX_OPEN_LEDGERS, u32::MAX];
    for d in cases {
        for (i, earlier) in ledgers.iter().enumerate() {
            for later in &ledgers[i..] {
                let a = status_at(c, d, *earlier);
                let b = status_at(c, d, *later);
                match a {
                    BootstrapStatus::Active => {}
                    BootstrapStatus::Closing => assert_ne!(b, BootstrapStatus::Active),
                    _ => assert_eq!(a, b),
                }
            }
        }
    }
}

#[test]
fn config_is_validated_in_order() {
    let good = config(100 + ONE_DAY_LEDGERS, 0);
    assert_eq!(good.validate(100), Ok(()));
    assert_eq!(config(100 + MAX_OPEN_LEDGERS, 0).validate(100), Ok(()));
    assert_eq!(config(100 + ONE_DAY_LEDGERS - 1, 0).validate(100), Err(InvalidCloseLedger));
    assert_eq!(config(100 + MAX_OPEN_LEDGERS + 1, 0).validate(100), Err(InvalidCloseLedger));
    assert_eq!(config(99, 0).validate(100), Err(InvalidCloseLedger));
    assert_eq!(config(0, 0).validate(u32::MAX), Err(InvalidCloseLedger));

    let mut bad = good;
    bad.token_index = 2;
    bad.amount = 0;
    bad.pair_min = -1;
    bad.close_ledger = 0;
    assert_eq!(bad.validate(100), Err(InvalidBootstrapToken));
    bad.token_index = 1;
    assert_eq!(bad.validate(100), Err(InvalidBootstrapAmount));
    bad.amount = -5;
    assert_eq!(bad.validate(100), Err(InvalidBootstrapAmount));
    bad.amount = 1;
    assert_eq!(bad.validate(100), Err(NegativeAmountError));
    bad.pair_min = 0;
    assert_eq!(bad.validate(100), Err(InvalidCloseLedger));
}

#[test]
fn join_adds_to_both_balances_and_the_deposit() {
    let mut b = with_status(BootstrapStatus::Active, data(40, 0, 500, 40));
    assert_eq!(b.join(15, 25), Ok(40));
    assert_eq!(b.data, data(65, 0, 500, 65));
    assert_eq!(b.join(40, 0), Ok(40));
    assert_eq!(b.data, data(65, 0, 500, 65));

    assert_eq!(b.join(40, -1), Err(NegativeAmountError));
    assert_eq!(b.join(40, i128::MAX), Err(OverflowError));
    assert_eq!(b.join(i128::MAX, 1), Err(OverflowError));
    assert_eq!(b.data, data(65, 0, 500, 65));

    for status in [BootstrapStatus::Closing, BootstrapStatus::Completed, BootstrapStatus::Cancelled]
    {
        let mut other = with_status(status, data(40, 0, 500, 40));
        assert_eq!(other.join(0, 1), Err(InvalidBootstrapStatus));
        // a negative amount is refused before the status is looked at
        assert_eq!(other.join(0, -1), Err(NegativeAmountError));
        assert_eq!(other.data, data(40, 0, 500, 40));
    }
}

#[test]
fn exit_never_takes_more_than_there_is() {
    let mut b = with_status(BootstrapStatus::Active, data(40, 0, 500, 40));
    assert_eq!(b.exit(15, 10), Ok(5));
    assert_eq!(b.data, data(30, 0, 500, 30));
    assert_eq!(b.exit(5, 5), Ok(0));
    assert_eq!(b.data, data(25, 0, 500, 25));

    // more than the deposit
    assert_eq!(b.exit(5, 6), Err(InsufficientDepositError));
    assert_eq!(b.exit(0, 1), Err(InsufficientDepositError));
    assert_eq!(b.exit(-3, 0), Err(InsufficientDepositError));
    assert_eq!(b.exit(i128::MIN, i128::MAX), Err(InsufficientDepositError));
    // more than the pair tokens held
    let mut low_held = with_status(BootstrapStatus::Active, data(40, 0, 500, 9));
    assert_eq!(low_held.exit(20, 10), Err(InsufficientDepositError));
    // more than the total
    let mut low_total = with_status(BootstrapStatus::Active, data(9, 0, 500, 40));
    assert_eq!(low_total.exit(20, 10), Err(InsufficientDepositError));
    assert_eq!(low_total.data, data(9, 0, 500, 40));

    assert_eq!(b.exit(5, -1), Err(NegativeAmountError));
    let mut closing = with_status(BootstrapStatus::Closing, data(40, 0, 500, 40));
    assert_eq!(closing.exit(40, 1), Err(InvalidBootstrapStatus));
    assert_eq!(closing.exit(40, -1), Err(NegativeAmountError));
    assert_eq!(b.data, data(25, 0, 500, 25));
}

#[test]
fn convert_spends_what_was_absorbed() {
    let mut b = with_status(BootstrapStatus::Closing, data(40, 5, 500, 40));
    assert_eq!(b.convert(100, 10, 7), Ok(()));
    assert_eq!(b.data, data(40, 12, 400, 30));
    // amounts below zero count as nothing spent
    assert_eq!(b.convert(-100, -10, 0), Ok(()));
    assert_eq!(b.data, data(40, 12, 400, 30));
    assert_eq!(b.convert(400, 30, 1), Ok(()));
    assert_eq!(b.data, data(40, 13, 0, 0));

    // whatever the amounts, they are recorded
    let mut b = with_status(BootstrapStatus::Closing, data(40, 5, 500, 40));
    assert_eq!(b.convert(501, 0, 1), Ok(()));
    assert_eq!(b.data, data(40, 6, -1, 40));
    assert_eq!(b.convert(0, 41, 1), Ok(()));
    assert_eq!(b.data, data(40, 7, -1, -1));
    assert_eq!(b.convert(0, 0, -10), Ok(()));
    assert_eq!(b.data, data(40, -3, -1, -1));
    assert_eq!((b.id, b.status, b.config), (7, BootstrapStatus::Closing, config(1000, 0)));

    // but for a balance that is no value of the type
    let mut b = with_status(BootstrapStatus::Closing, data(40, 5, 500, 40));
    assert_eq!(b.convert(0, 0, i128::MAX), Err(OverflowError));
    assert_eq!(b.convert(1, 1, i128::MAX - 4), Err(OverflowError));
    let mut low = with_status(BootstrapStatus::Closing, data(40, -5, i128::MIN + 1, i128::MIN));
    assert_eq!(low.convert(2, 0, 0), Err(OverflowError));
    assert_eq!(low.convert(0, 1, 0), Err(OverflowError));
    assert_eq!(low.convert(0, 0, i128::MIN), Err(OverflowError));
    assert_eq!(low.data, data(40, -5, i128::MIN + 1, i128::MIN));
    assert_eq!(low.convert(1, 0, 5), Ok(()));
    assert_eq!(low.data, data(40, 0, i128::MIN, i128::MIN));
    assert_eq!(b.convert(0, 0, i128::MAX - 5), Ok(()));
    assert_eq!(b.data, data(40, i128::MAX, 500, 40));
}

#[test]
fn join_pool_asks_for_the_scarcer_side_less_the_margin() {
    let b = with_status(
        BootstrapStatus::Closing,
        data(30 * SCALAR_7, 0, 1000 * SCALAR_7, 30 * SCALAR_7),
    );
    let (pool_blnd, pool_usdc, shares) =
        (2_000_000 * SCALAR_7, 50_000 * SCALAR_7, 200_000 * SCALAR_7);
    assert_eq!(join_pool(&b, pool_blnd, pool_usdc, shares), Ok(999_900_000));
    // the pair side is the scarcer one
    let b = with_status(
        BootstrapStatus::Closing,
        data(20 * SCALAR_7, 0, 1000 * SCALAR_7, 20 * SCALAR_7),
    );
    assert_eq!(join_pool(&b, pool_blnd, pool_usdc, shares), Ok(799_920_000));
    // nothing on one side
    let b = with_status(BootstrapStatus::Closing, data(0, 0, 1000 * SCALAR_7, 0));
    assert_eq!(join_pool(&b, pool_blnd, pool_usdc, shares), Ok(0));
    // an empty pool, and a product that leaves the type
    assert_eq!(
        join_pool(&b, 0, pool_usdc, shares),
        Err(BackstopBootstrapperError::OverflowError)
    );
    let huge = with_status(BootstrapStatus::Closing, data(1, 0, i128::MAX, 1));
    assert_eq!(
        join_pool(&huge, pool_blnd, pool_usdc, shares),
        Err(BackstopBootstrapperError::OverflowError)
    );
}

#[test]
fn single_sided_join_is_capped_at_a_third_of_the_pool() {
    assert_eq!(single_sided_join(1_000_000, 2_000_000 * SCALAR_7), Ok(1_000_000));
    assert_eq!(
        single_sided_join(25_000_000 * SCALAR_7, 2_000_000 * SCALAR_7),
        Ok(6_666_666_000_000)
    );
    assert_eq!(single_sided_join(25_000_000 * SCALAR_7, 500_250_000_000), Ok(166_749_983_325));
    assert_eq!(single_sided_join(166_749_983_325, 500_250_000_000), Ok(166_749_983_325));
    assert_eq!(single_sided_join(5, 0), Ok(0));
    assert_eq!(single_sided_join(5, 2), Ok(0));
    // the cap is rounded down below zero as well: floor(-7 * 0.3333333) = -3
    assert_eq!(single_sided_join(5, -7), Ok(-3));
    assert_eq!(single_sided_join(-9, -7), Ok(-9));
    assert_eq!(
        single_sided_join(5, i128::MAX),
        Err(BackstopBootstrapperError::OverflowError)
    );
}

#[test]
fn claim_pays_by_weight_and_share() {
    let b = with_status(BootstrapStatus::Completed, data(3, 1_000_000_007, 0, 0));
    let (frodo, samwise) = (account(1), account(2));
    // the bootstrapper: floor(1000000007 * 0.8)
    assert_eq!(
        execute_claim(&b, frodo, false, 0, 8_000_000, 2_000_000),
        Ok(Payout { amount: 800_000_005, settled: true, deposit: 0, bootstrapper: true })
    );
    // the bootstrapper's own deposit is left alone
    assert_eq!(
        execute_claim(&b, frodo, false, 2, 8_000_000, 2_000_000),
        Ok(Payout { amount: 800_000_005, settled: true, deposit: 2, bootstrapper: true })
    );
    assert_eq!(execute_claim(&b, frodo, true, 0, 8_000_000, 2_000_000), Err(AlreadyClaimedError));
    // a joiner with one third: floor(floor(floor(1e7 / 3) * 1000000007 / 1e7) * 0.2)
    assert_eq!(
        execute_claim(&b, samwise, false, 1, 8_000_000, 2_000_000),
        Ok(Payout { amount: 66_666_660, settled: false, deposit: 0, bootstrapper: false })
    );
    assert_eq!(
        execute_claim(&b, samwise, true, 3, 8_000_000, 2_000_000),
        Ok(Payout { amount: 200_000_001, settled: true, deposit: 0, bootstrapper: false })
    );
    assert_eq!(execute_claim(&b, samwise, false, 0, 8_000_000, 2_000_000), Err(AlreadyClaimedError));
    assert_eq!(
        execute_claim(&b, samwise, false, -1, 8_000_000, 2_000_000),
        Err(AlreadyClaimedError)
    );
    assert_eq!(
        execute_claim(&b, samwise, false, i128::MAX, 8_000_000, 2_000_000),
        Err(OverflowError)
    );
    for status in [BootstrapStatus::Active, BootstrapStatus::Closing, BootstrapStatus::Cancelled] {
        let other = with_status(status, data(3, 1_000_000_007, 0, 0));
        assert_eq!(
            execute_claim(&other, frodo, false, 0, 8_000_000, 2_000_000),
            Err(InvalidBootstrapStatus)
        );
        assert_eq!(
            execute_claim(&other, samwise, false, 1, 8_000_000, 2_000_000),
            Err(InvalidBootstrapStatus)
        );
    }
}

#[test]
fn claims_never_add_up_to_more_than_was_minted() {
    let minted = 1_000_000_007;
    let b = with_status(BootstrapStatus::Completed, data(3, minted, 0, 0));
    let mut paid = execute_claim(&b, account(1), false, 0, 8_000_000, 2_000_000).unwrap().amount;
    for joiner in 2..5 {
        paid += execute_claim(&b, account(joiner), false, 1, 8_000_000, 2_000_000).unwrap().amount;
    }
    assert_eq!(paid, 999_999_985);
    assert!(paid <= minted);
    assert!((minted - paid) * SCALAR_7 < SCALAR_7 + 3 * (minted + 2 * SCALAR_7));

    // uneven deposits
    let deposits = [1i128, 22, 333, 4444, 55555, 7];
    let total: i128 = deposits.iter().sum();
    let b = with_status(BootstrapStatus::Completed, data(total, 987_654_321_987, 0, 0));
    let mut paid = execute_claim(&b, account(1), false, 0, 8_000_000, 2_000_000).unwrap().amount;
    for (i, deposit) in deposits.iter().enumerate() {
        let from = account(10 + i as u128);
        paid += execute_claim(&b, from, false, *deposit, 8_000_000, 2_000_000).unwrap().amount;
    }
    let minted: i128 = 987_654_321_987;
    assert!(paid <= minted);
    // what is left is one unit at most, and for each joiner two more and a
    // ten-millionth of what was minted
    let joiners = deposits.len() as i128;
    assert!((minted - paid) * SCALAR_7 < SCALAR_7 + joiners * (minted + 2 * SCALAR_7));
}

#[test]
fn refund_pays_the_part_that_is_still_held() {
    let b = with_status(BootstrapStatus::Cancelled, data(25_000_001, 77, 321, 123_456_789));
    let (frodo, samwise) = (account(1), account(2));
    assert_eq!(
        execute_refund(&b, frodo, false, 9),
        Ok(Payout { amount: 321, settled: true, deposit: 9, bootstrapper: true })
    );
    assert_eq!(execute_refund(&b, frodo, true, 9), Err(AlreadyRefundedError));
    // floor(20000001 * 123456789 / 25000001)
    assert_eq!(
        execute_refund(&b, samwise, false, 20_000_001),
        Ok(Payout { amount: 98_765_432, settled: false, deposit: 0, bootstrapper: false })
    );
    assert_eq!(execute_refund(&b, samwise, false, 0), Err(AlreadyRefundedError));
    assert_eq!(execute_refund(&b, samwise, true, -4), Err(AlreadyRefundedError));

    // nothing converted: the whole deposit comes back, to the stroop
    let untouched = with_status(BootstrapStatus::Cancelled, data(825, 0, 50, 825));
    for deposit in [225, 150, 450] {
        assert_eq!(execute_refund(&untouched, samwise, false, deposit).unwrap().amount, deposit);
    }
    // all converted: nothing comes back, and that is no failure
    let spent = with_status(BootstrapStatus::Cancelled, data(825, 10, 0, 0));
    assert_eq!(
        execute_refund(&spent, samwise, false, 225),
        Ok(Payout { amount: 0, settled: false, deposit: 0, bootstrapper: false })
    );
    assert_eq!(
        execute_refund(&spent, frodo, false, 0),
        Ok(Payout { amount: 0, settled: true, deposit: 0, bootstrapper: true })
    );
    // however large the amounts, what is owed is paid
    assert_eq!(
        execute_refund(
            &with_status(BootstrapStatus::Cancelled, data(i128::MAX, 0, 0, i128::MAX)),
            samwise,
            false,
            i128::MAX
        ),
        Ok(Payout { amount: i128::MAX, settled: false, deposit: 0, bootstrapper: false })
    );
    let twenty = 20_000_000_000_000_000_000;
    let whole = with_status(BootstrapStatus::Cancelled, data(twenty, 0, 0, twenty));
    assert_eq!(execute_refund(&whole, samwise, false, twenty).unwrap().amount, twenty);
    // floor(2e19 * 3e19 / 5e19)
    let partly = with_status(
        BootstrapStatus::Cancelled,
        data(50_000_000_000_000_000_000, 7, 0, 30_000_000_000_000_000_000),
    );
    assert_eq!(
        execute_refund(&partly, samwise, false, twenty).unwrap().amount,
        12_000_000_000_000_000_000
    );
    // balances that no bootstrap can have: more held than deposited so that
    // the part is too large, nothing deposited at all, or less than nothing held
    for broken in [data(1, 0, 0, i128::MAX), data(0, 0, 0, 0), data(10, 0, 0, -1)] {
        assert_eq!(
            execute_refund(&with_status(BootstrapStatus::Cancelled, broken), samwise, false, 2),
            Err(OverflowError)
        );
    }
    for status in [BootstrapStatus::Active, BootstrapStatus::Closing, BootstrapStatus::Completed] {
        let other = with_status(status, data(825, 0, 50, 825));
        assert_eq!(execute_refund(&other, frodo, false, 0), Err(InvalidBootstrapStatus));
        assert_eq!(execute_refund(&other, samwise, false, 225), Err(InvalidBootstrapStatus));
    }
}

#[test]
fn second_claim_or_refund_is_refused() {
    let completed = with_status(BootstrapStatus::Completed, data(30, 1000, 0, 0));
    let cancelled = with_status(BootstrapStatus::Cancelled, data(30, 1000, 5, 20));
    for (from, claimed, deposit) in [(account(1), false, 0), (account(2), false, 30)] {
        let first = execute_claim(&completed, from, claimed, deposit, 8_000_000, 2_000_000).unwrap();
        assert_eq!(
            execute_claim(&completed, from, first.settled, first.deposit, 8_000_000, 2_000_000),
            Err(AlreadyClaimedError)
        );
        let first = execute_refund(&cancelled, from, claimed, deposit).unwrap();
        assert_eq!(
            execute_refund(&cancelled, from, first.settled, first.deposit),
            Err(AlreadyRefundedError)
        );
    }
}

#[test]
fn deposits_are_kept_per_bootstrap_and_joiner() {
    let mut deposits: Vec<DepositEntry> = Vec::new();
    assert_eq!(get_deposit(&deposits, 0, account(1)), 0);
    set_deposit(&mut deposits, 0, account(1), 10);
    set_deposit(&mut deposits, 1, account(1), 20);
    set_deposit(&mut deposits, 0, account(2), 30);
    assert_eq!(deposits.len(), 3);
    set_deposit(&mut deposits, 0, account(1), 11);
    assert_eq!(deposits.len(), 3);
    assert_eq!(get_deposit(&deposits, 0, account(1)), 11);
    assert_eq!(get_deposit(&deposits, 1, account(1)), 20);
    assert_eq!(get_deposit(&deposits, 0, account(2)), 30);
    assert_eq!(get_deposit(&deposits, 1, account(2)), 0);
    // the two halves of a key and its kind all tell addresses apart
    let other = Address { contract: true, hi: 0, lo: 1 };
    assert_eq!(get_deposit(&deposits, 0, other), 0);
    assert_eq!(get_deposit(&deposits, 0, Address { contract: false, hi: 1, lo: 1 }), 0);
}

fn pool() -> PoolBalances {
    PoolBalances {
        bootstrap_token_balance: 1000 * SCALAR_7,
        pair_token_balance: 30 * SCALAR_7,
        comet_shares: 200_000 * SCALAR_7,
        comet_bootstrap_token: 2_000_000 * SCALAR_7,
        comet_pair_token: 50_000 * SCALAR_7,
    }
}

#[test]
fn conversion_goes_through_its_steps() {
    let start = data(30 * SCALAR_7, 0, 1000 * SCALAR_7, 30 * SCALAR_7);
    let b = Bootstrap::new(3, config(1000, 10), start, 1000);
    assert_eq!(b.status, BootstrapStatus::Closing);
    let mut session = CloseSession::start(b, pool()).unwrap();
    assert_eq!(
        session.pending,
        CloseAction::JoinPool {
            shares: 999_900_000,
            max_bootstrap: 1000 * SCALAR_7,
            max_pair: 30 * SCALAR_7
        }
    );

    // the join took 999.9 and 24.9975
    session
        .advance(CloseEvent::Joined { bootstrap_balance: 1_000_000, pair_balance: 50_025_000 })
        .unwrap();
    assert_eq!(session.bootstrap.data, data(30 * SCALAR_7, 999_900_000, 1_000_000, 50_025_000));
    assert_eq!(session.balances.comet_bootstrap_token, 2_000_000 * SCALAR_7 + 9_999_000_000);
    assert_eq!(session.balances.comet_pair_token, 50_000 * SCALAR_7 + 249_975_000);
    assert_eq!(session.pending, CloseAction::DepositBootstrap { amount: 1_000_000 });

    session.advance(CloseEvent::Deposited { minted: 77 }).unwrap();
    assert_eq!(session.bootstrap.data, data(30 * SCALAR_7, 999_900_077, 0, 50_025_000));
    assert_eq!(session.pending, CloseAction::DepositPair { amount: 50_025_000 });

    session.advance(CloseEvent::Deposited { minted: 23 }).unwrap();
    assert_eq!(session.bootstrap.data, data(30 * SCALAR_7, 999_900_100, 0, 0));
    assert_eq!(session.pending, CloseAction::Finish);
    assert_eq!(session.bootstrap.id, 3);

    // nothing is awaited any more
    let done = session;
    assert_eq!(
        session.advance(CloseEvent::Deposited { minted: 1 }),
        Err(BackstopBootstrapperError::BadRequest)
    );
    assert_eq!(session, done);
}

#[test]
fn conversion_skips_what_does_not_apply() {
    // only dust on the pair side: no two-sided join, straight to the top-ups
    let b = Bootstrap::new(0, config(1000, 0), data(50, 0, 5 * SCALAR_7, 50), 1000);
    let mut session = CloseSession::start(b, pool()).unwrap();
    assert_eq!(session.pending, CloseAction::DepositBootstrap { amount: 5 * SCALAR_7 });
    session.advance(CloseEvent::Deposited { minted: 10 }).unwrap();
    assert_eq!(session.pending, CloseAction::DepositPair { amount: 50 });
    session.advance(CloseEvent::Deposited { minted: 0 }).unwrap();
    assert_eq!(session.pending, CloseAction::Finish);

    // only pair tokens are left, and tokens were minted before
    let b = Bootstrap::new(0, config(1000, 0), data(900_000, 1, 0, 900_000), 1000);
    let mut session = CloseSession::start(b, pool()).unwrap();
    assert_eq!(session.pending, CloseAction::DepositPair { amount: 900_000 });
    session.advance(CloseEvent::Deposited { minted: 0 }).unwrap();
    assert_eq!(session.pending, CloseAction::Finish);

    // the top-up is capped at a third of the pool's balance
    let b = Bootstrap::new(
        0,
        config(1000, 0),
        data(25_000_000 * SCALAR_7, 5, 0, 25_000_000 * SCALAR_7),
        1000,
    );
    let session = CloseSession::start(b, pool()).unwrap();
    assert_eq!(session.pending, CloseAction::DepositPair { amount: 166_666_650_000 });

    // an event that does not answer the pending action
    let mut session = CloseSession::start(b, pool()).unwrap();
    assert_eq!(
        session.advance(CloseEvent::Joined { bootstrap_balance: 0, pair_balance: 0 }),
        Err(BadRequest)
    );

    // nothing minted, now or before
    let b = Bootstrap::new(0, config(1000, 0), data(900_000, 0, 0, 900_000), 1000);
    let mut session = CloseSession::start(b, pool()).unwrap();
    let before = session;
    assert_eq!(session.advance(CloseEvent::Deposited { minted: 0 }), Err(ReceivedNoBackstopTokens));
    assert_eq!(session, before);

    // nothing held at all and never anything minted
    let b = Bootstrap::new(0, config(1000, 0), data(0, 0, 0, 0), 1000);
    assert_eq!(CloseSession::start(b, pool()), Err(ReceivedNoBackstopTokens));
}

#[test]
fn conversion_needs_a_closing_bootstrap_and_sane_outcomes() {
    let start = data(30 * SCALAR_7, 0, 1000 * SCALAR_7, 30 * SCALAR_7);
    for sequence in [999, 1001 + MAX_OPEN_LEDGERS] {
        let b = Bootstrap::new(0, config(1000, 10), start, sequence);
        assert_eq!(CloseSession::start(b, pool()), Err(InvalidBootstrapStatus));
    }
    let completed = Bootstrap::new(0, config(1000, 10), data(30, MAX_DUST_AMOUNT, 0, 0), 1000);
    assert_eq!(CloseSession::start(completed, pool()), Err(InvalidBootstrapStatus));

    let b = Bootstrap::new(0, config(1000, 10), start, 1000);
    // the pool cannot have taken more than was held
    let mut session = CloseSession::start(b, pool()).unwrap();
    assert_eq!(
        session.advance(CloseEvent::Joined { bootstrap_balance: -1, pair_balance: 0 }),
        Err(InternalError)
    );
    // nor can it take shares back
    let mut session = CloseSession::start(b, pool()).unwrap();
    session
        .advance(CloseEvent::Joined { bootstrap_balance: 1_000_000, pair_balance: 50_025_000 })
        .unwrap();
    let before = session;
    assert_eq!(session.advance(CloseEvent::Deposited { minted: -1 }), Err(InternalError));
    assert_eq!(session, before);
    // balances that went up count as nothing spent
    let mut session = CloseSession::start(b, pool()).unwrap();
    session
        .advance(CloseEvent::Joined {
            bootstrap_balance: 1000 * SCALAR_7 + 5,
            pair_balance: 30 * SCALAR_7,
        })
        .unwrap();
    assert_eq!(
        session.bootstrap.data,
        data(30 * SCALAR_7, 999_900_000, 1000 * SCALAR_7, 30 * SCALAR_7)
    );
    // a balance out of range
    let mut session = CloseSession::start(b, pool()).unwrap();
    assert_eq!(
        session.advance(CloseEvent::Joined { bootstrap_balance: i128::MIN, pair_balance: 0 }),
        Err(OverflowError)
    );
}

fn set_up() -> BackstopBootstrapper {
    let mut bootstrapper = BackstopBootstrapper::new(account(99));
    let tokens = vec![
        TokenInfo { address: account(71), weight: 8_000_000 },
        TokenInfo { address: account(72), weight: 2_000_000 },
    ];
    assert_eq!(bootstrapper.initialize(account(81), account(82), account(83), tokens), Ok(()));
    bootstrapper
}

#[test]
fn initialize_works_once() {
    let mut bootstrapper = set_up();
    let tokens = vec![
        TokenInfo { address: account(1), weight: 5_000_000 },
        TokenInfo { address: account(2), weight: 5_000_000 },
    ];
    assert_eq!(
        bootstrapper.initialize(account(1), account(2), account(3), tokens),
        Err(BackstopBootstrapperError::AlreadyInitializedError)
    );
    assert_eq!(bootstrapper.backstop, account(81));
    assert_eq!(bootstrapper.backstop_token, account(82));
    assert_eq!(bootstrapper.pool_factory, account(83));
    assert_eq!(bootstrapper.comet_tokens[0].weight, 8_000_000);
    assert_eq!(bootstrapper.get_next_id(), 0);
}

#[test]
fn transfers_name_token_and_direction() {
    let mut bootstrapper = set_up();
    let (frodo, samwise) = (account(1), account(2));
    let mut c = config(100 + ONE_DAY_LEDGERS, 100);
    c.token_index = 1;
    let (id, funding) = bootstrapper.bootstrap(100, c, true).unwrap();
    assert_eq!((funding.token, funding.from, funding.to), (account(72), frodo, account(99)));
    assert_eq!(funding.amount, c.amount);

    let (deposit, paid_in) = bootstrapper.join(100, samwise, id, 40).unwrap();
    assert_eq!(deposit, 40);
    assert_eq!((paid_in.token, paid_in.from, paid_in.to), (account(71), samwise, account(99)));
    assert_eq!(paid_in.amount, 40);

    let (deposit, paid_out) = bootstrapper.exit(100, samwise, id, 15).unwrap();
    assert_eq!(deposit, 25);
    assert_eq!((paid_out.token, paid_out.from, paid_out.to), (account(71), account(99), samwise));
    assert_eq!(paid_out.amount, 15);

    // under the minimum at the close ledger
    let later = 100 + ONE_DAY_LEDGERS;
    let (amount, back) = bootstrapper.refund(later, samwise, id).unwrap();
    assert_eq!(amount, 25);
    assert_eq!((back.token, back.from, back.to, back.amount), (account(71), account(99), samwise, 25));
    let (amount, back) = bootstrapper.refund(later, frodo, id).unwrap();
    assert_eq!(amount, c.amount);
    assert_eq!(
        (back.token, back.from, back.to, back.amount),
        (account(72), account(99), frodo, c.amount)
    );
    assert_eq!(bootstrapper.get_deposit(id, samwise), 0);
    // the balances of a bootstrap are not touched by refunds
    let b = bootstrapper.get_bootstrap(later, id);
    assert_eq!(b.data, data(25, 0, c.amount, 25));
    assert_eq!(b.status, BootstrapStatus::Cancelled);
}

#[test]
fn pair_tokens_are_conserved_while_active() {
    let mut bootstrapper = set_up();
    let (id, _) = bootstrapper.bootstrap(100, config(100 + ONE_DAY_LEDGERS, 0), true).unwrap();
    let joiners = [account(2), account(3), account(4)];
    let moves: [(usize, i128); 9] =
        [(0, 50), (1, 70), (0, -20), (2, 5), (1, -70), (2, -6), (0, 1), (1, -1), (2, 0)];
    let mut net = 0;
    for (who, amount) in moves {
        let result = if amount >= 0 {
            bootstrapper.join(200, joiners[who], id, amount)
        } else {
            bootstrapper.exit(200, joiners[who], id, -amount)
        };
        if result.is_ok() {
            net += amount;
        }
        let b = bootstrapper.get_bootstrap(200, id);
        let sum: i128 = joiners.iter().map(|j| bootstrapper.get_deposit(id, *j)).sum();
        assert_eq!(b.data.total_pair, sum);
        assert_eq!(b.data.total_pair, net);
        assert_eq!(b.data.pair_amount, net);
        assert!(joiners.iter().all(|j| bootstrapper.get_deposit(id, *j) >= 0));
    }
    // two of the exits asked for more than was there
    assert_eq!(net, 50 + 70 - 20 + 5 - 70 + 1);
    assert_eq!(bootstrapper.get_deposit(id, joiners[2]), 5);
}

#[test]
fn settling_takes_only_what_a_conversion_can_give() {
    let mut bootstrapper = set_up();
    let close_ledger = 100 + ONE_DAY_LEDGERS;
    let (id, _) = bootstrapper.bootstrap(100, config(close_ledger, 10), true).unwrap();
    bootstrapper.join(100, account(2), id, 30 * SCALAR_7).unwrap();
    let start = data(30 * SCALAR_7, 0, 1000 * SCALAR_7, 30 * SCALAR_7);

    let mut session = bootstrapper.close(close_ledger, id, pool()).unwrap();
    // not at its end yet
    assert_eq!(bootstrapper.settle_close(close_ledger, &session), Err(BadRequest));
    session
        .advance(CloseEvent::Joined { bootstrap_balance: 1_000_000, pair_balance: 50_025_000 })
        .unwrap();
    session.advance(CloseEvent::Deposited { minted: 77 }).unwrap();
    session.advance(CloseEvent::Deposited { minted: 23 }).unwrap();

    // forged sessions
    let mut forged = session;
    forged.bootstrap.id = 5;
    assert_eq!(bootstrapper.settle_close(close_ledger, &forged), Err(BadRequest));
    let mut forged = session;
    forged.bootstrap.data.total_pair += 1;
    assert_eq!(bootstrapper.settle_close(close_ledger, &forged), Err(BadRequest));
    let mut forged = session;
    forged.bootstrap.data.bootstrap_amount = 1000 * SCALAR_7 + 1;
    assert_eq!(bootstrapper.settle_close(close_ledger, &forged), Err(BadRequest));
    let mut forged = session;
    forged.bootstrap.data.pair_amount = -1;
    assert_eq!(bootstrapper.settle_close(close_ledger, &forged), Err(BadRequest));
    let mut forged = session;
    forged.bootstrap.config.pair_min = 0;
    assert_eq!(bootstrapper.settle_close(close_ledger, &forged), Err(BadRequest));
    let mut forged = session;
    forged.bootstrap.data.total_backstop_tokens = 0;
    assert_eq!(bootstrapper.settle_close(close_ledger, &forged), Err(ReceivedNoBackstopTokens));
    // too early and too late
    assert_eq!(bootstrapper.settle_close(close_ledger - 1, &session), Err(InvalidBootstrapStatus));
    assert_eq!(
        bootstrapper.settle_close(close_ledger + MAX_OPEN_LEDGERS + 1, &session),
        Err(InvalidBootstrapStatus)
    );
    assert_eq!(bootstrapper.get_bootstrap(close_ledger, id).data, start);

    assert_eq!(bootstrapper.settle_close(close_ledger, &session), Ok(999_900_100));
    let stored = bootstrapper.get_bootstrap(close_ledger, id);
    assert_eq!(stored.data, data(30 * SCALAR_7, 999_900_100, 0, 0));
    assert_eq!(stored.status, BootstrapStatus::Completed);
    // the same session cannot be settled again: the bootstrap is completed
    assert_eq!(bootstrapper.settle_close(close_ledger, &session), Err(InvalidBootstrapStatus));
    assert_eq!(bootstrapper.close(close_ledger, id, pool()), Err(InvalidBootstrapStatus));
}

#[test]
fn repeated_closes_never_lose_what_was_minted() {
    let mut bootstrapper = set_up();
    let close_ledger = 100 + ONE_DAY_LEDGERS;
    let c = config(close_ledger, 10);
    let (id, _) = bootstrapper.bootstrap(100, c, true).unwrap();
    bootstrapper.join(100, account(2), id, 25_000_000 * SCALAR_7).unwrap();

    let mut balances = pool();
    balances.pair_token_balance = 25_000_000 * SCALAR_7;
    let mut minted_so_far = 0;
    let mut held = bootstrapper.get_bootstrap(close_ledger, id).data;
    for round in 0..4 {
        let mut session = bootstrapper.close(close_ledger + round, id, balances).unwrap();
        while session.pending != CloseAction::Finish {
            let event = match session.pending {
                CloseAction::JoinPool { .. } => CloseEvent::Joined {
                    bootstrap_balance: 1_000_000,
                    pair_balance: 25_000_000 * SCALAR_7 - 249_975_000,
                },
                _ => CloseEvent::Deposited { minted: 1000 },
            };
            session.advance(event).unwrap();
        }
        let total = bootstrapper.settle_close(close_ledger + round, &session).unwrap();
        let now = bootstrapper.get_bootstrap(close_ledger + round, id).data;
        assert!(total > minted_so_far);
        assert_eq!(now.total_backstop_tokens, total);
        assert!(0 <= now.pair_amount && now.pair_amount < held.pair_amount);
        assert!(0 <= now.bootstrap_amount && now.bootstrap_amount <= held.bootstrap_amount);
        assert_eq!(now.total_pair, 25_000_000 * SCALAR_7);
        minted_so_far = total;
        held = now;
        balances.pair_token_balance = now.pair_amount;
        balances.bootstrap_token_balance = now.bootstrap_amount;
    }
    assert_eq!(held.bootstrap_amount, 0);
    assert_eq!(
        bootstrapper.get_bootstrap(close_ledger + 3, id).status,
        BootstrapStatus::Closing
    );
}

#[test]
fn opening_needs_a_valid_configuration_a_known_pool_and_a_free_id() {
    let good = config(100 + ONE_DAY_LEDGERS, 0);
    assert_eq!(execute_start_bootstrap(good, 100, true, 0), Ok(data(0, 0, good.amount, 0)));
    assert_eq!(
        execute_start_bootstrap(good, 100, true, u32::MAX - 1),
        Ok(data(0, 0, good.amount, 0))
    );
    assert_eq!(execute_start_bootstrap(good, 100, false, 0), Err(InvalidPoolAddressError));
    assert_eq!(execute_start_bootstrap(good, 100, true, u32::MAX), Err(OverflowError));
    // the configuration is looked at before the pool, the pool before the id
    assert_eq!(execute_start_bootstrap(good, 101, false, u32::MAX), Err(InvalidCloseLedger));
    assert_eq!(execute_start_bootstrap(good, 100, false, u32::MAX), Err(InvalidPoolAddressError));
}

#[test]
fn a_claim_names_the_backstop_deposit_that_follows() {
    let mut bootstrapper = set_up();
    let close_ledger = 100 + ONE_DAY_LEDGERS;
    let (id, _) = bootstrapper.bootstrap(100, config(close_ledger, 10), true).unwrap();
    let samwise = account(2);
    bootstrapper.join(100, samwise, id, 30 * SCALAR_7).unwrap();
    assert_eq!(bootstrapper.claim(100, samwise, id), Err(InvalidBootstrapStatus));
    assert_eq!(bootstrapper.claim(close_ledger, samwise, id), Err(InvalidBootstrapStatus));

    let mut session = bootstrapper.close(close_ledger, id, pool()).unwrap();
    session
        .advance(CloseEvent::Joined { bootstrap_balance: 1_000_000, pair_balance: 50_025_000 })
        .unwrap();
    session.advance(CloseEvent::Deposited { minted: 77 }).unwrap();
    session.advance(CloseEvent::Deposited { minted: 23 }).unwrap();
    assert_eq!(bootstrapper.settle_close(close_ledger, &session), Ok(999_900_100));

    let (amount, transfer, deposit) = bootstrapper.claim(close_ledger, samwise, id).unwrap();
    // floor(999900100 * 0.2)
    assert_eq!(amount, 199_980_020);
    assert_eq!(
        (transfer.token, transfer.from, transfer.to, transfer.amount),
        (account(82), account(99), samwise, amount)
    );
    assert_eq!((deposit.from, deposit.pool, deposit.amount), (samwise, account(50), amount));
    assert_eq!(bootstrapper.get_deposit(id, samwise), 0);
    assert_eq!(bootstrapper.claim(close_ledger + 5, samwise, id), Err(AlreadyClaimedError));

    let (amount, _, deposit) = bootstrapper.claim(u32::MAX, account(1), id).unwrap();
    // floor(999900100 * 0.8)
    assert_eq!(amount, 799_920_080);
    assert_eq!(deposit.from, account(1));
    assert_eq!(bootstrapper.claim(u32::MAX, account(1), id), Err(AlreadyClaimedError));
    // a completed bootstrap refunds nothing
    assert_eq!(bootstrapper.refund(u32::MAX, account(1), id), Err(InvalidBootstrapStatus));
    assert_eq!(bootstrapper.refund(u32::MAX, samwise, id), Err(InvalidBootstrapStatus));
}

#[test]
fn a_part_is_taken_exactly_whatever_the_size_of_the_product() {
    let max = i128::MAX;
    assert_eq!(pro_rata(7, 3, 2), Some(10));
    assert_eq!(pro_rata(7, 2, 3), Some(4));
    assert_eq!(pro_rata(0, max, 1), Some(0));
    assert_eq!(pro_rata(max, 0, 9), Some(0));
    assert_eq!(pro_rata(1, 1, max), Some(0));
    assert_eq!(pro_rata(max, max, max), Some(max));
    assert_eq!(pro_rata(max, 2, 2), Some(max));
    assert_eq!(pro_rata(max, max - 1, max), Some(max - 1));
    assert_eq!(pro_rata(max, 1, 2), Some(85070591730234615865843651857942052863));
    assert_eq!(
        pro_rata(
            1_000_000_000_000_000_000_000_000_000_000,
            1_000_000_000_000_000_000_000_000_000_000,
            1_000_000_000_000_000_000_000_000_000_001
        ),
        Some(999_999_999_999_999_999_999_999_999_999)
    );
    assert_eq!(
        pro_rata(
            56713727820156410577229101238628035242,
            34028236692093846346337460743176821145,
            24305883351495604533098186245126300818
        ),
        Some(79399218948218974808120741734079249338)
    );
    assert_eq!(
        pro_rata(
            1267650600228229401496703217721,
            2535301200456458802993406411751,
            633825300114114700748351602695
        ),
        Some(5070602400912917605986812872826)
    );
    // the result itself does not fit
    assert_eq!(pro_rata(max, 2, 1), None);
    assert_eq!(pro_rata(max, max, max - 1), None);
    assert_eq!(
        pro_rata(123456789012345678901234567890, 98765432109876543210987654321, 3),
        None
    );
    // outside of what a part of an amount is
    assert_eq!(pro_rata(1, 1, 0), None);
    assert_eq!(pro_rata(-1, 1, 1), None);
    assert_eq!(pro_rata(1, -1, 1), None);
    assert_eq!(pro_rata(1, 1, -1), None);
}

#[test]
fn large_deposits_are_refunded_in_full() {
    // a token with eighteen decimal places: twenty tokens from each joiner
    let mut bootstrapper = set_up();
    let close_ledger = 100 + ONE_DAY_LEDGERS;
    let twenty = 20_000_000_000_000_000_000;
    let (id, _) = bootstrapper.bootstrap(100, config(close_ledger, 3 * twenty), true).unwrap();
    let (samwise, pippin) = (account(2), account(3));
    bootstrapper.join(100, samwise, id, twenty).unwrap();
    bootstrapper.join(100, pippin, id, twenty + 1).unwrap();

    // under the minimum at the close ledger
    let b = bootstrapper.get_bootstrap(close_ledger, id);
    assert_eq!(b.status, BootstrapStatus::Cancelled);
    assert_eq!(b.data.pair_amount, b.data.total_pair);
    let (amount, transfer) = bootstrapper.refund(close_ledger, samwise, id).unwrap();
    assert_eq!(amount, twenty);
    assert_eq!(transfer.amount, twenty);
    let (amount, _) = bootstrapper.refund(close_ledger, pippin, id).unwrap();
    assert_eq!(amount, twenty + 1);
    assert_eq!(bootstrapper.refund(close_ledger, pippin, id), Err(AlreadyRefundedError));
}

#[test]
fn refunds_never_add_up_to_more_than_is_held() {
    let deposits = [1i128, 22, 333, 4444, 55555, 7];
    let total: i128 = deposits.iter().sum();
    for held in [0, 1, 17, total / 2, total - 1, total] {
        let b = with_status(BootstrapStatus::Cancelled, data(total, 5, 0, held));
        let mut paid = 0;
        for (i, deposit) in deposits.iter().enumerate() {
            let refund = execute_refund(&b, account(10 + i as u128), false, *deposit).unwrap();
            assert!(refund.amount <= *deposit);
            paid += refund.amount;
        }
        assert!(paid <= held);
        assert!(held - paid < deposits.len() as i128);
        if held == total {
            assert_eq!(paid, total);
        }
    }
}
