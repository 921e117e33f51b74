use vstd::arithmetic::div_mod::lemma_fundamental_div_mod_converse;
use vstd::prelude::*;

verus! {

/// The part of `amount` that `part` is of `whole`, rounded down: nothing where
/// the amount or the part is negative, the whole is not positive, or the
/// result is more than `i128` holds. The product itself may be as large as it
/// likes.
pub open spec fn share_of(amount: i128, part: i128, whole: i128) -> Option<i128> {
    if amount >= 0 && part >= 0 && whole > 0 && (amount * part) / (whole as int) <= i128::MAX {
        Some(((amount * part) / (whole as int)) as i128)
    } else {
        None
    }
}

/// The share is not negative and, times the whole, at most the product. Where
/// the part is no more than the whole, the share exists and is no more than
/// the amount; where the part is the whole, it is the amount.
pub proof fn lemma_share_of(amount: i128, part: i128, whole: i128)
    requires
        amount >= 0,
        part >= 0,
        whole > 0,
    ensures
        share_of(amount, part, whole) is Some ==> 0 <= share_of(amount, part, whole)->Some_0
            && share_of(amount, part, whole)->Some_0 * whole <= amount * part && amount * part < (
        share_of(amount, part, whole)->Some_0 + 1) * whole,
        part <= whole ==> share_of(amount, part, whole) is Some && share_of(
            amount,
            part,
            whole,
        )->Some_0 <= amount,
        part == whole ==> share_of(amount, part, whole) == Some(amount),
{
    let a = amount as int;
    let b = part as int;
    let c = whole as int;
    let n = a * b;
    assert(0 <= n) by (nonlinear_arith)
        requires
            n == a * b,
            a >= 0,
            b >= 0,
    ;
    assert(0 <= n / c && (n / c) * c <= n && n < (n / c + 1) * c) by (nonlinear_arith)
        requires
            0 <= n,
            c > 0,
    ;
    if b <= c {
        assert(n / c <= a) by (nonlinear_arith)
            requires
                n == a * b,
                0 <= b <= c,
                c > 0,
                a >= 0,
                (n / c) * c <= n,
        {
            assert(a * b <= a * c);
            assert((n / c) * c <= a * c);
        }
    }
    if b == c {
        assert(n == a * c + 0);
        lemma_fundamental_div_mod_converse(n, c, a, 0);
    }
}

/// A quotient is at least `k` where the dividend is at least `k` times the
/// divisor.
proof fn lemma_quotient_at_least(n: int, c: int, k: int)
    requires
        c > 0,
        n >= k * c,
    ensures
        n / c >= k,
{
    assert(n < (n / c + 1) * c) by (nonlinear_arith)
        requires
            c > 0,
    ;
    assert(n / c >= k) by (nonlinear_arith)
        requires
            c > 0,
            n >= k * c,
            n < (n / c + 1) * c,
    {
        assert(k * c < (n / c + 1) * c);
    }
}

/// The part of `amount` that `part` is of `whole`, rounded down, without
/// forming the product: it fails only where the result itself cannot be had.
///
/// The amount is halved and doubled bit by bit of the part, as quotient and
/// remainder by the whole, so that nothing larger than twice the whole is
/// ever held.
pub fn pro_rata(amount: i128, part: i128, whole: i128) -> (r: Option<i128>)
    ensures
        r == share_of(amount, part, whole),
{
    if amount < 0 || part < 0 || whole <= 0 {
        return None;
    }
    let c: u128 = whole as u128;
    let max: u128 = i128::MAX as u128;
    let mut rest: u128 = part as u128;
    // the amount, times the power of two reached, as quotient and remainder
    let mut step_quotient: u128 = amount as u128 / c;
    let mut step_remainder: u128 = amount as u128 % c;
    // what the bits of the part gone through add up to
    let mut quotient: u128 = 0;
    let mut remainder: u128 = 0;
    let ghost product: int = amount as int * part as int;
    proof {
        assert(amount as int == step_quotient * c + step_remainder) by (nonlinear_arith)
            requires
                c > 0,
                step_quotient == amount as int / c as int,
                step_remainder == amount as int % c as int,
        ;
        assert(product == (quotient * c + remainder) + (step_quotient * c + step_remainder) * rest)
            by (nonlinear_arith)
            requires
                product == amount as int * part as int,
                amount as int == step_quotient * c + step_remainder,
                rest == part as int,
                quotient == 0,
                remainder == 0,
        ;
    }
    while rest > 0
        invariant
            c == whole,
            0 < c <= max,
            max == i128::MAX,
            amount >= 0,
            part >= 0,
            product == amount as int * part as int,
            step_remainder < c,
            remainder < c,
            step_quotient <= max,
            quotient <= max,
            product == (quotient * c + remainder) + (step_quotient * c + step_remainder) * rest,
        decreases rest,
    {
        let ghost before = rest as int;
        let ghost step = step_quotient * c + step_remainder;
        let ghost sum = quotient * c + remainder;
        let half: u128 = rest / 2;
        proof {
            assert(0 <= step) by (nonlinear_arith)
                requires
                    step == step_quotient * c + step_remainder,
            ;
            assert(0 <= sum) by (nonlinear_arith)
                requires
                    sum == quotient * c + remainder,
            ;
        }
        if rest % 2 == 1 {
            let mut added: u128 = remainder + step_remainder;
            let mut carry: u128 = 0;
            if added >= c {
                added = added - c;
                carry = 1;
            }
            if quotient + step_quotient + carry > max {
                proof {
                    let k = quotient + step_quotient + carry;
                    assert(product >= k * c) by (nonlinear_arith)
                        requires
                            product == sum + step * before,
                            before >= 1,
                            step >= 0,
                            sum == quotient * c + remainder,
                            step == step_quotient * c + step_remainder,
                            k == quotient + step_quotient + carry,
                            added + carry * c == remainder + step_remainder,
                            added >= 0,
                    {
                        assert(step * before >= step);
                        assert(sum + step == k * c + added);
                    }
                    lemma_quotient_at_least(product, c as int, k as int);
                }
                return None;
            }
            proof {
                assert((quotient + step_quotient + carry) * c + added == sum + step)
                    by (nonlinear_arith)
                    requires
                        sum == quotient * c + remainder,
                        step == step_quotient * c + step_remainder,
                        added + carry * c == remainder + step_remainder,
                ;
            }
            quotient = quotient + step_quotient + carry;
            remainder = added;
        }
        proof {
            // what is left of the product, in halves of what is left of the part
            assert(product == (quotient * c + remainder) + (2 * step) * half) by (nonlinear_arith)
                requires
                    product == sum + step * before,
                    before == 2 * half + before % 2,
                    before % 2 == 1 ==> quotient * c + remainder == sum + step,
                    before % 2 != 1 ==> quotient * c + remainder == sum && before % 2 == 0,
            ;
        }
        rest = half;
        if rest > 0 {
            let mut doubled: u128 = step_remainder + step_remainder;
            let mut carry: u128 = 0;
            if doubled >= c {
                doubled = doubled - c;
                carry = 1;
            }
            if step_quotient + step_quotient + carry > max {
                proof {
                    let k = step_quotient + step_quotient + carry;
                    assert(product >= k * c) by (nonlinear_arith)
                        requires
                            product == (quotient * c + remainder) + (2 * step) * half,
                            half >= 1,
                            step >= 0,
                            quotient >= 0,
                            c > 0,
                            remainder >= 0,
                            step == step_quotient * c + step_remainder,
                            k == step_quotient + step_quotient + carry,
                            doubled + carry * c == step_remainder + step_remainder,
                            doubled >= 0,
                    {
                        assert((2 * step) * half >= 2 * step);
                        assert(quotient * c >= 0);
                        assert(2 * step == k * c + doubled);
                    }
                    lemma_quotient_at_least(product, c as int, k as int);
                }
                return None;
            }
            proof {
                assert((step_quotient + step_quotient + carry) * c + doubled == 2 * step)
                    by (nonlinear_arith)
                    requires
                        step == step_quotient * c + step_remainder,
                        doubled + carry * c == step_remainder + step_remainder,
                ;
            }
            step_quotient = step_quotient + step_quotient + carry;
            step_remainder = doubled;
        } else {
            proof {
                assert((2 * step) * half == (step_quotient * c + step_remainder) * rest)
                    by (nonlinear_arith)
                    requires
                        half == 0,
                        rest == 0,
                ;
            }
        }
    }
    proof {
        assert(product == quotient * c + remainder) by (nonlinear_arith)
            requires
                product == (quotient * c + remainder) + (step_quotient * c + step_remainder) * rest,
                rest == 0,
        ;
        lemma_fundamental_div_mod_converse(product, c as int, quotient as int, remainder as int);
    }
    Some(quotient as i128)
}

} // verus!
