use soroban_fixed_point_math::FixedPoint;
use vstd::prelude::*;

verus! {

/// The quotient of `n` by `d`, rounded towards minus infinity.
pub open spec fn floor_div(n: int, d: int) -> int
    recommends
        d != 0,
{
    if d > 0 {
        n / d
    } else {
        (-n) / (-d)
    }
}

/// Whether `floor(x * y / z)` can be computed in `i128` without the product
/// leaving the type on the way.
pub open spec fn mul_div_defined(x: int, y: int, z: int) -> bool {
    &&& z != 0
    &&& i128::MIN <= x * y <= i128::MAX
    &&& !(x * y == i128::MIN && z == -1)
}

/// `floor(x * y / z)`.
pub open spec fn mul_div_floor(x: int, y: int, z: int) -> int
    recommends
        z != 0,
{
    floor_div(x * y, z)
}

/// `floor(x * y / denominator)` as the fixed-point multiplication gives it:
/// nothing where it is not defined.
pub open spec fn fixed_mul(x: i128, y: i128, denominator: i128) -> Option<i128> {
    if mul_div_defined(x as int, y as int, denominator as int) {
        Some(mul_div_floor(x as int, y as int, denominator as int) as i128)
    } else {
        None
    }
}

/// `floor(x * denominator / y)` as the fixed-point division gives it: nothing
/// where it is not defined.
pub open spec fn fixed_div(x: i128, y: i128, denominator: i128) -> Option<i128> {
    fixed_mul(x, denominator, y)
}

/// On amounts that are not negative and a positive denominator, the
/// fixed-point multiplication rounds down: its result is not negative, and
/// times the denominator it is at most the product.
pub proof fn lemma_fixed_mul_bounds(x: i128, y: i128, denominator: i128)
    requires
        x >= 0,
        y >= 0,
        denominator > 0,
        fixed_mul(x, y, denominator) is Some,
    ensures
        0 <= fixed_mul(x, y, denominator)->Some_0,
        fixed_mul(x, y, denominator)->Some_0 * denominator <= x * y,
        x * y < (fixed_mul(x, y, denominator)->Some_0 + 1) * denominator,
{
    let n = x as int * y as int;
    let z = denominator as int;
    assert(0 <= n) by (nonlinear_arith)
        requires
            n == x as int * y as int,
            x >= 0,
            y >= 0,
    ;
    assert(0 <= n / z <= n && (n / z) * z <= n && n < (n / z + 1) * z) by (nonlinear_arith)
        requires
            0 <= n,
            z > 0,
    ;
}

/// `floor(x * y / denominator)`, by `FixedPoint::fixed_mul_floor` of
/// `soroban_fixed_point_math` on `i128`.
///
/// Trusted: the result is `None` exactly when the denominator is zero, the
/// product `x * y` does not fit in `i128`, or the product is `i128::MIN` and
/// the denominator is -1; otherwise it is the quotient of the product by the
/// denominator, rounded down.
#[verifier::external_body]
pub(crate) fn fixed_mul_floor(x: i128, y: i128, denominator: i128) -> (r: Option<i128>)
    ensures
        r is Some <==> mul_div_defined(x as int, y as int, denominator as int),
        r is Some ==> r->Some_0 as int == mul_div_floor(x as int, y as int, denominator as int),
{
    x.fixed_mul_floor(y, denominator)
}

/// `floor(x * denominator / y)`, by `FixedPoint::fixed_div_floor` of
/// `soroban_fixed_point_math` on `i128`.
///
/// Trusted: the result is `None` exactly when `y` is zero, the product
/// `x * denominator` does not fit in `i128`, or the product is `i128::MIN` and
/// `y` is -1; otherwise it is the quotient of the product by `y`, rounded
/// down.
#[verifier::external_body]
pub(crate) fn fixed_div_floor(x: i128, y: i128, denominator: i128) -> (r: Option<i128>)
    ensures
        r is Some <==> mul_div_defined(x as int, denominator as int, y as int),
        r is Some ==> r->Some_0 as int == mul_div_floor(x as int, denominator as int, y as int),
{
    x.fixed_div_floor(y, denominator)
}

} // verus!
