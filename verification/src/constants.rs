use vstd::prelude::*;

verus! {

/// 1 with 7 decimal places.
pub const SCALAR_7: i128 = 1_0000000;

/// 0.01 with 7 decimal places: the largest balance that still counts as dust.
pub const MAX_DUST_AMOUNT: i128 = 0_0100000;

/// The largest share of the pool's balance of a token that one single-sided
/// deposit may bring in, with 7 decimal places.
pub const MAX_IN_RATIO: i128 = 3333333;

/// The number of ledgers in a day, at five seconds per ledger.
pub const ONE_DAY_LEDGERS: u32 = 17280;

/// The longest time that a bootstrap may stay open, and the time after the
/// close ledger in which it can still be converted: fourteen days of ledgers.
pub const MAX_OPEN_LEDGERS: u32 = 241920;

/// The share of the computed pool shares that a two-sided join asks for, with
/// 7 decimal places. The rest is room for rounding.
pub const JOIN_POOL_MARGIN: i128 = 0_9999000;

} // verus!
