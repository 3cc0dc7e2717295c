use vstd::prelude::*;

verus! {

/// The lowest tick index of the protocol.
pub const MIN_TICK: i32 = -887272;

/// The highest tick index of the protocol.
pub const MAX_TICK: i32 = 887272;

/// The smallest amount of liquidity a position may hold.
pub const MIN_LIQUIDITY: u128 = 1000;

/// The lowest square-root price limit, in Q64.64.
pub const MIN_SQRT_PRICE: u128 = 0;

/// The highest square-root price, in Q64.64.
pub const MAX_SQRT_PRICE: u128 = 340269576636625053602161358042262667264;

/// Low fee tier, in hundredths of a basis point.
pub const FEE_TIER_LOW: u16 = 100;

/// Medium fee tier.
pub const FEE_TIER_MEDIUM: u16 = 500;

/// High fee tier.
pub const FEE_TIER_HIGH: u16 = 3000;

/// Tick spacing of the low fee tier.
pub const TICK_SPACING_LOW: i32 = 1;

/// Tick spacing of the medium fee tier.
pub const TICK_SPACING_MEDIUM: i32 = 10;

/// Tick spacing of the high fee tier.
pub const TICK_SPACING_HIGH: i32 = 60;

/// Denominator of the protocol fee fraction.
pub const PROTOCOL_FEE_DENOMINATOR: u16 = 10000;

/// The Q64.64 scale: 1.0 in fixed point.
pub const Q64: u128 = 18446744073709551616;

/// Basis-point denominator.
pub const BPS_DENOMINATOR: u128 = 10000;

/// `floor((sqrt 1.0001)^(2^i) * 2^64)` for `i` in `0..20`.
pub const POWERS: [u128; 20] = [
    18447666387855959850,
    18448588748116922571,
    18450433606991734263,
    18454123878217468680,
    18461506635090006701,
    18476281010653910144,
    18505865242158250041,
    18565175891880433522,
    18684368066214940582,
    18925053041275764671,
    19415764168677886926,
    20435687552633177494,
    22639080592224303007,
    27784196929998399742,
    41848122137994986128,
    94936283578220370716,
    488590176327622479860,
    12941056668319229769860,
    9078618265828848800676189,
    4468068147273140139091016147737,
];

} // verus!
