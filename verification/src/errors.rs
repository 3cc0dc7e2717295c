use vstd::prelude::*;

verus! {

/// The failures that the AMM core's operations report.
#[derive(Debug, Clone, Copy, PartialEq, Eq, Structural)]
pub enum ErrorCode {
    /// A checked arithmetic operation overflowed or underflowed.
    MathOverflow,
    /// A tick index lies outside the supported range or is not aligned.
    InvalidTickRange,
    /// The tick spacing is zero or the ticks are not multiples of it.
    InvalidTickSpacing,
    /// A computation would have produced zero output or divided by zero.
    ZeroOutputAmount,
    /// The initial square-root price is zero or above the maximum.
    InvalidInitialPrice,
    /// The input parameters are not acceptable.
    InvalidInput,
    /// The lower price bound exceeds the upper one.
    InvalidPriceRange,
    /// A compressed tick maps to a bitmap word index outside `i16`.
    TickWordIndexOutOfBounds,
    /// The two mints of a pool are the same.
    MintsMustDiffer,
    /// Not enough liquidity for the operation.
    InsufficientLiquidity,
    /// A liquidity change of zero was requested.
    ZeroLiquidityDelta,
    /// A tick that a swap must cross was not supplied.
    TickNotFound,
    /// The output of a swap is below the caller's minimum.
    SlippageExceeded,
    /// The mints of a new pool are not in canonical order.
    MintsNotInCanonicalOrder,
    /// The input token account does not match either pool mint.
    InvalidInputMint,
    /// The output token account does not match the expected mint.
    InvalidOutputMint,
    /// The position still holds liquidity.
    PositionNotEmpty,
    /// The oracle holds no usable observation.
    OracleNotInitialized,
    /// An observation's timestamp is not after the last one.
    OracleInvalidTimestamp,
    /// The oracle cannot answer with the data it holds.
    OracleInsufficientData,
    /// The requested cardinality exceeds the oracle's maximum.
    OracleCardinalityTooLarge,
    /// The time since the previous observation does not fit in `u16`.
    ObservationTimeDeltaTooLarge,
    /// The requested observation cardinality is not acceptable.
    InvalidObservationCardinality,
    /// An observation index lies outside the buffer.
    ObservationIndexOutOfBounds,
    /// The oracle holds no observation.
    NoObservations,
    /// A price lies outside the supported range.
    PriceOutOfRange,
    /// A token vault is not the pool's vault.
    InvalidTokenVault,
    /// A vault's mint is not the pool's mint.
    InvalidVaultMint,
    /// The position still has fees to collect.
    PositionFeesNotCollected,
    /// No observation lies on the requested boundary.
    ObservationBoundaryError,
}

} // verus!
