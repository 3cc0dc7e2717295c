//! The decisions of the program's instructions: what they check and how
//! they change the pool, position and tick state they are given.
use vstd::prelude::*;
use crate::constants::{MAX_TICK, MIN_LIQUIDITY, MIN_TICK};
use crate::errors::ErrorCode;
use crate::position::PositionData;
use crate::pubkey::Pubkey;
use crate::state::pool::{modify_liquidity_effect, unit_of, Pool};
use crate::tick::TickData;
use crate::tick_bitmap::trunc_rem;

verus! {

/// A new pool's mints must be given smaller key first
/// (`MintsNotInCanonicalOrder`).
pub fn check_mint_order(mint_a: &Pubkey, mint_b: &Pubkey) -> (r: Result<(), ErrorCode>)
    ensures
        r is Ok <==> mint_a.lt(*mint_b),
        r is Err ==> r == Err::<(), ErrorCode>(ErrorCode::MintsNotInCanonicalOrder),
{
    if mint_a.less_than(mint_b) {
        Ok(())
    } else {
        Err(ErrorCode::MintsNotInCanonicalOrder)
    }
}

/// What `validate_position_ticks` reports for a tick range.
pub open spec fn position_ticks_result(lower: int, upper: int, tick_spacing: int) -> Result<
    (),
    ErrorCode,
> {
    if lower >= upper || lower < MIN_TICK || upper > MAX_TICK {
        Err(ErrorCode::InvalidTickRange)
    } else if trunc_rem(lower, tick_spacing) != 0 || trunc_rem(upper, tick_spacing) != 0 {
        Err(ErrorCode::InvalidTickSpacing)
    } else {
        Ok(())
    }
}

/// A position's range must be ordered and within `[MIN_TICK, MAX_TICK]`
/// (`InvalidTickRange`), and both ticks must be multiples of the spacing
/// (`InvalidTickSpacing`).
pub fn validate_position_ticks(tick_lower_index: i32, tick_upper_index: i32, tick_spacing: u16) -> (r:
    Result<(), ErrorCode>)
    requires
        tick_spacing > 0,
    ensures
        r == position_ticks_result(
            tick_lower_index as int,
            tick_upper_index as int,
            tick_spacing as int,
        ),
{
    if tick_lower_index >= tick_upper_index {
        return Err(ErrorCode::InvalidTickRange);
    }
    if tick_lower_index < MIN_TICK || tick_upper_index > MAX_TICK {
        return Err(ErrorCode::InvalidTickRange);
    }
    let spacing = tick_spacing as i32;
    let lower_rem = tick_lower_index % spacing;
    let upper_rem = tick_upper_index % spacing;
    assert(lower_rem == trunc_rem(tick_lower_index as int, tick_spacing as int));
    assert(upper_rem == trunc_rem(tick_upper_index as int, tick_spacing as int));
    if lower_rem != 0 || upper_rem != 0 {
        return Err(ErrorCode::InvalidTickSpacing);
    }
    Ok(())
}

/// What `validate_mint_position` reports.
pub open spec fn mint_position_check(lower: int, upper: int, tick_spacing: int, liquidity: int) -> Result<
    (),
    ErrorCode,
> {
    match position_ticks_result(lower, upper, tick_spacing) {
        Err(e) => Err(e),
        Ok(()) => if liquidity == 0 {
            Err(ErrorCode::ZeroLiquidityDelta)
        } else if liquidity < MIN_LIQUIDITY {
            Err(ErrorCode::InvalidInput)
        } else {
            Ok(())
        },
    }
}

/// A new position's range must pass `validate_position_ticks`, and its
/// liquidity must not be zero (`ZeroLiquidityDelta`) or below
/// `MIN_LIQUIDITY` (`InvalidInput`).
pub fn validate_mint_position(
    tick_lower_index: i32,
    tick_upper_index: i32,
    tick_spacing: u16,
    liquidity_amount_desired: u128,
) -> (r: Result<(), ErrorCode>)
    requires
        tick_spacing > 0,
    ensures
        r == mint_position_check(
            tick_lower_index as int,
            tick_upper_index as int,
            tick_spacing as int,
            liquidity_amount_desired as int,
        ),
{
    match validate_position_ticks(tick_lower_index, tick_upper_index, tick_spacing) {
        Ok(()) => {},
        Err(e) => {
            return Err(e);
        },
    }
    if liquidity_amount_desired == 0 {
        return Err(ErrorCode::ZeroLiquidityDelta);
    }
    if liquidity_amount_desired < MIN_LIQUIDITY {
        return Err(ErrorCode::InvalidInput);
    }
    Ok(())
}

/// `t1` is the tick account `t0` once set up for `pool` at `index`: a
/// tick account that was just created (its pool is the all-zero key) gets
/// the pool, the index, no liquidity and zeroed padding; any other stays as
/// it is.
pub open spec fn tick_set_up(t0: TickData, t1: TickData, pool: Pubkey, index: i32) -> bool {
    &&& t0.pool == Pubkey::zeroed_spec() ==> t1.pool == pool && t1.index == index
        && t1.liquidity_gross == 0 && t1.liquidity_net == 0 && t1.initialized == 0
        && t1._padding0@ == Seq::new(32, |i: int| 0u8) && t1._padding1@ == Seq::new(
        27,
        |i: int| 0u8,
    )
    &&& t0.pool != Pubkey::zeroed_spec() ==> t1 == t0
}

/// A tick account that was just created (its pool is the all-zero key) is
/// set up for `pool` at `index`; any other is left as it is.
pub fn init_tick_if_new(tick: &mut TickData, pool: Pubkey, index: i32)
    ensures
        tick_set_up(*old(tick), *final(tick), pool, index),
{
    if tick.pool == Pubkey::zeroed() {
        tick.initialize(pool, index);
    }
}

/// The liquidity change of adding `liquidity` (as a signed delta).
pub open spec fn as_delta(liquidity: u128) -> int {
    (liquidity as i128) as int
}

/// Opens a position: the checks of `validate_mint_position`, then the
/// position is set up, new tick accounts are set up, and the liquidity is
/// added to the range with `Pool::modify_liquidity` (the liquidity taken
/// as an `i128`).
pub fn mint_position(
    pool: &mut Pool,
    pool_key: Pubkey,
    position: &mut PositionData,
    owner: Pubkey,
    tick_lower: &mut TickData,
    tick_upper: &mut TickData,
    tick_lower_index: i32,
    tick_upper_index: i32,
    liquidity_amount_desired: u128,
) -> (r: Result<(), ErrorCode>)
    requires
        old(pool).tick_spacing > 0,
        mint_position_check(
            tick_lower_index as int,
            tick_upper_index as int,
            old(pool).tick_spacing as int,
            liquidity_amount_desired as int,
        ) is Ok ==> old(pool).bitmap_ok(),
    ensures
        ({
            let check = mint_position_check(
                tick_lower_index as int,
                tick_upper_index as int,
                old(pool).tick_spacing as int,
                liquidity_amount_desired as int,
            );
            if check is Err {
                &&& r == check
                &&& *final(pool) == *old(pool)
                &&& *final(position) == *old(position)
                &&& *final(tick_lower) == *old(tick_lower)
                &&& *final(tick_upper) == *old(tick_upper)
            } else {
                &&& *final(position) == PositionData {
                    owner,
                    pool: pool_key,
                    tick_lower_index,
                    tick_upper_index,
                    liquidity: liquidity_amount_desired,
                }
                &&& exists|tl: TickData, tu: TickData|
                    {
                        &&& tick_set_up(*old(tick_lower), tl, pool_key, tick_lower_index)
                        &&& tick_set_up(*old(tick_upper), tu, pool_key, tick_upper_index)
                        &&& modify_liquidity_effect(
                            *old(pool),
                            *final(pool),
                            tl,
                            *final(tick_lower),
                            tu,
                            *final(tick_upper),
                            tick_lower_index as int,
                            tick_upper_index as int,
                            as_delta(liquidity_amount_desired),
                            r,
                            true,
                        )
                    }
            }
        }),
{
    match validate_mint_position(
        tick_lower_index,
        tick_upper_index,
        pool.tick_spacing,
        liquidity_amount_desired,
    ) {
        Ok(()) => {},
        Err(e) => {
            return Err(e);
        },
    }
    match position.initialize(
        owner,
        pool_key,
        tick_lower_index,
        tick_upper_index,
        liquidity_amount_desired,
    ) {
        Ok(()) => {},
        Err(e) => {
            return Err(e);
        },
    }
    init_tick_if_new(tick_lower, pool_key, tick_lower_index);
    init_tick_if_new(tick_upper, pool_key, tick_upper_index);
    let ghost tl = *tick_lower;
    let ghost tu = *tick_upper;
    let delta = #[verifier::truncate] (liquidity_amount_desired as i128);
    let r = pool.modify_liquidity(tick_lower_index, tick_upper_index, delta, tick_lower, tick_upper);
    assert(modify_liquidity_effect(
        *old(pool),
        *pool,
        tl,
        *tick_lower,
        tu,
        *tick_upper,
        tick_lower_index as int,
        tick_upper_index as int,
        as_delta(liquidity_amount_desired),
        r,
        true,
    ));
    r
}

/// The direction of a swap from the mints of the user's accounts: token 0
/// in (the output must be token 1) or token 1 in (the output must be token
/// 0). An input of neither mint is `InvalidInputMint`; a wrong output mint
/// is `InvalidOutputMint`.
pub fn swap_direction(
    input_mint: &Pubkey,
    output_mint: &Pubkey,
    token0_mint: &Pubkey,
    token1_mint: &Pubkey,
) -> (r: Result<bool, ErrorCode>)
    ensures
        r == if *input_mint == *token0_mint {
            if *output_mint == *token1_mint {
                Ok(true)
            } else {
                Err(ErrorCode::InvalidOutputMint)
            }
        } else if *input_mint == *token1_mint {
            if *output_mint == *token0_mint {
                Ok(false)
            } else {
                Err(ErrorCode::InvalidOutputMint)
            }
        } else {
            Err(ErrorCode::InvalidInputMint)
        },
{
    if *input_mint == *token0_mint {
        if *output_mint != *token1_mint {
            return Err(ErrorCode::InvalidOutputMint);
        }
        Ok(true)
    } else if *input_mint == *token1_mint {
        if *output_mint != *token0_mint {
            return Err(ErrorCode::InvalidOutputMint);
        }
        Ok(false)
    } else {
        Err(ErrorCode::InvalidInputMint)
    }
}

/// The amount a swap pays out: the output of the swap's (input, output)
/// amounts. It must not be zero (`ZeroOutputAmount`), must reach the user's
/// minimum (`SlippageExceeded`) and must fit in `u64` (`MathOverflow`).
pub fn check_swap_output(swapped: (u128, u128), amount_out_minimum: u64) -> (r: Result<u64, ErrorCode>)
    ensures
        r == if swapped.1 == 0 {
            Err(ErrorCode::ZeroOutputAmount)
        } else if swapped.1 < amount_out_minimum {
            Err(ErrorCode::SlippageExceeded)
        } else if swapped.1 > u64::MAX {
            Err(ErrorCode::MathOverflow)
        } else {
            Ok(swapped.1 as u64)
        },
{
    let amount_out = swapped.1;
    if amount_out == 0 {
        return Err(ErrorCode::ZeroOutputAmount);
    }
    if amount_out < amount_out_minimum as u128 {
        return Err(ErrorCode::SlippageExceeded);
    }
    if amount_out > u64::MAX as u128 {
        return Err(ErrorCode::MathOverflow);
    }
    Ok(amount_out as u64)
}

/// The position with its range moved to `[lower, upper)`.
pub open spec fn moved_position(p: PositionData, lower: i32, upper: i32) -> PositionData {
    PositionData { tick_lower_index: lower, tick_upper_index: upper, ..p }
}

/// The first half of moving a position to a new range: the new range must
/// pass `validate_position_ticks`; a position without liquidity just takes
/// the new range and returns zero; otherwise its liquidity is removed from
/// the old range with `Pool::modify_liquidity` (the liquidity taken as an
/// `i128` and negated), and only then does the position take the new range.
/// It returns the liquidity that the second half,
/// `update_position_add_liquidity`, adds to the new range.
pub fn update_position_remove_liquidity(
    pool: &mut Pool,
    position: &mut PositionData,
    old_tick_lower: &mut TickData,
    old_tick_upper: &mut TickData,
    new_tick_lower_index: i32,
    new_tick_upper_index: i32,
) -> (r: Result<u128, ErrorCode>)
    requires
        old(pool).tick_spacing > 0,
        position_ticks_result(
            new_tick_lower_index as int,
            new_tick_upper_index as int,
            old(pool).tick_spacing as int,
        ) is Ok && old(position).liquidity != 0 ==> old(pool).bitmap_ok() && as_delta(
            old(position).liquidity,
        ) != i128::MIN,
    ensures
        ({
            let check = position_ticks_result(
                new_tick_lower_index as int,
                new_tick_upper_index as int,
                old(pool).tick_spacing as int,
            );
            let moved = moved_position(*old(position), new_tick_lower_index, new_tick_upper_index);
            if check is Err {
                &&& r == Err::<u128, ErrorCode>(check->Err_0)
                &&& *final(pool) == *old(pool)
                &&& *final(position) == *old(position)
                &&& *final(old_tick_lower) == *old(old_tick_lower)
                &&& *final(old_tick_upper) == *old(old_tick_upper)
            } else if old(position).liquidity == 0 {
                &&& r == Ok::<u128, ErrorCode>(0)
                &&& *final(pool) == *old(pool)
                &&& *final(position) == moved
                &&& *final(old_tick_lower) == *old(old_tick_lower)
                &&& *final(old_tick_upper) == *old(old_tick_upper)
            } else {
                &&& modify_liquidity_effect(
                    *old(pool),
                    *final(pool),
                    *old(old_tick_lower),
                    *final(old_tick_lower),
                    *old(old_tick_upper),
                    *final(old_tick_upper),
                    old(position).tick_lower_index as int,
                    old(position).tick_upper_index as int,
                    -as_delta(old(position).liquidity),
                    unit_of(r),
                    true,
                )
                &&& r is Ok ==> r == Ok::<u128, ErrorCode>(old(position).liquidity) && *final(position)
                    == moved
                &&& r is Err ==> *final(position) == *old(position)
            }
        }),
{
    match validate_position_ticks(new_tick_lower_index, new_tick_upper_index, pool.tick_spacing) {
        Ok(()) => {},
        Err(e) => {
            return Err(e);
        },
    }
    let liquidity_to_move = position.liquidity;
    if liquidity_to_move == 0 {
        position.tick_lower_index = new_tick_lower_index;
        position.tick_upper_index = new_tick_upper_index;
        return Ok(0);
    }
    let delta = #[verifier::truncate] (liquidity_to_move as i128);
    match pool.modify_liquidity(
        position.tick_lower_index,
        position.tick_upper_index,
        -delta,
        old_tick_lower,
        old_tick_upper,
    ) {
        Ok(()) => {},
        Err(e) => {
            return Err(e);
        },
    }
    position.tick_lower_index = new_tick_lower_index;
    position.tick_upper_index = new_tick_upper_index;
    Ok(liquidity_to_move)
}

/// The second half of moving a position: with liquidity to move, the new
/// range's tick accounts are set up when they were just created, and the
/// liquidity is added to the new range with `Pool::modify_liquidity` (taken
/// as an `i128`). Without liquidity nothing happens.
pub fn update_position_add_liquidity(
    pool: &mut Pool,
    pool_key: Pubkey,
    new_tick_lower: &mut TickData,
    new_tick_upper: &mut TickData,
    new_tick_lower_index: i32,
    new_tick_upper_index: i32,
    liquidity: u128,
) -> (r: Result<(), ErrorCode>)
    requires
        liquidity != 0 ==> old(pool).bitmap_ok(),
    ensures
        liquidity == 0 ==> r is Ok && *final(pool) == *old(pool) && *final(new_tick_lower) == *old(
            new_tick_lower,
        ) && *final(new_tick_upper) == *old(new_tick_upper),
        liquidity != 0 ==> exists|tl: TickData, tu: TickData|
            {
                &&& tick_set_up(*old(new_tick_lower), tl, pool_key, new_tick_lower_index)
                &&& tick_set_up(*old(new_tick_upper), tu, pool_key, new_tick_upper_index)
                &&& modify_liquidity_effect(
                    *old(pool),
                    *final(pool),
                    tl,
                    *final(new_tick_lower),
                    tu,
                    *final(new_tick_upper),
                    new_tick_lower_index as int,
                    new_tick_upper_index as int,
                    as_delta(liquidity),
                    r,
                    true,
                )
            },
{
    if liquidity == 0 {
        return Ok(());
    }
    init_tick_if_new(new_tick_lower, pool_key, new_tick_lower_index);
    init_tick_if_new(new_tick_upper, pool_key, new_tick_upper_index);
    let ghost tl = *new_tick_lower;
    let ghost tu = *new_tick_upper;
    let delta = #[verifier::truncate] (liquidity as i128);
    let r = pool.modify_liquidity(
        new_tick_lower_index,
        new_tick_upper_index,
        delta,
        new_tick_lower,
        new_tick_upper,
    );
    assert(modify_liquidity_effect(
        *old(pool),
        *pool,
        tl,
        *new_tick_lower,
        tu,
        *new_tick_upper,
        new_tick_lower_index as int,
        new_tick_upper_index as int,
        as_delta(liquidity),
        r,
        true,
    ));
    r
}

} // verus!
