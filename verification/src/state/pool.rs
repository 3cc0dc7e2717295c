//! A liquidity pool: its configuration, price, active liquidity and tick
//! bitmap, and the operations that change them.
use vstd::prelude::*;
use std::collections::BTreeMap;
use crate::codec::{borsh_bitmap_bytes, borsh_bitmap_parse, decode_bitmap, encode_bitmap};
use crate::constants::{BPS_DENOMINATOR, MAX_SQRT_PRICE};
use crate::arith::lemma_div_bounds;
use crate::errors::ErrorCode;
use crate::math::{
    amount0_delta_result, amount0_delta_safe, amount1_delta_result, amount1_delta_safe, ceil_div,
    compute_next_sqrt_price_from_amount0_in, compute_next_sqrt_price_from_amount1_in,
    get_amount_0_delta, get_amount_1_delta, is_floor_tick, next0_result, next0_safe, next1_result,
    next1_safe, amount0_delta_is_safe, amount1_delta_is_safe, next0_is_safe, next1_is_safe, round_up_div, sqrt_price_q64_to_tick, tick_in_range, tick_sqrt_price,
    tick_to_sqrt_price_q64,
};
use crate::pubkey::Pubkey;
use crate::wide::{b128, b256, b64};
use crate::tick::{lemma_liquidity_change_undone, liquidity_change, unsigned_abs_i128, TickData};
use crate::tick_bitmap::{
    compress_ok, flip_outcome, flip_tick_initialized_status, is_set_in, lemma_flip_marks,
    next_initialized_tick, next_tick_spec, trunc_div,
};

verus! {

broadcast use vstd::std_specs::btree::group_btree_axioms;

/// The most bytes that the encoded tick bitmap may take.
pub const MAX_SERIALIZED_BITMAP_BYTES: usize = 1280;

/// A liquidity pool.
#[derive(Clone, Debug, Default)]
pub struct Pool {
    /// The bump seed of the pool's address.
    pub bump: u8,
    /// The factory that created the pool.
    pub factory: Pubkey,
    /// The mint of token 0.
    pub token0_mint: Pubkey,
    /// The mint of token 1.
    pub token1_mint: Pubkey,
    /// The vault that holds token 0.
    pub token0_vault: Pubkey,
    /// The vault that holds token 1.
    pub token1_vault: Pubkey,
    /// The swap fee in basis points.
    pub fee_rate: u16,
    /// The spacing between usable ticks.
    pub tick_spacing: u16,
    /// The square root of the price, in Q64.64.
    pub sqrt_price_q64: u128,
    /// The current tick.
    pub current_tick: i32,
    /// The liquidity active at the current price.
    pub liquidity: u128,
    /// The tick bitmap (word index to word), encoded by borsh.
    pub tick_bitmap_data: Vec<u8>,
}

/// What a new pool is made from.
#[derive(Clone, Debug)]
pub struct InitializePoolParams {
    pub bump: u8,
    pub factory: Pubkey,
    pub token0_mint: Pubkey,
    pub token1_mint: Pubkey,
    pub token0_vault: Pubkey,
    pub token1_vault: Pubkey,
    pub initial_sqrt_price_q64: u128,
    pub fee_rate: u16,
    pub tick_spacing: u16,
}

impl Pool {
    /// The size of a pool account in bytes, discriminator included.
    pub const LEN: usize = 1493;

    /// The encoded bitmap can be read.
    pub open spec fn bitmap_ok(&self) -> bool {
        borsh_bitmap_parse(self.tick_bitmap_data@) is Some
    }

    /// The bitmap that the encoded bytes hold.
    pub open spec fn bitmap(&self) -> Map<i16, u64> {
        borsh_bitmap_parse(self.tick_bitmap_data@).unwrap()
    }
}

/// Two pools agree on everything but their liquidity and bitmap bytes.
pub open spec fn same_config(a: Pool, b: Pool) -> bool {
    &&& a.bump == b.bump
    &&& a.factory == b.factory
    &&& a.token0_mint == b.token0_mint
    &&& a.token1_mint == b.token1_mint
    &&& a.token0_vault == b.token0_vault
    &&& a.token1_vault == b.token1_vault
    &&& a.fee_rate == b.fee_rate
    &&& a.tick_spacing == b.tick_spacing
    &&& a.sqrt_price_q64 == b.sqrt_price_q64
    &&& a.current_tick == b.current_tick
}

/// The bitmap and the tick after a liquidity change at a tick, and the
/// outcome: the tick is updated first, and the bitmap marks the tick as
/// initialized or not only when that succeeded.
pub open spec fn tick_change_outcome(
    m: Map<i16, u64>,
    t: TickData,
    tick_index: int,
    tick_spacing: int,
    delta: int,
    is_upper_tick: bool,
) -> (Map<i16, u64>, TickData, Result<(), ErrorCode>) {
    let (t1, r1) = liquidity_change(t, delta, is_upper_tick);
    if r1 is Err {
        (m, t1, r1)
    } else {
        let (m1, r2) = flip_outcome(m, tick_index, tick_spacing, t1.initialized != 0);
        (m1, t1, r2)
    }
}

/// The pool's active liquidity after a change of `delta` in `[lower, upper)`:
/// it changes only when the current tick lies in the range, and leaving
/// `u128` is `MathOverflow`.
pub open spec fn pool_liquidity_outcome(
    liquidity: int,
    current_tick: int,
    lower: int,
    upper: int,
    delta: int,
) -> Result<u128, ErrorCode> {
    if current_tick >= lower && current_tick < upper && delta != 0 {
        if 0 <= liquidity + delta <= u128::MAX {
            Ok((liquidity + delta) as u128)
        } else {
            Err(ErrorCode::MathOverflow)
        }
    } else {
        Ok(liquidity as u128)
    }
}

/// The unit result of a liquidity outcome.
pub open spec fn unit_of(r: Result<u128, ErrorCode>) -> Result<(), ErrorCode> {
    match r {
        Ok(_) => Ok(()),
        Err(e) => Err(e),
    }
}

/// What a liquidity change of `delta` on `[lower, upper)` does to the pool
/// `p0` (giving `p1`) and its boundary ticks `tl0`, `tu0` (giving `tl1`,
/// `tu1`), returning `r`: the lower tick first, then the upper tick, then
/// the active liquidity, stopping at the first error with the earlier steps
/// kept. With `write_each` the bitmap bytes are rewritten after each tick;
/// without it, once after both.
pub open spec fn modify_liquidity_effect(
    p0: Pool,
    p1: Pool,
    tl0: TickData,
    tl1: TickData,
    tu0: TickData,
    tu1: TickData,
    lower: int,
    upper: int,
    delta: int,
    r: Result<(), ErrorCode>,
    write_each: bool,
) -> bool {
    let spacing = p0.tick_spacing as int;
    let (m1, l1, r1) = tick_change_outcome(p0.bitmap(), tl0, lower, spacing, delta, false);
    let (m2, u1, r2) = tick_change_outcome(m1, tu0, upper, spacing, delta, true);
    let lq = pool_liquidity_outcome(p0.liquidity as int, p0.current_tick as int, lower, upper, delta);
    &&& same_config(p1, p0)
    &&& tl1 == l1
    &&& tu1 == if r1 is Err {
        tu0
    } else {
        u1
    }
    &&& p1.tick_bitmap_data@ == if r1 is Err {
        p0.tick_bitmap_data@
    } else if r2 is Err {
        if write_each {
            borsh_bitmap_bytes(m1)
        } else {
            p0.tick_bitmap_data@
        }
    } else {
        borsh_bitmap_bytes(m2)
    }
    &&& p1.bitmap_ok()
    &&& p1.bitmap() == if r1 is Err {
        p0.bitmap()
    } else if r2 is Err {
        if write_each {
            m1
        } else {
            p0.bitmap()
        }
    } else {
        m2
    }
    &&& p1.liquidity == if r1 is Ok && r2 is Ok && lq is Ok {
        lq.unwrap()
    } else {
        p0.liquidity
    }
    &&& r == if r1 is Err {
        r1
    } else if r2 is Err {
        r2
    } else {
        unit_of(lq)
    }
}

/// The input that takes the price from `current` to `target`, rounded up:
/// token 0 when the price falls (`zero_for_one`), token 1 when it rises.
pub open spec fn max_input_result(current: u128, target: u128, liquidity: u128, zero_for_one: bool) -> Result<
    u128,
    ErrorCode,
> {
    if zero_for_one {
        amount0_delta_result(target as nat, current as nat, liquidity as nat, true)
    } else {
        amount1_delta_result(current as nat, target as nat, liquidity as nat, true)
    }
}

/// `max_input_result` is computed without a panic.
pub open spec fn max_input_safe(current: u128, target: u128, liquidity: u128, zero_for_one: bool) -> bool {
    if zero_for_one {
        amount0_delta_safe(target as nat, current as nat, liquidity as nat, true)
    } else {
        amount1_delta_safe(current as nat, target as nat, liquidity as nat, true)
    }
}

/// The price after a net input of `amount` at `current`.
pub open spec fn next_price_result(current: u128, liquidity: u128, amount: u128, zero_for_one: bool) -> Result<
    u128,
    ErrorCode,
> {
    if zero_for_one {
        next0_result(current as nat, liquidity as nat, amount as nat)
    } else {
        next1_result(current as nat, liquidity as nat, amount as nat)
    }
}

/// `next_price_result` is computed without a panic.
pub open spec fn next_price_safe(current: u128, liquidity: u128, amount: u128, zero_for_one: bool) -> bool {
    if zero_for_one {
        next0_safe(current as nat, liquidity as nat, amount as nat)
    } else {
        next1_safe(liquidity as nat, amount as nat)
    }
}

/// The output of a move from `current` to `next`, rounded down: token 1
/// when the price falls, token 0 when it rises.
pub open spec fn output_result(current: u128, next: u128, liquidity: u128, zero_for_one: bool) -> Result<
    u128,
    ErrorCode,
> {
    if zero_for_one {
        amount1_delta_result(next as nat, current as nat, liquidity as nat, false)
    } else {
        amount0_delta_result(current as nat, next as nat, liquidity as nat, false)
    }
}

/// `output_result` is computed without a panic.
pub open spec fn output_safe(current: u128, next: u128, liquidity: u128, zero_for_one: bool) -> bool {
    if zero_for_one {
        amount1_delta_safe(next as nat, current as nat, liquidity as nat, false)
    } else {
        amount0_delta_safe(current as nat, next as nat, liquidity as nat, false)
    }
}

/// The input left after the fee: `amount * (10000 - fee) / 10000`.
pub open spec fn net_after_fee(amount: u128, fee_rate_bps: u16) -> u128 {
    (amount * (BPS_DENOMINATOR - fee_rate_bps) / BPS_DENOMINATOR as int) as u128
}

/// The gross input that pays for a net input after the fee:
/// `ceil(net * 10000 / (10000 - fee))`.
pub open spec fn gross_for_net(net: u128, fee_rate_bps: u16) -> u128 {
    ceil_div((net * BPS_DENOMINATOR) as nat, (BPS_DENOMINATOR - fee_rate_bps) as nat) as u128
}

/// The price a step reaches with all its input: the price that the net input
/// takes it to, but not past the target, which the rounding of that price
/// could otherwise cross.
pub open spec fn step_clamp(next: u128, target: u128, zero_for_one: bool) -> u128 {
    if zero_for_one {
        if next < target {
            target
        } else {
            next
        }
    } else {
        if next > target {
            target
        } else {
            next
        }
    }
}

/// The last part of a swap step: the output of the move to `next`, and no
/// step at all when no input was consumed.
pub open spec fn step_finish(
    current: u128,
    next: u128,
    liquidity: u128,
    zero_for_one: bool,
    gross: u128,
) -> Result<(u128, u128, u128), ErrorCode> {
    match output_result(current, next, liquidity, zero_for_one) {
        Err(e) => Err(e),
        Ok(out) => if gross == 0 {
            Ok((0, 0, current))
        } else {
            Ok((gross, out, next))
        },
    }
}

/// One step of an exact-input swap towards `target`: the gross input
/// consumed, the output and the price reached. Zero liquidity moves
/// nothing. The net input (after the fee) is compared with what reaching
/// the target takes: when it suffices, the target is reached and the input
/// is what that takes grossed up for the fee; otherwise all the input is
/// consumed and the price moves as far as the net input takes it, but not
/// past the target (see `step_clamp`). A fee above 100% or an overflow of
/// the grossing is `MathOverflow`.
pub open spec fn swap_step_spec(
    current: u128,
    target: u128,
    liquidity: u128,
    amount_remaining: u128,
    fee_rate_bps: u16,
    zero_for_one: bool,
) -> Result<(u128, u128, u128), ErrorCode> {
    if liquidity == 0 {
        Ok((0, 0, current))
    } else if fee_rate_bps > BPS_DENOMINATOR || amount_remaining * (BPS_DENOMINATOR - fee_rate_bps)
        > u128::MAX {
        Err(ErrorCode::MathOverflow)
    } else {
        let net = net_after_fee(amount_remaining, fee_rate_bps);
        match max_input_result(current, target, liquidity, zero_for_one) {
            Err(e) => Err(e),
            Ok(max_in) => if net >= max_in {
                if max_in * BPS_DENOMINATOR > u128::MAX {
                    Err(ErrorCode::MathOverflow)
                } else {
                    step_finish(
                        current,
                        target,
                        liquidity,
                        zero_for_one,
                        gross_for_net(max_in, fee_rate_bps),
                    )
                }
            } else {
                match next_price_result(current, liquidity, net, zero_for_one) {
                    Err(e) => Err(e),
                    Ok(next) => step_finish(
                        current,
                        step_clamp(next, target, zero_for_one),
                        liquidity,
                        zero_for_one,
                        amount_remaining,
                    ),
                }
            },
        }
    }
}

/// The inputs on which a swap step returns rather than panics: the
/// amounts and prices it computes fit in 128 bits, a price it inverts is at
/// least 2, and a fee of exactly 100% does not meet an input that reaches
/// the target.
pub open spec fn swap_step_safe(
    current: u128,
    target: u128,
    liquidity: u128,
    amount_remaining: u128,
    fee_rate_bps: u16,
    zero_for_one: bool,
) -> bool {
    liquidity == 0 || fee_rate_bps > BPS_DENOMINATOR || amount_remaining * (BPS_DENOMINATOR
        - fee_rate_bps) > u128::MAX || {
        let net = net_after_fee(amount_remaining, fee_rate_bps);
        &&& max_input_safe(current, target, liquidity, zero_for_one)
        &&& match max_input_result(current, target, liquidity, zero_for_one) {
            Err(_) => true,
            Ok(max_in) => if net >= max_in {
                max_in * BPS_DENOMINATOR > u128::MAX || (fee_rate_bps < BPS_DENOMINATOR
                    && output_safe(current, target, liquidity, zero_for_one))
            } else {
                &&& next_price_safe(current, liquidity, net, zero_for_one)
                &&& match next_price_result(current, liquidity, net, zero_for_one) {
                    Err(_) => true,
                    Ok(next) => output_safe(
                        current,
                        step_clamp(next, target, zero_for_one),
                        liquidity,
                        zero_for_one,
                    ),
                }
            },
        }
    }
}

/// The running state of a swap.
#[derive(Clone, Copy, Debug)]
pub struct SwapState {
    /// The gross input not yet swapped.
    pub amount_remaining: u128,
    /// The gross input swapped so far.
    pub total_in: u128,
    /// The output produced so far.
    pub total_out: u128,
    /// The current square-root price.
    pub sqrt_price: u128,
    /// The tick the search for the next initialized tick starts from.
    pub tick: i32,
    /// The active liquidity.
    pub liquidity: u128,
}

/// What one round of the swap loop does: stop with a final state, go on
/// with a new state, or fail with an error and the liquidity at that point.
pub enum SwapIteration {
    Stop(SwapState),
    Next(SwapState),
    Fail(ErrorCode, u128),
}

/// How a whole swap ends: with its final state, or with an error and the
/// liquidity at that point.
pub enum SwapOutcome {
    Finished(SwapState),
    Failed(ErrorCode, u128),
}

/// What `tick_to_sqrt_price_q64` returns.
pub open spec fn tick_price_result(tick: i32) -> Result<u128, ErrorCode> {
    if tick_in_range(tick as int) {
        Ok(tick_sqrt_price(tick as int) as u128)
    } else {
        Err(ErrorCode::InvalidTickRange)
    }
}

/// The index of the first tick from `from` on with the given index and
/// pool, if any.
pub open spec fn first_match(ticks: Seq<TickData>, index: i32, pool_key: Pubkey, from: int) -> Option<
    int,
>
    decreases ticks.len() - from,
{
    if from < 0 || from >= ticks.len() {
        None
    } else if ticks[from].index == index && ticks[from].pool == pool_key {
        Some(from)
    } else {
        first_match(ticks, index, pool_key, from + 1)
    }
}

/// The price a swap step aims at: the next initialized tick's price, but
/// not beyond the limit.
pub open spec fn step_target(price_at_next: u128, limit: u128, zero_for_one: bool) -> u128 {
    if zero_for_one {
        if price_at_next >= limit {
            price_at_next
        } else {
            limit
        }
    } else {
        if price_at_next <= limit {
            price_at_next
        } else {
            limit
        }
    }
}

/// The price limit has been reached.
pub open spec fn limit_reached(price: u128, limit: u128, zero_for_one: bool) -> bool {
    (zero_for_one && price <= limit) || (!zero_for_one && price >= limit)
}

/// One round of the swap loop from state `s`, for a pool with bitmap `m`,
/// tick spacing and fee, swapping towards `limit` with the supplied ticks:
/// stop at the limit; find the next initialized tick and aim at its price
/// (or the limit); take a swap step; add up the amounts; stop when the step
/// consumed nothing; when the step ends exactly at an initialized tick,
/// cross it: apply its net liquidity (subtracted when the price falls) and
/// go on from it. A tick to cross whose data is not supplied is crossed
/// without a change of liquidity.
pub open spec fn swap_iteration(
    m: Map<i16, u64>,
    tick_spacing: u16,
    fee_rate: u16,
    limit: u128,
    zero_for_one: bool,
    ticks: Seq<TickData>,
    pool_key: Pubkey,
    s: SwapState,
) -> SwapIteration {
    if limit_reached(s.sqrt_price, limit, zero_for_one) {
        SwapIteration::Stop(s)
    } else {
        match next_tick_spec(m, s.tick as int, tick_spacing as int, zero_for_one) {
            Err(e) => SwapIteration::Fail(e, s.liquidity),
            Ok(next_tick) => {
                let price_next = match next_tick {
                    Some(t) => tick_price_result(t),
                    None => Ok(limit),
                };
                match price_next {
                    Err(e) => SwapIteration::Fail(e, s.liquidity),
                    Ok(pn) => match swap_step_spec(
                        s.sqrt_price,
                        step_target(pn, limit, zero_for_one),
                        s.liquidity,
                        s.amount_remaining,
                        fee_rate,
                        zero_for_one,
                    ) {
                        Err(e) => SwapIteration::Fail(e, s.liquidity),
                        Ok((gin, gout, np)) => if s.total_in + gin > u128::MAX || s.total_out + gout
                            > u128::MAX || s.amount_remaining < gin {
                            SwapIteration::Fail(ErrorCode::MathOverflow, s.liquidity)
                        } else {
                            let s1 = SwapState {
                                amount_remaining: (s.amount_remaining - gin) as u128,
                                total_in: (s.total_in + gin) as u128,
                                total_out: (s.total_out + gout) as u128,
                                sqrt_price: np,
                                ..s
                            };
                            if gin == 0 {
                                SwapIteration::Stop(s1)
                            } else if np == pn && next_tick is Some {
                                let t = next_tick.unwrap();
                                match first_match(ticks, t, pool_key, 0) {
                                    None => SwapIteration::Next(SwapState { tick: t, ..s1 }),
                                    Some(j) => {
                                        let net = ticks[j].liquidity_net;
                                        let sum = (s1.liquidity as i128) + if zero_for_one {
                                            -net
                                        } else {
                                            net as int
                                        };
                                        if i128::MIN <= sum <= i128::MAX {
                                            SwapIteration::Next(
                                                SwapState {
                                                    liquidity: (sum as i128) as u128,
                                                    tick: t,
                                                    ..s1
                                                },
                                            )
                                        } else {
                                            SwapIteration::Fail(ErrorCode::MathOverflow, s1.liquidity)
                                        }
                                    },
                                }
                            } else {
                                SwapIteration::Next(s1)
                            }
                        },
                    },
                }
            },
        }
    }
}

/// One round of the swap loop from `s` runs without a panic: its swap step
/// is safe, and a tick it crosses while the price falls does not hold the
/// one net liquidity whose negation overflows.
pub open spec fn swap_iteration_safe(
    m: Map<i16, u64>,
    tick_spacing: u16,
    fee_rate: u16,
    limit: u128,
    zero_for_one: bool,
    ticks: Seq<TickData>,
    pool_key: Pubkey,
    s: SwapState,
) -> bool {
    limit_reached(s.sqrt_price, limit, zero_for_one) || match next_tick_spec(
        m,
        s.tick as int,
        tick_spacing as int,
        zero_for_one,
    ) {
        Err(_) => true,
        Ok(next_tick) => {
            let price_next = match next_tick {
                Some(t) => tick_price_result(t),
                None => Ok(limit),
            };
            match price_next {
                Err(_) => true,
                Ok(pn) => {
                    let target = step_target(pn, limit, zero_for_one);
                    &&& swap_step_safe(
                        s.sqrt_price,
                        target,
                        s.liquidity,
                        s.amount_remaining,
                        fee_rate,
                        zero_for_one,
                    )
                    &&& match swap_step_spec(
                        s.sqrt_price,
                        target,
                        s.liquidity,
                        s.amount_remaining,
                        fee_rate,
                        zero_for_one,
                    ) {
                        Err(_) => true,
                        Ok((gin, gout, np)) => gin == 0 || !(np == pn && next_tick is Some)
                            || match first_match(ticks, next_tick.unwrap(), pool_key, 0) {
                            None => true,
                            Some(j) => !(zero_for_one && ticks[j].liquidity_net == i128::MIN),
                        },
                    }
                },
            }
        },
    }
}

/// The whole swap loop from `s`: rounds until the input is used up, a round
/// stops or a round fails.
pub open spec fn swap_run(
    m: Map<i16, u64>,
    tick_spacing: u16,
    fee_rate: u16,
    limit: u128,
    zero_for_one: bool,
    ticks: Seq<TickData>,
    pool_key: Pubkey,
    s: SwapState,
) -> SwapOutcome
    decreases s.amount_remaining,
{
    if s.amount_remaining == 0 {
        SwapOutcome::Finished(s)
    } else {
        match swap_iteration(m, tick_spacing, fee_rate, limit, zero_for_one, ticks, pool_key, s) {
            SwapIteration::Stop(s1) => SwapOutcome::Finished(s1),
            SwapIteration::Fail(e, l) => SwapOutcome::Failed(e, l),
            SwapIteration::Next(s1) => if s1.amount_remaining < s.amount_remaining {
                swap_run(m, tick_spacing, fee_rate, limit, zero_for_one, ticks, pool_key, s1)
            } else {
                SwapOutcome::Finished(s1)
            },
        }
    }
}

/// Every round of the swap loop from `s` runs without a panic.
pub open spec fn swap_run_safe(
    m: Map<i16, u64>,
    tick_spacing: u16,
    fee_rate: u16,
    limit: u128,
    zero_for_one: bool,
    ticks: Seq<TickData>,
    pool_key: Pubkey,
    s: SwapState,
) -> bool
    decreases s.amount_remaining,
{
    s.amount_remaining == 0 || {
        &&& swap_iteration_safe(m, tick_spacing, fee_rate, limit, zero_for_one, ticks, pool_key, s)
        &&& match swap_iteration(m, tick_spacing, fee_rate, limit, zero_for_one, ticks, pool_key, s) {
            SwapIteration::Next(s1) => s1.amount_remaining < s.amount_remaining ==> swap_run_safe(
                m,
                tick_spacing,
                fee_rate,
                limit,
                zero_for_one,
                ticks,
                pool_key,
                s1,
            ),
            _ => true,
        }
    }
}

/// The whole swap loop from `s` as `swap_checked` runs it: `swap_run`, but
/// a round that would panic (see `swap_iteration_safe`) fails with
/// `MathOverflow` and the liquidity at that point.
pub open spec fn swap_run_checked(
    m: Map<i16, u64>,
    tick_spacing: u16,
    fee_rate: u16,
    limit: u128,
    zero_for_one: bool,
    ticks: Seq<TickData>,
    pool_key: Pubkey,
    s: SwapState,
) -> SwapOutcome
    decreases s.amount_remaining,
{
    if s.amount_remaining == 0 {
        SwapOutcome::Finished(s)
    } else if !swap_iteration_safe(m, tick_spacing, fee_rate, limit, zero_for_one, ticks, pool_key, s) {
        SwapOutcome::Failed(ErrorCode::MathOverflow, s.liquidity)
    } else {
        match swap_iteration(m, tick_spacing, fee_rate, limit, zero_for_one, ticks, pool_key, s) {
            SwapIteration::Stop(s1) => SwapOutcome::Finished(s1),
            SwapIteration::Fail(e, l) => SwapOutcome::Failed(e, l),
            SwapIteration::Next(s1) => if s1.amount_remaining < s.amount_remaining {
                swap_run_checked(m, tick_spacing, fee_rate, limit, zero_for_one, ticks, pool_key, s1)
            } else {
                SwapOutcome::Finished(s1)
            },
        }
    }
}

/// Where no round of the swap loop would panic, `swap_checked` runs it
/// exactly as `swap` does.
pub proof fn lemma_swap_run_checked_agrees(
    m: Map<i16, u64>,
    tick_spacing: u16,
    fee_rate: u16,
    limit: u128,
    zero_for_one: bool,
    ticks: Seq<TickData>,
    pool_key: Pubkey,
    s: SwapState,
)
    requires
        swap_run_safe(m, tick_spacing, fee_rate, limit, zero_for_one, ticks, pool_key, s),
    ensures
        swap_run_checked(m, tick_spacing, fee_rate, limit, zero_for_one, ticks, pool_key, s)
            == swap_run(m, tick_spacing, fee_rate, limit, zero_for_one, ticks, pool_key, s),
    decreases s.amount_remaining,
{
    if s.amount_remaining != 0 {
        if let SwapIteration::Next(s1) = swap_iteration(
            m,
            tick_spacing,
            fee_rate,
            limit,
            zero_for_one,
            ticks,
            pool_key,
            s,
        ) {
            if s1.amount_remaining < s.amount_remaining {
                lemma_swap_run_checked_agrees(m, tick_spacing, fee_rate, limit, zero_for_one, ticks, pool_key, s1);
            }
        }
    }
}

/// What `swap_checked` does to the pool `p0` (giving `p1`), returning `r`
/// (see `swap_run_checked`): a zero amount swaps nothing and a negative one
/// is `InvalidInput`; otherwise the pool keeps its setup and ends with the
/// price, floor tick and liquidity the loop reached, or, on an error, with
/// its price and tick and the liquidity at the failing round.
pub open spec fn swap_checked_effect(
    p0: Pool,
    p1: Pool,
    zero_for_one: bool,
    amount_specified: i128,
    sqrt_price_limit_q64: u128,
    pool_key: Pubkey,
    ticks: Seq<TickData>,
    r: Result<(u128, u128), ErrorCode>,
) -> bool {
    if amount_specified <= 0 {
        p1 == p0 && r == if amount_specified == 0 {
            Ok((0u128, 0u128))
        } else {
            Err(ErrorCode::InvalidInput)
        }
    } else {
        same_setup(p1, p0) && match swap_run_checked(
            p0.bitmap(),
            p0.tick_spacing,
            p0.fee_rate,
            sqrt_price_limit_q64,
            zero_for_one,
            ticks,
            pool_key,
            swap_start(p0, amount_specified as u128),
        ) {
            SwapOutcome::Finished(sf) => {
                &&& r == Ok::<(u128, u128), ErrorCode>((sf.total_in, sf.total_out))
                &&& price_within_limit(p0.sqrt_price_q64, sf.sqrt_price, sqrt_price_limit_q64, zero_for_one)
                &&& p1.sqrt_price_q64 == sf.sqrt_price
                &&& p1.liquidity == sf.liquidity
                &&& tick_in_range(p1.current_tick as int)
                &&& is_floor_tick(sf.sqrt_price as nat, p1.current_tick as int)
            },
            SwapOutcome::Failed(e, l) => {
                &&& r == Err::<(u128, u128), ErrorCode>(e)
                &&& p1.sqrt_price_q64 == p0.sqrt_price_q64
                &&& p1.current_tick == p0.current_tick
                &&& p1.liquidity == l
            },
        }
    }
}

/// The state a swap of `amount` starts from on pool `p`.
pub open spec fn swap_start(p: Pool, amount: u128) -> SwapState {
    SwapState {
        amount_remaining: amount,
        total_in: 0,
        total_out: 0,
        sqrt_price: p.sqrt_price_q64,
        tick: p.current_tick,
        liquidity: p.liquidity,
    }
}

/// Two pools agree on everything but their price, tick and liquidity.
pub open spec fn same_setup(a: Pool, b: Pool) -> bool {
    &&& a.bump == b.bump
    &&& a.factory == b.factory
    &&& a.token0_mint == b.token0_mint
    &&& a.token1_mint == b.token1_mint
    &&& a.token0_vault == b.token0_vault
    &&& a.token1_vault == b.token1_vault
    &&& a.fee_rate == b.fee_rate
    &&& a.tick_spacing == b.tick_spacing
    &&& a.tick_bitmap_data == b.tick_bitmap_data
}

/// Whether a swap step returns on these arguments (see `swap_step_safe`),
/// rather than panicking.
pub fn swap_step_is_safe(
    sqrt_price_current_q64: u128,
    sqrt_price_target_q64: u128,
    step_liquidity: u128,
    amount_remaining_gross_input: u128,
    fee_rate_bps: u16,
    zero_for_one: bool,
) -> (r: bool)
    ensures
        r == swap_step_safe(
            sqrt_price_current_q64,
            sqrt_price_target_q64,
            step_liquidity,
            amount_remaining_gross_input,
            fee_rate_bps,
            zero_for_one,
        ),
{
    let current = sqrt_price_current_q64;
    let target = sqrt_price_target_q64;
    let liquidity = step_liquidity;
    let amount = amount_remaining_gross_input;
    if liquidity == 0 || fee_rate_bps as u128 > BPS_DENOMINATOR {
        return true;
    }
    let scaled = match amount.checked_mul(BPS_DENOMINATOR - fee_rate_bps as u128) {
        Some(v) => v,
        None => {
            return true;
        },
    };
    let net = scaled / BPS_DENOMINATOR;
    let max_in_safe = if zero_for_one {
        amount0_delta_is_safe(target, current, liquidity, true)
    } else {
        amount1_delta_is_safe(current, target, liquidity, true)
    };
    if !max_in_safe {
        return false;
    }
    let max_in_result = if zero_for_one {
        get_amount_0_delta(target, current, liquidity, true)
    } else {
        get_amount_1_delta(current, target, liquidity, true)
    };
    let max_in = match max_in_result {
        Ok(v) => v,
        Err(_) => {
            return true;
        },
    };
    if net >= max_in {
        if max_in.checked_mul(BPS_DENOMINATOR).is_none() {
            return true;
        }
        let output_safe_at_target = if zero_for_one {
            amount1_delta_is_safe(target, current, liquidity, false)
        } else {
            amount0_delta_is_safe(current, target, liquidity, false)
        };
        (fee_rate_bps as u128) < BPS_DENOMINATOR && output_safe_at_target
    } else {
        let next_safe = if zero_for_one {
            next0_is_safe(current, liquidity, net)
        } else {
            next1_is_safe(liquidity, net)
        };
        if !next_safe {
            return false;
        }
        let next_result = if zero_for_one {
            compute_next_sqrt_price_from_amount0_in(current, liquidity, net)
        } else {
            compute_next_sqrt_price_from_amount1_in(current, liquidity, net)
        };
        match next_result {
            Ok(reached) => if zero_for_one {
                let next = if reached < target {
                    target
                } else {
                    reached
                };
                amount1_delta_is_safe(next, current, liquidity, false)
            } else {
                let next = if reached > target {
                    target
                } else {
                    reached
                };
                amount0_delta_is_safe(current, next, liquidity, false)
            },
            Err(_) => true,
        }
    }
}

/// The first supplied tick with the given index and pool.
fn find_tick(ticks: &[TickData], index: i32, pool_key: &Pubkey) -> (r: Option<usize>)
    ensures
        match r {
            Some(j) => j < ticks@.len() && first_match(ticks@, index, *pool_key, 0) == Some(j as int),
            None => first_match(ticks@, index, *pool_key, 0) is None,
        },
{
    let mut j: usize = 0;
    while j < ticks.len()
        invariant
            j <= ticks.len(),
            first_match(ticks@, index, *pool_key, 0) == first_match(ticks@, index, *pool_key, j as int),
        decreases ticks.len() - j,
    {
        if ticks[j].index == index && ticks[j].pool == *pool_key {
            return Some(j);
        }
        j = j + 1;
    }
    None
}

impl Pool {
    /// Sets up a new pool: the mints must differ (`MintsMustDiffer`), the
    /// price must lie in `(0, MAX_SQRT_PRICE]` (`InvalidInitialPrice`) and
    /// the spacing must not be zero (`InvalidTickSpacing`); on an error the
    /// pool is left as it was. The pool starts with no liquidity, the floor
    /// tick of its price and an empty bitmap.
    pub fn initialize(&mut self, params: InitializePoolParams) -> (r: Result<(), ErrorCode>)
        ensures
            match r {
                Ok(()) => {
                    &&& params.token0_mint != params.token1_mint
                    &&& 0 < params.initial_sqrt_price_q64 <= MAX_SQRT_PRICE
                    &&& params.tick_spacing != 0
                    &&& final(self).bump == params.bump
                    &&& final(self).factory == params.factory
                    &&& final(self).token0_mint == params.token0_mint
                    &&& final(self).token1_mint == params.token1_mint
                    &&& final(self).token0_vault == params.token0_vault
                    &&& final(self).token1_vault == params.token1_vault
                    &&& final(self).fee_rate == params.fee_rate
                    &&& final(self).tick_spacing == params.tick_spacing
                    &&& final(self).sqrt_price_q64 == params.initial_sqrt_price_q64
                    &&& tick_in_range(final(self).current_tick as int)
                    &&& is_floor_tick(
                        params.initial_sqrt_price_q64 as nat,
                        final(self).current_tick as int,
                    )
                    &&& final(self).liquidity == 0
                    &&& final(self).tick_bitmap_data@ == borsh_bitmap_bytes(Map::empty())
                    &&& final(self).bitmap_ok()
                    &&& final(self).bitmap() == Map::<i16, u64>::empty()
                },
                Err(e) => *final(self) == *old(self) && if params.token0_mint
                    == params.token1_mint {
                    e == ErrorCode::MintsMustDiffer
                } else if params.initial_sqrt_price_q64 == 0 || params.initial_sqrt_price_q64
                    > MAX_SQRT_PRICE {
                    e == ErrorCode::InvalidInitialPrice
                } else {
                    params.tick_spacing == 0 && e == ErrorCode::InvalidTickSpacing
                },
            },
    {
        if params.token0_mint == params.token1_mint {
            return Err(ErrorCode::MintsMustDiffer);
        }
        if params.initial_sqrt_price_q64 == 0 || params.initial_sqrt_price_q64 > MAX_SQRT_PRICE {
            return Err(ErrorCode::InvalidInitialPrice);
        }
        if params.tick_spacing == 0 {
            return Err(ErrorCode::InvalidTickSpacing);
        }
        let current_tick = match sqrt_price_q64_to_tick(params.initial_sqrt_price_q64) {
            Ok(t) => t,
            Err(e) => {
                return Err(e);
            },
        };
        self.bump = params.bump;
        self.factory = params.factory;
        self.token0_mint = params.token0_mint;
        self.token1_mint = params.token1_mint;
        self.token0_vault = params.token0_vault;
        self.token1_vault = params.token1_vault;
        self.fee_rate = params.fee_rate;
        self.tick_spacing = params.tick_spacing;
        self.sqrt_price_q64 = params.initial_sqrt_price_q64;
        self.current_tick = current_tick;
        self.liquidity = 0;
        let empty: BTreeMap<i16, u64> = BTreeMap::new();
        self.tick_bitmap_data = encode_bitmap(&empty);
        assert(empty@ =~= Map::<i16, u64>::empty());
        Ok(())
    }

    /// Applies a liquidity change to one boundary tick and marks the tick in
    /// the bitmap as initialized or not (see `tick_change_outcome`); the
    /// bitmap bytes are rewritten only when both steps succeed.
    fn process_tick_liquidity_change(
        &mut self,
        tick_index: i32,
        liquidity_delta: i128,
        is_upper_tick: bool,
        tick_data: &mut TickData,
    ) -> (r: Result<(), ErrorCode>)
        requires
            old(self).bitmap_ok(),
        ensures
            ({
                let (m1, t1, r1) = tick_change_outcome(
                    old(self).bitmap(),
                    *old(tick_data),
                    tick_index as int,
                    old(self).tick_spacing as int,
                    liquidity_delta as int,
                    is_upper_tick,
                );
                &&& r == r1
                &&& *final(tick_data) == t1
                &&& same_config(*final(self), *old(self))
                &&& final(self).liquidity == old(self).liquidity
                &&& final(self).tick_bitmap_data@ == if r1 is Ok {
                    borsh_bitmap_bytes(m1)
                } else {
                    old(self).tick_bitmap_data@
                }
                &&& final(self).bitmap_ok()
                &&& r1 is Ok ==> final(self).bitmap() == m1
            }),
    {
        let mut map = match decode_bitmap(self.tick_bitmap_data.as_slice()) {
            Some(m) => m,
            None => {
                proof {
                    assert(false);
                }
                return Err(ErrorCode::InvalidInput);
            },
        };
        match tick_data.update_on_liquidity_change(liquidity_delta, is_upper_tick) {
            Ok(()) => {},
            Err(e) => {
                return Err(e);
            },
        }
        match flip_tick_initialized_status(
            &mut map,
            tick_index,
            self.tick_spacing,
            tick_data.initialized != 0,
        ) {
            Ok(()) => {},
            Err(e) => {
                return Err(e);
            },
        }
        self.tick_bitmap_data = encode_bitmap(&map);
        Ok(())
    }

    /// Adds `delta` to the active liquidity when the current tick lies in
    /// `[lower, upper)` (see `pool_liquidity_outcome`).
    fn apply_liquidity_delta(&mut self, tick_lower_index: i32, tick_upper_index: i32, liquidity_delta: i128) -> (r: Result<(), ErrorCode>)
        ensures
            ({
                let lq = pool_liquidity_outcome(
                    old(self).liquidity as int,
                    old(self).current_tick as int,
                    tick_lower_index as int,
                    tick_upper_index as int,
                    liquidity_delta as int,
                );
                &&& r == unit_of(lq)
                &&& same_config(*final(self), *old(self))
                &&& final(self).tick_bitmap_data == old(self).tick_bitmap_data
                &&& final(self).liquidity == match lq {
                    Ok(l) => l,
                    Err(_) => old(self).liquidity,
                }
            }),
    {
        if self.current_tick >= tick_lower_index && self.current_tick < tick_upper_index {
            if liquidity_delta > 0 {
                self.liquidity = match self.liquidity.checked_add(liquidity_delta as u128) {
                    Some(v) => v,
                    None => {
                        return Err(ErrorCode::MathOverflow);
                    },
                };
            } else if liquidity_delta < 0 {
                let liq_delta_abs = unsigned_abs_i128(liquidity_delta);
                self.liquidity = match self.liquidity.checked_sub(liq_delta_abs) {
                    Some(v) => v,
                    None => {
                        return Err(ErrorCode::MathOverflow);
                    },
                };
            }
        }
        Ok(())
    }

    /// Changes the liquidity of the range `[tick_lower_index,
    /// tick_upper_index)` by `liquidity_delta`: the lower tick, then the upper
    /// tick (each with its bitmap mark, the bitmap bytes rewritten after
    /// each), then the active liquidity when the current tick lies in the
    /// range. The first error stops it, with the earlier steps kept.
    pub fn modify_liquidity(
        &mut self,
        tick_lower_index: i32,
        tick_upper_index: i32,
        liquidity_delta: i128,
        tick_lower_data: &mut TickData,
        tick_upper_data: &mut TickData,
    ) -> (r: Result<(), ErrorCode>)
        requires
            old(self).bitmap_ok(),
        ensures
            modify_liquidity_effect(
                *old(self),
                *final(self),
                *old(tick_lower_data),
                *final(tick_lower_data),
                *old(tick_upper_data),
                *final(tick_upper_data),
                tick_lower_index as int,
                tick_upper_index as int,
                liquidity_delta as int,
                r,
                true,
            ),
    {
        match self.process_tick_liquidity_change(
            tick_lower_index,
            liquidity_delta,
            false,
            tick_lower_data,
        ) {
            Ok(()) => {},
            Err(e) => {
                return Err(e);
            },
        }
        match self.process_tick_liquidity_change(
            tick_upper_index,
            liquidity_delta,
            true,
            tick_upper_data,
        ) {
            Ok(()) => {},
            Err(e) => {
                return Err(e);
            },
        }
        self.apply_liquidity_delta(tick_lower_index, tick_upper_index, liquidity_delta)
    }

    /// `modify_liquidity` with the bitmap read once and written once, after
    /// both ticks: an error in either tick leaves the bitmap bytes as they
    /// were.
    pub fn modify_liquidity_for_test(
        &mut self,
        tick_lower_index: i32,
        tick_upper_index: i32,
        liquidity_delta: i128,
        tick_lower_data: &mut TickData,
        tick_upper_data: &mut TickData,
    ) -> (r: Result<(), ErrorCode>)
        requires
            old(self).bitmap_ok(),
        ensures
            modify_liquidity_effect(
                *old(self),
                *final(self),
                *old(tick_lower_data),
                *final(tick_lower_data),
                *old(tick_upper_data),
                *final(tick_upper_data),
                tick_lower_index as int,
                tick_upper_index as int,
                liquidity_delta as int,
                r,
                false,
            ),
    {
        let mut map = match decode_bitmap(self.tick_bitmap_data.as_slice()) {
            Some(m) => m,
            None => {
                proof {
                    assert(false);
                }
                return Err(ErrorCode::InvalidInput);
            },
        };
        match tick_lower_data.update_on_liquidity_change(liquidity_delta, false) {
            Ok(()) => {},
            Err(e) => {
                return Err(e);
            },
        }
        match flip_tick_initialized_status(
            &mut map,
            tick_lower_index,
            self.tick_spacing,
            tick_lower_data.initialized != 0,
        ) {
            Ok(()) => {},
            Err(e) => {
                return Err(e);
            },
        }
        match tick_upper_data.update_on_liquidity_change(liquidity_delta, true) {
            Ok(()) => {},
            Err(e) => {
                return Err(e);
            },
        }
        match flip_tick_initialized_status(
            &mut map,
            tick_upper_index,
            self.tick_spacing,
            tick_upper_data.initialized != 0,
        ) {
            Ok(()) => {},
            Err(e) => {
                return Err(e);
            },
        }
        self.tick_bitmap_data = encode_bitmap(&map);
        self.apply_liquidity_delta(tick_lower_index, tick_upper_index, liquidity_delta)
    }

    /// One step of an exact-input swap (see `swap_step_spec`): the gross
    /// input consumed, the output produced and the price reached.
    pub fn swap_step(
        &self,
        sqrt_price_current_q64: u128,
        sqrt_price_target_q64: u128,
        step_liquidity: u128,
        amount_remaining_gross_input: u128,
        fee_rate_bps: u16,
        zero_for_one: bool,
    ) -> (r: Result<(u128, u128, u128), ErrorCode>)
        requires
            swap_step_safe(
                sqrt_price_current_q64,
                sqrt_price_target_q64,
                step_liquidity,
                amount_remaining_gross_input,
                fee_rate_bps,
                zero_for_one,
            ),
        ensures
            r == swap_step_spec(
                sqrt_price_current_q64,
                sqrt_price_target_q64,
                step_liquidity,
                amount_remaining_gross_input,
                fee_rate_bps,
                zero_for_one,
            ),
    {
        if step_liquidity == 0 {
            return Ok((0, 0, sqrt_price_current_q64));
        }
        let fee_rate_u128 = fee_rate_bps as u128;
        let fee_denominator = match BPS_DENOMINATOR.checked_sub(fee_rate_u128) {
            Some(v) => v,
            None => {
                return Err(ErrorCode::MathOverflow);
            },
        };
        let scaled = match amount_remaining_gross_input.checked_mul(fee_denominator) {
            Some(v) => v,
            None => {
                return Err(ErrorCode::MathOverflow);
            },
        };
        let net_amount_remaining_input = scaled / BPS_DENOMINATOR;
        let max_net_input_to_reach_target = if zero_for_one {
            get_amount_0_delta(sqrt_price_target_q64, sqrt_price_current_q64, step_liquidity, true)
        } else {
            get_amount_1_delta(sqrt_price_current_q64, sqrt_price_target_q64, step_liquidity, true)
        };
        let max_net_input_to_reach_target = match max_net_input_to_reach_target {
            Ok(v) => v,
            Err(e) => {
                return Err(e);
            },
        };
        let gross_amount_in_consumed: u128;
        let next_sqrt_price_q64: u128;
        if net_amount_remaining_input >= max_net_input_to_reach_target {
            let scaled_in = match max_net_input_to_reach_target.checked_mul(BPS_DENOMINATOR) {
                Some(v) => v,
                None => {
                    return Err(ErrorCode::MathOverflow);
                },
            };
            proof {
                crate::arith::lemma_div_bounds(scaled_in as nat, fee_denominator as nat);
                crate::arith::lemma_div_antimono(scaled_in as nat, 1, fee_denominator as nat);
            }
            gross_amount_in_consumed = round_up_div(scaled_in, fee_denominator);
            next_sqrt_price_q64 = sqrt_price_target_q64;
        } else {
            gross_amount_in_consumed = amount_remaining_gross_input;
            let next = if zero_for_one {
                compute_next_sqrt_price_from_amount0_in(
                    sqrt_price_current_q64,
                    step_liquidity,
                    net_amount_remaining_input,
                )
            } else {
                compute_next_sqrt_price_from_amount1_in(
                    sqrt_price_current_q64,
                    step_liquidity,
                    net_amount_remaining_input,
                )
            };
            let reached = match next {
                Ok(v) => v,
                Err(e) => {
                    return Err(e);
                },
            };
            next_sqrt_price_q64 = if zero_for_one {
                if reached < sqrt_price_target_q64 {
                    sqrt_price_target_q64
                } else {
                    reached
                }
            } else {
                if reached > sqrt_price_target_q64 {
                    sqrt_price_target_q64
                } else {
                    reached
                }
            };
        }
        let net_amount_out_produced = if zero_for_one {
            get_amount_1_delta(next_sqrt_price_q64, sqrt_price_current_q64, step_liquidity, false)
        } else {
            get_amount_0_delta(sqrt_price_current_q64, next_sqrt_price_q64, step_liquidity, false)
        };
        let net_amount_out_produced = match net_amount_out_produced {
            Ok(v) => v,
            Err(e) => {
                return Err(e);
            },
        };
        if gross_amount_in_consumed == 0 {
            return Ok((0, 0, sqrt_price_current_q64));
        }
        Ok((gross_amount_in_consumed, net_amount_out_produced, next_sqrt_price_q64))
    }

    /// Whether one round of the swap loop from `s` runs without a panic (see
    /// `swap_iteration_safe`).
    fn swap_round_is_safe(
        &self,
        s: SwapState,
        sqrt_price_limit_q64: u128,
        zero_for_one: bool,
        pool_key: &Pubkey,
        ticks: &[TickData],
    ) -> (r: bool)
        requires
            self.bitmap_ok(),
        ensures
            r == swap_iteration_safe(
                self.bitmap(),
                self.tick_spacing,
                self.fee_rate,
                sqrt_price_limit_q64,
                zero_for_one,
                ticks@,
                *pool_key,
                s,
            ),
    {
        if (zero_for_one && s.sqrt_price <= sqrt_price_limit_q64) || (!zero_for_one && s.sqrt_price
            >= sqrt_price_limit_q64) {
            return true;
        }
        let current_tick_bitmap = match decode_bitmap(self.tick_bitmap_data.as_slice()) {
            Some(b) => b,
            None => {
                proof {
                    assert(false);
                }
                return true;
            },
        };
        let next_tick_opt = match next_initialized_tick(
            &current_tick_bitmap,
            s.tick,
            self.tick_spacing,
            zero_for_one,
        ) {
            Ok(v) => v,
            Err(_) => {
                return true;
            },
        };
        let price_at_next = match next_tick_opt {
            Some(tick_index) => match tick_to_sqrt_price_q64(tick_index) {
                Ok(p) => p,
                Err(_) => {
                    return true;
                },
            },
            None => sqrt_price_limit_q64,
        };
        let target = if zero_for_one {
            if price_at_next >= sqrt_price_limit_q64 {
                price_at_next
            } else {
                sqrt_price_limit_q64
            }
        } else {
            if price_at_next <= sqrt_price_limit_q64 {
                price_at_next
            } else {
                sqrt_price_limit_q64
            }
        };
        if !swap_step_is_safe(
            s.sqrt_price,
            target,
            s.liquidity,
            s.amount_remaining,
            self.fee_rate,
            zero_for_one,
        ) {
            return false;
        }
        let (gross_in, _, next_price) = match self.swap_step(
            s.sqrt_price,
            target,
            s.liquidity,
            s.amount_remaining,
            self.fee_rate,
            zero_for_one,
        ) {
            Ok(v) => v,
            Err(_) => {
                return true;
            },
        };
        if gross_in == 0 || next_price != price_at_next {
            return true;
        }
        match next_tick_opt {
            None => true,
            Some(t) => match find_tick(ticks, t, pool_key) {
                None => true,
                Some(j) => !(zero_for_one && ticks[j].liquidity_net == i128::MIN),
            },
        }
    }

    /// One round of the swap loop from `s` (see `swap_iteration`): the new
    /// state and whether the loop goes on, or the error.
    fn swap_round(
        &self,
        s: SwapState,
        sqrt_price_limit_q64: u128,
        zero_for_one: bool,
        pool_key: &Pubkey,
        ticks: &[TickData],
    ) -> (r: Result<(SwapState, bool), ErrorCode>)
        requires
            self.bitmap_ok(),
            swap_iteration_safe(
                self.bitmap(),
                self.tick_spacing,
                self.fee_rate,
                sqrt_price_limit_q64,
                zero_for_one,
                ticks@,
                *pool_key,
                s,
            ),
        ensures
            match swap_iteration(
                self.bitmap(),
                self.tick_spacing,
                self.fee_rate,
                sqrt_price_limit_q64,
                zero_for_one,
                ticks@,
                *pool_key,
                s,
            ) {
                SwapIteration::Stop(s1) => r == Ok::<(SwapState, bool), ErrorCode>((s1, false)),
                SwapIteration::Next(s1) => r == Ok::<(SwapState, bool), ErrorCode>((s1, true)),
                SwapIteration::Fail(e, l) => r == Err::<(SwapState, bool), ErrorCode>(e) && l
                    == s.liquidity,
            },
    {
        if (zero_for_one && s.sqrt_price <= sqrt_price_limit_q64) || (!zero_for_one && s.sqrt_price
            >= sqrt_price_limit_q64) {
            return Ok((s, false));
        }
        let current_tick_bitmap = match decode_bitmap(self.tick_bitmap_data.as_slice()) {
            Some(b) => b,
            None => {
                proof {
                    assert(false);
                }
                return Err(ErrorCode::InvalidInput);
            },
        };
        let next_initialized_tick_index_opt = match next_initialized_tick(
            &current_tick_bitmap,
            s.tick,
            self.tick_spacing,
            zero_for_one,
        ) {
            Ok(v) => v,
            Err(e) => {
                return Err(e);
            },
        };
        let sqrt_price_at_next_tick_q64 = match next_initialized_tick_index_opt {
            Some(tick_index) => match tick_to_sqrt_price_q64(tick_index) {
                Ok(p) => p,
                Err(e) => {
                    return Err(e);
                },
            },
            None => sqrt_price_limit_q64,
        };
        let sqrt_price_target_for_step_q64 = if zero_for_one {
            if sqrt_price_at_next_tick_q64 >= sqrt_price_limit_q64 {
                sqrt_price_at_next_tick_q64
            } else {
                sqrt_price_limit_q64
            }
        } else {
            if sqrt_price_at_next_tick_q64 <= sqrt_price_limit_q64 {
                sqrt_price_at_next_tick_q64
            } else {
                sqrt_price_limit_q64
            }
        };
        let (step_gross_in, step_net_out, next_step_sqrt_price_q64) = match self.swap_step(
            s.sqrt_price,
            sqrt_price_target_for_step_q64,
            s.liquidity,
            s.amount_remaining,
            self.fee_rate,
            zero_for_one,
        ) {
            Ok(v) => v,
            Err(e) => {
                return Err(e);
            },
        };
        let total_in = match s.total_in.checked_add(step_gross_in) {
            Some(v) => v,
            None => {
                return Err(ErrorCode::MathOverflow);
            },
        };
        let total_out = match s.total_out.checked_add(step_net_out) {
            Some(v) => v,
            None => {
                return Err(ErrorCode::MathOverflow);
            },
        };
        let amount_remaining = match s.amount_remaining.checked_sub(step_gross_in) {
            Some(v) => v,
            None => {
                return Err(ErrorCode::MathOverflow);
            },
        };
        let s1 = SwapState {
            amount_remaining,
            total_in,
            total_out,
            sqrt_price: next_step_sqrt_price_q64,
            tick: s.tick,
            liquidity: s.liquidity,
        };
        if step_gross_in == 0 {
            return Ok((s1, false));
        }
        if next_step_sqrt_price_q64 == sqrt_price_at_next_tick_q64 {
            if let Some(next_tick_idx) = next_initialized_tick_index_opt {
                return match find_tick(ticks, next_tick_idx, pool_key) {
                    None => Ok((SwapState { tick: next_tick_idx, ..s1 }, true)),
                    Some(j) => {
                        let liquidity_net_change = ticks[j].liquidity_net;
                        let change = if zero_for_one {
                            -liquidity_net_change
                        } else {
                            liquidity_net_change
                        };
                        let current = #[verifier::truncate] (s1.liquidity as i128);
                        match current.checked_add(change) {
                            Some(v) => Ok(
                                (
                                    SwapState {
                                        liquidity: #[verifier::truncate] (v as u128),
                                        tick: next_tick_idx,
                                        ..s1
                                    },
                                    true,
                                ),
                            ),
                            None => Err(ErrorCode::MathOverflow),
                        }
                    },
                };
            }
        }
        Ok((s1, true))
    }

    /// Swaps an exact input of `amount_specified` of token 0
    /// (`zero_for_one`) or token 1 towards `sqrt_price_limit_q64`, crossing
    /// the initialized ticks on the way with the supplied tick data, a tick
    /// without supplied data leaving the liquidity as it is (see
    /// `swap_run`), and returns the input consumed and the output produced.
    /// A zero amount swaps nothing; a negative one is `InvalidInput`. At the
    /// end the pool holds the price reached, which lies between the old price
    /// and the limit, and its floor tick; the input used is at most the
    /// amount. On an error only the liquidity of the ticks crossed so far has
    /// been applied.
    pub fn swap(
        &mut self,
        zero_for_one: bool,
        amount_specified: i128,
        sqrt_price_limit_q64: u128,
        pool_key: &Pubkey,
        ticks: &[TickData],
        _current_timestamp: i64,
    ) -> (r: Result<(u128, u128), ErrorCode>)
        requires
            amount_specified > 0 ==> old(self).bitmap_ok(),
            amount_specified > 0 ==> swap_run_safe(
                old(self).bitmap(),
                old(self).tick_spacing,
                old(self).fee_rate,
                sqrt_price_limit_q64,
                zero_for_one,
                ticks@,
                *pool_key,
                swap_start(*old(self), amount_specified as u128),
            ),
        ensures
            amount_specified <= 0 ==> *final(self) == *old(self) && r == if amount_specified == 0 {
                Ok((0u128, 0u128))
            } else {
                Err(ErrorCode::InvalidInput)
            },
            amount_specified > 0 ==> same_setup(*final(self), *old(self)) && match swap_run(
                old(self).bitmap(),
                old(self).tick_spacing,
                old(self).fee_rate,
                sqrt_price_limit_q64,
                zero_for_one,
                ticks@,
                *pool_key,
                swap_start(*old(self), amount_specified as u128),
            ) {
                SwapOutcome::Finished(sf) => {
                    &&& r == Ok::<(u128, u128), ErrorCode>((sf.total_in, sf.total_out))
                    &&& sf.total_in <= amount_specified
                    &&& zero_for_one ==> sf.sqrt_price <= old(self).sqrt_price_q64
                    &&& !zero_for_one ==> sf.sqrt_price >= old(self).sqrt_price_q64
                    &&& price_within_limit(
                        old(self).sqrt_price_q64,
                        sf.sqrt_price,
                        sqrt_price_limit_q64,
                        zero_for_one,
                    )
                    &&& final(self).sqrt_price_q64 == sf.sqrt_price
                    &&& final(self).liquidity == sf.liquidity
                    &&& tick_in_range(final(self).current_tick as int)
                    &&& is_floor_tick(sf.sqrt_price as nat, final(self).current_tick as int)
                },
                SwapOutcome::Failed(e, l) => {
                    &&& r == Err::<(u128, u128), ErrorCode>(e)
                    &&& final(self).sqrt_price_q64 == old(self).sqrt_price_q64
                    &&& final(self).current_tick == old(self).current_tick
                    &&& final(self).liquidity == l
                },
            },
    {
        if amount_specified <= 0 {
            if amount_specified == 0 {
                return Ok((0, 0));
            } else {
                return Err(ErrorCode::InvalidInput);
            }
        }
        let amount_to_swap_gross: u128 = amount_specified as u128;
        let ghost m = self.bitmap();
        let ghost p0 = *self;
        let ghost s0 = swap_start(*self, amount_to_swap_gross);
        let mut st = SwapState {
            amount_remaining: amount_to_swap_gross,
            total_in: 0,
            total_out: 0,
            sqrt_price: self.sqrt_price_q64,
            tick: self.current_tick,
            liquidity: self.liquidity,
        };
        loop
            invariant
                amount_specified > 0,
                p0 == *old(self),
                m == p0.bitmap(),
                s0 == swap_start(p0, amount_specified as u128),
                self.bitmap_ok(),
                self.bitmap() == m,
                same_setup(*self, p0),
                self.sqrt_price_q64 == p0.sqrt_price_q64,
                self.current_tick == p0.current_tick,
                self.liquidity == st.liquidity,
                swap_run(
                    m,
                    p0.tick_spacing,
                    p0.fee_rate,
                    sqrt_price_limit_q64,
                    zero_for_one,
                    ticks@,
                    *pool_key,
                    st,
                ) == swap_run(
                    m,
                    p0.tick_spacing,
                    p0.fee_rate,
                    sqrt_price_limit_q64,
                    zero_for_one,
                    ticks@,
                    *pool_key,
                    s0,
                ),
                swap_run_safe(
                    m,
                    p0.tick_spacing,
                    p0.fee_rate,
                    sqrt_price_limit_q64,
                    zero_for_one,
                    ticks@,
                    *pool_key,
                    st,
                ),
            ensures
                self.bitmap_ok(),
                same_setup(*self, p0),
                self.sqrt_price_q64 == p0.sqrt_price_q64,
                self.current_tick == p0.current_tick,
                self.liquidity == st.liquidity,
                swap_run(
                    m,
                    p0.tick_spacing,
                    p0.fee_rate,
                    sqrt_price_limit_q64,
                    zero_for_one,
                    ticks@,
                    *pool_key,
                    s0,
                ) == SwapOutcome::Finished(st),
            decreases st.amount_remaining,
        {
            if st.amount_remaining == 0 {
                break;
            }
            let (s1, go_on) = match self.swap_round(
                st,
                sqrt_price_limit_q64,
                zero_for_one,
                pool_key,
                ticks,
            ) {
                Ok(v) => v,
                Err(e) => {
                    return Err(e);
                },
            };
            st = s1;
            self.liquidity = s1.liquidity;
            if !go_on {
                break;
            }
        }
        proof {
            lemma_swap_run_within_limit(
                m,
                p0.tick_spacing,
                p0.fee_rate,
                sqrt_price_limit_q64,
                zero_for_one,
                ticks@,
                *pool_key,
                s0,
            );
            lemma_swap_bounded_and_directed(
                p0,
                zero_for_one,
                amount_specified as u128,
                sqrt_price_limit_q64,
                ticks@,
                *pool_key,
            );
        }
        self.sqrt_price_q64 = st.sqrt_price;
        self.current_tick = match sqrt_price_q64_to_tick(st.sqrt_price) {
            Ok(t) => t,
            Err(e) => {
                return Err(e);
            },
        };
        Ok((st.total_in, st.total_out))
    }

    /// `swap` for every input (see `swap_run_checked`): where a round of the
    /// swap loop would panic, it stops there with `MathOverflow` instead,
    /// leaving the price and the tick as they were and the liquidity as that
    /// round found it. Where no round would panic, it is `swap` (see
    /// `lemma_swap_run_checked_agrees`).
    pub fn swap_checked(
        &mut self,
        zero_for_one: bool,
        amount_specified: i128,
        sqrt_price_limit_q64: u128,
        pool_key: &Pubkey,
        ticks: &[TickData],
        _current_timestamp: i64,
    ) -> (r: Result<(u128, u128), ErrorCode>)
        requires
            amount_specified > 0 ==> old(self).bitmap_ok(),
        ensures
            swap_checked_effect(
                *old(self),
                *final(self),
                zero_for_one,
                amount_specified,
                sqrt_price_limit_q64,
                *pool_key,
                ticks@,
                r,
            ),
    {
        if amount_specified <= 0 {
            if amount_specified == 0 {
                return Ok((0, 0));
            } else {
                return Err(ErrorCode::InvalidInput);
            }
        }
        let amount_to_swap_gross: u128 = amount_specified as u128;
        let ghost m = self.bitmap();
        let ghost p0 = *self;
        let ghost s0 = swap_start(*self, amount_to_swap_gross);
        let mut st = SwapState {
            amount_remaining: amount_to_swap_gross,
            total_in: 0,
            total_out: 0,
            sqrt_price: self.sqrt_price_q64,
            tick: self.current_tick,
            liquidity: self.liquidity,
        };
        loop
            invariant
                amount_specified > 0,
                p0 == *old(self),
                m == p0.bitmap(),
                s0 == swap_start(p0, amount_specified as u128),
                self.bitmap_ok(),
                self.bitmap() == m,
                same_setup(*self, p0),
                self.sqrt_price_q64 == p0.sqrt_price_q64,
                self.current_tick == p0.current_tick,
                self.liquidity == st.liquidity,
                swap_run_checked(
                    m,
                    p0.tick_spacing,
                    p0.fee_rate,
                    sqrt_price_limit_q64,
                    zero_for_one,
                    ticks@,
                    *pool_key,
                    st,
                ) == swap_run_checked(
                    m,
                    p0.tick_spacing,
                    p0.fee_rate,
                    sqrt_price_limit_q64,
                    zero_for_one,
                    ticks@,
                    *pool_key,
                    s0,
                ),
            ensures
                self.bitmap_ok(),
                same_setup(*self, p0),
                self.sqrt_price_q64 == p0.sqrt_price_q64,
                self.current_tick == p0.current_tick,
                self.liquidity == st.liquidity,
                swap_run_checked(
                    m,
                    p0.tick_spacing,
                    p0.fee_rate,
                    sqrt_price_limit_q64,
                    zero_for_one,
                    ticks@,
                    *pool_key,
                    s0,
                ) == SwapOutcome::Finished(st),
            decreases st.amount_remaining,
        {
            if st.amount_remaining == 0 {
                break;
            }
            if !self.swap_round_is_safe(st, sqrt_price_limit_q64, zero_for_one, pool_key, ticks) {
                return Err(ErrorCode::MathOverflow);
            }
            let (s1, go_on) = match self.swap_round(
                st,
                sqrt_price_limit_q64,
                zero_for_one,
                pool_key,
                ticks,
            ) {
                Ok(v) => v,
                Err(e) => {
                    return Err(e);
                },
            };
            st = s1;
            self.liquidity = s1.liquidity;
            if !go_on {
                break;
            }
        }
        proof {
            lemma_swap_run_within_limit(
                m,
                p0.tick_spacing,
                p0.fee_rate,
                sqrt_price_limit_q64,
                zero_for_one,
                ticks@,
                *pool_key,
                s0,
            );
        }
        self.sqrt_price_q64 = st.sqrt_price;
        self.current_tick = match sqrt_price_q64_to_tick(st.sqrt_price) {
            Ok(t) => t,
            Err(e) => {
                return Err(e);
            },
        };
        Ok((st.total_in, st.total_out))
    }

    /// `swap_checked` on a pool whose bitmap bytes can be read; `None`,
    /// with nothing changed, when a positive amount meets bytes that cannot
    /// be read.
    pub fn try_swap(
        &mut self,
        zero_for_one: bool,
        amount_specified: i128,
        sqrt_price_limit_q64: u128,
        pool_key: &Pubkey,
        ticks: &[TickData],
        current_timestamp: i64,
    ) -> (r: Option<Result<(u128, u128), ErrorCode>>)
        ensures
            r is None <==> amount_specified > 0 && !old(self).bitmap_ok(),
            r is None ==> *final(self) == *old(self),
            r matches Some(res) ==> swap_checked_effect(
                *old(self),
                *final(self),
                zero_for_one,
                amount_specified,
                sqrt_price_limit_q64,
                *pool_key,
                ticks@,
                res,
            ),
    {
        if amount_specified > 0 && self.decode_tick_bitmap().is_none() {
            return None;
        }
        Some(
            self.swap_checked(
                zero_for_one,
                amount_specified,
                sqrt_price_limit_q64,
                pool_key,
                ticks,
                current_timestamp,
            ),
        )
    }

    /// Reads the pool's tick bitmap, or `None` when its bytes cannot be read.
    pub fn decode_tick_bitmap(&self) -> (r: Option<BTreeMap<i16, u64>>)
        ensures
            r is Some <==> self.bitmap_ok(),
            r is Some ==> r.unwrap()@ == self.bitmap(),
    {
        decode_bitmap(self.tick_bitmap_data.as_slice())
    }

    /// `modify_liquidity` on a pool whose bitmap bytes can be read; `None`,
    /// with nothing changed, when they cannot.
    pub fn modify_liquidity_checked(
        &mut self,
        tick_lower_index: i32,
        tick_upper_index: i32,
        liquidity_delta: i128,
        tick_lower_data: &mut TickData,
        tick_upper_data: &mut TickData,
    ) -> (r: Option<Result<(), ErrorCode>>)
        ensures
            r is None <==> !old(self).bitmap_ok(),
            r is None ==> *final(self) == *old(self) && *final(tick_lower_data) == *old(
                tick_lower_data,
            ) && *final(tick_upper_data) == *old(tick_upper_data),
            r is Some ==> modify_liquidity_effect(
                *old(self),
                *final(self),
                *old(tick_lower_data),
                *final(tick_lower_data),
                *old(tick_upper_data),
                *final(tick_upper_data),
                tick_lower_index as int,
                tick_upper_index as int,
                liquidity_delta as int,
                r.unwrap(),
                true,
            ),
    {
        match self.decode_tick_bitmap() {
            None => None,
            Some(_) => Some(
                self.modify_liquidity(
                    tick_lower_index,
                    tick_upper_index,
                    liquidity_delta,
                    tick_lower_data,
                    tick_upper_data,
                ),
            ),
        }
    }
}


/// A tick's `initialized` flag and its mark in the bitmap agree with its
/// gross liquidity.
pub open spec fn tick_consistent(m: Map<i16, u64>, t: TickData, tick_index: int, tick_spacing: int) -> bool {
    &&& t.initialized == if t.liquidity_gross > 0 {
        1u8
    } else {
        0u8
    }
    &&& is_set_in(m, trunc_div(tick_index, tick_spacing)) == (t.liquidity_gross > 0)
}

/// A multiple of the spacing is the spacing times its compressed tick.
proof fn lemma_compressed_exact(a: int, s: int)
    requires
        compress_ok(a, s),
    ensures
        a == s * trunc_div(a, s),
{
    if a >= 0 {
        vstd::arithmetic::div_mod::lemma_fundamental_div_mod(a, s);
    } else {
        vstd::arithmetic::div_mod::lemma_fundamental_div_mod(-a, s);
        assert(s * (-((-a) / s)) == -(s * ((-a) / s))) by (nonlinear_arith);
    }
}

/// Adding liquidity to a range and then removing it again gives back the
/// pool's active liquidity, both boundary ticks and every mark of the tick
/// bitmap, when the two ticks' flags and marks agreed with their gross
/// liquidity before.
pub proof fn lemma_modify_liquidity_undone(
    p0: Pool,
    p1: Pool,
    p2: Pool,
    tl0: TickData,
    tl1: TickData,
    tl2: TickData,
    tu0: TickData,
    tu1: TickData,
    tu2: TickData,
    lower: i32,
    upper: i32,
    delta: i128,
    r1: Result<(), ErrorCode>,
    r2: Result<(), ErrorCode>,
)
    requires
        delta != i128::MIN,
        lower < upper,
        tick_consistent(p0.bitmap(), tl0, lower as int, p0.tick_spacing as int),
        tick_consistent(p0.bitmap(), tu0, upper as int, p0.tick_spacing as int),
        modify_liquidity_effect(
            p0,
            p1,
            tl0,
            tl1,
            tu0,
            tu1,
            lower as int,
            upper as int,
            delta as int,
            r1,
            true,
        ),
        r1 is Ok,
        modify_liquidity_effect(
            p1,
            p2,
            tl1,
            tl2,
            tu1,
            tu2,
            lower as int,
            upper as int,
            -delta,
            r2,
            true,
        ),
    ensures
        r2 is Ok,
        same_config(p2, p0),
        p2.liquidity == p0.liquidity,
        tl2 == tl0,
        tu2 == tu0,
        forall|c: int| #[trigger] is_set_in(p2.bitmap(), c) == is_set_in(p0.bitmap(), c),
{
    let s = p0.tick_spacing as int;
    let d = delta as int;
    let m0 = p0.bitmap();
    let (m1, l1, q1) = tick_change_outcome(m0, tl0, lower as int, s, d, false);
    let (m2, u1, q2) = tick_change_outcome(m1, tu0, upper as int, s, d, true);
    lemma_liquidity_change_undone(tl0, d, false);
    lemma_liquidity_change_undone(tu0, d, true);
    let (m3, l2, q3) = tick_change_outcome(m2, l1, lower as int, s, -d, false);
    let (m4, u2, q4) = tick_change_outcome(m3, u1, upper as int, s, -d, true);
    let cl = trunc_div(lower as int, s);
    let cu = trunc_div(upper as int, s);
    lemma_compressed_exact(lower as int, s);
    lemma_compressed_exact(upper as int, s);
    assert(cl < cu) by (nonlinear_arith)
        requires
            lower as int == s * cl,
            upper as int == s * cu,
            lower < upper,
            s > 0,
    ;
    lemma_flip_marks(m0, cl, l1.initialized != 0);
    lemma_flip_marks(m1, cu, u1.initialized != 0);
    lemma_flip_marks(m2, cl, l2.initialized != 0);
    lemma_flip_marks(m3, cu, u2.initialized != 0);
    assert forall|c: int| #[trigger] is_set_in(m4, c) == is_set_in(m0, c) by {
        assert(is_set_in(m4, c) == if c == cu {
            u2.initialized != 0
        } else {
            is_set_in(m3, c)
        });
        assert(is_set_in(m3, c) == if c == cl {
            l2.initialized != 0
        } else {
            is_set_in(m2, c)
        });
        assert(is_set_in(m2, c) == if c == cu {
            u1.initialized != 0
        } else {
            is_set_in(m1, c)
        });
        assert(is_set_in(m1, c) == if c == cl {
            l1.initialized != 0
        } else {
            is_set_in(m0, c)
        });
    }
}

/// A successful liquidity change keeps ticks and bitmap in agreement: both
/// boundary ticks end up with their flag and their mark matching their
/// gross liquidity, every other mark stays as it was, and so every other
/// tick that agreed with the bitmap before still does.
pub proof fn lemma_modify_liquidity_keeps_marks(
    p0: Pool,
    p1: Pool,
    tl0: TickData,
    tl1: TickData,
    tu0: TickData,
    tu1: TickData,
    lower: i32,
    upper: i32,
    delta: i128,
)
    requires
        lower < upper,
        modify_liquidity_effect(
            p0,
            p1,
            tl0,
            tl1,
            tu0,
            tu1,
            lower as int,
            upper as int,
            delta as int,
            Ok(()),
            true,
        ),
    ensures
        tick_consistent(p1.bitmap(), tl1, lower as int, p0.tick_spacing as int),
        tick_consistent(p1.bitmap(), tu1, upper as int, p0.tick_spacing as int),
        forall|c: int|
            c != trunc_div(lower as int, p0.tick_spacing as int) && c != trunc_div(
                upper as int,
                p0.tick_spacing as int,
            ) ==> #[trigger] is_set_in(p1.bitmap(), c) == is_set_in(p0.bitmap(), c),
        forall|t: TickData, i: int|
            #![trigger tick_consistent(p1.bitmap(), t, i, p0.tick_spacing as int)]
            tick_consistent(p0.bitmap(), t, i, p0.tick_spacing as int) && trunc_div(
                i,
                p0.tick_spacing as int,
            ) != trunc_div(lower as int, p0.tick_spacing as int) && trunc_div(
                i,
                p0.tick_spacing as int,
            ) != trunc_div(upper as int, p0.tick_spacing as int) ==> tick_consistent(
                p1.bitmap(),
                t,
                i,
                p0.tick_spacing as int,
            ),
{
    let s = p0.tick_spacing as int;
    let d = delta as int;
    let m0 = p0.bitmap();
    let (m1, l1, q1) = tick_change_outcome(m0, tl0, lower as int, s, d, false);
    let (m2, u1, q2) = tick_change_outcome(m1, tu0, upper as int, s, d, true);
    let cl = trunc_div(lower as int, s);
    let cu = trunc_div(upper as int, s);
    lemma_compressed_exact(lower as int, s);
    lemma_compressed_exact(upper as int, s);
    assert(cl < cu) by (nonlinear_arith)
        requires
            lower as int == s * cl,
            upper as int == s * cu,
            lower < upper,
            s > 0,
    ;
    lemma_flip_marks(m0, cl, l1.initialized != 0);
    lemma_flip_marks(m1, cu, u1.initialized != 0);
    assert(is_set_in(m2, cl) == is_set_in(m1, cl));
    assert forall|c: int|
        c != cl && c != cu implies #[trigger] is_set_in(m2, c) == is_set_in(m0, c) by {
        assert(is_set_in(m2, c) == is_set_in(m1, c));
        assert(is_set_in(m1, c) == is_set_in(m0, c));
    }
    assert forall|t: TickData, i: int|
        #![trigger tick_consistent(p1.bitmap(), t, i, s)]
        tick_consistent(m0, t, i, s) && trunc_div(i, s) != cl && trunc_div(i, s) != cu
            implies tick_consistent(p1.bitmap(), t, i, s) by {
        assert(is_set_in(m2, trunc_div(i, s)) == is_set_in(m0, trunc_div(i, s)));
    }
}

/// A swap step moves the price only one way: down (or not at all) when
/// token 0 comes in, up (or not at all) when token 1 comes in.
pub proof fn lemma_swap_step_direction(
    current: u128,
    target: u128,
    liquidity: u128,
    amount_remaining: u128,
    fee_rate_bps: u16,
    zero_for_one: bool,
)
    ensures
        swap_step_spec(current, target, liquidity, amount_remaining, fee_rate_bps, zero_for_one) matches Ok(
            (gin, gout, np),
        ) ==> (zero_for_one ==> np <= current) && (!zero_for_one ==> np >= current),
{
}

/// The state after one round of the swap loop: the input still to swap
/// plus the input swapped is unchanged, the input swapped and the output
/// only grow, and the
/// price moves only in the direction of the token sold.
pub open spec fn swap_progress(s: SwapState, s1: SwapState, zero_for_one: bool) -> bool {
    &&& s1.total_in + s1.amount_remaining == s.total_in + s.amount_remaining
    &&& s1.total_in >= s.total_in
    &&& s1.total_out >= s.total_out
    &&& zero_for_one ==> s1.sqrt_price <= s.sqrt_price
    &&& !zero_for_one ==> s1.sqrt_price >= s.sqrt_price
}

/// A round of the swap loop that goes on or stops makes progress in the
/// sense of `swap_progress`.
proof fn lemma_swap_iteration_progress(
    m: Map<i16, u64>,
    tick_spacing: u16,
    fee_rate: u16,
    limit: u128,
    zero_for_one: bool,
    ticks: Seq<TickData>,
    pool_key: Pubkey,
    s: SwapState,
)
    ensures
        match swap_iteration(m, tick_spacing, fee_rate, limit, zero_for_one, ticks, pool_key, s) {
            SwapIteration::Stop(s1) => swap_progress(s, s1, zero_for_one),
            SwapIteration::Next(s1) => swap_progress(s, s1, zero_for_one),
            SwapIteration::Fail(_, _) => true,
        },
{
    if !limit_reached(s.sqrt_price, limit, zero_for_one) {
        if let Ok(next_tick) = next_tick_spec(m, s.tick as int, tick_spacing as int, zero_for_one) {
            let price_next = match next_tick {
                Some(t) => tick_price_result(t),
                None => Ok(limit),
            };
            if let Ok(pn) = price_next {
                lemma_swap_step_direction(
                    s.sqrt_price,
                    step_target(pn, limit, zero_for_one),
                    s.liquidity,
                    s.amount_remaining,
                    fee_rate,
                    zero_for_one,
                );
            }
        }
    }
}

/// The whole swap loop conserves its input and moves the price only in
/// the direction of the token sold: when it finishes, the input still to
/// swap plus the input swapped is what it was at the start, the output is
/// no less, and the price is no higher when token 0 is sold and no lower
/// when token 1 is sold.
pub proof fn lemma_swap_run_progress(
    m: Map<i16, u64>,
    tick_spacing: u16,
    fee_rate: u16,
    limit: u128,
    zero_for_one: bool,
    ticks: Seq<TickData>,
    pool_key: Pubkey,
    s: SwapState,
)
    ensures
        swap_run(m, tick_spacing, fee_rate, limit, zero_for_one, ticks, pool_key, s) matches SwapOutcome::Finished(
            sf,
        ) ==> swap_progress(s, sf, zero_for_one),
    decreases s.amount_remaining,
{
    if s.amount_remaining != 0 {
        lemma_swap_iteration_progress(m, tick_spacing, fee_rate, limit, zero_for_one, ticks, pool_key, s);
        if let SwapIteration::Next(s1) = swap_iteration(
            m,
            tick_spacing,
            fee_rate,
            limit,
            zero_for_one,
            ticks,
            pool_key,
            s,
        ) {
            if s1.amount_remaining < s.amount_remaining {
                lemma_swap_run_progress(m, tick_spacing, fee_rate, limit, zero_for_one, ticks, pool_key, s1);
            }
        }
    }
}

/// A swap of a positive exact input that succeeds consumes at most that
/// input, and leaves the pool's price no higher when token 0 is sold and
/// no lower when token 1 is sold.
pub proof fn lemma_swap_bounded_and_directed(
    p: Pool,
    zero_for_one: bool,
    amount: u128,
    limit: u128,
    ticks: Seq<TickData>,
    pool_key: Pubkey,
)
    ensures
        swap_run(
            p.bitmap(),
            p.tick_spacing,
            p.fee_rate,
            limit,
            zero_for_one,
            ticks,
            pool_key,
            swap_start(p, amount),
        ) matches SwapOutcome::Finished(sf) ==> {
            &&& sf.total_in <= amount
            &&& zero_for_one ==> sf.sqrt_price <= p.sqrt_price_q64
            &&& !zero_for_one ==> sf.sqrt_price >= p.sqrt_price_q64
        },
{
    lemma_swap_run_progress(
        p.bitmap(),
        p.tick_spacing,
        p.fee_rate,
        limit,
        zero_for_one,
        ticks,
        pool_key,
        swap_start(p, amount),
    );
}

/// The fee never exceeds the input: what is left after it is at most the
/// input, and the fee taken (the input less what is left) is
/// `amount * fee / 10000` rounded up, so within one unit of it.
pub proof fn lemma_fee_bounds(amount: u128, fee_rate_bps: u16)
    requires
        fee_rate_bps <= BPS_DENOMINATOR,
    ensures
        net_after_fee(amount, fee_rate_bps) <= amount,
        amount - net_after_fee(amount, fee_rate_bps) == ceil_div(
            (amount * fee_rate_bps) as nat,
            BPS_DENOMINATOR as nat,
        ),
        (amount * fee_rate_bps) / (BPS_DENOMINATOR as int) <= amount - net_after_fee(amount, fee_rate_bps)
            <= (amount * fee_rate_bps) / (BPS_DENOMINATOR as int) + 1,
{
    let a = amount as int;
    let f = fee_rate_bps as int;
    let d = BPS_DENOMINATOR as int;
    let x = a * (d - f);
    let y = a * f;
    assert(x + y == a * d) by (nonlinear_arith)
        requires
            x == a * (d - f),
            y == a * f,
    ;
    assert(0 <= x <= a * d) by (nonlinear_arith)
        requires
            0 <= f <= d,
            a >= 0,
            x == a * (d - f),
    ;
    assert(y >= 0) by (nonlinear_arith)
        requires
            a >= 0,
            f >= 0,
            y == a * f,
    ;
    lemma_div_bounds(x as nat, d as nat);
    lemma_div_bounds(y as nat, d as nat);
    lemma_div_bounds((a * d) as nat, d as nat);
    vstd::arithmetic::div_mod::lemma_div_by_multiple(a, d);
    vstd::arithmetic::div_mod::lemma_fundamental_div_mod(x, d);
    vstd::arithmetic::div_mod::lemma_fundamental_div_mod(y, d);
    let qx = x / d;
    let rx = x % d;
    let qy = y / d;
    let ry = y % d;
    assert(d * (qx + qy) + rx + ry == d * a) by (nonlinear_arith)
        requires
            x == d * qx + rx,
            y == d * qy + ry,
            x + y == a * d,
    ;
    if ry == 0 {
        assert(rx == 0) by (nonlinear_arith)
            requires
                d * (qx + qy) + rx + ry == d * a,
                ry == 0,
                0 <= rx < d,
        ;
        assert(qx + qy == a) by (nonlinear_arith)
            requires
                d * (qx + qy) == d * a,
                d > 0,
        ;
    } else {
        assert(rx + ry == d) by (nonlinear_arith)
            requires
                d * (qx + qy) + rx + ry == d * a,
                0 <= rx < d,
                0 < ry < d,
                d > 0,
        ;
        assert(qx + qy + 1 == a) by (nonlinear_arith)
            requires
                d * (qx + qy) + d == d * a,
                d > 0,
        ;
    }
}

/// A swap step that is computed without a panic never consumes more input
/// than remains.
pub proof fn lemma_swap_step_input_bounded(
    current: u128,
    target: u128,
    liquidity: u128,
    amount_remaining: u128,
    fee_rate_bps: u16,
    zero_for_one: bool,
)
    requires
        swap_step_safe(current, target, liquidity, amount_remaining, fee_rate_bps, zero_for_one),
    ensures
        swap_step_spec(current, target, liquidity, amount_remaining, fee_rate_bps, zero_for_one) matches Ok(
            (gin, gout, np),
        ) ==> gin <= amount_remaining,
{
    let d = BPS_DENOMINATOR as int;
    if liquidity != 0 && fee_rate_bps <= BPS_DENOMINATOR && amount_remaining * (BPS_DENOMINATOR
        - fee_rate_bps) <= u128::MAX {
        let net = net_after_fee(amount_remaining, fee_rate_bps);
        if let Ok(max_in) = max_input_result(current, target, liquidity, zero_for_one) {
            if net >= max_in && max_in * BPS_DENOMINATOR <= u128::MAX && fee_rate_bps
                < BPS_DENOMINATOR {
                let a = amount_remaining as int;
                let e = (d - fee_rate_bps) as int;
                let m = max_in as int;
                let x = a * e;
                lemma_div_bounds(x as nat, d as nat);
                assert(m * d <= a * e) by (nonlinear_arith)
                    requires
                        m <= x / d,
                        (x / d) * d <= x,
                        x == a * e,
                        d > 0,
                ;
                assert(m * d <= a * e);
                vstd::arithmetic::div_mod::lemma_fundamental_div_mod(m * d, e);
                let q = (m * d) / e;
                let r = (m * d) % e;
                assert(q <= a && (q == a ==> r == 0)) by (nonlinear_arith)
                    requires
                        m * d == e * q + r,
                        0 <= r < e,
                        m * d <= a * e,
                        e > 0,
                        q >= 0,
                ;
            }
        }
    }
}

/// A swap step that consumes no input produces no output and leaves the
/// price where it was; without liquidity a step does exactly that.
pub proof fn lemma_swap_step_zero_input(
    current: u128,
    target: u128,
    liquidity: u128,
    amount_remaining: u128,
    fee_rate_bps: u16,
    zero_for_one: bool,
)
    ensures
        swap_step_spec(current, target, liquidity, amount_remaining, fee_rate_bps, zero_for_one) matches Ok(
            (gin, gout, np),
        ) ==> (gin == 0 ==> gout == 0 && np == current),
        liquidity == 0 ==> swap_step_spec(
            current,
            target,
            liquidity,
            amount_remaining,
            fee_rate_bps,
            zero_for_one,
        ) == Ok::<(u128, u128, u128), ErrorCode>((0, 0, current)),
{
}

/// A finished swap loop that swapped no input produced no output and left
/// the price and the liquidity as they were.
pub proof fn lemma_swap_run_zero_input(
    m: Map<i16, u64>,
    tick_spacing: u16,
    fee_rate: u16,
    limit: u128,
    zero_for_one: bool,
    ticks: Seq<TickData>,
    pool_key: Pubkey,
    s: SwapState,
)
    ensures
        swap_run(m, tick_spacing, fee_rate, limit, zero_for_one, ticks, pool_key, s) matches SwapOutcome::Finished(
            sf,
        ) ==> (sf.total_in == s.total_in ==> sf.total_out == s.total_out && sf.sqrt_price
            == s.sqrt_price && sf.liquidity == s.liquidity),
{
    if s.amount_remaining != 0 && !limit_reached(s.sqrt_price, limit, zero_for_one) {
        if let Ok(next_tick) = next_tick_spec(m, s.tick as int, tick_spacing as int, zero_for_one) {
            let price_next = match next_tick {
                Some(t) => tick_price_result(t),
                None => Ok(limit),
            };
            if let Ok(pn) = price_next {
                lemma_swap_step_zero_input(
                    s.sqrt_price,
                    step_target(pn, limit, zero_for_one),
                    s.liquidity,
                    s.amount_remaining,
                    fee_rate,
                    zero_for_one,
                );
            }
        }
        if let SwapIteration::Next(s1) = swap_iteration(
            m,
            tick_spacing,
            fee_rate,
            limit,
            zero_for_one,
            ticks,
            pool_key,
            s,
        ) {
            if s1.amount_remaining < s.amount_remaining {
                lemma_swap_run_progress(m, tick_spacing, fee_rate, limit, zero_for_one, ticks, pool_key, s1);
            }
        }
    }
}

/// A swap whose price has already reached the limit swaps nothing: it
/// finishes at once with no input, no output and the pool's price,
/// tick and liquidity.
pub proof fn lemma_swap_at_limit(
    p: Pool,
    zero_for_one: bool,
    amount: u128,
    limit: u128,
    ticks: Seq<TickData>,
    pool_key: Pubkey,
)
    requires
        limit_reached(p.sqrt_price_q64, limit, zero_for_one),
    ensures
        swap_run(
            p.bitmap(),
            p.tick_spacing,
            p.fee_rate,
            limit,
            zero_for_one,
            ticks,
            pool_key,
            swap_start(p, amount),
        ) == SwapOutcome::Finished(swap_start(p, amount)),
{
}

/// A successful liquidity change on an empty range (`lower == upper`) marks
/// the shared compressed tick by the upper tick's update, which comes last:
/// the mark agrees with the upper tick's gross liquidity, and every other
/// mark stays as it was.
pub proof fn lemma_modify_liquidity_same_tick_marks(
    p0: Pool,
    p1: Pool,
    tl0: TickData,
    tl1: TickData,
    tu0: TickData,
    tu1: TickData,
    tick: i32,
    delta: i128,
)
    requires
        modify_liquidity_effect(
            p0,
            p1,
            tl0,
            tl1,
            tu0,
            tu1,
            tick as int,
            tick as int,
            delta as int,
            Ok(()),
            true,
        ),
    ensures
        tick_consistent(p1.bitmap(), tu1, tick as int, p0.tick_spacing as int),
        forall|c: int|
            c != trunc_div(tick as int, p0.tick_spacing as int) ==> #[trigger] is_set_in(p1.bitmap(), c)
                == is_set_in(p0.bitmap(), c),
{
    let s = p0.tick_spacing as int;
    let d = delta as int;
    let m0 = p0.bitmap();
    let (m1, l1, q1) = tick_change_outcome(m0, tl0, tick as int, s, d, false);
    let (m2, u1, q2) = tick_change_outcome(m1, tu0, tick as int, s, d, true);
    let c0 = trunc_div(tick as int, s);
    lemma_flip_marks(m0, c0, l1.initialized != 0);
    lemma_flip_marks(m1, c0, u1.initialized != 0);
    assert forall|c: int| c != c0 implies #[trigger] is_set_in(m2, c) == is_set_in(m0, c) by {
        assert(is_set_in(m2, c) == is_set_in(m1, c));
        assert(is_set_in(m1, c) == is_set_in(m0, c));
    }
}

/// A swap step never passes its target: token 0 in, the price ends between
/// the target and the current price; token 1 in, between the current price
/// and the target.
pub proof fn lemma_swap_step_within_target(
    current: u128,
    target: u128,
    liquidity: u128,
    amount_remaining: u128,
    fee_rate_bps: u16,
    zero_for_one: bool,
)
    requires
        zero_for_one ==> target <= current,
        !zero_for_one ==> current <= target,
    ensures
        swap_step_spec(current, target, liquidity, amount_remaining, fee_rate_bps, zero_for_one) matches Ok(
            (gin, gout, np),
        ) ==> (zero_for_one ==> target <= np <= current) && (!zero_for_one ==> current <= np
            <= target),
{
}

/// The price a round of the swap loop ends at lies between where it
/// started and the limit, when it started on the far side of the limit.
pub open spec fn price_within_limit(start: u128, price: u128, limit: u128, zero_for_one: bool) -> bool {
    &&& zero_for_one ==> (if start < limit {
        start
    } else {
        limit
    }) <= price
    &&& !zero_for_one ==> price <= (if start > limit {
        start
    } else {
        limit
    })
}

/// A round of the swap loop that goes on or stops leaves the price no
/// further than the limit.
proof fn lemma_swap_iteration_within_limit(
    m: Map<i16, u64>,
    tick_spacing: u16,
    fee_rate: u16,
    limit: u128,
    zero_for_one: bool,
    ticks: Seq<TickData>,
    pool_key: Pubkey,
    s: SwapState,
)
    ensures
        match swap_iteration(m, tick_spacing, fee_rate, limit, zero_for_one, ticks, pool_key, s) {
            SwapIteration::Stop(s1) => price_within_limit(s.sqrt_price, s1.sqrt_price, limit, zero_for_one),
            SwapIteration::Next(s1) => price_within_limit(s.sqrt_price, s1.sqrt_price, limit, zero_for_one)
                && !limit_reached(s.sqrt_price, limit, zero_for_one) && price_within_limit(
                limit,
                s1.sqrt_price,
                limit,
                zero_for_one,
            ),
            SwapIteration::Fail(_, _) => true,
        },
{
    if !limit_reached(s.sqrt_price, limit, zero_for_one) {
        if let Ok(next_tick) = next_tick_spec(m, s.tick as int, tick_spacing as int, zero_for_one) {
            let price_next = match next_tick {
                Some(t) => tick_price_result(t),
                None => Ok(limit),
            };
            if let Ok(pn) = price_next {
                let target = step_target(pn, limit, zero_for_one);
                if s.liquidity != 0 {
                    if (zero_for_one && target <= s.sqrt_price) || (!zero_for_one && s.sqrt_price
                        <= target) {
                        lemma_swap_step_within_target(
                            s.sqrt_price,
                            target,
                            s.liquidity,
                            s.amount_remaining,
                            fee_rate,
                            zero_for_one,
                        );
                    }
                }
            }
        }
    }
}

/// The whole swap loop never takes the price past the limit: when it
/// finishes, the price lies between where it started and the limit.
pub proof fn lemma_swap_run_within_limit(
    m: Map<i16, u64>,
    tick_spacing: u16,
    fee_rate: u16,
    limit: u128,
    zero_for_one: bool,
    ticks: Seq<TickData>,
    pool_key: Pubkey,
    s: SwapState,
)
    ensures
        swap_run(m, tick_spacing, fee_rate, limit, zero_for_one, ticks, pool_key, s) matches SwapOutcome::Finished(
            sf,
        ) ==> price_within_limit(s.sqrt_price, sf.sqrt_price, limit, zero_for_one),
        swap_run_checked(m, tick_spacing, fee_rate, limit, zero_for_one, ticks, pool_key, s) matches SwapOutcome::Finished(
            sf,
        ) ==> price_within_limit(s.sqrt_price, sf.sqrt_price, limit, zero_for_one),
    decreases s.amount_remaining,
{
    if s.amount_remaining != 0 {
        lemma_swap_iteration_within_limit(m, tick_spacing, fee_rate, limit, zero_for_one, ticks, pool_key, s);
        if let SwapIteration::Next(s1) = swap_iteration(
            m,
            tick_spacing,
            fee_rate,
            limit,
            zero_for_one,
            ticks,
            pool_key,
            s,
        ) {
            if s1.amount_remaining < s.amount_remaining {
                lemma_swap_run_within_limit(m, tick_spacing, fee_rate, limit, zero_for_one, ticks, pool_key, s1);
            }
        }
    }
}

/// A successful liquidity change of `delta` on `[lower, upper)` changes the
/// pool's active liquidity by `delta` exactly when the current tick lies in
/// the range (`lower <= current_tick < upper`); otherwise the active
/// liquidity stays as it was.
pub proof fn lemma_modify_liquidity_active_range(
    p0: Pool,
    p1: Pool,
    tl0: TickData,
    tl1: TickData,
    tu0: TickData,
    tu1: TickData,
    lower: int,
    upper: int,
    delta: int,
    write_each: bool,
)
    requires
        modify_liquidity_effect(p0, p1, tl0, tl1, tu0, tu1, lower, upper, delta, Ok(()), write_each),
    ensures
        p1.current_tick == p0.current_tick,
        p1.liquidity == if lower <= p0.current_tick < upper {
            p0.liquidity + delta
        } else {
            p0.liquidity as int
        },
{
}

/// The output of a swap step is the amount of the other token over the
/// range the price moved, rounded down: with token 0 in,
/// `L * (sqrt_current - sqrt_next)`; with token 1 in,
/// `L * (1/sqrt_current - 1/sqrt_next)`, the reciprocals taken as
/// `2^128 / x` (all in Q64.64). This holds whether or not the step reaches
/// its target.
pub proof fn lemma_swap_step_output(
    current: u128,
    target: u128,
    liquidity: u128,
    amount_remaining: u128,
    fee_rate_bps: u16,
    zero_for_one: bool,
)
    requires
        swap_step_safe(current, target, liquidity, amount_remaining, fee_rate_bps, zero_for_one),
    ensures
        swap_step_spec(current, target, liquidity, amount_remaining, fee_rate_bps, zero_for_one) matches Ok(
            (gin, gout, np),
        ) ==> {
            &&& zero_for_one ==> np <= current && gout == (liquidity as nat * (current - np) as nat)
                / b64()
            &&& !zero_for_one ==> current <= np && gout == (liquidity as nat * ((b128() / current as nat)
                - (b128() / np as nat)) as nat) / b64()
        },
{
    if let Ok((gin, gout, np)) = swap_step_spec(
        current,
        target,
        liquidity,
        amount_remaining,
        fee_rate_bps,
        zero_for_one,
    ) {
        if np == current {
            assert(liquidity as nat * 0nat == 0) by (nonlinear_arith);
            vstd::arithmetic::div_mod::lemma_small_mod(0, b64());
        }
    }
}

/// When a round of the swap loop goes on, the active liquidity either stays
/// as it was or changes by the net liquidity of the supplied tick the round
/// crossed (the tick it goes on from): subtracted when the price falls
/// (token 0 in), added when it rises (token 1 in), so crossing a tick upward
/// activates the positions whose lower tick it is.
pub proof fn lemma_swap_crossing_liquidity(
    m: Map<i16, u64>,
    tick_spacing: u16,
    fee_rate: u16,
    limit: u128,
    zero_for_one: bool,
    ticks: Seq<TickData>,
    pool_key: Pubkey,
    s: SwapState,
)
    ensures
        swap_iteration(m, tick_spacing, fee_rate, limit, zero_for_one, ticks, pool_key, s) matches SwapIteration::Next(
            s1,
        ) ==> s1.liquidity == s.liquidity || exists|j: int|
            {
                &&& 0 <= j < ticks.len()
                &&& ticks[j].index == s1.tick
                &&& ticks[j].pool == pool_key
                &&& ({
                    let changed = s.liquidity + if zero_for_one {
                        -ticks[j].liquidity_net
                    } else {
                        ticks[j].liquidity_net as int
                    };
                    s.liquidity <= i128::MAX && changed >= 0 ==> s1.liquidity == changed
                })
            },
{
    if let SwapIteration::Next(s1) = swap_iteration(
        m,
        tick_spacing,
        fee_rate,
        limit,
        zero_for_one,
        ticks,
        pool_key,
        s,
    ) {
        if s1.liquidity != s.liquidity {
            let next_tick = next_tick_spec(m, s.tick as int, tick_spacing as int, zero_for_one)->Ok_0;
            let t = next_tick.unwrap();
            lemma_first_match_found(ticks, t, pool_key, 0);
            let j = first_match(ticks, t, pool_key, 0).unwrap();
            assert(0 <= j < ticks.len() && ticks[j].index == s1.tick && ticks[j].pool == pool_key);
            let l = s.liquidity;
            let d: int = if zero_for_one {
                -ticks[j].liquidity_net
            } else {
                ticks[j].liquidity_net as int
            };
            if l <= i128::MAX && l + d >= 0 {
                assert((l as i128) as int == l);
                assert(((l + d) as i128) as u128 == l + d);
            }
        }
    }
}

/// A tick found by `first_match` is a supplied tick with that index and
/// pool.
proof fn lemma_first_match_found(ticks: Seq<TickData>, index: i32, pool_key: Pubkey, from: int)
    ensures
        first_match(ticks, index, pool_key, from) matches Some(j) ==> from <= j < ticks.len()
            && ticks[j].index == index && ticks[j].pool == pool_key,
    decreases ticks.len() - from,
{
    if 0 <= from < ticks.len() && !(ticks[from].index == index && ticks[from].pool == pool_key) {
        lemma_first_match_found(ticks, index, pool_key, from + 1);
    }
}

/// A successful liquidity change of `delta` on `[lower, upper)` adds
/// `delta` to the gross liquidity of both boundary ticks, adds it to the net
/// liquidity of the lower tick and subtracts it from that of the upper tick
/// (so crossing the range upward enters the liquidity at `lower` and leaves
/// it at `upper`), marks each tick initialized exactly when gross liquidity
/// remains, and keeps the ticks' pool and index.
pub proof fn lemma_modify_liquidity_ticks(
    p0: Pool,
    p1: Pool,
    tl0: TickData,
    tl1: TickData,
    tu0: TickData,
    tu1: TickData,
    lower: int,
    upper: int,
    delta: int,
    write_each: bool,
)
    requires
        modify_liquidity_effect(p0, p1, tl0, tl1, tu0, tu1, lower, upper, delta, Ok(()), write_each),
    ensures
        tl1.liquidity_gross == tl0.liquidity_gross + delta,
        tu1.liquidity_gross == tu0.liquidity_gross + delta,
        tl1.liquidity_net == tl0.liquidity_net + delta,
        tu1.liquidity_net == tu0.liquidity_net - delta,
        tl1.initialized == (if tl1.liquidity_gross > 0 {
            1u8
        } else {
            0u8
        }),
        tu1.initialized == (if tu1.liquidity_gross > 0 {
            1u8
        } else {
            0u8
        }),
        tl1.pool == tl0.pool && tl1.index == tl0.index,
        tu1.pool == tu0.pool && tu1.index == tu0.index,
{
}

/// What a swap step consumes and where it ends, in terms of its inputs.
/// With `D = 10000`, the net input is `amount * (D - fee) / D`, and the input
/// needed to reach the target is the token amount over the range, rounded
/// up: `L * (1/target - 1/current)` with token 0 in, `L * (target -
/// current)` with token 1 in (Q64.64, reciprocals as `2^128 / x`). When the
/// net input covers it, the step ends at the target and charges that need
/// grossed up for the fee, `ceil(need * D / (D - fee))`; otherwise it
/// charges the whole amount and ends where the net input takes the price:
/// `L * current / (L + net * current)` with token 0 in (numerator
/// `L * current * 2^64` cut to 256 bits), `current + net / L` with token 1
/// in, and nowhere with no net input, but not past the target. A step that would charge nothing ends where
/// it started with no output.
pub proof fn lemma_swap_step_input(
    current: u128,
    target: u128,
    liquidity: u128,
    amount_remaining: u128,
    fee_rate_bps: u16,
    zero_for_one: bool,
)
    requires
        swap_step_safe(current, target, liquidity, amount_remaining, fee_rate_bps, zero_for_one),
        liquidity != 0,
        fee_rate_bps < 10000,
        amount_remaining * (10000 - fee_rate_bps) <= u128::MAX,
        zero_for_one ==> target <= current,
        !zero_for_one ==> current <= target,
    ensures
        ({
            let d: nat = 10000;
            let l = liquidity as nat;
            let c = current as nat;
            let t = target as nat;
            let net = (amount_remaining as nat * (d - fee_rate_bps as nat) as nat) / d;
            let need = if zero_for_one {
                ceil_div(l * ((b128() / t) - (b128() / c)) as nat, b64())
            } else {
                ceil_div(l * (t - c) as nat, b64())
            };
            let reached = if net == 0 {
                c
            } else if zero_for_one {
                ((l * c * b64()) % b256()) / (l * b64() + net * c)
            } else {
                c + (net * b64()) / l
            };
            let stop = if zero_for_one {
                if reached < t {
                    t
                } else {
                    reached
                }
            } else {
                if reached > t {
                    t
                } else {
                    reached
                }
            };
            swap_step_spec(current, target, liquidity, amount_remaining, fee_rate_bps, zero_for_one) matches Ok(
                (gin, gout, np),
            ) ==> if net >= need {
                if ceil_div(need * d, (d - fee_rate_bps as nat) as nat) == 0 {
                    gin == 0 && gout == 0 && np == current
                } else {
                    gin == ceil_div(need * d, (d - fee_rate_bps as nat) as nat) && np == target
                }
            } else {
                if amount_remaining == 0 {
                    gin == 0 && gout == 0 && np == current
                } else {
                    gin == amount_remaining && np == stop
                }
            }
        }),
{
    let d: nat = 10000;
    let l = liquidity as nat;
    let c = current as nat;
    let t = target as nat;
    let f = fee_rate_bps as nat;
    let net = (amount_remaining as nat * (d - f) as nat) / d;
    assert(net == net_after_fee(amount_remaining, fee_rate_bps));
    let need = if zero_for_one {
        ceil_div(l * ((b128() / t) - (b128() / c)) as nat, b64())
    } else {
        ceil_div(l * (t - c) as nat, b64())
    };
    if t == c {
        assert(l * 0nat == 0) by (nonlinear_arith);
        vstd::arithmetic::div_mod::lemma_small_mod(0, b64());
        assert(need == 0);
    }
    let mi = max_input_result(current, target, liquidity, zero_for_one);
    assert(mi == Ok::<u128, ErrorCode>(need as u128));
    assert(need < b128());
    if net >= need && need * d <= u128::MAX {
        crate::laws::lemma_round_up_div_bounds(need * d, (d - f) as nat);
        assert(ceil_div(need * d, (d - f) as nat) * ((d - f) as nat) >= need * d);
        lemma_ceil_div_at_most(need * d, (d - f) as nat);
    }
}

/// Rounding a quotient up never gives more than the dividend.
proof fn lemma_ceil_div_at_most(x: nat, y: nat)
    requires
        y >= 1,
    ensures
        ceil_div(x, y) <= x,
{
    crate::arith::lemma_div_bounds(x, y);
    if y == 1 {
        vstd::arithmetic::div_mod::lemma_div_by_multiple(x as int, 1);
        vstd::arithmetic::div_mod::lemma_mod_self_0(1);
        vstd::arithmetic::div_mod::lemma_small_mod(0, 1);
        assert(x % 1 == 0) by {
            vstd::arithmetic::div_mod::lemma_mod_multiples_basic(x as int, 1);
        }
    } else {
        crate::arith::lemma_div_antimono(x, 2, y);
        if x % y != 0 {
            assert(x > 0);
            assert(x / 2 < x);
        }
        assert(x / y <= x);
    }
}

} // verus!
