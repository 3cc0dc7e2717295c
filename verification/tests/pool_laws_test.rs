use amm_core::errors::ErrorCode;
use amm_core::math::{sqrt_price_q64_to_tick, tick_to_sqrt_price_q64};
use amm_core::pubkey::Pubkey;
use amm_core::state::pool::{InitializePoolParams, Pool};
use amm_core::tick::TickData;
use amm_core::tick_bitmap::{flip_tick_initialized_status, is_tick_initialized};
use std::collections::BTreeMap;

const ONE: u128 = 1u128 << 64;

fn key(n: u8) -> Pubkey {
    let mut bytes = [0u8; 32];
    bytes[31] = n;
    Pubkey::new_from_array(bytes)
}

fn pool_at_price_one(tick_spacing: u16) -> Pool {
    let mut pool = Pool::default();
    pool.initialize(InitializePoolParams {
        bump: 7,
        factory: key(1),
        token0_mint: key(2),
        token1_mint: key(3),
        token0_vault: key(4),
        token1_vault: key(5),
        initial_sqrt_price_q64: ONE,
        fee_rate: 30,
        tick_spacing,
    })
    .unwrap();
    pool
}

fn bitmap_of(pool: &Pool) -> BTreeMap<i16, u64> {
    pool.decode_tick_bitmap().unwrap()
}

#[test]
fn adding_then_removing_liquidity_restores_the_pool() {
    let mut pool = pool_at_price_one(60);
    pool.current_tick = 600;
    let mut lower = TickData::default();
    let mut upper = TickData::default();
    pool.modify_liquidity(0, 1200, 1000, &mut lower, &mut upper).unwrap();
    assert_eq!(pool.liquidity, 1000);
    assert_eq!((lower.liquidity_gross, lower.liquidity_net, lower.initialized), (1000, 1000, 1));
    assert_eq!((upper.liquidity_gross, upper.liquidity_net, upper.initialized), (1000, -1000, 1));
    assert!(is_tick_initialized(&bitmap_of(&pool), 0, 60).unwrap());
    assert!(is_tick_initialized(&bitmap_of(&pool), 1200, 60).unwrap());
    assert!(!is_tick_initialized(&bitmap_of(&pool), 600, 60).unwrap());
    pool.modify_liquidity(0, 1200, -1000, &mut lower, &mut upper).unwrap();
    assert_eq!(pool.liquidity, 0);
    assert_eq!((lower.liquidity_gross, lower.liquidity_net, lower.initialized), (0, 0, 0));
    assert_eq!((upper.liquidity_gross, upper.liquidity_net, upper.initialized), (0, 0, 0));
    assert!(bitmap_of(&pool).is_empty());
}

#[test]
fn modify_liquidity_keeps_the_steps_before_an_error() {
    let mut pool = pool_at_price_one(60);
    let mut lower = TickData::default();
    let mut upper = TickData::default();
    // The upper tick is not a multiple of the spacing: the lower tick and its
    // mark are already written when the upper tick's mark fails.
    assert_eq!(
        pool.modify_liquidity(0, 1201, 500, &mut lower, &mut upper),
        Err(ErrorCode::InvalidTickRange)
    );
    assert_eq!(lower.liquidity_gross, 500);
    assert_eq!(upper.liquidity_gross, 500);
    assert_eq!(upper.liquidity_net, -500);
    assert!(is_tick_initialized(&bitmap_of(&pool), 0, 60).unwrap());
    assert_eq!(pool.liquidity, 0);
}

#[test]
fn modify_liquidity_for_test_writes_the_bitmap_once() {
    let mut pool = pool_at_price_one(60);
    let mut lower = TickData::default();
    let mut upper = TickData::default();
    assert_eq!(
        pool.modify_liquidity_for_test(0, 1201, 500, &mut lower, &mut upper),
        Err(ErrorCode::InvalidTickRange)
    );
    assert!(bitmap_of(&pool).is_empty());
    assert_eq!(lower.liquidity_gross, 500);
}

#[test]
fn removing_more_than_the_pool_has_overflows() {
    let mut pool = pool_at_price_one(60);
    pool.current_tick = 0;
    let mut lower = TickData::default();
    let mut upper = TickData::default();
    lower.liquidity_gross = 100;
    upper.liquidity_gross = 100;
    assert_eq!(
        pool.modify_liquidity(-60, 60, -50, &mut lower, &mut upper),
        Err(ErrorCode::MathOverflow)
    );
    assert_eq!(pool.liquidity, 0);
    assert_eq!(lower.liquidity_gross, 50);
}

#[test]
fn unreadable_bitmap_bytes_are_refused() {
    let mut pool = pool_at_price_one(60);
    pool.tick_bitmap_data = vec![9, 9];
    assert!(pool.decode_tick_bitmap().is_none());
    let mut lower = TickData::default();
    let mut upper = TickData::default();
    let before = pool.clone();
    assert!(pool
        .modify_liquidity_checked(0, 60, 10, &mut lower, &mut upper)
        .is_none());
    assert_eq!(pool.tick_bitmap_data, before.tick_bitmap_data);
    assert_eq!(lower.liquidity_gross, 0);
}

#[test]
fn initialized_pool_holds_an_empty_encoded_bitmap() {
    let pool = pool_at_price_one(10);
    // borsh writes an empty map as a zero count.
    assert_eq!(pool.tick_bitmap_data, vec![0, 0, 0, 0]);
    assert_eq!(pool.current_tick, 0);
    assert!(bitmap_of(&pool).is_empty());
}

fn pool_with_tick_below(net: i128) -> (Pool, Pubkey, Vec<TickData>) {
    let mut pool = pool_at_price_one(60);
    pool.liquidity = 10_000 * ONE;
    let mut map: BTreeMap<i16, u64> = BTreeMap::new();
    flip_tick_initialized_status(&mut map, -60, 60, true).unwrap();
    pool.tick_bitmap_data = borsh::to_vec(&map).unwrap();
    let pool_key = key(99);
    let mut tick = TickData::default();
    tick.initialize(pool_key, -60);
    tick.liquidity_net = net;
    (pool, pool_key, vec![tick])
}

#[test]
fn swap_crossing_a_tick_applies_its_net_liquidity() {
    let (mut pool, pool_key, ticks) = pool_with_tick_below(5_000);
    let limit = tick_to_sqrt_price_q64(-60).unwrap();
    let (amount_in, amount_out) = pool
        .swap(true, (500 * ONE) as i128, limit, &pool_key, &ticks, 0)
        .unwrap();
    assert!(amount_in > 0 && amount_in < 500 * ONE);
    assert!(amount_out > 0);
    assert_eq!(pool.sqrt_price_q64, limit);
    assert_eq!(pool.liquidity, 10_000 * ONE - 5_000);
    assert_eq!(
        pool.current_tick,
        sqrt_price_q64_to_tick(pool.sqrt_price_q64).unwrap()
    );
}

#[test]
fn swap_without_the_crossed_tick_keeps_its_liquidity() {
    let (mut pool, pool_key, _) = pool_with_tick_below(5_000);
    let limit = tick_to_sqrt_price_q64(-60).unwrap();
    let before = pool.clone();
    let (amount_in, amount_out) = pool
        .swap(true, (500 * ONE) as i128, limit, &pool_key, &[], 0)
        .unwrap();
    assert!(amount_in > 0 && amount_out > 0);
    assert_eq!(pool.sqrt_price_q64, limit);
    assert_eq!(pool.liquidity, before.liquidity);
}

#[test]
fn swap_moves_the_price_in_the_direction_of_the_input() {
    let (mut pool, pool_key, ticks) = pool_with_tick_below(0);
    let start = pool.sqrt_price_q64;
    let (swapped_in, _) = pool
        .swap(false, (5 * ONE) as i128, start + ONE / 10, &pool_key, &ticks, 0)
        .unwrap();
    assert!(swapped_in <= 5 * ONE);
    assert!(pool.sqrt_price_q64 > start);
    let raised = pool.sqrt_price_q64;
    pool.swap(true, (5 * ONE) as i128, start - ONE / 10, &pool_key, &ticks, 0)
        .unwrap();
    assert!(pool.sqrt_price_q64 < raised);
    assert_eq!(
        pool.swap(true, -1, 0, &pool_key, &ticks, 0),
        Err(ErrorCode::InvalidInput)
    );
}

#[test]
fn swap_step_reports_its_errors() {
    let pool = pool_at_price_one(60);
    // A fee above 100% cannot be taken from the input.
    assert_eq!(
        pool.swap_step(ONE, ONE / 2, ONE, ONE, 10_001, true),
        Err(ErrorCode::MathOverflow)
    );
    // A falling price cannot aim above the current one.
    assert_eq!(
        pool.swap_step(ONE, 2 * ONE, ONE, ONE, 30, true),
        Err(ErrorCode::InvalidPriceRange)
    );
    // Without a fee, an input that just reaches the target is consumed exactly.
    let (gross, _, next) = pool.swap_step(ONE, 2 * ONE, ONE, 10 * ONE, 0, false).unwrap();
    assert_eq!(next, 2 * ONE);
    assert_eq!(gross, ONE);
}

#[test]
fn swap_step_charges_the_fee_within_the_input() {
    let pool = pool_at_price_one(60);
    // Not enough to reach the target: all the input is consumed, and the
    // price moves by the net input (10000 less 30 bps of 10000) only.
    let (gross, out, next) = pool.swap_step(ONE, 2 * ONE, ONE, 10_000, 30, false).unwrap();
    assert_eq!(gross, 10_000);
    assert_eq!(next, ONE + 9_970);
    assert_eq!(out, 9_970);
    // Enough to reach the target: the input charged, grossed up for the
    // fee, stays within what was offered.
    let (gross, _, next) = pool.swap_step(ONE, 2 * ONE, ONE, 10 * ONE, 30, false).unwrap();
    assert_eq!(next, 2 * ONE);
    assert!(gross <= 10 * ONE);
    assert!(gross > ONE);
    assert_eq!(gross, (ONE * 10_000 + 9_969) / 9_970);
}

#[test]
fn swap_step_never_passes_its_target() {
    let pool = pool_at_price_one(60);
    let current = 30_861_539_425_827_725_743u128;
    let target = 30_811_694_254_279_104_543u128;
    let liquidity = 9_378_813_387_253_483_527u128;
    // One unit short of what reaching the target takes: the rounded-down
    // price would land two units below the target, and stops at it.
    let (gross, out, next) = pool
        .swap_step(current, target, liquidity, 9_068_961_263_451_790, 0, true)
        .unwrap();
    assert_eq!(gross, 9_068_961_263_451_790);
    assert!(out > 0);
    assert_eq!(next, target);
}

#[test]
fn swap_at_its_limit_swaps_nothing() {
    let (mut pool, pool_key, ticks) = pool_with_tick_below(0);
    let start = pool.sqrt_price_q64;
    assert_eq!(
        pool.swap(true, (5 * ONE) as i128, start, &pool_key, &ticks, 0),
        Ok((0, 0))
    );
    assert_eq!(pool.sqrt_price_q64, start);
}

#[test]
fn swap_checked_reports_a_step_that_cannot_be_computed() {
    // The price sits exactly on an initialized tick and the fee takes the
    // whole input: grossing the step up for the fee would divide by zero.
    let mut pool = pool_at_price_one(60);
    pool.liquidity = 10_000 * ONE;
    pool.fee_rate = 10_000;
    let mut map: BTreeMap<i16, u64> = BTreeMap::new();
    flip_tick_initialized_status(&mut map, 0, 60, true).unwrap();
    pool.tick_bitmap_data = borsh::to_vec(&map).unwrap();
    let pool_key = key(99);
    let start = pool.sqrt_price_q64;
    assert_eq!(
        pool.swap_checked(true, (5 * ONE) as i128, start - ONE / 10, &pool_key, &[], 0),
        Err(ErrorCode::MathOverflow)
    );
    assert_eq!(pool.sqrt_price_q64, start);
}

#[test]
fn swap_checked_agrees_with_swap_where_it_returns() {
    let (mut a, pool_key, ticks) = pool_with_tick_below(5_000);
    let mut b = a.clone();
    let limit = tick_to_sqrt_price_q64(-60).unwrap();
    let r1 = a.swap(true, (500 * ONE) as i128, limit, &pool_key, &ticks, 0);
    let r2 = b.swap_checked(true, (500 * ONE) as i128, limit, &pool_key, &ticks, 0);
    assert_eq!(r1, r2);
    assert!(r1.is_ok());
    assert_eq!(a.sqrt_price_q64, b.sqrt_price_q64);
    assert_eq!(a.liquidity, b.liquidity);
    assert_eq!(a.current_tick, b.current_tick);
}

#[test]
fn try_swap_refuses_unreadable_bitmap_bytes() {
    let (mut pool, pool_key, ticks) = pool_with_tick_below(0);
    pool.tick_bitmap_data = vec![7u8];
    let before = pool.clone();
    assert_eq!(pool.try_swap(true, (5 * ONE) as i128, 0, &pool_key, &ticks, 0), None);
    assert_eq!(pool.sqrt_price_q64, before.sqrt_price_q64);
    assert_eq!(pool.try_swap(true, 0, 0, &pool_key, &ticks, 0), Some(Ok((0, 0))));
}

#[test]
fn swap_never_passes_its_limit() {
    // Without initialized ticks the step aims at the limit; one unit short
    // of what reaching it takes, the price stops at the limit.
    let mut pool = pool_at_price_one(60);
    pool.fee_rate = 0;
    pool.sqrt_price_q64 = 30_861_539_425_827_725_743;
    pool.current_tick = sqrt_price_q64_to_tick(pool.sqrt_price_q64).unwrap();
    pool.liquidity = 9_378_813_387_253_483_527;
    let limit = 30_811_694_254_279_104_543u128;
    let (amount_in, _) = pool
        .swap(true, 9_068_961_263_451_790, limit, &key(99), &[], 0)
        .unwrap();
    assert_eq!(amount_in, 9_068_961_263_451_790);
    assert_eq!(pool.sqrt_price_q64, limit);
}
