use amm_core::constants::{MAX_SQRT_PRICE, MIN_SQRT_PRICE};
use amm_core::errors::ErrorCode;
use amm_core::math; // For sqrt_price_q64_to_tick, tick_to_sqrt_price_q64
use amm_core::pubkey::Pubkey;
use amm_core::state::pool::{InitializePoolParams, Pool}; // Target for testing
use amm_core::tick::TickData as ActualTickData; // Use the actual TickData // Used by Pool

use std::collections::BTreeMap;

// Helper to convert f64 to Q64.64
fn float_to_q64(val: f64) -> u128 {
    if val < 0.0 {
        // Or handle error appropriately
        panic!("float_to_q64 does not support negative numbers");
    }
    let integer_part = val.trunc() as u128;
    let fractional_part = val.fract();
    let fractional_q64 = (fractional_part * (1u128 << 64) as f64) as u128;
    (integer_part << 64) | fractional_q64
}

// Helper to convert Q64.64 to f64
#[allow(dead_code)] // Potentially useful for debugging or future float assertions

fn q64_to_float(val: u128) -> f64 {
    let integer_part = (val >> 64) as f64;
    let fractional_part = (val & ((1u128 << 64) - 1)) as f64 / (1u128 << 64) as f64;
    integer_part + fractional_part
}

// Helper to check Q64.64 values within acceptable epsilon, similar to math_test.rs
fn assert_q64_approx_eq(a: u128, b: u128, epsilon_bits: u8, message: &str) {
    let epsilon = 1u128 << epsilon_bits;
    let diff = a.abs_diff(b);
    assert!(
        diff <= epsilon,
        "{message} Q64.64 values differ by more than allowed epsilon: {a:x} (dec: {a}) vs {b:x} (dec: {b}), diff: {diff:x} (dec: {diff})"
    );
}
// Using ActualTickData from crate::tick
type TickData = ActualTickData;

/// A fresh key, as the Solana SDK hands them out in tests.
fn new_unique_pubkey() -> Pubkey {
    Pubkey::new_from_array(anchor_lang::prelude::Pubkey::new_unique().to_bytes())
}

// Mock Account wrapper
#[derive(Debug, Clone)]
pub struct MockAccount<T: Clone + std::fmt::Debug> {
    pub data: T,
}

impl<T: Clone + std::fmt::Debug> MockAccount<T> {
    pub fn new(data: T) -> Self {
        Self { data }
    }
}

impl<T: Clone + std::fmt::Debug> std::ops::Deref for MockAccount<T> {
    type Target = T;
    fn deref(&self) -> &Self::Target {
        &self.data
    }
}

impl<T: Clone + std::fmt::Debug> std::ops::DerefMut for MockAccount<T> {
    fn deref_mut(&mut self) -> &mut Self::Target {
        &mut self.data
    }
}

// Helper for default InitializePoolParams
fn default_initialize_pool_params() -> InitializePoolParams {
    InitializePoolParams {
        bump: 1,
        factory: new_unique_pubkey(),
        token0_mint: new_unique_pubkey(),
        token1_mint: new_unique_pubkey(),
        token0_vault: new_unique_pubkey(),
        token1_vault: new_unique_pubkey(),
        initial_sqrt_price_q64: float_to_q64(1.0),
        fee_rate: 30, // 0.3%
        tick_spacing: 60,
    }
}

// Helper to create a Pool instance with default parameters
fn create_default_pool() -> Pool {
    let mut pool = Pool::default();
    let params = default_initialize_pool_params();
    pool.initialize(params).unwrap();
    pool
}
    #[test]
    fn test_initialize_pool_success() {
        let mut pool = Pool::default();
        let params = default_initialize_pool_params();
        let initial_sqrt_price = params.initial_sqrt_price_q64;

        let result = pool.initialize(params.clone());
        assert!(result.is_ok());

        assert_eq!(pool.bump, params.bump);
        assert_eq!(pool.factory, params.factory);
        assert_eq!(pool.token0_mint, params.token0_mint);
        assert_eq!(pool.token1_mint, params.token1_mint);
        assert_eq!(pool.fee_rate, params.fee_rate);
        assert_eq!(pool.tick_spacing, params.tick_spacing);
        assert_eq!(pool.sqrt_price_q64, initial_sqrt_price);
        assert_eq!(pool.liquidity, 0);
        let deserialized_bitmap: BTreeMap<i16, u64> =
            borsh::BorshDeserialize::try_from_slice(&pool.tick_bitmap_data).unwrap();
        assert!(deserialized_bitmap.is_empty());

        let expected_tick = math::sqrt_price_q64_to_tick(initial_sqrt_price).unwrap();
        assert_eq!(pool.current_tick, expected_tick);
    }

    #[test]
    fn test_initialize_pool_mints_must_differ() {
        let mut pool = Pool::default();
        let mut params = default_initialize_pool_params();
        let same_mint = new_unique_pubkey();
        params.token0_mint = same_mint;
        params.token1_mint = same_mint;

        let result = pool.initialize(params);
        assert_eq!(result.unwrap_err(), ErrorCode::MintsMustDiffer);
    }

    #[test]
    fn test_initialize_pool_invalid_initial_price_zero() {
        let mut pool = Pool::default();
        let mut params = default_initialize_pool_params();
        params.initial_sqrt_price_q64 = 0;
        let result = pool.initialize(params);
        assert_eq!(result.unwrap_err(), ErrorCode::InvalidInitialPrice);
    }

    #[test]
    fn test_initialize_pool_invalid_initial_price_too_high() {
        let mut pool = Pool::default();
        let mut params = default_initialize_pool_params();
        params.initial_sqrt_price_q64 = MAX_SQRT_PRICE + 1;
        let result = pool.initialize(params);
        assert_eq!(result.unwrap_err(), ErrorCode::InvalidInitialPrice);
    }

    #[test]
    fn test_initialize_pool_valid_min_max_initial_price() {
        let mut pool = Pool::default();
        let mut params = default_initialize_pool_params();

        params.initial_sqrt_price_q64 = MIN_SQRT_PRICE;
        let result_min = pool.initialize(params.clone());

        // The Pool::initialize function considers 0 an invalid price.
        // If MIN_SQRT_PRICE is 0, we expect an error. Otherwise, it should be ok.
        if MIN_SQRT_PRICE == 0 {
            assert_eq!(
                result_min.unwrap_err(),
                ErrorCode::InvalidInitialPrice,
                "Expected InvalidInitialPrice for MIN_SQRT_PRICE = 0"
            );
        } else {
            assert!(
                result_min.is_ok(),
                "MIN_SQRT_PRICE ({}) should be valid: {:?}",
                MIN_SQRT_PRICE,
                result_min.err()
            );
        }

        // Use a fresh pool instance for the MAX_SQRT_PRICE test to ensure clean state
        let mut pool_for_max = Pool::default();
        params.initial_sqrt_price_q64 = MAX_SQRT_PRICE;
        let result_max = pool_for_max.initialize(params.clone());
        assert!(
            result_max.is_ok(),
            "MAX_SQRT_PRICE should be valid: {:?}",
            result_max.err()
        );
    }

    #[test]
    fn test_initialize_pool_invalid_tick_spacing() {
        let mut pool = Pool::default();
        let mut params = default_initialize_pool_params();
        params.tick_spacing = 0;
        let result = pool.initialize(params);
        assert_eq!(result.unwrap_err(), ErrorCode::InvalidTickSpacing);
    }
    use amm_core::tick_bitmap::is_tick_initialized;

    fn setup_pool_and_ticks() -> (Pool, MockAccount<TickData>, MockAccount<TickData>, i32, i32) {
        let mut pool = create_default_pool();
        let tick_spacing = pool.tick_spacing as i32;
        pool.current_tick = 10 * tick_spacing; // Example current_tick, aligned
        pool.sqrt_price_q64 = math::tick_to_sqrt_price_q64(pool.current_tick).unwrap();

        let tick_lower_idx = 0;
        let tick_upper_idx = 20 * tick_spacing;

        (
            pool,
            MockAccount::new(TickData::default()),
            MockAccount::new(TickData::default()),
            tick_lower_idx,
            tick_upper_idx,
        )
    }

    #[test]
    fn test_add_liquidity_current_tick_within_range() {
        let (mut pool, mut tick_lower_acc, mut tick_upper_acc, tl, tu) = setup_pool_and_ticks();
        pool.current_tick = (tl + tu) / 2; // Ensure current_tick is within range
        let delta: i128 = 1000;

        let res =
            pool.modify_liquidity_for_test(tl, tu, delta, &mut tick_lower_acc, &mut tick_upper_acc);
        assert!(res.is_ok());
        assert_eq!(pool.liquidity, delta as u128);
        assert_eq!(tick_lower_acc.data.liquidity_gross, delta as u128);
        assert_eq!(tick_lower_acc.data.liquidity_net, delta);
        assert_eq!(
            tick_lower_acc.data.initialized, 1,
            "Lower tick should be initialized"
        );
        assert_eq!(tick_upper_acc.data.liquidity_gross, delta as u128);
        assert_eq!(tick_upper_acc.data.liquidity_net, -delta);
        assert_eq!(
            tick_upper_acc.data.initialized, 1,
            "Upper tick should be initialized"
        );

        let tick_bitmap_map: BTreeMap<i16, u64> =
            borsh::BorshDeserialize::try_from_slice(&pool.tick_bitmap_data).unwrap();
        assert!(is_tick_initialized(&tick_bitmap_map, tl, pool.tick_spacing).unwrap());
        assert!(is_tick_initialized(&tick_bitmap_map, tu, pool.tick_spacing).unwrap());
    }

    #[test]
    fn test_add_liquidity_current_tick_outside_range() {
        let (mut pool, mut tick_lower_acc, mut tick_upper_acc, tl, tu) = setup_pool_and_ticks();
        pool.current_tick = tu + pool.tick_spacing as i32; // Outside range
        let delta: i128 = 1000;

        let res =
            pool.modify_liquidity_for_test(tl, tu, delta, &mut tick_lower_acc, &mut tick_upper_acc);
        assert!(res.is_ok());
        assert_eq!(pool.liquidity, 0); // Pool liquidity not affected
    }

    #[test]
    fn test_remove_liquidity_current_tick_within_range() {
        let (mut pool, mut tick_lower_acc, mut tick_upper_acc, tl, tu) = setup_pool_and_ticks();
        let add_delta: i128 = 1000;
        pool.modify_liquidity_for_test(tl, tu, add_delta, &mut tick_lower_acc, &mut tick_upper_acc)
            .unwrap();
        pool.current_tick = (tl + tu) / 2;
        pool.liquidity = add_delta as u128;

        let remove_delta: i128 = -500;
        let res = pool.modify_liquidity_for_test(
            tl,
            tu,
            remove_delta,
            &mut tick_lower_acc,
            &mut tick_upper_acc,
        );
        assert!(res.is_ok());
        assert_eq!(pool.liquidity, (add_delta + remove_delta) as u128);
        assert_eq!(
            tick_lower_acc.data.liquidity_gross,
            (add_delta + remove_delta) as u128
        );
        assert_eq!(
            tick_lower_acc.data.initialized, 1,
            "Lower tick should still be initialized"
        );
    }

    #[test]
    fn test_remove_all_liquidity_uninitializes_ticks() {
        let (mut pool, mut tick_lower_acc, mut tick_upper_acc, tl, tu) = setup_pool_and_ticks();
        let add_delta: i128 = 1000;
        pool.modify_liquidity_for_test(tl, tu, add_delta, &mut tick_lower_acc, &mut tick_upper_acc)
            .unwrap();
        pool.current_tick = (tl + tu) / 2;
        pool.liquidity = add_delta as u128;

        let remove_all_delta: i128 = -add_delta;
        let res = pool.modify_liquidity_for_test(
            tl,
            tu,
            remove_all_delta,
            &mut tick_lower_acc,
            &mut tick_upper_acc,
        );
        assert!(res.is_ok());
        assert_eq!(pool.liquidity, 0);
        assert_eq!(tick_lower_acc.data.liquidity_gross, 0);
        assert_eq!(
            tick_lower_acc.data.initialized, 0,
            "Lower tick should be uninitialized"
        );

        let tick_bitmap_map: BTreeMap<i16, u64> =
            borsh::BorshDeserialize::try_from_slice(&pool.tick_bitmap_data).unwrap();
        assert!(!is_tick_initialized(&tick_bitmap_map, tl, pool.tick_spacing).unwrap());
    }
    #[test]
    fn test_swap_step_zero_for_one_reaches_target() {
        let pool = create_default_pool();
        let cur_p = float_to_q64(1.1);
        let tar_p = float_to_q64(1.0);
        let liq = float_to_q64(1000.0);
        let gross_in_rem = float_to_q64(100.0);

        let (gross_in, net_out, next_p) = pool
            .swap_step(cur_p, tar_p, liq, gross_in_rem, pool.fee_rate, true)
            .unwrap();
        assert_eq!(next_p, tar_p);
        assert!(gross_in > 0 && gross_in < gross_in_rem);
        assert!(net_out > 0);
    }

    #[test]
    fn test_swap_step_zero_for_one_limited_by_input() {
        let pool = create_default_pool();
        let cur_p = float_to_q64(1.1);
        let tar_p = float_to_q64(1.0);
        let liq = float_to_q64(1000.0);
        let gross_in_rem = float_to_q64(1.0); // Small input

        let (gross_in, net_out, next_p) = pool
            .swap_step(cur_p, tar_p, liq, gross_in_rem, pool.fee_rate, true)
            .unwrap();
        assert_eq!(gross_in, gross_in_rem);
        assert!(next_p < cur_p && next_p > tar_p);
        assert!(net_out > 0);
    }

    #[test]
    fn test_swap_step_one_for_zero_reaches_target() {
        let pool = create_default_pool();
        let cur_p = float_to_q64(1.0);
        let tar_p = float_to_q64(1.1);
        let liq = float_to_q64(1000.0);
        let gross_in_rem = float_to_q64(100.4); // Adjusted to ensure target is reached after 0.3% fee

        let (gross_in, net_out, next_p) = pool
            .swap_step(cur_p, tar_p, liq, gross_in_rem, pool.fee_rate, false)
            .unwrap();
        assert_q64_approx_eq(
            next_p,
            tar_p,
            1, // Target should be met precisely when input is sufficient
            "test_swap_step_one_for_zero_reaches_target: next_p vs tar_p",
        );
        assert!(gross_in > 0 && gross_in < gross_in_rem);
        assert!(net_out > 0);
    }

    #[test]
    fn test_swap_step_zero_liquidity() {
        let pool = create_default_pool();
        let cur_p = float_to_q64(1.0);
        let tar_p = float_to_q64(1.1);
        let (gross_in, net_out, next_p) = pool
            .swap_step(cur_p, tar_p, 0, float_to_q64(10.0), pool.fee_rate, false)
            .unwrap();
        assert_eq!(gross_in, 0);
        assert_eq!(net_out, 0);
        assert_eq!(next_p, cur_p);
    }
    use amm_core::tick_bitmap::flip_tick_initialized_status;

    fn setup_pool_for_swap_with_ticks() -> Pool {
        let mut pool = create_default_pool();
        pool.tick_spacing = 60;
        pool.fee_rate = 30;
        pool.current_tick = 0; // Price 1.0
        pool.sqrt_price_q64 = float_to_q64(1.0);
        pool.liquidity = float_to_q64(10000.0); // Large liquidity

        // Initialize ticks at -60, 60, 120 for crossing
        let ticks_to_init = [-60, 60, 120];
        for &tick_idx in ticks_to_init.iter() {
            let mut current_map: BTreeMap<i16, u64> =
                borsh::BorshDeserialize::try_from_slice(&pool.tick_bitmap_data).unwrap();
            // In a real scenario, TickData would have liquidity_net.
            // For bitmap, only `initialized` matters for `next_initialized_tick`.
            flip_tick_initialized_status(&mut current_map, tick_idx, pool.tick_spacing, true)
                .unwrap();
            pool.tick_bitmap_data = borsh::to_vec(&current_map).unwrap();
        }
        pool
    }

    #[test]
    fn test_swap_zero_amount() {
        let mut pool = setup_pool_for_swap_with_ticks();
        let pool_key = new_unique_pubkey(); // Mock pool key
        let (total_in, total_out) = pool
            .swap(true, 0, MIN_SQRT_PRICE, &pool_key, &[], 0)
            .unwrap();
        assert_eq!(total_in, 0);
        assert_eq!(total_out, 0);
    }

    #[test]
    fn test_swap_z4o_single_step_no_cross() {
        let mut pool = setup_pool_for_swap_with_ticks(); // Starts at tick 0 (price 1.0)
        let limit = float_to_q64(0.999); // Price target slightly lower, won't cross tick -60
        let amount = float_to_q64(10.0);

        let initial_p = pool.sqrt_price_q64;
        let pool_key = new_unique_pubkey();
        let (total_in, total_out) = pool
            .swap(true, amount.try_into().unwrap(), limit, &pool_key, &[], 0)
            .unwrap();
        assert!(total_in > 0 && total_in <= amount);
        assert!(total_out > 0);
        assert!(pool.sqrt_price_q64 < initial_p && pool.sqrt_price_q64 >= limit);
        assert_eq!(
            pool.current_tick,
            math::sqrt_price_q64_to_tick(pool.sqrt_price_q64).unwrap()
        );
    }

    #[test]
    fn test_swap_z4o_hits_price_limit() {
        let mut pool = setup_pool_for_swap_with_ticks();
        let limit = pool.sqrt_price_q64 - 100; // A limit that will be hit
        let pool_key = new_unique_pubkey();
        let (total_in, total_out) = pool
            .swap(
                true,
                float_to_q64(1000.0).try_into().unwrap(),
                limit,
                &pool_key,
                &[],
                0,
            )
            .unwrap();
        assert!(total_in < float_to_q64(1000.0)); // Did not consume all
        assert!(total_out > 0);
        assert!(pool.sqrt_price_q64 >= limit);
    }

    #[test]
    fn test_swap_z4o_cross_one_tick() {
        let mut pool = setup_pool_for_swap_with_ticks(); // Starts at tick 0 (price 1.0)
                                                         // Tick -60 is initialized. Price at -60 is ~0.997
        let price_at_neg_60 = math::tick_to_sqrt_price_q64(-60).unwrap();
        let limit = price_at_neg_60; // Aim to cross tick 0 and stop at/after -60
        let amount = float_to_q64(500.0); // Amount likely to cross tick 0

        let initial_liq = pool.liquidity;
        let pool_key = new_unique_pubkey();
        let (total_in, total_out) = pool
            .swap(true, amount.try_into().unwrap(), limit, &pool_key, &[], 0)
            .unwrap();
        assert!(total_in > 0);
        assert!(total_out > 0);
        assert!(pool.sqrt_price_q64 < float_to_q64(1.0)); // Price decreased
        assert!(pool.sqrt_price_q64 <= math::tick_to_sqrt_price_q64(0).unwrap()); // Crossed or reached tick 0
        assert!(pool.sqrt_price_q64 >= limit); // Stopped at or after -60
        assert_eq!(pool.liquidity, initial_liq); // liquidity doesn't change on cross
        assert_eq!(
            pool.current_tick,
            math::sqrt_price_q64_to_tick(pool.sqrt_price_q64).unwrap()
        );
    }

    

    

