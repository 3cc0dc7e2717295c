//! Fixed-point arithmetic in Q64.64 and the price and amount formulas of the
//! concentrated-liquidity AMM.
use vstd::prelude::*;
use vstd::arithmetic::div_mod::*;
use vstd::arithmetic::mul::*;
use crate::arith::{lemma_u128_halves, lemma_limb_product, lemma_div_mod_unique, lemma_mod_two_digits, lemma_div_bounds, lemma_div_mono, lemma_div_antimono, lemma_div_compare};
use crate::constants::{Q64, POWERS, MIN_TICK, MAX_TICK, MAX_SQRT_PRICE, BPS_DENOMINATOR};
use crate::errors::ErrorCode;
use crate::wide::{Wide, wval, b64, b128, b192, b256, lemma_wval_bound, lemma_wval_low, lemma_wval_below_b128, wide_from_u128, wide_one, wide_shl, wide_shr, wide_mul, wide_add, wide_checked_add, wide_sub, wide_div, wide_bitand, wide_is_zero, wide_as_u128};

verus! {

/// The middle column of the schoolbook product of `a` and `b` split in 64-bit
/// halves, including the carry out of the low column.
pub open spec fn mul_fixed_mid(a: nat, b: nat) -> nat {
    (a / b64()) * (b % b64()) + (a % b64()) * (b / b64()) + ((a % b64()) * (b % b64())) / b64()
}

/// The Q64.64 product `a * b / 2^64`, truncated to 128 bits.
pub open spec fn mul_fixed_spec(a: nat, b: nat) -> nat {
    ((a * b) / b64()) % b128()
}

pub proof fn lemma_mul_fixed_columns(a: nat, b: nat)
    requires
        a < b128(),
        b < b128(),
    ensures
        (a * b) / b64() == (a / b64()) * (b / b64()) * b64() + mul_fixed_mid(a, b),
{
    let bb = b64();
    let ah = a / bb;
    let al = a % bb;
    let bh = b / bb;
    let bl = b % bb;
    lemma_div_bounds(a, bb);
    lemma_div_bounds(b, bb);
    let c = al * bl;
    lemma_div_bounds(c, bb);
    let cq = c / bb;
    let cr = c % bb;
    let p = ah * bh;
    let q = ah * bl + al * bh;
    assert(a * b == (ah * bb) * b + al * b) by (nonlinear_arith)
        requires
            a == ah * bb + al,
    ;
    assert((ah * bb) * b == p * bb * bb + (ah * bl) * bb) by (nonlinear_arith)
        requires
            b == bh * bb + bl,
            p == ah * bh,
    ;
    assert(al * b == (al * bh) * bb + c) by (nonlinear_arith)
        requires
            b == bh * bb + bl,
            c == al * bl,
    ;
    assert((ah * bl) * bb + (al * bh) * bb == q * bb) by (nonlinear_arith)
        requires
            q == ah * bl + al * bh,
    ;
    assert(p * bb * bb + q * bb + c == (p * bb + q + cq) * bb + cr) by (nonlinear_arith)
        requires
            c == cq * bb + cr,
    ;
    lemma_div_mod_unique(a * b, bb, ah * bh * bb + ah * bl + al * bh + c / bb, c % bb);
    assert(ah * bh * bb == (a / b64()) * (b / b64()) * b64());
}

/// Multiplies two Q64.64 numbers: the result is `a * b / 2^64`, kept to its
/// low 128 bits. It panics (so this library requires otherwise) when the
/// middle column of the product overflows 128 bits.
pub fn mul_fixed(a: u128, b: u128) -> (r: u128)
    requires
        mul_fixed_mid(a as nat, b as nat) <= u128::MAX,
    ensures
        r == mul_fixed_spec(a as nat, b as nat),
{
    proof {
        lemma_u128_halves(a);
        lemma_u128_halves(b);
    }
    let a_lo = a as u64 as u128;
    let a_hi = (a >> 64) as u64 as u128;
    let b_lo = b as u64 as u128;
    let b_hi = (b >> 64) as u64 as u128;
    proof {
        lemma_limb_product(a_lo as nat, b_lo as nat);
        lemma_limb_product(a_hi as nat, b_lo as nat);
        lemma_limb_product(a_lo as nat, b_hi as nat);
        lemma_limb_product(a_hi as nat, b_hi as nat);
    }
    let lo_lo = a_lo * b_lo;
    let hi_lo = a_hi * b_lo;
    let lo_hi = a_lo * b_hi;
    let hi_hi = a_hi * b_hi;
    assert(lo_lo >> 64u128 == lo_lo / 0x1_0000_0000_0000_0000u128) by (bit_vector);
    let carry = lo_lo >> 64;
    let mid = hi_lo + lo_hi + carry;
    assert(mid >> 64u128 == mid / 0x1_0000_0000_0000_0000u128) by (bit_vector);
    assert(mid / 0x1_0000_0000_0000_0000u128 < 0x1_0000_0000_0000_0000u128) by (bit_vector);
    let high = hi_hi + (mid >> 64);
    let res = (high << 64) | (mid as u64 as u128);
    proof {
        assert(((high << 64u128) | ((mid as u64) as u128)) == (high % 0x1_0000_0000_0000_0000u128)
            * 0x1_0000_0000_0000_0000u128 + mid % 0x1_0000_0000_0000_0000u128) by (bit_vector);
        let bb = b64();
        let an = a as nat;
        let bn = b as nat;
        lemma_mul_fixed_columns(an, bn);
        let m = mid as nat;
        lemma_div_bounds(m, bb);
        let hh: nat = (an / bb) * (bn / bb);
        let x: nat = hh + m / bb;
        assert((an * bn) / bb == x * bb + m % bb) by (nonlinear_arith)
            requires
                (an * bn) / bb == hh * bb + m,
                m == (m / bb) * bb + m % bb,
                x == hh + m / bb,
        ;
        lemma_mod_two_digits(x, (m % bb) as nat, bb);
        assert(bb * bb == b128());
        assert(high == x);
    }
    res
}

/// The Q64.64 quotient `a * 2^64 / b`, rounded down.
pub open spec fn div_fixed_spec(a: nat, b: nat) -> nat {
    (a * b64()) / b
}

pub(crate) proof fn lemma_pow2_64()
    ensures
        vstd::arithmetic::power2::pow2(64) == b64(),
        vstd::arithmetic::power2::pow2(1) == 2,
{
    vstd::arithmetic::power2::lemma2_to64();
    vstd::arithmetic::power2::lemma2_to64_rest();
}

/// Divides two Q64.64 numbers: `a * 2^64 / b`, rounded down. It panics on a
/// zero divisor and when the quotient does not fit in 128 bits.
pub fn div_fixed(a: u128, b: u128) -> (r: u128)
    requires
        b != 0,
        div_fixed_spec(a as nat, b as nat) < b128(),
    ensures
        r == div_fixed_spec(a as nat, b as nat),
{
    proof {
        lemma_pow2_64();
        assert(a as nat * b64() < b256()) by (nonlinear_arith)
            requires
                a < b128(),
                b128() * b64() < b256(),
        ;
        vstd::arithmetic::div_mod::lemma_small_mod(a as nat * b64(), b256());
    }
    let a_wide = wide_from_u128(a);
    let shifted = wide_shl(a_wide, 64);
    let quotient = wide_div(shifted, wide_from_u128(b));
    wide_as_u128(quotient)
}

/// The reciprocal `1 / x` of a Q64.64 number, that is `2^128 / x` rounded
/// down. It panics when `x` is zero or one (the quotient does not fit).
pub fn invert_fixed(x: u128) -> (r: u128)
    requires
        x >= 2,
    ensures
        r == b128() / (x as nat),
{
    proof {
        lemma_div_antimono(b128(), 2, x as nat);
        assert(b64() * b64() == b128());
    }
    div_fixed(Q64, x)
}

/// `a / b` rounded up.
pub open spec fn ceil_div(a: nat, b: nat) -> nat {
    if a % b == 0 {
        a / b
    } else {
        a / b + 1
    }
}

/// Divides `a` by `b`, rounding up. It panics when `b` is zero.
pub fn round_up_div(a: u128, b: u128) -> (r: u128)
    requires
        b != 0,
    ensures
        r == ceil_div(a as nat, b as nat),
{
    let q = a / b;
    let r = a % b;
    if r == 0 {
        q
    } else {
        proof {
            lemma_div_bounds(a as nat, b as nat);
            if b == 1 {
                assert(r == 0);
            } else {
                lemma_div_antimono(a as nat, 2, b as nat);
            }
        }
        q + 1
    }
}

/// `x` clamped into `[min, max]`.
pub open spec fn clamp_spec(x: nat, min: nat, max: nat) -> nat {
    if x < min {
        min
    } else if x > max {
        max
    } else {
        x
    }
}

/// Clamps `x` into `[min, max]`. It panics when `min > max`.
pub fn clamp_u128(x: u128, min: u128, max: u128) -> (r: u128)
    requires
        min <= max,
    ensures
        r == clamp_spec(x as nat, min as nat, max as nat),
{
    if x < min {
        min
    } else if x > max {
        max
    } else {
        x
    }
}

/// The Q64.64 representation of an integer: `amount * 2^64`.
pub fn to_q64(amount: u64) -> (r: u128)
    ensures
        r == amount as nat * b64(),
{
    assert(((amount as u128) << 64u128) == (amount as u128) * 0x1_0000_0000_0000_0000u128)
        by (bit_vector);
    (amount as u128) << 64
}

/// The integer part of a Q64.64 number: `x / 2^64`.
pub fn from_q64(x: u128) -> (r: u64)
    ensures
        r == x as nat / b64(),
{
    assert(((x >> 64u128) as u64) as u128 == x / 0x1_0000_0000_0000_0000u128) by (bit_vector);
    (x >> 64) as u64
}

/// The number of binary digits of `e` (zero for zero).
pub open spec fn bit_length(e: nat) -> nat
    decreases e,
{
    if e == 0 {
        0
    } else {
        1 + bit_length(e / 2)
    }
}

/// Binary exponentiation over a table of powers `table[i] = base^(2^i)` in
/// Q64.64, consuming the bits of `e` from the lowest, starting at table index
/// `i` with the running product `acc`; each factor is applied with
/// `mul_fixed`, in that order.
pub open spec fn table_pow_from(table: Seq<u128>, e: nat, i: nat, acc: nat) -> nat
    decreases e,
{
    if e == 0 {
        acc
    } else {
        table_pow_from(
            table,
            e / 2,
            i + 1,
            if e % 2 == 1 {
                mul_fixed_spec(acc, table[i as int] as nat)
            } else {
                acc
            },
        )
    }
}

/// `base^e` in Q64.64 from the power table, starting from 1.0.
pub open spec fn table_pow(table: Seq<u128>, e: nat) -> nat {
    table_pow_from(table, e, 0, b64())
}

/// No multiplication of the table exponentiation overflows its middle column.
pub open spec fn table_pow_ok_from(table: Seq<u128>, e: nat, i: nat, acc: nat) -> bool
    decreases e,
{
    if e == 0 {
        true
    } else {
        &&& (e % 2 == 1 ==> mul_fixed_mid(acc, table[i as int] as nat) <= u128::MAX)
        &&& table_pow_ok_from(
            table,
            e / 2,
            i + 1,
            if e % 2 == 1 {
                mul_fixed_spec(acc, table[i as int] as nat)
            } else {
                acc
            },
        )
    }
}

/// Computes `base^exp` in Q64.64 from a table whose entry `i` holds
/// `base^(2^i)`. It panics when `exp` needs more bits than the table has
/// entries, or when a multiplication overflows.
pub fn binary_pow(table: &[u128], exp: u32) -> (r: u128)
    requires
        bit_length(exp as nat) <= table.len(),
        table_pow_ok_from(table@, exp as nat, 0, b64()),
    ensures
        r == table_pow(table@, exp as nat),
{
    let ghost exp0 = exp;
    let mut exp = exp;
    let mut result = Q64;
    let mut i: usize = 0;
    if exp == 0 {
        return Q64;
    }
    while exp > 0
        invariant
            i + bit_length(exp as nat) <= table.len(),
            table_pow_from(table@, exp as nat, i as nat, result as nat)
                == table_pow(table@, exp0 as nat),
            table_pow_ok_from(table@, exp as nat, i as nat, result as nat),
        decreases exp,
    {
        assert(exp & 1u32 == 1u32 <==> exp % 2 == 1) by (bit_vector);
        assert(exp >> 1u32 == exp / 2) by (bit_vector);
        if exp & 1 == 1 {
            result = mul_fixed(result, table[i]);
        }
        exp >>= 1;
        i += 1;
    }
    result
}

/// `|tick|`.
pub open spec fn tick_abs(tick: int) -> nat {
    if tick < 0 {
        (-tick) as nat
    } else {
        tick as nat
    }
}

/// The absolute value of an `i32`, as `u32` (what `i32::unsigned_abs` gives).
pub fn unsigned_abs_i32(x: i32) -> (r: u32)
    ensures
        r == tick_abs(x as int),
{
    if x < 0 {
        (0i64 - x as i64) as u32
    } else {
        x as u32
    }
}

/// Whether a tick lies in `[MIN_TICK, MAX_TICK]`.
pub open spec fn tick_in_range(tick: int) -> bool {
    MIN_TICK <= tick <= MAX_TICK
}

/// `sqrt(1.0001)^tick` in Q64.64 as the power table computes it:
/// `(sqrt 1.0001)^|tick|` by binary exponentiation, and for a negative tick
/// its reciprocal `2^128 / x`.
pub open spec fn table_sqrt_price(tick: int) -> nat {
    let p = table_pow(POWERS@, tick_abs(tick));
    if tick < 0 {
        b128() / p
    } else {
        p
    }
}

/// The Q64.64 square-root price of a tick: `table_sqrt_price`, capped at
/// `MAX_SQRT_PRICE`, which is the price of `MAX_TICK`.
pub open spec fn tick_sqrt_price(tick: int) -> nat {
    let p = table_sqrt_price(tick);
    if p > MAX_SQRT_PRICE {
        MAX_SQRT_PRICE as nat
    } else {
        p
    }
}

/// For ticks in range the price is a positive `u128`; it is 1.0 at tick 0,
/// at least 1.0 for non-negative ticks and at most 1.0 for negative ones.
pub proof fn lemma_tick_sqrt_price_range(tick: int)
    requires
        tick_in_range(tick),
    ensures
        0 < tick_sqrt_price(tick) < b128(),
        tick >= 0 ==> tick_sqrt_price(tick) >= b64(),
        tick <= 0 ==> tick_sqrt_price(tick) <= b64(),
        tick == 0 ==> tick_sqrt_price(tick) == b64(),
        tick_abs(tick) <= 887272,
        table_pow_ok_from(POWERS@, tick_abs(tick), 0, b64()),
        bit_length(tick_abs(tick)) <= POWERS@.len(),
{
    let e = tick_abs(tick);
    crate::power_bound::lemma_tick_pow_in_range(e);
    let p = table_pow(POWERS@, e);
    if tick < 0 {
        lemma_div_antimono(b128(), b64(), p);
        lemma_div_mono(b64(), b128(), p);
        assert(b128() / b64() == b64());
        lemma_div_compare(b128(), p, 1);
        lemma_div_compare(b128(), p, b128());
    }
}

/// Converts a tick index to its Q64.64 square-root price (see
/// `tick_sqrt_price`): `MAX_TICK` gives `MAX_SQRT_PRICE`. Ticks outside
/// `[MIN_TICK, MAX_TICK]` are rejected with `InvalidTickRange`.
pub fn tick_to_sqrt_price_q64(tick: i32) -> (r: Result<u128, ErrorCode>)
    ensures
        match r {
            Ok(p) => tick_in_range(tick as int) && p == tick_sqrt_price(tick as int),
            Err(e) => !tick_in_range(tick as int) && e == ErrorCode::InvalidTickRange,
        },
{
    if tick < MIN_TICK || tick > MAX_TICK {
        return Err(ErrorCode::InvalidTickRange);
    }
    let abs_tick = unsigned_abs_i32(tick);
    proof {
        lemma_tick_sqrt_price_range(tick as int);
        crate::power_bound::lemma_tick_pow_in_range(abs_tick as nat);
    }
    let table: &[u128] = &POWERS;
    assert(table@ == POWERS@);
    let sqrt_price_abs_tick = binary_pow(table, abs_tick);
    let final_sqrt_price = if tick < 0 {
        invert_fixed(sqrt_price_abs_tick)
    } else {
        sqrt_price_abs_tick
    };
    if final_sqrt_price > MAX_SQRT_PRICE {
        return Ok(MAX_SQRT_PRICE);
    }
    Ok(final_sqrt_price)
}

/// `tick` is the floor tick of `sqrt_price`: its price does not exceed
/// `sqrt_price` and the next tick's does (or it is `MAX_TICK`); or the price
/// lies below the price of `MIN_TICK` and the tick is `MIN_TICK`.
pub open spec fn is_floor_tick(sqrt_price: nat, tick: int) -> bool {
    ||| tick_sqrt_price(tick) <= sqrt_price && (tick == MAX_TICK || sqrt_price < tick_sqrt_price(
        tick + 1,
    ))
    ||| tick == MIN_TICK && sqrt_price < tick_sqrt_price(MIN_TICK as int)
}

/// Converts a Q64.64 square-root price to a tick by binary search over
/// `[MIN_TICK, MAX_TICK]`: the result is a floor tick of the price. A zero
/// price maps to `MIN_TICK` and 1.0 to tick 0.
pub fn sqrt_price_q64_to_tick(sqrt_price_q64: u128) -> (r: Result<i32, ErrorCode>)
    ensures
        r is Ok,
        match r {
            Ok(t) => tick_in_range(t as int) && is_floor_tick(sqrt_price_q64 as nat, t as int),
            Err(_) => false,
        },
{
    proof {
        lemma_tick_sqrt_price_range(MIN_TICK as int);
        lemma_tick_sqrt_price_range(0);
        lemma_tick_sqrt_price_range(1);
        crate::power_bound::lemma_tick_pow_in_range(1);
        assert(POWERS@[0] == 18447666387855959850u128);
        assert(tick_sqrt_price(1) == table_pow_from(POWERS@, 0, 1, mul_fixed_spec(b64(), POWERS@[0] as nat)));
        assert(tick_sqrt_price(1) > b64()) by {
            lemma_mul_fixed_columns(b64(), POWERS@[0] as nat);
            assert(b64() * (POWERS@[0] as nat) / b64() == POWERS@[0] as nat) by {
                vstd::arithmetic::div_mod::lemma_div_by_multiple(POWERS@[0] as int, b64() as int);
                vstd::arithmetic::mul::lemma_mul_is_commutative(POWERS@[0] as int, b64() as int);
            }
            vstd::arithmetic::div_mod::lemma_small_mod(POWERS@[0] as nat, b128());
        }
    }
    if sqrt_price_q64 == 0 {
        return Ok(MIN_TICK);
    }
    if sqrt_price_q64 == Q64 {
        return Ok(0);
    }
    let mut low = MIN_TICK;
    let mut high = MAX_TICK;
    let mut ans = MIN_TICK;
    while low <= high
        invariant
            MIN_TICK <= low <= MAX_TICK + 1,
            MIN_TICK - 1 <= high <= MAX_TICK,
            low <= high + 1,
            MIN_TICK <= ans <= MAX_TICK,
            (low == MIN_TICK && ans == MIN_TICK) || (low == ans + 1 && tick_sqrt_price(ans as int)
                <= sqrt_price_q64),
            high == MAX_TICK || sqrt_price_q64 < tick_sqrt_price(high + 1),
        decreases high + 1 - low,
    {
        let mid = low + (high - low) / 2;
        let mid_sqrt_price = match tick_to_sqrt_price_q64(mid) {
            Ok(p) => p,
            Err(e) => {
                return Err(e);
            },
        };
        if mid_sqrt_price <= sqrt_price_q64 {
            ans = mid;
            low = match mid.checked_add(1) {
                Some(v) => v,
                None => {
                    return Err(ErrorCode::MathOverflow);
                },
            };
        } else {
            high = match mid.checked_sub(1) {
                Some(v) => v,
                None => {
                    return Err(ErrorCode::MathOverflow);
                },
            };
        }
    }
    let clamped = if ans < MIN_TICK {
        MIN_TICK
    } else if ans > MAX_TICK {
        MAX_TICK
    } else {
        ans
    };
    Ok(clamped)
}

/// `(1/lower - 1/upper)` in Q64.64: the difference of the reciprocals as
/// `invert_fixed` computes them.
pub open spec fn inv_diff(lower: nat, upper: nat) -> nat {
    (b128() / lower - b128() / upper) as nat
}

/// A Q128.128 product brought back to Q64.64: `raw / 2^64`, plus one when
/// rounding up and the remainder is not zero.
pub open spec fn shift_round(raw: nat, round_up: bool) -> nat {
    raw / b64() + if round_up && raw % b64() != 0 {
        1nat
    } else {
        0nat
    }
}

/// `L * (1/sqrt_lower - 1/sqrt_upper)`: the token-0 amount of a price range.
pub open spec fn amount0_delta_spec(lower: nat, upper: nat, liquidity: nat, round_up: bool) -> nat {
    shift_round(liquidity * inv_diff(lower, upper), round_up)
}

/// `L * (sqrt_upper - sqrt_lower)`: the token-1 amount of a price range.
pub open spec fn amount1_delta_spec(lower: nat, upper: nat, liquidity: nat, round_up: bool) -> nat {
    shift_round(liquidity * (upper - lower) as nat, round_up)
}

/// What `get_amount_0_delta` returns.
pub open spec fn amount0_delta_result(lower: nat, upper: nat, liquidity: nat, round_up: bool) -> Result<
    u128,
    ErrorCode,
> {
    if lower > upper {
        Err(ErrorCode::InvalidPriceRange)
    } else if lower == upper {
        Ok(0)
    } else {
        Ok(amount0_delta_spec(lower, upper, liquidity, round_up) as u128)
    }
}

/// The inputs on which `get_amount_0_delta` returns (rather than panics).
pub open spec fn amount0_delta_safe(lower: nat, upper: nat, liquidity: nat, round_up: bool) -> bool {
    lower < upper ==> lower >= 2 && amount0_delta_spec(lower, upper, liquidity, round_up) < b128()
}

/// What `get_amount_1_delta` returns.
pub open spec fn amount1_delta_result(lower: nat, upper: nat, liquidity: nat, round_up: bool) -> Result<
    u128,
    ErrorCode,
> {
    if lower > upper {
        Err(ErrorCode::InvalidPriceRange)
    } else if lower == upper {
        Ok(0)
    } else {
        Ok(amount1_delta_spec(lower, upper, liquidity, round_up) as u128)
    }
}

/// The inputs on which `get_amount_1_delta` returns (rather than panics).
pub open spec fn amount1_delta_safe(lower: nat, upper: nat, liquidity: nat, round_up: bool) -> bool {
    lower < upper ==> amount1_delta_spec(lower, upper, liquidity, round_up) < b128()
}

/// `raw / 2^64` from a 256-bit value, rounded up on request, in 256 bits.
fn shift_round_wide(raw: Wide, round_up: bool) -> (r: Wide)
    ensures
        wval(r) == shift_round(wval(raw), round_up),
{
    proof {
        lemma_pow2_64();
        lemma_wval_bound(raw);
    }
    let mut amount = wide_shr(raw, 64);
    let one = wide_one();
    let mask = wide_sub(wide_from_u128(Q64), one);
    proof {
        lemma_wval_low(mask);
        lemma_wval_low(raw);
    }
    let remainder = wide_bitand(raw, mask);
    proof {
        let x = raw.w0;
        assert(x & 0xFFFF_FFFF_FFFF_FFFFu64 == x) by (bit_vector);
        assert(raw.w1 & 0u64 == 0 && raw.w2 & 0u64 == 0 && raw.w3 & 0u64 == 0) by (bit_vector);
        assert(wval(remainder) == wval(raw) % b64());
        lemma_div_compare(wval(raw), b64(), b192());
        assert(b192() * b64() == b256());
    }
    if round_up && !wide_is_zero(remainder) {
        amount = match wide_checked_add(amount, one) {
            Some(v) => v,
            None => {
                proof {
                    assert(false);
                }
                return amount;
            },
        };
    }
    amount
}

/// `raw / 2^64` from a 256-bit value, rounded up on request, as a `u128`.
fn shift_round_to_u128(raw: Wide, round_up: bool) -> (r: u128)
    requires
        shift_round(wval(raw), round_up) < b128(),
    ensures
        r == shift_round(wval(raw), round_up),
{
    wide_as_u128(shift_round_wide(raw, round_up))
}

/// Whether `raw / 2^64`, rounded up on request, fits in 128 bits.
fn shift_round_fits(raw: Wide, round_up: bool) -> (r: bool)
    ensures
        r == (shift_round(wval(raw), round_up) < b128()),
{
    let amount = shift_round_wide(raw, round_up);
    proof {
        lemma_wval_below_b128(amount);
    }
    amount.w2 == 0 && amount.w3 == 0
}

/// Whether `get_amount_0_delta` returns on these arguments (see
/// `amount0_delta_safe`), rather than panicking.
pub fn amount0_delta_is_safe(
    sqrt_price_lower_q64: u128,
    sqrt_price_upper_q64: u128,
    liquidity: u128,
    round_up: bool,
) -> (r: bool)
    ensures
        r == amount0_delta_safe(
            sqrt_price_lower_q64 as nat,
            sqrt_price_upper_q64 as nat,
            liquidity as nat,
            round_up,
        ),
{
    if sqrt_price_lower_q64 >= sqrt_price_upper_q64 {
        return true;
    }
    if sqrt_price_lower_q64 < 2 {
        return false;
    }
    let inv_lower = invert_fixed(sqrt_price_lower_q64);
    let inv_upper = invert_fixed(sqrt_price_upper_q64);
    proof {
        lemma_div_antimono(b128(), sqrt_price_lower_q64 as nat, sqrt_price_upper_q64 as nat);
    }
    let diff = inv_lower - inv_upper;
    proof {
        assert((liquidity as nat * diff as nat) < b256()) by (nonlinear_arith)
            requires
                liquidity < b128(),
                diff < b128(),
                b128() * b128() == b256(),
        ;
    }
    let raw = wide_mul(wide_from_u128(liquidity), wide_from_u128(diff));
    shift_round_fits(raw, round_up)
}

/// Whether `get_amount_1_delta` returns on these arguments (see
/// `amount1_delta_safe`), rather than panicking.
pub fn amount1_delta_is_safe(
    sqrt_price_lower_q64: u128,
    sqrt_price_upper_q64: u128,
    liquidity: u128,
    round_up: bool,
) -> (r: bool)
    ensures
        r == amount1_delta_safe(
            sqrt_price_lower_q64 as nat,
            sqrt_price_upper_q64 as nat,
            liquidity as nat,
            round_up,
        ),
{
    if sqrt_price_lower_q64 >= sqrt_price_upper_q64 {
        return true;
    }
    let diff = sqrt_price_upper_q64 - sqrt_price_lower_q64;
    proof {
        lemma_pow2_64();
        assert((liquidity as nat * diff as nat) < b256()) by (nonlinear_arith)
            requires
                liquidity < b128(),
                diff < b128(),
                b128() * b128() == b256(),
        ;
    }
    let raw = wide_mul(wide_from_u128(liquidity), wide_from_u128(diff));
    shift_round_fits(raw, round_up)
}

/// The amount of token 0 between two square-root prices for a liquidity:
/// `L * (1/sqrt_lower - 1/sqrt_upper)`, rounded down or up. A lower bound
/// above the upper one is `InvalidPriceRange`; equal bounds give zero. It
/// panics when a bound is 0 or 1 (no Q64.64 reciprocal) or when the amount
/// does not fit in 128 bits.
pub fn get_amount_0_delta(
    sqrt_price_lower_q64: u128,
    sqrt_price_upper_q64: u128,
    liquidity: u128,
    round_up: bool,
) -> (r: Result<u128, ErrorCode>)
    requires
        sqrt_price_lower_q64 < sqrt_price_upper_q64 ==> sqrt_price_lower_q64 >= 2
            && amount0_delta_spec(
            sqrt_price_lower_q64 as nat,
            sqrt_price_upper_q64 as nat,
            liquidity as nat,
            round_up,
        ) < b128(),
    ensures
        r == amount0_delta_result(
            sqrt_price_lower_q64 as nat,
            sqrt_price_upper_q64 as nat,
            liquidity as nat,
            round_up,
        ),
        match r {
            Ok(a) => sqrt_price_lower_q64 <= sqrt_price_upper_q64 && a == (if sqrt_price_lower_q64
                == sqrt_price_upper_q64 {
                0
            } else {
                amount0_delta_spec(
                    sqrt_price_lower_q64 as nat,
                    sqrt_price_upper_q64 as nat,
                    liquidity as nat,
                    round_up,
                )
            }),
            Err(e) => sqrt_price_lower_q64 > sqrt_price_upper_q64 && e
                == ErrorCode::InvalidPriceRange,
        },
{
    if sqrt_price_lower_q64 > sqrt_price_upper_q64 {
        return Err(ErrorCode::InvalidPriceRange);
    }
    if sqrt_price_lower_q64 == sqrt_price_upper_q64 {
        return Ok(0);
    }
    let inv_sqrt_lower_q64 = invert_fixed(sqrt_price_lower_q64);
    let inv_sqrt_upper_q64 = invert_fixed(sqrt_price_upper_q64);
    proof {
        lemma_div_antimono(b128(), sqrt_price_lower_q64 as nat, sqrt_price_upper_q64 as nat);
    }
    let diff_inv_sqrt_q64 = match inv_sqrt_lower_q64.checked_sub(inv_sqrt_upper_q64) {
        Some(d) => d,
        None => {
            return Err(ErrorCode::MathOverflow);
        },
    };
    proof {
        assert((liquidity as nat * diff_inv_sqrt_q64 as nat) < b256()) by (nonlinear_arith)
            requires
                liquidity < b128(),
                diff_inv_sqrt_q64 < b128(),
                b128() * b128() == b256(),
        ;
    }
    let raw = wide_mul(wide_from_u128(liquidity), wide_from_u128(diff_inv_sqrt_q64));
    Ok(shift_round_to_u128(raw, round_up))
}

/// The amount of token 1 between two square-root prices for a liquidity:
/// `L * (sqrt_upper - sqrt_lower)`, rounded down or up. A lower bound above
/// the upper one is `InvalidPriceRange`; equal bounds give zero. It panics
/// when the amount does not fit in 128 bits.
pub fn get_amount_1_delta(
    sqrt_price_lower_q64: u128,
    sqrt_price_upper_q64: u128,
    liquidity: u128,
    round_up: bool,
) -> (r: Result<u128, ErrorCode>)
    requires
        sqrt_price_lower_q64 < sqrt_price_upper_q64 ==> amount1_delta_spec(
            sqrt_price_lower_q64 as nat,
            sqrt_price_upper_q64 as nat,
            liquidity as nat,
            round_up,
        ) < b128(),
    ensures
        r == amount1_delta_result(
            sqrt_price_lower_q64 as nat,
            sqrt_price_upper_q64 as nat,
            liquidity as nat,
            round_up,
        ),
        match r {
            Ok(a) => sqrt_price_lower_q64 <= sqrt_price_upper_q64 && a == (if sqrt_price_lower_q64
                == sqrt_price_upper_q64 {
                0
            } else {
                amount1_delta_spec(
                    sqrt_price_lower_q64 as nat,
                    sqrt_price_upper_q64 as nat,
                    liquidity as nat,
                    round_up,
                )
            }),
            Err(e) => sqrt_price_lower_q64 > sqrt_price_upper_q64 && e
                == ErrorCode::InvalidPriceRange,
        },
{
    if sqrt_price_lower_q64 > sqrt_price_upper_q64 {
        return Err(ErrorCode::InvalidPriceRange);
    }
    if sqrt_price_lower_q64 == sqrt_price_upper_q64 {
        return Ok(0);
    }
    let diff_sqrt_q64 = match sqrt_price_upper_q64.checked_sub(sqrt_price_lower_q64) {
        Some(d) => d,
        None => {
            return Err(ErrorCode::MathOverflow);
        },
    };
    proof {
        assert((liquidity as nat * diff_sqrt_q64 as nat) < b256()) by (nonlinear_arith)
            requires
                liquidity < b128(),
                diff_sqrt_q64 < b128(),
                b128() * b128() == b256(),
        ;
    }
    let raw = wide_mul(wide_from_u128(liquidity), wide_from_u128(diff_sqrt_q64));
    Ok(shift_round_to_u128(raw, round_up))
}

/// `amount * 2^64 / d`: a Q64.64 amount divided by a Q64.64 price difference.
pub open spec fn liquidity_from_spec(amount: nat, d: nat) -> nat {
    (amount * b64()) / d
}

/// `amount * 2^64 / d` computed in 256 bits, as a `u128`.
fn scaled_div_to_u128(amount: u128, d: u128) -> (r: u128)
    requires
        d != 0,
        liquidity_from_spec(amount as nat, d as nat) < b128(),
    ensures
        r == liquidity_from_spec(amount as nat, d as nat),
{
    proof {
        lemma_pow2_64();
        assert(amount as nat * b64() < b256()) by (nonlinear_arith)
            requires
                amount < b128(),
                b128() * b64() < b256(),
        ;
        vstd::arithmetic::div_mod::lemma_small_mod(amount as nat * b64(), b256());
    }
    let scaled = wide_shl(wide_from_u128(amount), 64);
    wide_as_u128(wide_div(scaled, wide_from_u128(d)))
}

/// The liquidity that a token-0 amount provides over a price range:
/// `amount0 / (1/sqrt_lower - 1/sqrt_upper)`. A lower bound above the upper
/// one is `InvalidPriceRange`; an empty range (equal bounds or equal
/// reciprocals) gives zero for a zero amount and `ZeroOutputAmount`
/// otherwise. It panics when a bound is 0 or 1 or when the liquidity does
/// not fit in 128 bits.
pub fn get_liquidity_for_amount0(
    sqrt_price_lower_q64: u128,
    sqrt_price_upper_q64: u128,
    amount_0: u128,
) -> (r: Result<u128, ErrorCode>)
    requires
        sqrt_price_lower_q64 < sqrt_price_upper_q64 ==> sqrt_price_lower_q64 >= 2 && (inv_diff(
            sqrt_price_lower_q64 as nat,
            sqrt_price_upper_q64 as nat,
        ) != 0 ==> liquidity_from_spec(
            amount_0 as nat,
            inv_diff(sqrt_price_lower_q64 as nat, sqrt_price_upper_q64 as nat),
        ) < b128()),
    ensures
        ({
            let lower = sqrt_price_lower_q64 as nat;
            let upper = sqrt_price_upper_q64 as nat;
            let empty = lower == upper || inv_diff(lower, upper) == 0;
            match r {
                Ok(l) => lower <= upper && (if empty {
                    amount_0 == 0 && l == 0
                } else {
                    l == liquidity_from_spec(amount_0 as nat, inv_diff(lower, upper))
                }),
                Err(e) => (lower > upper && e == ErrorCode::InvalidPriceRange) || (lower <= upper
                    && empty && amount_0 != 0 && e == ErrorCode::ZeroOutputAmount),
            }
        }),
{
    if sqrt_price_lower_q64 > sqrt_price_upper_q64 {
        return Err(ErrorCode::InvalidPriceRange);
    }
    if sqrt_price_lower_q64 == sqrt_price_upper_q64 {
        return if amount_0 == 0 {
            Ok(0)
        } else {
            Err(ErrorCode::ZeroOutputAmount)
        };
    }
    let inv_sqrt_lower_q64 = invert_fixed(sqrt_price_lower_q64);
    let inv_sqrt_upper_q64 = invert_fixed(sqrt_price_upper_q64);
    proof {
        lemma_div_antimono(b128(), sqrt_price_lower_q64 as nat, sqrt_price_upper_q64 as nat);
    }
    let diff_inv_sqrt_q64 = match inv_sqrt_lower_q64.checked_sub(inv_sqrt_upper_q64) {
        Some(d) => d,
        None => {
            return Err(ErrorCode::MathOverflow);
        },
    };
    if diff_inv_sqrt_q64 == 0 {
        return if amount_0 == 0 {
            Ok(0)
        } else {
            Err(ErrorCode::ZeroOutputAmount)
        };
    }
    Ok(scaled_div_to_u128(amount_0, diff_inv_sqrt_q64))
}

/// The liquidity that a token-1 amount provides over a price range:
/// `amount1 / (sqrt_upper - sqrt_lower)`. A lower bound above the upper one
/// is `InvalidPriceRange`; equal bounds give zero for a zero amount and
/// `ZeroOutputAmount` otherwise. It panics when the liquidity does not fit in
/// 128 bits.
pub fn get_liquidity_for_amount1(
    sqrt_price_lower_q64: u128,
    sqrt_price_upper_q64: u128,
    amount_1: u128,
) -> (r: Result<u128, ErrorCode>)
    requires
        sqrt_price_lower_q64 < sqrt_price_upper_q64 ==> liquidity_from_spec(
            amount_1 as nat,
            (sqrt_price_upper_q64 - sqrt_price_lower_q64) as nat,
        ) < b128(),
    ensures
        ({
            let lower = sqrt_price_lower_q64 as nat;
            let upper = sqrt_price_upper_q64 as nat;
            match r {
                Ok(l) => lower <= upper && (if lower == upper {
                    amount_1 == 0 && l == 0
                } else {
                    l == liquidity_from_spec(amount_1 as nat, (upper - lower) as nat)
                }),
                Err(e) => (lower > upper && e == ErrorCode::InvalidPriceRange) || (lower == upper
                    && amount_1 != 0 && e == ErrorCode::ZeroOutputAmount),
            }
        }),
{
    if sqrt_price_lower_q64 > sqrt_price_upper_q64 {
        return Err(ErrorCode::InvalidPriceRange);
    }
    if sqrt_price_lower_q64 == sqrt_price_upper_q64 {
        return if amount_1 == 0 {
            Ok(0)
        } else {
            Err(ErrorCode::ZeroOutputAmount)
        };
    }
    let diff_sqrt_q64 = match sqrt_price_upper_q64.checked_sub(sqrt_price_lower_q64) {
        Some(d) => d,
        None => {
            return Err(ErrorCode::MathOverflow);
        },
    };
    if diff_sqrt_q64 == 0 {
        return if amount_1 == 0 {
            Ok(0)
        } else {
            Err(ErrorCode::ZeroOutputAmount)
        };
    }
    Ok(scaled_div_to_u128(amount_1, diff_sqrt_q64))
}

/// The denominator `L * 2^64 + amount * sqrt_price` of the token-0 price update.
pub open spec fn next0_den(sqrt_price: nat, liquidity: nat, amount: nat) -> nat {
    liquidity * b64() + amount * sqrt_price
}

/// The token-0 price update `(L * sqrt_price * 2^64) / (L * 2^64 + amount *
/// sqrt_price)`; the numerator is shifted in 256 bits, so its bits above
/// 256 are dropped.
pub open spec fn next0_spec(sqrt_price: nat, liquidity: nat, amount: nat) -> nat {
    ((liquidity * sqrt_price * b64()) % b256()) / next0_den(sqrt_price, liquidity, amount)
}

/// What `compute_next_sqrt_price_from_amount0_in` returns.
pub open spec fn next0_result(sqrt_price: nat, liquidity: nat, amount: nat) -> Result<u128, ErrorCode> {
    if liquidity == 0 {
        Err(ErrorCode::InsufficientLiquidity)
    } else if amount == 0 {
        Ok(sqrt_price as u128)
    } else if next0_den(sqrt_price, liquidity, amount) >= b256() {
        Err(ErrorCode::MathOverflow)
    } else {
        Ok(next0_spec(sqrt_price, liquidity, amount) as u128)
    }
}

/// The inputs on which `compute_next_sqrt_price_from_amount0_in` returns.
pub open spec fn next0_safe(sqrt_price: nat, liquidity: nat, amount: nat) -> bool {
    liquidity != 0 && amount != 0 && next0_den(sqrt_price, liquidity, amount) < b256()
        ==> next0_spec(sqrt_price, liquidity, amount) < b128()
}

/// The square-root price after `amount_0_in` of token 0 enters a pool with
/// `liquidity` at `sqrt_price_current_q64`:
/// `L * P / (L + amount * P)` in Q64.64. Zero liquidity is
/// `InsufficientLiquidity`; a zero amount leaves the price unchanged; a
/// denominator beyond 256 bits is `MathOverflow`. It panics when the result
/// does not fit in 128 bits.
pub fn compute_next_sqrt_price_from_amount0_in(
    sqrt_price_current_q64: u128,
    liquidity: u128,
    amount_0_in: u128,
) -> (r: Result<u128, ErrorCode>)
    requires
        liquidity != 0 && amount_0_in != 0 && next0_den(
            sqrt_price_current_q64 as nat,
            liquidity as nat,
            amount_0_in as nat,
        ) < b256() ==> next0_spec(
            sqrt_price_current_q64 as nat,
            liquidity as nat,
            amount_0_in as nat,
        ) < b128(),
    ensures
        r == next0_result(sqrt_price_current_q64 as nat, liquidity as nat, amount_0_in as nat),
        ({
            let p = sqrt_price_current_q64 as nat;
            let l = liquidity as nat;
            let a = amount_0_in as nat;
            match r {
                Ok(next) => l != 0 && (if a == 0 {
                    next == p
                } else {
                    next0_den(p, l, a) < b256() && next == next0_spec(p, l, a)
                }),
                Err(e) => (l == 0 && e == ErrorCode::InsufficientLiquidity) || (l != 0 && a != 0
                    && next0_den(p, l, a) >= b256() && e == ErrorCode::MathOverflow),
            }
        }),
{
    if liquidity == 0 {
        return Err(ErrorCode::InsufficientLiquidity);
    }
    if amount_0_in == 0 {
        return Ok(sqrt_price_current_q64);
    }
    proof {
        lemma_pow2_64();
        assert((liquidity as nat * sqrt_price_current_q64 as nat) < b256()) by (nonlinear_arith)
            requires
                liquidity < b128(),
                sqrt_price_current_q64 < b128(),
                b128() * b128() == b256(),
        ;
        assert((amount_0_in as nat * sqrt_price_current_q64 as nat) < b256()) by (nonlinear_arith)
            requires
                amount_0_in < b128(),
                sqrt_price_current_q64 < b128(),
                b128() * b128() == b256(),
        ;
        assert(liquidity as nat * b64() < b256()) by (nonlinear_arith)
            requires
                liquidity < b128(),
                b128() * b64() < b256(),
        ;
        vstd::arithmetic::div_mod::lemma_small_mod(liquidity as nat * b64(), b256());
        assert(next0_den(sqrt_price_current_q64 as nat, liquidity as nat, amount_0_in as nat) > 0)
            by (nonlinear_arith)
            requires
                liquidity > 0,
                b64() > 0,
                next0_den(sqrt_price_current_q64 as nat, liquidity as nat, amount_0_in as nat)
                    == liquidity as nat * b64() + amount_0_in as nat * sqrt_price_current_q64 as nat,
        ;
    }
    let num_term = wide_mul(wide_from_u128(liquidity), wide_from_u128(sqrt_price_current_q64));
    let den_term1 = wide_shl(wide_from_u128(liquidity), 64);
    let den_term2 = wide_mul(wide_from_u128(amount_0_in), wide_from_u128(sqrt_price_current_q64));
    let den_sum = match wide_checked_add(den_term1, den_term2) {
        Some(v) => v,
        None => {
            return Err(ErrorCode::MathOverflow);
        },
    };
    if wide_is_zero(den_sum) {
        return Err(ErrorCode::ZeroOutputAmount);
    }
    let shifted = wide_shl(num_term, 64);
    proof {
        assert(wval(num_term) * b64() == liquidity as nat * sqrt_price_current_q64 as nat * b64());
    }
    let next = wide_div(shifted, den_sum);
    Ok(wide_as_u128(next))
}

/// `amount * 2^64 / L`: the price increment of a token-1 input.
pub open spec fn next1_term(liquidity: nat, amount: nat) -> nat {
    (amount * b64()) / liquidity
}

/// What `compute_next_sqrt_price_from_amount1_in` returns.
pub open spec fn next1_result(sqrt_price: nat, liquidity: nat, amount: nat) -> Result<u128, ErrorCode> {
    if liquidity == 0 {
        Err(ErrorCode::InsufficientLiquidity)
    } else if amount == 0 {
        Ok(sqrt_price as u128)
    } else if sqrt_price + next1_term(liquidity, amount) > u128::MAX {
        Err(ErrorCode::MathOverflow)
    } else {
        Ok((sqrt_price + next1_term(liquidity, amount)) as u128)
    }
}

/// The inputs on which `compute_next_sqrt_price_from_amount1_in` returns.
pub open spec fn next1_safe(liquidity: nat, amount: nat) -> bool {
    liquidity != 0 && amount != 0 ==> next1_term(liquidity, amount) < b128()
}

/// The square-root price after `amount_1_in` of token 1 enters a pool:
/// `sqrt_price + amount / L` in Q64.64. Zero liquidity is
/// `InsufficientLiquidity`; a zero amount leaves the price unchanged; a sum
/// beyond `u128` is `MathOverflow`. It panics when the increment does not fit
/// in 128 bits.
pub fn compute_next_sqrt_price_from_amount1_in(
    sqrt_price_current_q64: u128,
    liquidity: u128,
    amount_1_in: u128,
) -> (r: Result<u128, ErrorCode>)
    requires
        liquidity != 0 && amount_1_in != 0 ==> next1_term(liquidity as nat, amount_1_in as nat)
            < b128(),
    ensures
        r == next1_result(sqrt_price_current_q64 as nat, liquidity as nat, amount_1_in as nat),
        ({
            let p = sqrt_price_current_q64 as nat;
            let l = liquidity as nat;
            let a = amount_1_in as nat;
            match r {
                Ok(next) => l != 0 && (if a == 0 {
                    next == p
                } else {
                    next == p + next1_term(l, a)
                }),
                Err(e) => (l == 0 && e == ErrorCode::InsufficientLiquidity) || (l != 0 && a != 0
                    && p + next1_term(l, a) > u128::MAX && e == ErrorCode::MathOverflow),
            }
        }),
{
    if liquidity == 0 {
        return Err(ErrorCode::InsufficientLiquidity);
    }
    if amount_1_in == 0 {
        return Ok(sqrt_price_current_q64);
    }
    let term = scaled_div_to_u128(amount_1_in, liquidity);
    match sqrt_price_current_q64.checked_add(term) {
        Some(v) => Ok(v),
        None => Err(ErrorCode::MathOverflow),
    }
}

/// Whether `compute_next_sqrt_price_from_amount0_in` returns on these
/// arguments (see `next0_safe`), rather than panicking.
pub fn next0_is_safe(sqrt_price_current_q64: u128, liquidity: u128, amount_0_in: u128) -> (r: bool)
    ensures
        r == next0_safe(sqrt_price_current_q64 as nat, liquidity as nat, amount_0_in as nat),
{
    if liquidity == 0 || amount_0_in == 0 {
        return true;
    }
    proof {
        lemma_pow2_64();
        assert((liquidity as nat * sqrt_price_current_q64 as nat) < b256()) by (nonlinear_arith)
            requires
                liquidity < b128(),
                sqrt_price_current_q64 < b128(),
                b128() * b128() == b256(),
        ;
        assert((amount_0_in as nat * sqrt_price_current_q64 as nat) < b256()) by (nonlinear_arith)
            requires
                amount_0_in < b128(),
                sqrt_price_current_q64 < b128(),
                b128() * b128() == b256(),
        ;
        assert(liquidity as nat * b64() < b256()) by (nonlinear_arith)
            requires
                liquidity < b128(),
                b128() * b64() < b256(),
        ;
        vstd::arithmetic::div_mod::lemma_small_mod(liquidity as nat * b64(), b256());
        assert(next0_den(sqrt_price_current_q64 as nat, liquidity as nat, amount_0_in as nat) > 0)
            by (nonlinear_arith)
            requires
                liquidity > 0,
                b64() > 0,
                next0_den(sqrt_price_current_q64 as nat, liquidity as nat, amount_0_in as nat)
                    == liquidity as nat * b64() + amount_0_in as nat * sqrt_price_current_q64 as nat,
        ;
    }
    let num_term = wide_mul(wide_from_u128(liquidity), wide_from_u128(sqrt_price_current_q64));
    let den_term1 = wide_shl(wide_from_u128(liquidity), 64);
    let den_term2 = wide_mul(wide_from_u128(amount_0_in), wide_from_u128(sqrt_price_current_q64));
    let den_sum = match wide_checked_add(den_term1, den_term2) {
        Some(v) => v,
        None => {
            return true;
        },
    };
    let shifted = wide_shl(num_term, 64);
    proof {
        assert(wval(num_term) * b64() == liquidity as nat * sqrt_price_current_q64 as nat * b64());
    }
    let next = wide_div(shifted, den_sum);
    proof {
        lemma_wval_below_b128(next);
    }
    next.w2 == 0 && next.w3 == 0
}

/// Whether `compute_next_sqrt_price_from_amount1_in` returns on these
/// arguments (see `next1_safe`), rather than panicking.
pub fn next1_is_safe(liquidity: u128, amount_1_in: u128) -> (r: bool)
    ensures
        r == next1_safe(liquidity as nat, amount_1_in as nat),
{
    if liquidity == 0 || amount_1_in == 0 {
        return true;
    }
    proof {
        lemma_pow2_64();
        assert(amount_1_in as nat * b64() < b256()) by (nonlinear_arith)
            requires
                amount_1_in < b128(),
                b128() * b64() < b256(),
        ;
        vstd::arithmetic::div_mod::lemma_small_mod(amount_1_in as nat * b64(), b256());
    }
    let scaled = wide_shl(wide_from_u128(amount_1_in), 64);
    let term = wide_div(scaled, wide_from_u128(liquidity));
    proof {
        lemma_wval_below_b128(term);
    }
    term.w2 == 0 && term.w3 == 0
}

/// One Babylonian (Newton) step towards the square root of `n` from `r`.
pub open spec fn newton_step(n: nat, r: nat) -> nat {
    (r + n / r) / 2
}

/// `k` Babylonian steps from `r`, stopping early at zero.
pub open spec fn newton_iter(n: nat, r: nat, k: nat) -> nat
    decreases k,
{
    if k == 0 || r == 0 {
        r
    } else {
        newton_iter(n, newton_step(n, r), (k - 1) as nat)
    }
}

/// The starting guess of `babylonian_sqrt`: `x` below 1.0, 1.0 from there on.
pub open spec fn sqrt_initial_guess(x: nat) -> nat {
    if x < b64() {
        x
    } else {
        b64()
    }
}

/// The number of Babylonian steps that `babylonian_sqrt` takes.
pub open spec fn sqrt_iterations() -> nat {
    30
}

/// What `babylonian_sqrt` computes: thirty Babylonian steps towards the
/// square root of `x * 2^64` (the Q64.64 square root of `x`) from the
/// starting guess.
pub open spec fn babylonian_sqrt_spec(x: nat) -> nat {
    if x == 0 {
        0
    } else {
        newton_iter(x * b64(), sqrt_initial_guess(x), sqrt_iterations())
    }
}

/// A Babylonian step never lands below the integer square root: after it,
/// `(r + 1)^2 > n`.
pub proof fn lemma_newton_step_above(n: nat, r: nat)
    requires
        r >= 1,
    ensures
        (newton_step(n, r) + 1) * (newton_step(n, r) + 1) > n,
{
    let q = n / r;
    lemma_div_bounds(n, r);
    let s = newton_step(n, r);
    lemma_div_bounds(r + q, 2);
    assert(2 * (s + 1) >= r + q + 1);
    assert((r + q + 1) * (r + q + 1) >= 4 * r * (q + 1)) by (nonlinear_arith);
    assert(4 * (s + 1) * (s + 1) >= (r + q + 1) * (r + q + 1)) by (nonlinear_arith)
        requires
            2 * (s + 1) >= r + q + 1,
    ;
    assert(r * (q + 1) > n) by (nonlinear_arith)
        requires
            n < (q + 1) * r,
    ;
    assert((s + 1) * (s + 1) > n) by (nonlinear_arith)
        requires
            4 * (s + 1) * (s + 1) >= (r + q + 1) * (r + q + 1),
            (r + q + 1) * (r + q + 1) >= 4 * r * (q + 1),
            r * (q + 1) > n,
    ;
}

/// When `(r + 1)^2 > n` and `n < 2^192`, the quotient `n / r` fits in 128 bits.
proof fn lemma_sqrt_quotient_fits(n: nat, r: nat)
    requires
        r >= 1,
        (r + 1) * (r + 1) > n,
        n < b192(),
    ensures
        n / r < b128(),
{
    let big: nat = 0x1_0000_0000_0000_0000_0000_0000nat;
    if r <= big {
        assert(n <= r * (r + 2)) by (nonlinear_arith)
            requires
                (r + 1) * (r + 1) > n,
        ;
        lemma_div_compare(n, r, r + 3);
        assert(r * (r + 2) < (r + 3) * r) by (nonlinear_arith)
            requires
                r >= 1,
        ;
    } else {
        lemma_div_antimono(n, big, r);
        lemma_div_compare(n, big, b128());
        assert(b128() * big > b192());
    }
}

/// The Q64.64 square root of `x` by thirty Babylonian steps: for `x > 0` the
/// result never lies below the integer square root of `x * 2^64`.
pub fn babylonian_sqrt(x: u128) -> (r: u128)
    ensures
        r == babylonian_sqrt_spec(x as nat),
        x > 0 ==> (r + 1) * (r + 1) > x as nat * b64(),
{
    if x == 0 {
        return 0;
    }
    let ghost n = x as nat * b64();
    let mut res_q64: u128 = if x == 0 {
        0
    } else if x < Q64 {
        x
    } else {
        Q64
    };
    if res_q64 == 0 && x > 0 {
        res_q64 = 1;
    }
    proof {
        lemma_pow2_64();
        assert(n < b192()) by (nonlinear_arith)
            requires
                x < b128(),
                n == x as nat * b64(),
                b192() == b128() * b64(),
        ;
    }
    let iterations: usize = 30;
    let mut i: usize = 0;
    while i < iterations
        invariant
            iterations == 30,
            i <= iterations,
            x > 0,
            n == x as nat * b64(),
            n < b192(),
            res_q64 >= 1,
            i == 0 ==> res_q64 == sqrt_initial_guess(x as nat),
            i > 0 ==> (res_q64 + 1) * (res_q64 + 1) > n,
            newton_iter(n, res_q64 as nat, (iterations - i) as nat) == babylonian_sqrt_spec(
                x as nat,
            ),
        ensures
            i == iterations,
            (res_q64 + 1) * (res_q64 + 1) > n,
            res_q64 == babylonian_sqrt_spec(x as nat),
        decreases iterations - i,
    {
        if res_q64 == 0 {
            break;
        }
        proof {
            if i == 0 {
                if x < Q64 {
                    assert(n / (x as nat) == b64()) by {
                        vstd::arithmetic::div_mod::lemma_div_by_multiple(b64() as int, x as int);
                        vstd::arithmetic::mul::lemma_mul_is_commutative(x as int, b64() as int);
                    }
                } else {
                    vstd::arithmetic::div_mod::lemma_div_by_multiple(x as int, b64() as int);
                }
            } else {
                lemma_sqrt_quotient_fits(n, res_q64 as nat);
            }
        }
        let term_q64 = div_fixed(x, res_q64);
        let sum = wide_add(wide_from_u128(res_q64), wide_from_u128(term_q64));
        let halved = wide_shr(sum, 1);
        proof {
            lemma_pow2_64();
            assert(term_q64 == n / (res_q64 as nat));
            assert(wval(sum) < b128() * 2);
            lemma_div_compare(wval(sum), 2, b128());
            assert(wval(halved) == newton_step(n, res_q64 as nat));
            lemma_newton_step_above(n, res_q64 as nat);
            let s = newton_step(n, res_q64 as nat);
            assert(s >= 1) by (nonlinear_arith)
                requires
                    (s + 1) * (s + 1) > n,
                    n >= b64(),
            ;
            assert(n >= b64()) by (nonlinear_arith)
                requires
                    n == x as nat * b64(),
                    x >= 1,
            ;
        }
        res_q64 = wide_as_u128(halved);
        i += 1;
    }
    res_q64
}

} // verus!
