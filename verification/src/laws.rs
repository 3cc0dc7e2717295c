//! Properties of the fixed-point arithmetic and of swaps that hold for every
//! input, stated over the specifications of the functions they concern.
use vstd::prelude::*;
use crate::arith::{lemma_div_antimono, lemma_div_bounds, lemma_div_compare, lemma_div_mod_unique};
use crate::constants::{MAX_SQRT_PRICE, MAX_TICK, MIN_SQRT_PRICE, MIN_TICK, POWERS};
use crate::math::{
    amount0_delta_spec, amount1_delta_spec, ceil_div, inv_diff, is_floor_tick,
    lemma_tick_sqrt_price_range, liquidity_from_spec, mul_fixed_spec, next0_den, next0_result, next0_spec,
    next1_result, next1_term, shift_round, table_pow, table_sqrt_price, tick_in_range,
    tick_sqrt_price, div_fixed_spec,
};
use crate::power_bound::{
    lemma_below_max_tick_pow, lemma_exact_succ, lemma_max_tick_pow, lemma_pow_below_max_tick,
    lemma_tick_pow_in_range,
};
use crate::wide::{b128, b192, b256, b64};

verus! {

/// Q64.64 multiplication does not depend on the order of its operands.
pub proof fn lemma_mul_fixed_commutative(a: nat, b: nat)
    ensures
        mul_fixed_spec(a, b) == mul_fixed_spec(b, a),
{
    assert(a * b == b * a) by (nonlinear_arith);
}

/// Multiplying by 1.0 (`2^64`) in Q64.64 gives back any value below `2^128`.
pub proof fn lemma_mul_fixed_identity(a: nat)
    requires
        a < b128(),
    ensures
        mul_fixed_spec(a, b64()) == a,
{
    lemma_div_mod_unique(a * b64(), b64(), a, 0);
    vstd::arithmetic::div_mod::lemma_small_mod(a, b128());
}

/// Rounding a division up gives the rounded-down quotient or one more, and
/// never less than the exact quotient.
pub proof fn lemma_round_up_div_bounds(a: nat, b: nat)
    requires
        b > 0,
    ensures
        a / b <= ceil_div(a, b) <= a / b + 1,
        a <= ceil_div(a, b) * b,
        ceil_div(a, b) == a / b <==> a % b == 0,
{
    lemma_div_bounds(a, b);
    if a % b != 0 {
        assert((a / b + 1) * b == (a / b) * b + b) by (nonlinear_arith);
    }
}

/// Converting an integer to Q64.64 and back gives it back.
pub proof fn lemma_q64_round_trip(amount: nat)
    ensures
        (amount * b64()) / b64() == amount,
{
    lemma_div_mod_unique(amount * b64(), b64(), amount, 0);
}

/// Without liquidity, the token amounts of every price range are zero,
/// rounded either way.
pub proof fn lemma_zero_liquidity_amounts(lower: nat, upper: nat, round_up: bool)
    ensures
        amount0_delta_spec(lower, upper, 0, round_up) == 0,
        amount1_delta_spec(lower, upper, 0, round_up) == 0,
{
    assert(0 * inv_diff(lower, upper) == 0);
    assert(0 * ((upper - lower) as nat) == 0);
    vstd::arithmetic::div_mod::lemma_small_mod(0, b64());
}

/// Rounding a Q64.64 amount up gives the amount rounded down, or one more.
pub proof fn lemma_round_up_at_most_one_more(raw: nat)
    ensures
        shift_round(raw, false) <= shift_round(raw, true) <= shift_round(raw, false) + 1,
{
}

/// Token 0 entering a pool never raises the price: the new square-root
/// price is at most the old one.
pub proof fn lemma_token0_in_lowers_price(sqrt_price: nat, liquidity: nat, amount: nat)
    requires
        sqrt_price < b128(),
        liquidity < b128(),
    ensures
        next0_result(sqrt_price, liquidity, amount) matches Ok(next) ==> next <= sqrt_price,
{
    if liquidity != 0 && amount != 0 && next0_den(sqrt_price, liquidity, amount) < b256() {
        let x = liquidity * sqrt_price * b64();
        let d = next0_den(sqrt_price, liquidity, amount);
        assert(d >= liquidity * b64() && liquidity * b64() > 0) by (nonlinear_arith)
            requires
                d == liquidity * b64() + amount * sqrt_price,
                liquidity > 0,
                b64() > 0,
        ;
        vstd::arithmetic::div_mod::lemma_mod_bound(x as int, b256() as int);
        assert((x % b256()) <= x) by {
            vstd::arithmetic::div_mod::lemma_mod_decreases(x, b256());
        }
        assert((x % b256()) / d <= x / d) by {
            vstd::arithmetic::div_mod::lemma_div_is_ordered((x % b256()) as int, x as int, d as int);
        }
        assert(x / d <= x / (liquidity * b64())) by {
            vstd::arithmetic::div_mod::lemma_div_is_ordered_by_denominator(
                x as int,
                (liquidity * b64()) as int,
                d as int,
            );
        }
        assert(x == sqrt_price * (liquidity * b64())) by (nonlinear_arith)
            requires
                x == liquidity * sqrt_price * b64(),
        ;
        lemma_div_mod_unique(x, liquidity * b64(), sqrt_price, 0);
        assert(next0_spec(sqrt_price, liquidity, amount) == (x % b256()) / d);
        assert(next0_spec(sqrt_price, liquidity, amount) <= sqrt_price);
        assert(next0_spec(sqrt_price, liquidity, amount) < b128());
        vstd::arithmetic::div_mod::lemma_small_mod(
            next0_spec(sqrt_price, liquidity, amount),
            b128(),
        );
    }
}

/// Token 1 entering a pool never lowers the price: the new square-root
/// price is at least the old one.
pub proof fn lemma_token1_in_raises_price(sqrt_price: nat, liquidity: nat, amount: nat)
    requires
        sqrt_price < b128(),
    ensures
        next1_result(sqrt_price, liquidity, amount) matches Ok(next) ==> next >= sqrt_price,
{
}

/// The price of tick 0 is 1.0 (`2^64` in Q64.64).
pub proof fn lemma_tick_zero_price()
    ensures
        tick_sqrt_price(0) == b64(),
{
}

/// One tick up never lowers the square-root price, and from tick -1 on it
/// strictly raises it.
pub proof fn lemma_tick_price_step(tick: int)
    requires
        tick_in_range(tick),
        tick_in_range(tick + 1),
    ensures
        tick_sqrt_price(tick) <= tick_sqrt_price(tick + 1),
        tick >= -1 ==> tick_sqrt_price(tick) < tick_sqrt_price(tick + 1),
{
    lemma_tick_sqrt_price_range(tick);
    lemma_tick_sqrt_price_range(tick + 1);
    if tick >= 0 {
        lemma_tick_pow_in_range(tick as nat);
        lemma_tick_pow_in_range((tick + 1) as nat);
        lemma_exact_succ(tick as nat);
        if tick + 1 <= 887271 {
            lemma_pow_below_max_tick((tick + 1) as nat);
        } else {
            lemma_below_max_tick_pow();
            lemma_max_tick_pow();
        }
    } else {
        let n = (-tick) as nat;
        lemma_tick_pow_in_range(n);
        lemma_tick_pow_in_range((n - 1) as nat);
        lemma_exact_succ((n - 1) as nat);
        let hi = table_pow(POWERS@, n);
        let lo = table_pow(POWERS@, (n - 1) as nat);
        lemma_div_antimono(b128(), b64(), hi);
        lemma_div_antimono(b128(), b64(), lo);
        assert(b128() / b64() == b64());
        assert(table_sqrt_price(tick) == b128() / hi);
        assert(tick_sqrt_price(tick) == b128() / hi);
        if tick == -1 {
            assert(lo == b64());
            assert(b128() < b64() * hi) by (nonlinear_arith)
                requires
                    hi > b64(),
                    b128() == b64() * b64(),
            ;
            lemma_div_compare(b128(), hi, b64());
        } else {
            assert(tick_sqrt_price(tick + 1) == b128() / lo);
            lemma_div_antimono(b128(), lo, hi);
        }
    }
}

/// The square-root price is monotone in the tick: a higher tick never has
/// a lower price, and from tick -1 on a higher tick has a higher price.
pub proof fn lemma_tick_price_monotone(lower: int, upper: int)
    requires
        tick_in_range(lower),
        tick_in_range(upper),
        lower <= upper,
    ensures
        tick_sqrt_price(lower) <= tick_sqrt_price(upper),
        lower >= -1 && lower < upper ==> tick_sqrt_price(lower) < tick_sqrt_price(upper),
    decreases upper - lower,
{
    if lower < upper {
        lemma_tick_price_step(lower);
        lemma_tick_price_monotone(lower + 1, upper);
    }
}

/// A price has only one floor tick in range: `sqrt_price_q64_to_tick`,
/// which returns a floor tick, is thereby determined by the price.
pub proof fn lemma_floor_tick_unique(sqrt_price: nat, t1: int, t2: int)
    requires
        tick_in_range(t1),
        tick_in_range(t2),
        is_floor_tick(sqrt_price, t1),
        is_floor_tick(sqrt_price, t2),
    ensures
        t1 == t2,
{
    if t1 < t2 {
        lemma_floor_tick_order(sqrt_price, sqrt_price, t2, t1);
    } else if t2 < t1 {
        lemma_floor_tick_order(sqrt_price, sqrt_price, t1, t2);
    }
}

/// Price to tick is monotone: the floor tick of a price is no higher than
/// the floor tick of any price at least as large.
pub proof fn lemma_floor_tick_order(p1: nat, p2: nat, t1: int, t2: int)
    requires
        p1 <= p2,
        tick_in_range(t1),
        tick_in_range(t2),
        is_floor_tick(p1, t1),
        is_floor_tick(p2, t2),
    ensures
        t1 <= t2,
{
    if t1 > t2 {
        lemma_tick_price_monotone(t2 + 1, t1);
        lemma_tick_price_monotone(MIN_TICK as int, t1);
    }
}

/// Tick to price and back: the floor tick of a tick's price is a tick at
/// least as high with the same price, and from tick -1 on it is the tick
/// itself.
pub proof fn lemma_tick_price_round_trip(tick: int, back: int)
    requires
        tick_in_range(tick),
        tick_in_range(back),
        is_floor_tick(tick_sqrt_price(tick), back),
    ensures
        back >= tick,
        tick_sqrt_price(back) == tick_sqrt_price(tick),
        tick >= -1 ==> back == tick,
{
    let p = tick_sqrt_price(tick);
    if tick < MAX_TICK {
        lemma_tick_price_monotone(tick, tick + 1);
    }
    if tick >= -1 {
        assert(is_floor_tick(p, tick));
        lemma_floor_tick_unique(p, tick, back);
    } else {
        if back < tick {
            lemma_tick_price_monotone(back + 1, tick);
            lemma_tick_price_monotone(MIN_TICK as int, tick);
        }
        lemma_tick_price_monotone(tick, back);
    }
}

/// The liquidity of an amount over a width `d`, taken back to an amount,
/// gives at most the amount (rounded either way), and rounded down it falls
/// short by at most `d / 2^64 + 1`.
proof fn lemma_scaled_round_trip(amount: nat, d: nat, round_up: bool)
    requires
        d > 0,
    ensures
        shift_round(liquidity_from_spec(amount, d) * d, round_up) <= amount,
        amount <= shift_round(liquidity_from_spec(amount, d) * d, false) + d / b64() + 1,
{
    let b = b64();
    let l = liquidity_from_spec(amount, d);
    let x = l * d;
    lemma_div_bounds(amount * b, d);
    assert(x <= amount * b) by (nonlinear_arith)
        requires
            l * d <= amount * b,
            x == l * d,
    ;
    assert(amount * b < x + d) by (nonlinear_arith)
        requires
            amount * b < (l + 1) * d,
            x == l * d,
    ;
    lemma_div_bounds(x, b);
    lemma_div_bounds(d, b);
    let q = x / b;
    let k = d / b;
    if x % b != 0 {
        assert(q < amount) by (nonlinear_arith)
            requires
                x == q * b + x % b,
                x % b > 0,
                x <= amount * b,
                b > 0,
        ;
    } else {
        assert(q <= amount) by (nonlinear_arith)
            requires
                x == q * b,
                x <= amount * b,
                b > 0,
        ;
    }
    assert(amount < q + k + 2) by (nonlinear_arith)
        requires
            amount * b < x + d,
            x < (q + 1) * b,
            d < (k + 1) * b,
            b > 0,
    ;
}

/// The liquidity that a token-0 amount provides over a price range, taken
/// back to a token-0 amount over the same range, never exceeds the amount,
/// rounded either way; rounded down it falls short by at most the range's
/// difference of reciprocals (in whole units) plus one.
pub proof fn lemma_amount0_liquidity_round_trip(lower: nat, upper: nat, amount: nat, round_up: bool)
    requires
        lower < upper,
        inv_diff(lower, upper) != 0,
    ensures
        amount0_delta_spec(
            lower,
            upper,
            liquidity_from_spec(amount, inv_diff(lower, upper)),
            round_up,
        ) <= amount,
        amount <= amount0_delta_spec(
            lower,
            upper,
            liquidity_from_spec(amount, inv_diff(lower, upper)),
            false,
        ) + inv_diff(lower, upper) / b64() + 1,
{
    lemma_scaled_round_trip(amount, inv_diff(lower, upper), round_up);
}

/// The liquidity that a token-1 amount provides over a price range, taken
/// back to a token-1 amount over the same range, never exceeds the amount,
/// rounded either way; rounded down it falls short by at most the range's
/// width (in whole units) plus one.
pub proof fn lemma_amount1_liquidity_round_trip(lower: nat, upper: nat, amount: nat, round_up: bool)
    requires
        lower < upper,
    ensures
        amount1_delta_spec(
            lower,
            upper,
            liquidity_from_spec(amount, (upper - lower) as nat),
            round_up,
        ) <= amount,
        amount <= amount1_delta_spec(
            lower,
            upper,
            liquidity_from_spec(amount, (upper - lower) as nat),
            false,
        ) + (upper - lower) as nat / b64() + 1,
{
    lemma_scaled_round_trip(amount, (upper - lower) as nat, round_up);
}

/// The price of a negative tick is the reciprocal of the price of its
/// opposite: `2^128` divided by it, rounded down.
pub proof fn lemma_tick_price_reciprocal(tick: int)
    requires
        0 < tick <= MAX_TICK,
    ensures
        tick_sqrt_price(-tick) == b128() / tick_sqrt_price(tick),
{
    let n = tick as nat;
    lemma_tick_pow_in_range(n);
    let p = table_pow(POWERS@, n);
    lemma_div_antimono(b128(), b64(), p);
    assert(b128() / b64() == b64());
    assert(tick_sqrt_price(-tick) == b128() / p);
    if tick < MAX_TICK {
        lemma_pow_below_max_tick(n);
    } else {
        lemma_max_tick_pow();
        let q = 340269576638287422883700525942130004573nat;
        let m = MAX_SQRT_PRICE as nat;
        lemma_div_mod_unique(b128(), q, 1, (b128() - q) as nat);
        lemma_div_mod_unique(b128(), m, 1, (b128() - m) as nat);
    }
}

/// The prices at the ends of the tick range: `MAX_TICK`'s square-root price
/// is `MAX_SQRT_PRICE`, above the price one tick below it, and `MIN_TICK`'s
/// is 1, the smallest nonzero Q64.64 value (within one of
/// `MIN_SQRT_PRICE`).
pub proof fn lemma_extreme_tick_prices()
    ensures
        tick_sqrt_price(MAX_TICK as int) == MAX_SQRT_PRICE,
        tick_sqrt_price(MAX_TICK - 1) < MAX_SQRT_PRICE,
        tick_sqrt_price(MIN_TICK as int) == 1,
        tick_sqrt_price(MIN_TICK as int) == MIN_SQRT_PRICE + 1,
{
    lemma_max_tick_pow();
    lemma_below_max_tick_pow();
    let p = 340269576638287422883700525942130004573nat;
    assert(table_sqrt_price(MIN_TICK as int) == b128() / p);
    lemma_div_mod_unique(b128(), p, 1, (b128() - p) as nat);
}

/// The token amounts of a price range are the exact products rounded down
/// or up: with `x = L * (upper - lower)` for token 1 and
/// `x = L * (2^128/lower - 2^128/upper)` for token 0 (Q64.64), the amount
/// rounded down is the largest `a` with `a * 2^64 <= x`, and the amount
/// rounded up is the smallest `a` with `x <= a * 2^64`.
pub proof fn lemma_amount_delta_rounding(lower: nat, upper: nat, liquidity: nat)
    requires
        0 < lower < upper,
    ensures
        ({
            let x1 = liquidity * (upper - lower) as nat;
            let x0 = liquidity * ((b128() / lower) - (b128() / upper)) as nat;
            &&& amount1_delta_spec(lower, upper, liquidity, false) * b64() <= x1
            &&& x1 < (amount1_delta_spec(lower, upper, liquidity, false) + 1) * b64()
            &&& x1 <= amount1_delta_spec(lower, upper, liquidity, true) * b64()
            &&& amount1_delta_spec(lower, upper, liquidity, true) == 0 || x1 > (amount1_delta_spec(
                lower,
                upper,
                liquidity,
                true,
            ) - 1) * b64()
            &&& amount0_delta_spec(lower, upper, liquidity, false) * b64() <= x0
            &&& x0 < (amount0_delta_spec(lower, upper, liquidity, false) + 1) * b64()
            &&& x0 <= amount0_delta_spec(lower, upper, liquidity, true) * b64()
            &&& amount0_delta_spec(lower, upper, liquidity, true) == 0 || x0 > (amount0_delta_spec(
                lower,
                upper,
                liquidity,
                true,
            ) - 1) * b64()
        }),
{
    let x1 = liquidity * (upper - lower) as nat;
    let x0 = liquidity * ((b128() / lower) - (b128() / upper)) as nat;
    crate::arith::lemma_div_antimono(b128(), lower, upper);
    assert(inv_diff(lower, upper) == ((b128() / lower) - (b128() / upper)) as nat);
    lemma_div_bounds(x1, b64());
    lemma_div_bounds(x0, b64());
    assert((x1 / b64() + 1) * b64() == (x1 / b64()) * b64() + b64()) by (nonlinear_arith);
    assert((x0 / b64() + 1) * b64() == (x0 / b64()) * b64() + b64()) by (nonlinear_arith);
}

/// The price after token 1 comes in moves up by `amount / L`, rounded down:
/// the increment is the largest `k` with `k * L <= amount * 2^64`.
pub proof fn lemma_next1_rounding(liquidity: nat, amount: nat)
    requires
        liquidity > 0,
    ensures
        next1_term(liquidity, amount) * liquidity <= amount * b64(),
        amount * b64() < (next1_term(liquidity, amount) + 1) * liquidity,
{
    lemma_div_bounds(amount * b64(), liquidity);
}

/// The price after token 0 comes in is `L * P / (L + amount * P)` rounded
/// down: the largest `q` with `q * (L * 2^64 + amount * P) <= L * P * 2^64`
/// (the numerator cut to 256 bits).
pub proof fn lemma_next0_rounding(sqrt_price: nat, liquidity: nat, amount: nat)
    requires
        liquidity > 0,
    ensures
        ({
            let den = liquidity * b64() + amount * sqrt_price;
            let num = (liquidity * sqrt_price * b64()) % b256();
            &&& next0_spec(sqrt_price, liquidity, amount) * den <= num
            &&& num < (next0_spec(sqrt_price, liquidity, amount) + 1) * den
        }),
{
    let den = liquidity * b64() + amount * sqrt_price;
    assert(den > 0) by (nonlinear_arith)
        requires
            liquidity > 0,
            den == liquidity * b64() + amount * sqrt_price,
    ;
    lemma_div_bounds((liquidity * sqrt_price * b64()) % b256(), den);
}

/// A Q64.64 product that fits is the exact product rounded down: the
/// largest `r` with `r * 2^64 <= a * b`; a Q64.64 quotient is the largest
/// `r` with `r * b <= a * 2^64`.
pub proof fn lemma_fixed_rounding(a: nat, b: nat)
    ensures
        a * b < b192() ==> mul_fixed_spec(a, b) * b64() <= a * b && a * b < (mul_fixed_spec(a, b) + 1)
            * b64(),
        b > 0 ==> div_fixed_spec(a, b) * b <= a * b64() && a * b64() < (div_fixed_spec(a, b) + 1) * b,
{
    lemma_div_bounds(a * b, b64());
    if a * b < b192() {
        crate::arith::lemma_div_compare(a * b, b64(), b128());
        assert(b128() * b64() == b192());
        vstd::arithmetic::div_mod::lemma_small_mod((a * b) / b64(), b128());
    }
    if b > 0 {
        lemma_div_bounds(a * b64(), b);
    }
}

} // verus!
