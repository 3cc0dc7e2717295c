//! Arithmetic facts that the fixed-point proofs share.
use vstd::prelude::*;
use vstd::arithmetic::div_mod::*;
use vstd::arithmetic::mul::*;
use crate::wide::{b64, b128};

verus! {

/// The low and high 64-bit halves of a `u128`.
pub proof fn lemma_u128_halves(a: u128)
    ensures
        (a as u64) as u128 == a % 0x1_0000_0000_0000_0000u128,
        ((a >> 64u128) as u64) as u128 == a / 0x1_0000_0000_0000_0000u128,
        a == (a / 0x1_0000_0000_0000_0000u128) * 0x1_0000_0000_0000_0000u128
            + a % 0x1_0000_0000_0000_0000u128,
{
    assert((a as u64) as u128 == a % 0x1_0000_0000_0000_0000u128) by (bit_vector);
    assert(((a >> 64u128) as u64) as u128 == a / 0x1_0000_0000_0000_0000u128) by (bit_vector);
    assert(a == (a / 0x1_0000_0000_0000_0000u128) * 0x1_0000_0000_0000_0000u128
        + a % 0x1_0000_0000_0000_0000u128) by (bit_vector);
}

/// The product of two values below `2^64` fits in a `u128`, with room for
/// one more `2^64` below `2^128`.
pub proof fn lemma_limb_product(x: nat, y: nat)
    requires
        x < b64(),
        y < b64(),
    ensures
        x * y <= (b64() - 1) * (b64() - 1),
        x * y + b64() < b128(),
{
    assert(0xFFFF_FFFF_FFFF_FFFFnat * 0xFFFF_FFFF_FFFF_FFFFnat + 0x1_0000_0000_0000_0000nat
        < 0x1_0000_0000_0000_0000_0000_0000_0000_0000nat) by (nonlinear_arith);
    assert(x * y <= (b64() - 1) * (b64() - 1)) by (nonlinear_arith)
        requires
            x < b64(),
            y < b64(),
    ;
}

/// Writing `q * d + r` with `r < d` gives the quotient and remainder by `d`.
pub proof fn lemma_div_mod_unique(x: nat, d: nat, q: nat, r: nat)
    requires
        d > 0,
        r < d,
        x == q * d + r,
    ensures
        x / d == q,
        x % d == r,
{
    lemma_fundamental_div_mod_converse(x as int, d as int, q as int, r as int);
}

/// `(X * B + r) % (B * B)` keeps the low digit of `X` above `r`.
pub proof fn lemma_mod_two_digits(x: nat, r: nat, b: nat)
    requires
        b > 0,
        r < b,
    ensures
        (x * b + r) % (b * b) == (x % b) * b + r,
        (x * b + r) / b == x,
{
    let q = x / b;
    let s = x % b;
    lemma_fundamental_div_mod(x as int, b as int);
    assert(x == q * b + s) by {
        lemma_mul_is_commutative(b as int, q as int);
    }
    assert(s < b) by {
        lemma_mod_bound(x as int, b as int);
    }
    assert(x * b + r == q * (b * b) + (s * b + r)) by (nonlinear_arith)
        requires
            x == q * b + s,
    ;
    assert(s * b + r < b * b) by (nonlinear_arith)
        requires
            s < b,
            r < b,
    ;
    lemma_div_mod_unique(x * b + r, b * b, q, s * b + r);
    lemma_div_mod_unique(x * b + r, b, x, r);
}

/// Division by a positive number is monotone in the dividend.
pub proof fn lemma_div_mono(x: nat, y: nat, d: nat)
    requires
        x <= y,
        d > 0,
    ensures
        x / d <= y / d,
{
    lemma_div_is_ordered(x as int, y as int, d as int);
}

/// Dividing by a larger positive number gives a smaller quotient.
pub proof fn lemma_div_antimono(x: nat, d1: nat, d2: nat)
    requires
        0 < d1 <= d2,
    ensures
        x / d2 <= x / d1,
{
    lemma_div_is_ordered_by_denominator(x as int, d1 as int, d2 as int);
}

/// The quotient times the divisor does not exceed the dividend, and the next
/// multiple does.
pub proof fn lemma_div_bounds(x: nat, d: nat)
    requires
        d > 0,
    ensures
        (x / d) * d <= x,
        x < (x / d + 1) * d,
        x % d < d,
        x == (x / d) * d + x % d,
{
    lemma_fundamental_div_mod(x as int, d as int);
    lemma_mod_bound(x as int, d as int);
    lemma_mul_is_commutative(d as int, (x / d) as int);
    let q = x / d;
    let r = x % d;
    assert(x < (q + 1) * d) by (nonlinear_arith)
        requires
            x == q * d + r,
            r < d,
    ;
}

/// If `x < q * d` then `x / d < q`; if `q * d <= x` then `q <= x / d`.
pub proof fn lemma_div_compare(x: nat, d: nat, q: nat)
    requires
        d > 0,
    ensures
        x < q * d ==> x / d < q,
        q * d <= x ==> q <= x / d,
{
    lemma_div_bounds(x, d);
    if x < q * d {
        if x / d >= q {
            assert((x / d) * d >= q * d) by (nonlinear_arith)
                requires
                    x / d >= q,
            ;
        }
    }
    if q * d <= x {
        if x / d < q {
            assert((x / d + 1) * d <= q * d) by (nonlinear_arith)
                requires
                    x / d + 1 <= q,
            ;
        }
    }
}

} // verus!
