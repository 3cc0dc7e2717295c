//! 256-bit intermediates for the fixed-point math.
//!
//! The arithmetic itself is done by `primitive_types::U256`; this module holds a
//! 256-bit value as four 64-bit limbs, least significant first, which is exactly
//! the layout of `U256`'s public field, and gives each `U256` operation that the
//! math uses a contract over the value of those limbs.
use vstd::prelude::*;
use primitive_types::U256;

verus! {

/// A 256-bit unsigned value as four little-endian 64-bit limbs.
#[derive(Clone, Copy, Debug)]
pub struct Wide {
    pub w0: u64,
    pub w1: u64,
    pub w2: u64,
    pub w3: u64,
}

/// `2^64` as a mathematical integer.
pub open spec fn b64() -> nat {
    0x1_0000_0000_0000_0000nat
}

/// `2^128` as a mathematical integer.
pub open spec fn b128() -> nat {
    0x1_0000_0000_0000_0000_0000_0000_0000_0000nat
}

/// `2^192` as a mathematical integer.
pub open spec fn b192() -> nat {
    0x1_0000_0000_0000_0000_0000_0000_0000_0000_0000_0000_0000_0000nat
}

/// `2^256` as a mathematical integer.
pub open spec fn b256() -> nat {
    0x1_0000_0000_0000_0000_0000_0000_0000_0000_0000_0000_0000_0000_0000_0000_0000_0000nat
}

/// The value that the four limbs stand for.
pub open spec fn wval(w: Wide) -> nat {
    w.w0 as nat + w.w1 as nat * b64() + w.w2 as nat * b128() + w.w3 as nat * b192()
}

/// Every value held in four limbs is below `2^256`.
pub proof fn lemma_wval_bound(w: Wide)
    ensures
        wval(w) < b256(),
{
    assert(w.w0 as nat + w.w1 as nat * b64() + w.w2 as nat * b128() + w.w3 as nat * b192() < b256())
        by (nonlinear_arith)
        requires
            w.w0 < b64(),
            w.w1 < b64(),
            w.w2 < b64(),
            w.w3 < b64(),
            b64() == 0x1_0000_0000_0000_0000nat,
            b128() == b64() * b64(),
            b192() == b128() * b64(),
            b256() == b192() * b64(),
    ;
}

/// `U256::from(u128)`: the value is kept exactly.
#[verifier::external_body]
pub(crate) fn wide_from_u128(x: u128) -> (r: Wide)
    ensures
        wval(r) == x,
{
    let U256(a) = U256::from(x);
    Wide { w0: a[0], w1: a[1], w2: a[2], w3: a[3] }
}

/// `U256::one()`.
#[verifier::external_body]
pub(crate) fn wide_one() -> (r: Wide)
    ensures
        wval(r) == 1,
{
    let U256(a) = U256::one();
    Wide { w0: a[0], w1: a[1], w2: a[2], w3: a[3] }
}

/// `U256 << shift`: bits shifted past bit 255 are dropped (no panic).
#[verifier::external_body]
pub(crate) fn wide_shl(x: Wide, shift: u32) -> (r: Wide)
    requires
        shift < 256,
    ensures
        wval(r) == (wval(x) * vstd::arithmetic::power2::pow2(shift as nat)) % b256(),
{
    let U256(a) = U256([x.w0, x.w1, x.w2, x.w3]) << shift;
    Wide { w0: a[0], w1: a[1], w2: a[2], w3: a[3] }
}

/// `U256 >> shift`: the floor of the quotient by `2^shift`.
#[verifier::external_body]
pub(crate) fn wide_shr(x: Wide, shift: u32) -> (r: Wide)
    requires
        shift < 256,
    ensures
        wval(r) == wval(x) / vstd::arithmetic::power2::pow2(shift as nat),
{
    let U256(a) = U256([x.w0, x.w1, x.w2, x.w3]) >> shift;
    Wide { w0: a[0], w1: a[1], w2: a[2], w3: a[3] }
}

/// `U256 * U256`, which panics when the product does not fit in 256 bits.
#[verifier::external_body]
pub(crate) fn wide_mul(x: Wide, y: Wide) -> (r: Wide)
    requires
        wval(x) * wval(y) < b256(),
    ensures
        wval(r) == wval(x) * wval(y),
{
    let U256(a) = U256([x.w0, x.w1, x.w2, x.w3]) * U256([y.w0, y.w1, y.w2, y.w3]);
    Wide { w0: a[0], w1: a[1], w2: a[2], w3: a[3] }
}

/// `U256 + U256`, which panics when the sum does not fit in 256 bits.
#[verifier::external_body]
pub(crate) fn wide_add(x: Wide, y: Wide) -> (r: Wide)
    requires
        wval(x) + wval(y) < b256(),
    ensures
        wval(r) == wval(x) + wval(y),
{
    let U256(a) = U256([x.w0, x.w1, x.w2, x.w3]) + U256([y.w0, y.w1, y.w2, y.w3]);
    Wide { w0: a[0], w1: a[1], w2: a[2], w3: a[3] }
}

/// `U256::checked_add`: `None` exactly when the sum does not fit in 256 bits.
#[verifier::external_body]
pub(crate) fn wide_checked_add(x: Wide, y: Wide) -> (r: Option<Wide>)
    ensures
        match r {
            Some(s) => wval(x) + wval(y) < b256() && wval(s) == wval(x) + wval(y),
            None => wval(x) + wval(y) >= b256(),
        },
{
    match U256([x.w0, x.w1, x.w2, x.w3]).checked_add(U256([y.w0, y.w1, y.w2, y.w3])) {
        Some(U256(a)) => Some(Wide { w0: a[0], w1: a[1], w2: a[2], w3: a[3] }),
        None => None,
    }
}

/// `U256 - U256`, which panics when the difference is negative.
#[verifier::external_body]
pub(crate) fn wide_sub(x: Wide, y: Wide) -> (r: Wide)
    requires
        wval(x) >= wval(y),
    ensures
        wval(r) == wval(x) - wval(y),
{
    let U256(a) = U256([x.w0, x.w1, x.w2, x.w3]) - U256([y.w0, y.w1, y.w2, y.w3]);
    Wide { w0: a[0], w1: a[1], w2: a[2], w3: a[3] }
}

/// `U256 / U256`, the floor of the quotient; it panics on a zero divisor.
#[verifier::external_body]
pub(crate) fn wide_div(x: Wide, y: Wide) -> (r: Wide)
    requires
        wval(y) != 0,
    ensures
        wval(r) == wval(x) / wval(y),
{
    let U256(a) = U256([x.w0, x.w1, x.w2, x.w3]) / U256([y.w0, y.w1, y.w2, y.w3]);
    Wide { w0: a[0], w1: a[1], w2: a[2], w3: a[3] }
}

/// `U256 & U256`, limb by limb.
#[verifier::external_body]
pub(crate) fn wide_bitand(x: Wide, y: Wide) -> (r: Wide)
    ensures
        r.w0 == x.w0 & y.w0,
        r.w1 == x.w1 & y.w1,
        r.w2 == x.w2 & y.w2,
        r.w3 == x.w3 & y.w3,
{
    let U256(a) = U256([x.w0, x.w1, x.w2, x.w3]) & U256([y.w0, y.w1, y.w2, y.w3]);
    Wide { w0: a[0], w1: a[1], w2: a[2], w3: a[3] }
}

/// `U256::is_zero`.
#[verifier::external_body]
pub(crate) fn wide_is_zero(x: Wide) -> (r: bool)
    ensures
        r == (wval(x) == 0),
{
    U256([x.w0, x.w1, x.w2, x.w3]).is_zero()
}

/// `U256::as_u128`, which panics when the value does not fit in 128 bits.
#[verifier::external_body]
pub(crate) fn wide_as_u128(x: Wide) -> (r: u128)
    requires
        wval(x) < b128(),
    ensures
        r == wval(x),
{
    U256([x.w0, x.w1, x.w2, x.w3]).as_u128()
}

/// The lowest limb is the value modulo `2^64`; a value below `2^64` lives
/// in the lowest limb alone.
pub proof fn lemma_wval_low(w: Wide)
    ensures
        wval(w) % b64() == w.w0,
        wval(w) / b64() == w.w1 as nat + w.w2 as nat * b64() + w.w3 as nat * b128(),
        wval(w) < b64() ==> w.w1 == 0 && w.w2 == 0 && w.w3 == 0 && wval(w) == w.w0,
{
    let hi = w.w1 as nat + w.w2 as nat * b64() + w.w3 as nat * b128();
    assert(wval(w) == hi * b64() + w.w0) by (nonlinear_arith)
        requires
            hi == w.w1 as nat + w.w2 as nat * b64() + w.w3 as nat * b128(),
            b128() == b64() * b64(),
            b192() == b128() * b64(),
    ;
    vstd::arithmetic::div_mod::lemma_fundamental_div_mod_converse(
        wval(w) as int,
        b64() as int,
        hi as int,
        w.w0 as int,
    );
    if wval(w) < b64() {
        assert(hi == 0) by (nonlinear_arith)
            requires
                wval(w) == hi * b64() + w.w0,
                wval(w) < b64(),
        ;
        assert(w.w1 == 0 && w.w2 == 0 && w.w3 == 0) by (nonlinear_arith)
            requires
                hi == w.w1 as nat + w.w2 as nat * b64() + w.w3 as nat * b128(),
                hi == 0,
        ;
    }
}

/// A value held in four limbs is below `2^128` exactly when its two upper
/// limbs are zero.
pub proof fn lemma_wval_below_b128(w: Wide)
    ensures
        wval(w) < b128() <==> (w.w2 == 0 && w.w3 == 0),
{
    assert(wval(w) < b128() <==> (w.w2 == 0 && w.w3 == 0)) by (nonlinear_arith)
        requires
            wval(w) == w.w0 as nat + w.w1 as nat * b64() + w.w2 as nat * b128() + w.w3 as nat * b192(),
            w.w0 < b64(),
            w.w1 < b64(),
            b64() == 0x1_0000_0000_0000_0000nat,
            b128() == b64() * b64(),
            b192() == b128() * b64(),
    ;
}

} // verus!
