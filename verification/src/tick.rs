//! The state of an initialized tick: the liquidity that references it.
use vstd::prelude::*;
use crate::errors::ErrorCode;
use crate::pubkey::Pubkey;

verus! {

/// The state of a tick that some position uses as a boundary.
#[derive(Clone, Copy, Debug, Default)]
pub struct TickData {
    /// The total liquidity of the positions that reference this tick.
    pub liquidity_gross: u128,
    /// The liquidity that enters (or, when negative, leaves) the active range
    /// when the price crosses this tick upwards.
    pub liquidity_net: i128,
    /// The pool this tick belongs to.
    pub pool: Pubkey,
    /// The tick index.
    pub index: i32,
    /// 1 when some liquidity references this tick, else 0.
    pub initialized: u8,
    /// Reserved bytes.
    pub _padding0: [u8; 32],
    /// Reserved bytes.
    pub _padding1: [u8; 27],
}

/// The gross liquidity after adding `delta`.
pub open spec fn gross_after(t: TickData, delta: int) -> int {
    t.liquidity_gross + delta
}

/// The net liquidity after a change of `delta`: an upper boundary loses
/// what a lower boundary gains.
pub open spec fn net_after(t: TickData, delta: int, is_upper_tick: bool) -> int {
    if is_upper_tick {
        t.liquidity_net - delta
    } else {
        t.liquidity_net + delta
    }
}

/// The tick after a liquidity change of `delta`, and the outcome. When the
/// gross liquidity leaves `u128`, nothing changes; when only the net
/// liquidity leaves `i128`, the gross liquidity has already been updated.
pub open spec fn liquidity_change(t: TickData, delta: int, is_upper_tick: bool) -> (
    TickData,
    Result<(), ErrorCode>,
) {
    let g = gross_after(t, delta);
    let n = net_after(t, delta, is_upper_tick);
    if !(0 <= g <= u128::MAX) {
        (t, Err(ErrorCode::MathOverflow))
    } else if !(i128::MIN <= n <= i128::MAX) {
        (TickData { liquidity_gross: g as u128, ..t }, Err(ErrorCode::MathOverflow))
    } else {
        (
            TickData {
                liquidity_gross: g as u128,
                liquidity_net: n as i128,
                initialized: if g > 0 {
                    1u8
                } else {
                    0u8
                },
                ..t
            },
            Ok(()),
        )
    }
}

/// `|x|` of an `i128`, as a `u128`.
pub fn unsigned_abs_i128(x: i128) -> (r: u128)
    ensures
        r == (if x < 0 {
            -x
        } else {
            x as int
        }),
{
    if x >= 0 {
        x as u128
    } else if x == i128::MIN {
        0x8000_0000_0000_0000_0000_0000_0000_0000u128
    } else {
        (-x) as u128
    }
}

impl TickData {
    /// The size of a tick account's data in bytes.
    pub const LEN: usize = 128;

    /// Resets the tick for `pool` at `index`: no liquidity, not initialized.
    pub fn initialize(&mut self, pool: Pubkey, index: i32)
        ensures
            final(self).pool == pool,
            final(self).index == index,
            final(self).liquidity_gross == 0,
            final(self).liquidity_net == 0,
            final(self).initialized == 0,
            final(self)._padding0@ == Seq::new(32, |i: int| 0u8),
            final(self)._padding1@ == Seq::new(27, |i: int| 0u8),
    {
        self.pool = pool;
        self.index = index;
        self.liquidity_gross = 0;
        self.liquidity_net = 0;
        self.initialized = 0;
        self._padding0 = [0u8; 32];
        self._padding1 = [0u8; 27];
        assert(self._padding0@ =~= Seq::new(32, |i: int| 0u8));
        assert(self._padding1@ =~= Seq::new(27, |i: int| 0u8));
    }

    /// Records a change of `liquidity_delta` in a position that has this tick
    /// as its upper (`is_upper_tick`) or lower boundary: the gross liquidity
    /// moves by the delta, the net liquidity by the delta (lower) or its
    /// negation (upper), and the tick is initialized exactly when gross
    /// liquidity remains. An overflow is `MathOverflow` (see
    /// `liquidity_change` for what has changed by then).
    pub fn update_on_liquidity_change(&mut self, liquidity_delta: i128, is_upper_tick: bool) -> (r:
        Result<(), ErrorCode>)
        ensures
            (*final(self), r) == liquidity_change(
                *old(self),
                liquidity_delta as int,
                is_upper_tick,
            ),
    {
        let abs_delta_u128 = unsigned_abs_i128(liquidity_delta);
        if liquidity_delta > 0 {
            self.liquidity_gross = match self.liquidity_gross.checked_add(abs_delta_u128) {
                Some(v) => v,
                None => {
                    return Err(ErrorCode::MathOverflow);
                },
            };
        } else {
            self.liquidity_gross = match self.liquidity_gross.checked_sub(abs_delta_u128) {
                Some(v) => v,
                None => {
                    return Err(ErrorCode::MathOverflow);
                },
            };
        }
        let net = if is_upper_tick {
            self.liquidity_net.checked_sub(liquidity_delta)
        } else {
            self.liquidity_net.checked_add(liquidity_delta)
        };
        self.liquidity_net = match net {
            Some(v) => v,
            None => {
                return Err(ErrorCode::MathOverflow);
            },
        };
        self.initialized = if self.liquidity_gross > 0 {
            1
        } else {
            0
        };
        Ok(())
    }
}

/// A change of liquidity followed by its opposite gives the tick back, with
/// `initialized` telling whether gross liquidity remains.
pub proof fn lemma_liquidity_change_undone(t: TickData, delta: int, is_upper_tick: bool)
    requires
        liquidity_change(t, delta, is_upper_tick).1 is Ok,
        i128::MIN < delta <= i128::MAX,
    ensures
        ({
            let t1 = liquidity_change(t, delta, is_upper_tick).0;
            let t2 = liquidity_change(t1, -delta, is_upper_tick);
            &&& t2.1 is Ok
            &&& t2.0 == TickData {
                initialized: if t.liquidity_gross > 0 {
                    1u8
                } else {
                    0u8
                },
                ..t
            }
        }),
{
}

/// A successful liquidity change of `delta` adds it to the tick's gross
/// liquidity, adds it to the net liquidity of a lower boundary and subtracts
/// it from that of an upper boundary, marks the tick initialized exactly
/// when gross liquidity remains, and changes nothing else.
pub proof fn lemma_liquidity_change_effect(t: TickData, delta: int, is_upper_tick: bool)
    ensures
        liquidity_change(t, delta, is_upper_tick).1 is Ok ==> {
            let t1 = liquidity_change(t, delta, is_upper_tick).0;
            &&& t1.liquidity_gross == t.liquidity_gross + delta
            &&& t1.liquidity_net == if is_upper_tick {
                t.liquidity_net - delta
            } else {
                t.liquidity_net + delta
            }
            &&& t1.initialized == (if t.liquidity_gross + delta > 0 {
                1u8
            } else {
                0u8
            })
            &&& t1.pool == t.pool && t1.index == t.index && t1._padding0 == t._padding0
                && t1._padding1 == t._padding1
        },
        liquidity_change(t, delta, is_upper_tick).1 is Err ==> liquidity_change(
            t,
            delta,
            is_upper_tick,
        ).1 == Err::<(), ErrorCode>(ErrorCode::MathOverflow),
{
}

} // verus!
