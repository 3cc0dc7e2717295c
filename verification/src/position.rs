//! A user's concentrated-liquidity position.
use vstd::prelude::*;
use crate::errors::ErrorCode;
use crate::pubkey::Pubkey;

verus! {

/// A position: its owner, its pool, its tick range and its liquidity.
#[derive(Clone, Copy, Debug, Default)]
pub struct PositionData {
    /// The account that owns the position.
    pub owner: Pubkey,
    /// The pool the position belongs to.
    pub pool: Pubkey,
    /// The lower tick: the liquidity is active from this tick up.
    pub tick_lower_index: i32,
    /// The upper tick: the liquidity is active below this tick.
    pub tick_upper_index: i32,
    /// The position's liquidity.
    pub liquidity: u128,
}

impl PositionData {
    /// The size of a position account in bytes, discriminator included.
    pub const LEN: usize = 96;

    /// Sets up the position. A lower tick that is not below the upper one is
    /// `InvalidTickRange`, and the position is left as it was.
    pub fn initialize(
        &mut self,
        owner: Pubkey,
        pool: Pubkey,
        tick_lower_index: i32,
        tick_upper_index: i32,
        liquidity: u128,
    ) -> (r: Result<(), ErrorCode>)
        ensures
            match r {
                Ok(()) => tick_lower_index < tick_upper_index && *final(self) == PositionData {
                    owner,
                    pool,
                    tick_lower_index,
                    tick_upper_index,
                    liquidity,
                },
                Err(e) => tick_lower_index >= tick_upper_index && e == ErrorCode::InvalidTickRange
                    && *final(self) == *old(self),
            },
    {
        if tick_lower_index >= tick_upper_index {
            return Err(ErrorCode::InvalidTickRange);
        }
        self.owner = owner;
        self.pool = pool;
        self.tick_lower_index = tick_lower_index;
        self.tick_upper_index = tick_upper_index;
        self.liquidity = liquidity;
        Ok(())
    }
}

} // verus!
