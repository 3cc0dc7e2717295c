//! A tradable pair of tokens: the pools registered for it, its trading
//! statistics, its last oracle price and its verification status.
use vstd::prelude::*;
use crate::pubkey::Pubkey;

verus! {

/// The failures of token pair operations.
#[derive(Debug, Clone, Copy, PartialEq, Eq, Structural)]
pub enum TokenPairError {
    /// The pair already has the maximum number of pools.
    TooManyPools,
    /// The pool is already registered for the pair.
    PoolAlreadyExists,
    /// The pool is not registered for the pair.
    PoolNotFound,
    /// Only the authority can modify the pair.
    UnauthorizedAccess,
    /// The token mints are not valid.
    InvalidTokenMints,
}

/// A token pair.
#[derive(Clone, Debug)]
pub struct TokenPair {
    /// The authority that controls the pair.
    pub authority: Pubkey,
    /// The first token's mint (the smaller key).
    pub token_a_mint: Pubkey,
    /// The second token's mint (the larger key).
    pub token_b_mint: Pubkey,
    /// The first token's decimals.
    pub token_a_decimals: u8,
    /// The second token's decimals.
    pub token_b_decimals: u8,
    /// The registered pools: address and fee tier in basis points.
    pub pools: Vec<(Pubkey, u16)>,
    /// The total volume in token A.
    pub total_volume_token_a: u64,
    /// The total volume in token B.
    pub total_volume_token_b: u64,
    /// The total fees generated.
    pub total_fees_generated: u64,
    /// The last oracle price, with six decimals.
    pub last_oracle_price: u64,
    /// The Unix time of the last oracle price.
    pub last_oracle_update: i64,
    /// Whether governance has verified the pair.
    pub is_verified: bool,
    /// The layout version.
    pub version: u8,
    /// Reserved bytes.
    pub reserved: [u8; 64],
}

/// The entries of `pools` whose address is not `pool_address`.
pub open spec fn pools_without(pools: Seq<(Pubkey, u16)>, pool_address: Pubkey) -> Seq<(Pubkey, u16)> {
    pools.filter(|p: (Pubkey, u16)| p.0 != pool_address)
}

/// Some entry of `pools` has the address `pool_address`.
pub open spec fn has_pool(pools: Seq<(Pubkey, u16)>, pool_address: Pubkey) -> bool {
    exists|i: int| 0 <= i < pools.len() && #[trigger] pools[i].0 == pool_address
}

/// Two pairs agree on everything but their pools.
pub open spec fn same_but_pools(a: TokenPair, b: TokenPair) -> bool {
    &&& a.authority == b.authority
    &&& a.token_a_mint == b.token_a_mint
    &&& a.token_b_mint == b.token_b_mint
    &&& a.token_a_decimals == b.token_a_decimals
    &&& a.token_b_decimals == b.token_b_decimals
    &&& a.total_volume_token_a == b.total_volume_token_a
    &&& a.total_volume_token_b == b.total_volume_token_b
    &&& a.total_fees_generated == b.total_fees_generated
    &&& a.last_oracle_price == b.last_oracle_price
    &&& a.last_oracle_update == b.last_oracle_update
    &&& a.is_verified == b.is_verified
    &&& a.version == b.version
    &&& a.reserved == b.reserved
}

/// `x + y`, capped at `u64::MAX`.
pub open spec fn saturating_add_spec(x: u64, y: u64) -> u64 {
    if x + y > u64::MAX {
        u64::MAX
    } else {
        (x + y) as u64
    }
}

/// Removing the entries of an address leaves the sequence as it was when
/// none has it, and shortens it when one does.
proof fn lemma_pools_without(pools: Seq<(Pubkey, u16)>, pool_address: Pubkey)
    ensures
        !has_pool(pools, pool_address) ==> pools_without(pools, pool_address) == pools,
        has_pool(pools, pool_address) ==> pools_without(pools, pool_address).len() < pools.len(),
        pools_without(pools, pool_address).len() <= pools.len(),
    decreases pools.len(),
{
    reveal(Seq::filter);
    if pools.len() > 0 {
        let rest = pools.drop_last();
        lemma_pools_without(rest, pool_address);
        if !has_pool(pools, pool_address) {
            assert(!has_pool(rest, pool_address)) by {
                if has_pool(rest, pool_address) {
                    let i = choose|i: int| 0 <= i < rest.len() && #[trigger] rest[i].0 == pool_address;
                    assert(pools[i].0 == pool_address);
                }
            }
            assert(pools.last().0 != pool_address) by {
                assert(pools[pools.len() - 1].0 == pools.last().0);
            }
            assert(rest.push(pools.last()) =~= pools);
        } else if pools.last().0 != pool_address {
            let i = choose|i: int| 0 <= i < pools.len() && #[trigger] pools[i].0 == pool_address;
            assert(i < pools.len() - 1);
            assert(rest[i].0 == pool_address);
        }
    }
}

impl TokenPair {
    /// The most pools a pair may have.
    pub const MAX_POOLS: usize = 10;

    /// The size of a token pair account in bytes.
    pub const LEN: usize = 544;

    /// Registers a pool with its fee tier. A pair that already has
    /// `MAX_POOLS` pools is `TooManyPools`; a pool already registered is
    /// `PoolAlreadyExists`; either way the pair is left as it was.
    pub fn add_pool(&mut self, pool_address: Pubkey, fee_tier: u16) -> (r: Result<(), TokenPairError>)
        ensures
            same_but_pools(*final(self), *old(self)),
            match r {
                Ok(()) => old(self).pools@.len() < 10 && !has_pool(old(self).pools@, pool_address)
                    && final(self).pools@ == old(self).pools@.push((pool_address, fee_tier)),
                Err(e) => final(self).pools@ == old(self).pools@ && if old(self).pools@.len() >= 10 {
                    e == TokenPairError::TooManyPools
                } else {
                    has_pool(old(self).pools@, pool_address) && e
                        == TokenPairError::PoolAlreadyExists
                },
            },
    {
        if self.pools.len() >= 10 {
            return Err(TokenPairError::TooManyPools);
        }
        let mut i: usize = 0;
        while i < self.pools.len()
            invariant
                i <= self.pools.len(),
                self.pools.len() < 10,
                *self == *old(self),
                forall|j: int| 0 <= j < i ==> #[trigger] self.pools@[j].0 != pool_address,
            decreases self.pools.len() - i,
        {
            if self.pools[i].0 == pool_address {
                assert(self.pools@[i as int].0 == pool_address);
                return Err(TokenPairError::PoolAlreadyExists);
            }
            i = i + 1;
        }
        self.pools.push((pool_address, fee_tier));
        Ok(())
    }

    /// Deregisters a pool: every entry with its address goes. When there was
    /// none, it is `PoolNotFound`.
    pub fn remove_pool(&mut self, pool_address: Pubkey) -> (r: Result<(), TokenPairError>)
        ensures
            same_but_pools(*final(self), *old(self)),
            final(self).pools@ == pools_without(old(self).pools@, pool_address),
            match r {
                Ok(()) => has_pool(old(self).pools@, pool_address),
                Err(e) => !has_pool(old(self).pools@, pool_address) && e
                    == TokenPairError::PoolNotFound,
            },
    {
        let initial_len = self.pools.len();
        let ghost old_pools = self.pools@;
        let mut kept: Vec<(Pubkey, u16)> = Vec::new();
        let mut i: usize = 0;
        while i < self.pools.len()
            invariant
                self.pools@ == old_pools,
                i <= old_pools.len(),
                kept@ == pools_without(old_pools.take(i as int), pool_address),
            decreases self.pools.len() - i,
        {
            let entry = self.pools[i];
            proof {
                reveal(Seq::filter);
                assert(old_pools.take(i + 1).drop_last() =~= old_pools.take(i as int));
                assert(old_pools.take(i + 1).last() == entry);
            }
            if entry.0 != pool_address {
                kept.push(entry);
            }
            i = i + 1;
        }
        proof {
            assert(old_pools.take(old_pools.len() as int) =~= old_pools);
            lemma_pools_without(old_pools, pool_address);
        }
        self.pools = kept;
        if self.pools.len() < initial_len {
            Ok(())
        } else {
            Err(TokenPairError::PoolNotFound)
        }
    }

    /// Adds to the volume and fee totals, each capped at `u64::MAX`.
    pub fn update_statistics(&mut self, volume_a: u64, volume_b: u64, fees: u64)
        ensures
            *final(self) == (TokenPair {
                total_volume_token_a: saturating_add_spec(old(self).total_volume_token_a, volume_a),
                total_volume_token_b: saturating_add_spec(old(self).total_volume_token_b, volume_b),
                total_fees_generated: saturating_add_spec(old(self).total_fees_generated, fees),
                ..*old(self)
            }),
    {
        self.total_volume_token_a = self.total_volume_token_a.saturating_add(volume_a);
        self.total_volume_token_b = self.total_volume_token_b.saturating_add(volume_b);
        self.total_fees_generated = self.total_fees_generated.saturating_add(fees);
    }

    /// Records the latest oracle price and the Unix time it was read at.
    pub fn update_oracle_price(&mut self, price: u64, unix_timestamp: i64)
        ensures
            *final(self) == (TokenPair {
                last_oracle_price: price,
                last_oracle_update: unix_timestamp,
                ..*old(self)
            }),
    {
        self.last_oracle_price = price;
        self.last_oracle_update = unix_timestamp;
    }

    /// Sets the verification status.
    pub fn set_verification(&mut self, is_verified: bool)
        ensures
            *final(self) == (TokenPair { is_verified, ..*old(self) }),
    {
        self.is_verified = is_verified;
    }
}

/// Registering a pool and then deregistering it gives the pools back.
pub proof fn lemma_add_then_remove_pool(
    pools: Seq<(Pubkey, u16)>,
    pool_address: Pubkey,
    fee_tier: u16,
)
    requires
        !has_pool(pools, pool_address),
    ensures
        pools_without(pools.push((pool_address, fee_tier)), pool_address) == pools,
{
    reveal(Seq::filter);
    assert(pools.push((pool_address, fee_tier)).drop_last() =~= pools);
    lemma_pools_without(pools, pool_address);
}


/// The address and bump seed that `Pubkey::try_find_program_address`
/// derives for the seeds under a program, or `None` where it finds none.
pub uninterp spec fn program_address(seeds: Seq<Seq<u8>>, program_id: Seq<u8>) -> Option<(Seq<u8>, u8)>;

/// Derives a program address from three seeds with the Solana SDK's
/// `Pubkey::try_find_program_address`. Its contract names the result, a
/// function of the seeds and the program id: `None` where no bump seed gives
/// an address off the curve, or where the seeds are refused (the SDK
/// returns `None` for those rather than panicking).
#[verifier::external_body]
fn find_program_address(seed0: &[u8], seed1: &[u8], seed2: &[u8], program_id: [u8; 32]) -> (r: Option<
    ([u8; 32], u8),
>)
    ensures
        match r {
            Some((address, bump)) => program_address(seq![seed0@, seed1@, seed2@], program_id@)
                == Some((address@, bump)),
            None => program_address(seq![seed0@, seed1@, seed2@], program_id@) is None,
        },
{
    match anchor_lang::prelude::Pubkey::try_find_program_address(
        &[seed0, seed1, seed2],
        &anchor_lang::prelude::Pubkey::new_from_array(program_id),
    ) {
        Some((address, bump)) => Some((address.to_bytes(), bump)),
        None => None,
    }
}

/// The first seed of a token pair's address: the bytes of `token_pair`.
pub open spec fn token_pair_seed() -> Seq<u8> {
    seq![116u8, 111u8, 107u8, 101u8, 110u8, 95u8, 112u8, 97u8, 105u8, 114u8]
}

/// The address and bump of the token pair of two mints under a program:
/// derived from `token_pair` and the two mints, the smaller key first;
/// `None` where no address can be derived.
pub open spec fn token_pair_address(token_a_mint: Pubkey, token_b_mint: Pubkey, program_id: Pubkey) -> Option<
    (Seq<u8>, u8),
> {
    let (first, second) = if token_a_mint.lt(token_b_mint) {
        (token_a_mint, token_b_mint)
    } else {
        (token_b_mint, token_a_mint)
    };
    program_address(seq![token_pair_seed(), first@, second@], program_id@)
}

/// Derives the address and bump seed of the token pair of two mints, taking
/// the mints in canonical order (the smaller key first); `None` in the
/// improbable case that no bump seed gives a valid address.
pub fn find_token_pair_address(token_a_mint: &Pubkey, token_b_mint: &Pubkey, program_id: &Pubkey) -> (r:
    Option<(Pubkey, u8)>)
    ensures
        match r {
            Some((address, bump)) => token_pair_address(*token_a_mint, *token_b_mint, *program_id)
                == Some((address@, bump)),
            None => token_pair_address(*token_a_mint, *token_b_mint, *program_id) is None,
        },
{
    let (mint_1, mint_2) = if token_a_mint.less_than(token_b_mint) {
        (token_a_mint, token_b_mint)
    } else {
        (token_b_mint, token_a_mint)
    };
    let seed: [u8; 10] = [116u8, 111u8, 107u8, 101u8, 110u8, 95u8, 112u8, 97u8, 105u8, 114u8];
    let first = mint_1.to_bytes();
    let second = mint_2.to_bytes();
    assert(seed@ =~= token_pair_seed());
    match find_program_address(
        seed.as_slice(),
        first.as_slice(),
        second.as_slice(),
        program_id.to_bytes(),
    ) {
        Some((address, bump)) => Some((Pubkey::new_from_array(address), bump)),
        None => None,
    }
}

/// The token pair address does not depend on the order the mints are given
/// in.
pub proof fn lemma_token_pair_address_symmetric(a: Pubkey, b: Pubkey, program_id: Pubkey)
    ensures
        token_pair_address(a, b, program_id) == token_pair_address(b, a, program_id),
{
    Pubkey::lemma_lt_total(a, b);
}

} // verus!
