//! A price oracle: a ring buffer of price observations, from which
//! time-weighted average prices are taken, with an optional compressed
//! copy of the observations.
use vstd::prelude::*;
use crate::arith::lemma_div_compare;
use crate::errors::ErrorCode;
use crate::math::{tick_in_range, tick_sqrt_price, tick_to_sqrt_price_q64};
use crate::pubkey::Pubkey;
use crate::wide::{b128, b256, b64, wide_as_u128, wide_div, wide_from_u128, wide_shl, wval};

verus! {

/// The most observations an oracle may hold.
pub const MAX_ORACLE_OBSERVATIONS: usize = 64;

/// One price observation.
#[derive(Clone, Copy, Debug)]
pub struct Observation {
    /// The time of the observation.
    pub block_timestamp: u32,
    /// The observed square-root price (Q64.96).
    pub sqrt_price: u128,
    /// The tick multiplied by time, accumulated since the start.
    pub tick_cumulative: i64,
    /// Seconds per unit of liquidity (scaled by 2^128), accumulated.
    pub seconds_per_liquidity_cumulative: u128,
    /// Whether this slot holds an observation.
    pub initialized: bool,
}

/// One observation stored as differences from the one before it.
#[derive(Clone, Copy, Debug)]
pub struct CompressedObservation {
    /// The seconds since the previous observation.
    pub time_delta: u16,
    /// The change of the square-root price (truncated to 64 bits).
    pub sqrt_price_delta: i64,
    /// The change of the tick accumulator.
    pub tick_accumulator_delta: i64,
    /// The change of the seconds-per-liquidity accumulator (truncated).
    pub seconds_per_liquidity_delta: u64,
    /// Bit 0: the observation was initialized.
    pub flags: u8,
}

/// An empty observation slot.
pub open spec fn empty_observation() -> Observation {
    Observation {
        block_timestamp: 0,
        sqrt_price: 0,
        tick_cumulative: 0,
        seconds_per_liquidity_cumulative: 0,
        initialized: false,
    }
}

/// An empty compressed slot.
pub open spec fn empty_compressed() -> CompressedObservation {
    CompressedObservation {
        time_delta: 0,
        sqrt_price_delta: 0,
        tick_accumulator_delta: 0,
        seconds_per_liquidity_delta: 0,
        flags: 0,
    }
}

impl Observation {
    /// An empty observation slot.
    pub fn new() -> (r: Observation)
        ensures
            r == empty_observation(),
    {
        Observation {
            block_timestamp: 0,
            sqrt_price: 0,
            tick_cumulative: 0,
            seconds_per_liquidity_cumulative: 0,
            initialized: false,
        }
    }
}

impl Default for Observation {
    fn default() -> (r: Observation)
        ensures
            r == empty_observation(),
    {
        Observation::new()
    }
}

impl Default for CompressedObservation {
    fn default() -> (r: CompressedObservation)
        ensures
            r == empty_compressed(),
    {
        CompressedObservation {
            time_delta: 0,
            sqrt_price_delta: 0,
            tick_accumulator_delta: 0,
            seconds_per_liquidity_delta: 0,
            flags: 0,
        }
    }
}

/// An oracle: its pool, its ring buffer of observations and its settings.
#[derive(Clone, Debug)]
pub struct Oracle {
    /// The pool the oracle belongs to.
    pub pool: Pubkey,
    /// The ring buffer of observations.
    pub observations: Vec<Observation>,
    /// The slot of the most recent observation.
    pub observation_index: u16,
    /// The number of slots in use.
    pub observation_cardinality: u16,
    /// The number of slots to grow to.
    pub observation_cardinality_next: u16,
    /// The time of the first observation.
    pub base_timestamp: u32,
    /// The price of the first observation.
    pub base_sqrt_price: u128,
    /// The tick accumulator at the first observation.
    pub base_tick_cumulative: i64,
    /// The seconds-per-liquidity accumulator at the first observation.
    pub base_seconds_per_liquidity_cumulative: u128,
    /// The compressed copies of the observations.
    pub compressed_observations: Vec<CompressedObservation>,
    /// Whether new observations are also stored compressed.
    pub compression_enabled: bool,
}

/// The oracle's square-root price of a tick, in Q64.96: the Q64.64 price of
/// `tick_to_sqrt_price_q64` scaled by `2^32`, or `u128::MAX` where that
/// does not fit; a tick outside `[MIN_TICK, MAX_TICK]` is
/// `InvalidTickRange`.
pub open spec fn oracle_tick_price(tick: i32) -> Result<u128, ErrorCode> {
    if !tick_in_range(tick as int) {
        Err(ErrorCode::InvalidTickRange)
    } else if tick_sqrt_price(tick as int) * 0x1_0000_0000 > u128::MAX {
        Ok(u128::MAX)
    } else {
        Ok((tick_sqrt_price(tick as int) * 0x1_0000_0000) as u128)
    }
}

/// Converts a tick to the oracle's Q64.96 square-root price (see
/// `oracle_tick_price`), with the same conversion as
/// `tick_to_sqrt_price_q64`.
pub fn tick_to_sqrt_price(tick: i32) -> (r: Result<u128, ErrorCode>)
    ensures
        r == oracle_tick_price(tick),
{
    let price = match tick_to_sqrt_price_q64(tick) {
        Ok(p) => p,
        Err(e) => {
            return Err(e);
        },
    };
    if price > 0xFFFF_FFFF_FFFF_FFFF_FFFF_FFFFu128 {
        return Ok(u128::MAX);
    }
    proof {
        assert(price * 0x1_0000_0000 <= u128::MAX) by (nonlinear_arith)
            requires
                price <= 0xFFFF_FFFF_FFFF_FFFF_FFFF_FFFFu128,
        ;
    }
    Ok(price * 0x1_0000_0000)
}

impl Oracle {
    /// The size in bytes of an oracle account holding `num_observations`
    /// observations.
    pub fn size(num_observations: usize) -> (r: usize)
        requires
            num_observations * (vstd::layout::size_of::<Observation>()
                + vstd::layout::size_of::<CompressedObservation>()) + 99 <= usize::MAX,
        ensures
            r == 99 + num_observations * vstd::layout::size_of::<Observation>() + num_observations
                * vstd::layout::size_of::<CompressedObservation>(),
    {
        let observation_size = core::mem::size_of::<Observation>();
        let compressed_size = core::mem::size_of::<CompressedObservation>();
        proof {
            let n = num_observations as int;
            let a = observation_size as int;
            let b = compressed_size as int;
            assert(n * a <= n * (a + b) && n * b <= n * (a + b) && n * a + n * b == n * (a + b))
                by (nonlinear_arith)
                requires
                    n >= 0,
                    a >= 0,
                    b >= 0,
            ;
        }
        8 + 32 + 4 + num_observations * observation_size + 2 + 2 + 2 + 4 + 16 + 8 + 16 + 4
            + num_observations * compressed_size + 1
    }

    /// Sets the oracle up with one observation at `block_timestamp` and
    /// `sqrt_price`, which also become the base values.
    pub fn initialize(&mut self, pool: Pubkey, block_timestamp: u32, sqrt_price: u128) -> (r: Result<
        (),
        ErrorCode,
    >)
        ensures
            r is Ok,
            final(self).pool == pool,
            final(self).observation_index == 0,
            final(self).observation_cardinality == 1,
            final(self).observation_cardinality_next == 1,
            final(self).base_timestamp == block_timestamp,
            final(self).base_sqrt_price == sqrt_price,
            final(self).base_tick_cumulative == 0,
            final(self).base_seconds_per_liquidity_cumulative == 0,
            final(self).compression_enabled == false,
            final(self).compressed_observations@ == old(self).compressed_observations@,
            ({
                let first = Observation {
                    block_timestamp,
                    sqrt_price,
                    tick_cumulative: 0,
                    seconds_per_liquidity_cumulative: 0,
                    initialized: true,
                };
                final(self).observations@ == if old(self).observations@.len() == 0 {
                    seq![first]
                } else {
                    old(self).observations@.update(0, first)
                }
            }),
    {
        self.pool = pool;
        self.observation_index = 0;
        self.observation_cardinality = 1;
        self.observation_cardinality_next = 1;
        self.base_timestamp = block_timestamp;
        self.base_sqrt_price = sqrt_price;
        self.base_tick_cumulative = 0;
        self.base_seconds_per_liquidity_cumulative = 0;
        self.compression_enabled = false;
        let observation = Observation {
            block_timestamp,
            sqrt_price,
            tick_cumulative: 0,
            seconds_per_liquidity_cumulative: 0,
            initialized: true,
        };
        if self.observations.len() == 0 {
            self.observations = vec![Observation::new(); 1];
        }
        self.observations.set(0, observation);
        proof {
            if old(self).observations@.len() == 0 {
                assert(self.observations@ =~= seq![observation]);
            }
        }
        Ok(())
    }

    /// The most recent observation. An oracle without slots, or whose most
    /// recent slot is empty, is `OracleNotInitialized`.
    pub fn get_last_observation(&self) -> (r: Result<&Observation, ErrorCode>)
        requires
            self.observation_cardinality == 0 || self.observation_index
                < self.observations@.len(),
        ensures
            match r {
                Ok(o) => self.observation_cardinality != 0 && *o
                    == self.observations@[self.observation_index as int] && o.initialized,
                Err(e) => e == ErrorCode::OracleNotInitialized && (self.observation_cardinality
                    == 0 || !self.observations@[self.observation_index as int].initialized),
            },
    {
        if self.observation_cardinality == 0 {
            return Err(ErrorCode::OracleNotInitialized);
        }
        let observation = &self.observations[self.observation_index as usize];
        if !observation.initialized {
            return Err(ErrorCode::OracleNotInitialized);
        }
        Ok(observation)
    }

    /// Records an observation at `block_timestamp` (see `write_effect`):
    /// the accumulators grow by `tick * elapsed` and by the seconds per
    /// liquidity `elapsed * 2^128 / liquidity` (zero without liquidity).
    pub fn write(&mut self, block_timestamp: u32, sqrt_price: u128, tick: i32, liquidity: u128) -> (r:
        Result<(), ErrorCode>)
        requires
            write_safe(*old(self), block_timestamp, sqrt_price, tick, liquidity),
        ensures
            write_effect(*old(self), *final(self), block_timestamp, sqrt_price, tick, liquidity, r),
    {
        let last_observation = match self.get_last_observation() {
            Ok(o) => *o,
            Err(e) => {
                return Err(e);
            },
        };
        if block_timestamp <= last_observation.block_timestamp {
            return Err(ErrorCode::OracleInvalidTimestamp);
        }
        let time_elapsed = block_timestamp - last_observation.block_timestamp;
        let tick_product = match (tick as i64).checked_mul(time_elapsed as i64) {
            Some(v) => v,
            None => {
                return Err(ErrorCode::MathOverflow);
            },
        };
        let tick_cumulative = match last_observation.tick_cumulative.checked_add(tick_product) {
            Some(v) => v,
            None => {
                return Err(ErrorCode::MathOverflow);
            },
        };
        let seconds_per_liquidity_delta = if liquidity > 0 {
            if liquidity <= time_elapsed as u128 {
                proof {
                    let e = time_elapsed as nat;
                    let l = liquidity as nat;
                    assert(e * b128() >= l * b128()) by (nonlinear_arith)
                        requires
                            e >= l,
                    ;
                    lemma_div_compare(e * b128(), l, b128());
                    assert(b128() * l == l * b128()) by (nonlinear_arith);
                }
                return Err(ErrorCode::MathOverflow);
            }
            proof {
                crate::math::lemma_pow2_64();
            }
            let scaled = wide_shl(wide_shl(wide_from_u128(time_elapsed as u128), 64), 64);
            proof {
                let e = time_elapsed as nat;
                let l = liquidity as nat;
                assert(e * b64() < b256() && (e * b64()) * b64() == e * b128() && e * b128() < b256())
                    by (nonlinear_arith)
                    requires
                        e < 0x1_0000_0000,
                        b64() * b64() == b128(),
                        b128() * b64() * b64() == b256(),
                ;
                vstd::arithmetic::div_mod::lemma_small_mod(e * b64(), b256());
                vstd::arithmetic::div_mod::lemma_small_mod(e * b128(), b256());
                assert(e * b128() < b128() * l) by (nonlinear_arith)
                    requires
                        e < l,
                ;
                lemma_div_compare(e * b128(), l, b128());
            }
            let q = wide_div(scaled, wide_from_u128(liquidity));
            wide_as_u128(q)
        } else {
            0
        };
        let seconds_per_liquidity_cumulative = match last_observation.seconds_per_liquidity_cumulative.checked_add(
            seconds_per_liquidity_delta,
        ) {
            Some(v) => v,
            None => {
                return Err(ErrorCode::MathOverflow);
            },
        };
        let new_index = (self.observation_index + 1) % self.observation_cardinality;
        let new_observation = Observation {
            block_timestamp,
            sqrt_price,
            tick_cumulative,
            seconds_per_liquidity_cumulative,
            initialized: true,
        };
        if new_index as usize >= self.observations.len() {
            let ghost before = self.observations@;
            let n = self.observation_cardinality as usize;
            self.observations.resize(n, Observation::new());
            proof {
                lemma_resized(before, self.observations@, n as int, empty_observation());
            }
        }
        self.observations.set(new_index as usize, new_observation);
        if self.compression_enabled {
            match self.add_compressed_observation(new_index, &new_observation, &last_observation) {
                Ok(()) => {},
                Err(e) => {
                    return Err(e);
                },
            }
        }
        self.observation_index = new_index;
        Ok(())
    }

    /// Stores the compressed copy of `observation`, relative to `previous`,
    /// at slot `index`, the slot of the full observation (see
    /// `compress_outcome`).
    fn add_compressed_observation(
        &mut self,
        index: u16,
        observation: &Observation,
        previous: &Observation,
    ) -> (r: Result<(), ErrorCode>)
        requires
            compress_safe(
                old(self).compressed_observations@,
                old(self).observation_cardinality,
                index,
                *observation,
                *previous,
            ),
        ensures
            (final(self).compressed_observations@, r) == compress_outcome(
                old(self).compressed_observations@,
                old(self).observation_cardinality,
                index,
                *observation,
                *previous,
            ),
            same_oracle_settings(*final(self), *old(self)),
            final(self).observations == old(self).observations,
            final(self).observation_index == old(self).observation_index,
    {
        if self.compressed_observations.len() == 0 {
            self.compressed_observations = vec![CompressedObservation::default(); self.observation_cardinality as usize];
            assert(self.compressed_observations@ =~= Seq::new(
                self.observation_cardinality as nat,
                |i: int| empty_compressed(),
            ));
        }
        let time_delta = match observation.block_timestamp.checked_sub(previous.block_timestamp) {
            Some(v) => v,
            None => {
                return Err(ErrorCode::MathOverflow);
            },
        };
        if time_delta > u16::MAX as u32 {
            return Err(ErrorCode::ObservationTimeDeltaTooLarge);
        }
        let sqrt_price_delta = if observation.sqrt_price >= previous.sqrt_price {
            #[verifier::truncate] ((observation.sqrt_price - previous.sqrt_price) as i64)
        } else {
            let d = #[verifier::truncate] ((previous.sqrt_price - observation.sqrt_price) as i64);
            -d
        };
        let tick_acc_delta = if observation.tick_cumulative >= previous.tick_cumulative {
            match observation.tick_cumulative.checked_sub(previous.tick_cumulative) {
                Some(v) => v,
                None => {
                    return Err(ErrorCode::MathOverflow);
                },
            }
        } else {
            match previous.tick_cumulative.checked_sub(observation.tick_cumulative) {
                Some(v) => -v,
                None => {
                    return Err(ErrorCode::MathOverflow);
                },
            }
        };
        let sec_per_liq_delta = match observation.seconds_per_liquidity_cumulative.checked_sub(
            previous.seconds_per_liquidity_cumulative,
        ) {
            Some(v) => #[verifier::truncate] (v as u64),
            None => {
                return Err(ErrorCode::MathOverflow);
            },
        };
        let compressed = CompressedObservation {
            time_delta: time_delta as u16,
            sqrt_price_delta,
            tick_accumulator_delta: tick_acc_delta,
            seconds_per_liquidity_delta: sec_per_liq_delta,
            flags: if observation.initialized {
                1
            } else {
                0
            },
        };
        self.compressed_observations.set(index as usize, compressed);
        Ok(())
    }

    /// Turns compression on. The first time, with no compressed slots yet,
    /// each slot in use gets the compressed copy of its own observation
    /// (see `enabled_slot`); when compression is already on nothing changes.
    pub fn enable_compression(&mut self) -> (r: Result<(), ErrorCode>)
        requires
            !old(self).compression_enabled && old(self).compressed_observations@.len() == 0
                ==> old(self).observation_cardinality <= old(self).observations@.len()
                && enable_safe(old(self).observations@, old(self).observation_cardinality),
        ensures
            r is Ok,
            old(self).compression_enabled ==> *final(self) == *old(self),
            !old(self).compression_enabled ==> {
                &&& final(self).compression_enabled
                &&& final(self).observations == old(self).observations
                &&& final(self).observation_index == old(self).observation_index
                &&& final(self).observation_cardinality == old(self).observation_cardinality
                &&& final(self).observation_cardinality_next == old(
                    self,
                ).observation_cardinality_next
                &&& final(self).pool == old(self).pool
                &&& final(self).base_timestamp == old(self).base_timestamp
                &&& final(self).base_sqrt_price == old(self).base_sqrt_price
                &&& final(self).base_tick_cumulative == old(self).base_tick_cumulative
                &&& final(self).base_seconds_per_liquidity_cumulative == old(
                    self,
                ).base_seconds_per_liquidity_cumulative
                &&& final(self).compressed_observations@ == if old(
                    self,
                ).compressed_observations@.len() == 0 {
                    Seq::new(
                        old(self).observation_cardinality as nat,
                        |i: int| enabled_slot(old(self).observations@, i),
                    )
                } else {
                    old(self).compressed_observations@
                }
            },
    {
        if self.compression_enabled {
            return Ok(());
        }
        self.compression_enabled = true;
        if self.compressed_observations.len() == 0 {
            let card = self.observation_cardinality;
            self.compressed_observations = vec![CompressedObservation::default(); card as usize];
            let ghost obs = self.observations@;
            let mut i: u16 = 0;
            while i < card
                invariant
                    i <= card,
                    card == self.observation_cardinality,
                    obs == self.observations@,
                    card <= obs.len(),
                    enable_safe(obs, card),
                    self.compressed_observations@.len() == card,
                    forall|j: int| 0 <= j < i ==> #[trigger] self.compressed_observations@[j]
                        == enabled_slot(obs, j),
                    forall|j: int| i <= j < card ==> #[trigger] self.compressed_observations@[j]
                        == empty_compressed(),
                    self.compression_enabled,
                    self.observations == old(self).observations,
                    self.observation_index == old(self).observation_index,
                    self.observation_cardinality == old(self).observation_cardinality,
                    self.observation_cardinality_next == old(self).observation_cardinality_next,
                    self.pool == old(self).pool,
                    self.base_timestamp == old(self).base_timestamp,
                    self.base_sqrt_price == old(self).base_sqrt_price,
                    self.base_tick_cumulative == old(self).base_tick_cumulative,
                    self.base_seconds_per_liquidity_cumulative == old(
                        self,
                    ).base_seconds_per_liquidity_cumulative,
                decreases card - i,
            {
                if i == 0 {
                    let observation = self.observations[0];
                    if observation.initialized {
                        let compressed = CompressedObservation {
                            time_delta: 0,
                            sqrt_price_delta: 0,
                            tick_accumulator_delta: 0,
                            seconds_per_liquidity_delta: 0,
                            flags: 1,
                        };
                        self.compressed_observations.set(0, compressed);
                    }
                } else {
                    let idx = i as usize;
                    let prev_idx = idx - 1;
                    let observation = self.observations[idx];
                    let prev_observation = self.observations[prev_idx];
                    if observation.initialized && prev_observation.initialized {
                        assert(compress_entry_safe(obs[i as int], obs[i - 1]));
                        let _ = self.add_compressed_observation(i, &observation, &prev_observation);
                    }
                }
                i = i + 1;
            }
            assert(self.compressed_observations@ =~= Seq::new(
                card as nat,
                |j: int| enabled_slot(obs, j),
            ));
        }
        Ok(())
    }

    /// The slots of the observations around `target` (see
    /// `surrounding_spec`).
    fn surrounding_indices(&self, target: u32) -> (r: Result<(u16, u16), ErrorCode>)
        requires
            scan_safe(*self),
        ensures
            r == surrounding_spec(*self, target),
            r matches Ok((b, a)) ==> b < self.observations@.len() && a < self.observations@.len(),
    {
        let card = self.observation_cardinality;
        if card <= 1 {
            return Err(ErrorCode::OracleInsufficientData);
        }
        let start = self.observation_index;
        let (oldest_index, oldest_timestamp) = self.scan(
            start,
            u32::MAX,
            Ghost(|x: Observation, j: u16, bt: u32| x.initialized && x.block_timestamp < bt),
            ScanRule::Oldest,
            target,
        );
        let (newest_index, newest_timestamp) = self.scan(
            start,
            0,
            Ghost(|x: Observation, j: u16, bt: u32| x.initialized && x.block_timestamp > bt),
            ScanRule::Newest,
            target,
        );
        if target <= oldest_timestamp {
            let (second, _) = self.scan(
                oldest_index,
                u32::MAX,
                Ghost(
                    |x: Observation, j: u16, bt: u32|
                        j != oldest_index && x.initialized && x.block_timestamp < bt,
                ),
                ScanRule::OldestBesides(oldest_index),
                target,
            );
            return Ok((oldest_index, second));
        }
        if target >= newest_timestamp {
            let (second, _) = self.scan(
                newest_index,
                0,
                Ghost(
                    |x: Observation, j: u16, bt: u32|
                        j != newest_index && x.initialized && x.block_timestamp > bt,
                ),
                ScanRule::NewestBesides(newest_index),
                target,
            );
            return Ok((second, newest_index));
        }
        let (before_index, _) = self.scan(
            0,
            0,
            Ghost(
                |x: Observation, j: u16, bt: u32|
                    x.initialized && x.block_timestamp <= target && x.block_timestamp > bt,
            ),
            ScanRule::LatestAtOrBefore,
            target,
        );
        let (after_index, _) = self.scan(
            0,
            u32::MAX,
            Ghost(
                |x: Observation, j: u16, bt: u32|
                    x.initialized && x.block_timestamp > target && x.block_timestamp < bt,
            ),
            ScanRule::EarliestAfter,
            target,
        );
        Ok((before_index, after_index))
    }

    /// Visits every slot in use from the current one on and keeps the best
    /// by `rule`, starting from `init_index` and `init_time`.
    fn scan(
        &self,
        init_index: u16,
        init_time: u32,
        pick: Ghost<spec_fn(Observation, u16, u32) -> bool>,
        rule: ScanRule,
        target: u32,
    ) -> (r: (u16, u32))
        requires
            scan_safe(*self),
            self.observation_cardinality > 1,
            init_index < self.observations@.len(),
            forall|x: Observation, j: u16, bt: u32| #[trigger]
                pick@(x, j, bt) == rule_picks(rule, target, x, j, bt),
        ensures
            r == scan_best(
                self.observations@,
                self.observation_index,
                self.observation_cardinality,
                self.observation_cardinality as nat,
                init_index,
                init_time,
                pick@,
            ),
            r.0 < self.observations@.len(),
    {
        let card = self.observation_cardinality;
        let start = self.observation_index;
        let mut best_index = init_index;
        let mut best_time = init_time;
        let mut i: u16 = 0;
        while i < card
            invariant
                i <= card,
                card == self.observation_cardinality,
                start == self.observation_index,
                scan_safe(*self),
                card > 1,
                forall|x: Observation, j: u16, bt: u32| #[trigger]
                    pick@(x, j, bt) == rule_picks(rule, target, x, j, bt),
                (best_index, best_time) == scan_best(
                    self.observations@,
                    start,
                    card,
                    i as nat,
                    init_index,
                    init_time,
                    pick@,
                ),
                best_index < self.observations@.len(),
            decreases card - i,
        {
            let index = (start + i) % card;
            let observation = &self.observations[index as usize];
            let better = match rule {
                ScanRule::Oldest => observation.initialized && observation.block_timestamp
                    < best_time,
                ScanRule::Newest => observation.initialized && observation.block_timestamp
                    > best_time,
                ScanRule::OldestBesides(k) => index != k && observation.initialized
                    && observation.block_timestamp < best_time,
                ScanRule::NewestBesides(k) => index != k && observation.initialized
                    && observation.block_timestamp > best_time,
                ScanRule::LatestAtOrBefore => observation.initialized && observation.block_timestamp
                    <= target && observation.block_timestamp > best_time,
                ScanRule::EarliestAfter => observation.initialized && observation.block_timestamp
                    > target && observation.block_timestamp < best_time,
            };
            assert(better == pick@(*observation, index, best_time));
            if better {
                best_index = index;
                best_time = observation.block_timestamp;
            }
            i = i + 1;
        }
        (best_index, best_time)
    }

    /// The observations around `target` (see `surrounding_spec`).
    pub fn get_surrounding_observations(&self, target: u32) -> (r: Result<
        (&Observation, &Observation),
        ErrorCode,
    >)
        requires
            scan_safe(*self),
        ensures
            match surrounding_spec(*self, target) {
                Ok((b, a)) => r is Ok && *r.unwrap().0 == self.observations@[b as int]
                    && *r.unwrap().1 == self.observations@[a as int],
                Err(e) => r == Err::<(&Observation, &Observation), ErrorCode>(e),
            },
    {
        match self.surrounding_indices(target) {
            Ok((b, a)) => Ok((&self.observations[b as usize], &self.observations[a as usize])),
            Err(e) => Err(e),
        }
    }

    /// What the time-weighted average price `seconds_ago` before
    /// `target_timestamp` is computed from (see `twap_quote_spec`): the
    /// price of the observation at that moment, or the change of the tick
    /// accumulator between the two observations around it over the seconds
    /// between them. Too few observations, or an empty slot among the two,
    /// is `OracleInsufficientData`.
    pub fn twap_quote(&self, target_timestamp: u32, seconds_ago: u32) -> (r: Result<TwapQuote, ErrorCode>)
        requires
            scan_safe(*self),
        ensures
            r == twap_quote_spec(*self, target_timestamp, seconds_ago),
    {
        let target = if seconds_ago == 0 {
            target_timestamp
        } else {
            target_timestamp.saturating_sub(seconds_ago)
        };
        let (b, a) = match self.surrounding_indices(target) {
            Ok(v) => v,
            Err(e) => {
                return Err(e);
            },
        };
        let before = self.observations[b as usize];
        let after = self.observations[a as usize];
        if before.block_timestamp == target {
            return Ok(TwapQuote::Price(before.sqrt_price));
        }
        if !before.initialized || !after.initialized {
            return Err(ErrorCode::OracleInsufficientData);
        }
        let time_delta = after.block_timestamp.wrapping_sub(before.block_timestamp);
        if time_delta == 0 {
            return Ok(TwapQuote::Price(before.sqrt_price));
        }
        let tick_cumulative_delta = after.tick_cumulative.wrapping_sub(before.tick_cumulative);
        Ok(TwapQuote::AverageOver { tick_cumulative_delta, time_delta })
    }

    /// Sets the number of slots to grow to. A number not above the current
    /// one changes nothing; one above `MAX_ORACLE_OBSERVATIONS` is
    /// `OracleCardinalityTooLarge`.
    pub fn increase_cardinality(&mut self, new_cardinality: u16) -> (r: Result<(), ErrorCode>)
        ensures
            new_cardinality <= old(self).observation_cardinality ==> (r is Ok) && *final(self)
                == *old(self),
            new_cardinality > old(self).observation_cardinality && new_cardinality > 64 ==> r
                == Err::<(), ErrorCode>(ErrorCode::OracleCardinalityTooLarge) && *final(self)
                == *old(self),
            new_cardinality > old(self).observation_cardinality && new_cardinality <= 64 ==> (r
                is Ok) && *final(self) == (Oracle {
                observation_cardinality_next: new_cardinality,
                ..*old(self)
            }),
    {
        if new_cardinality <= self.observation_cardinality {
            return Ok(());
        }
        if new_cardinality > MAX_ORACLE_OBSERVATIONS as u16 {
            return Err(ErrorCode::OracleCardinalityTooLarge);
        }
        self.observation_cardinality_next = new_cardinality;
        Ok(())
    }

    /// Grows (or, when it holds more, cuts) the buffer to the target number
    /// of slots, the compressed one too when compression is on, and makes
    /// that the number of slots in use; nothing happens when the target is
    /// not above the current number.
    pub fn grow_observations(&mut self) -> (r: Result<(), ErrorCode>)
        ensures
            r is Ok,
            ({
                let n = old(self).observation_cardinality_next as int;
                if old(self).observation_cardinality >= old(self).observation_cardinality_next {
                    *final(self) == *old(self)
                } else {
                    &&& final(self).observation_cardinality == old(
                        self,
                    ).observation_cardinality_next
                    &&& final(self).observations@ == resized(
                        old(self).observations@,
                        n,
                        empty_observation(),
                    )
                    &&& final(self).compressed_observations@ == if old(self).compression_enabled {
                        resized(old(self).compressed_observations@, n, empty_compressed())
                    } else {
                        old(self).compressed_observations@
                    }
                    &&& final(self).observation_index == old(self).observation_index
                    &&& final(self).observation_cardinality_next == old(
                        self,
                    ).observation_cardinality_next
                    &&& final(self).compression_enabled == old(self).compression_enabled
                    &&& final(self).pool == old(self).pool
                    &&& final(self).base_timestamp == old(self).base_timestamp
                    &&& final(self).base_sqrt_price == old(self).base_sqrt_price
                    &&& final(self).base_tick_cumulative == old(self).base_tick_cumulative
                    &&& final(self).base_seconds_per_liquidity_cumulative == old(
                        self,
                    ).base_seconds_per_liquidity_cumulative
                }
            }),
    {
        if self.observation_cardinality >= self.observation_cardinality_next {
            return Ok(());
        }
        let n = self.observation_cardinality_next as usize;
        let ghost old_observations = self.observations@;
        self.observations.resize(n, Observation::new());
        proof {
            lemma_resized(old_observations, self.observations@, n as int, empty_observation());
        }
        if self.compression_enabled {
            let ghost old_compressed = self.compressed_observations@;
            self.compressed_observations.resize(n, CompressedObservation::default());
            proof {
                lemma_resized(old_compressed, self.compressed_observations@, n as int, empty_compressed());
            }
        }
        self.observation_cardinality = self.observation_cardinality_next;
        Ok(())
    }
}


/// The seconds-per-liquidity increment of `elapsed` seconds at `liquidity`:
/// `elapsed * 2^128 / liquidity`, and zero without liquidity.
pub open spec fn seconds_per_liquidity_delta(elapsed: nat, liquidity: nat) -> nat {
    if liquidity > 0 {
        elapsed * b128() / liquidity
    } else {
        0
    }
}

/// The truncation of an integer to `i64`.
pub open spec fn as_i64(x: int) -> i64 {
    x as i64
}

/// The compressed copy of `obs`, relative to `prev`, or the error: the
/// seconds between the two must not be negative (`MathOverflow`) or exceed
/// `u16` (`ObservationTimeDeltaTooLarge`); the change of the
/// seconds-per-liquidity accumulator must not be negative and that of the
/// tick accumulator must have a magnitude within `i64` (`MathOverflow`). The
/// price change is truncated to `i64`.
pub open spec fn compress_entry(obs: Observation, prev: Observation) -> Result<
    CompressedObservation,
    ErrorCode,
> {
    if obs.block_timestamp < prev.block_timestamp {
        Err(ErrorCode::MathOverflow)
    } else if obs.block_timestamp - prev.block_timestamp > u16::MAX {
        Err(ErrorCode::ObservationTimeDeltaTooLarge)
    } else {
        let price_delta: int = if obs.sqrt_price >= prev.sqrt_price {
            as_i64(obs.sqrt_price - prev.sqrt_price) as int
        } else {
            -as_i64(prev.sqrt_price - obs.sqrt_price)
        };
        let tick_delta = obs.tick_cumulative - prev.tick_cumulative;
        if !(-i64::MAX <= tick_delta <= i64::MAX) || obs.seconds_per_liquidity_cumulative
            < prev.seconds_per_liquidity_cumulative {
            Err(ErrorCode::MathOverflow)
        } else {
            Ok(
                CompressedObservation {
                    time_delta: (obs.block_timestamp - prev.block_timestamp) as u16,
                    sqrt_price_delta: price_delta as i64,
                    tick_accumulator_delta: tick_delta as i64,
                    seconds_per_liquidity_delta: (obs.seconds_per_liquidity_cumulative
                        - prev.seconds_per_liquidity_cumulative) as u64,
                    flags: if obs.initialized {
                        1u8
                    } else {
                        0u8
                    },
                },
            )
        }
    }
}

/// Computing the compressed copy does not panic: a falling price's
/// truncated change is not `i64::MIN` (whose negation overflows).
pub open spec fn compress_entry_safe(obs: Observation, prev: Observation) -> bool {
    obs.block_timestamp < prev.block_timestamp || obs.block_timestamp - prev.block_timestamp
        > u16::MAX || !(obs.sqrt_price < prev.sqrt_price && as_i64(prev.sqrt_price - obs.sqrt_price)
        == i64::MIN)
}

/// The compressed slots after storing the compressed copy of `obs`
/// (following `prev`) at `index`, and the outcome (see `compress_entry`).
/// Empty compressed storage is first filled with `card` empty slots.
pub open spec fn compress_outcome(
    comp: Seq<CompressedObservation>,
    card: u16,
    index: u16,
    obs: Observation,
    prev: Observation,
) -> (Seq<CompressedObservation>, Result<(), ErrorCode>) {
    let comp0 = if comp.len() == 0 {
        Seq::new(card as nat, |i: int| empty_compressed())
    } else {
        comp
    };
    match compress_entry(obs, prev) {
        Err(e) => (comp0, Err(e)),
        Ok(c) => (comp0.update(index as int, c), Ok(())),
    }
}

/// Storing a compressed observation does not panic: a falling price's
/// truncated change is not `i64::MIN` (whose negation overflows), and the
/// slot exists when it is written.
pub open spec fn compress_safe(
    comp: Seq<CompressedObservation>,
    card: u16,
    index: u16,
    obs: Observation,
    prev: Observation,
) -> bool {
    let comp0_len = if comp.len() == 0 {
        card as nat
    } else {
        comp.len()
    };
    &&& compress_entry_safe(obs, prev)
    &&& (compress_entry(obs, prev) is Ok ==> index < comp0_len)
}

/// The observation that `write` adds after `last`, or the error: the time
/// must move forward (`OracleInvalidTimestamp`), and the accumulators must
/// fit (`MathOverflow`).
pub open spec fn next_observation(
    last: Observation,
    block_timestamp: u32,
    sqrt_price: u128,
    tick: i32,
    liquidity: u128,
) -> Result<Observation, ErrorCode> {
    if block_timestamp <= last.block_timestamp {
        Err(ErrorCode::OracleInvalidTimestamp)
    } else {
        let elapsed = block_timestamp - last.block_timestamp;
        let tick_product = tick * elapsed;
        let tick_cumulative = last.tick_cumulative + tick_product;
        let spl = last.seconds_per_liquidity_cumulative + seconds_per_liquidity_delta(
            elapsed as nat,
            liquidity as nat,
        );
        if !(i64::MIN <= tick_product <= i64::MAX) || !(i64::MIN <= tick_cumulative <= i64::MAX)
            || seconds_per_liquidity_delta(elapsed as nat, liquidity as nat) > u128::MAX || spl
            > u128::MAX {
            Err(ErrorCode::MathOverflow)
        } else {
            Ok(
                Observation {
                    block_timestamp,
                    sqrt_price,
                    tick_cumulative: tick_cumulative as i64,
                    seconds_per_liquidity_cumulative: spl as u128,
                    initialized: true,
                },
            )
        }
    }
}

/// Everything but the observations, the compressed observations and the
/// index agree.
pub open spec fn same_oracle_settings(a: Oracle, b: Oracle) -> bool {
    &&& a.pool == b.pool
    &&& a.observation_cardinality == b.observation_cardinality
    &&& a.observation_cardinality_next == b.observation_cardinality_next
    &&& a.base_timestamp == b.base_timestamp
    &&& a.base_sqrt_price == b.base_sqrt_price
    &&& a.base_tick_cumulative == b.base_tick_cumulative
    &&& a.base_seconds_per_liquidity_cumulative == b.base_seconds_per_liquidity_cumulative
    &&& a.compression_enabled == b.compression_enabled
}

/// The slot a new observation goes to: the one after the current, wrapping
/// at the number of slots in use.
pub open spec fn next_index(o: Oracle) -> u16 {
    ((o.observation_index + 1) % (o.observation_cardinality as int)) as u16
}

/// What `write` does to `o0` (giving `o1`), returning `r`: the new
/// observation goes to the next slot (the buffer first grown to the number
/// of slots in use when it is too short), then, with compression on, its
/// compressed copy is stored at that same slot, and only then does the
/// index move to the new slot. An error before the observation is stored
/// changes nothing.
pub open spec fn write_effect(
    o0: Oracle,
    o1: Oracle,
    block_timestamp: u32,
    sqrt_price: u128,
    tick: i32,
    liquidity: u128,
    r: Result<(), ErrorCode>,
) -> bool {
    if o0.observation_cardinality == 0 || !o0.observations@[o0.observation_index as int].initialized {
        r == Err::<(), ErrorCode>(ErrorCode::OracleNotInitialized) && o1 == o0
    } else {
        let last = o0.observations@[o0.observation_index as int];
        match next_observation(last, block_timestamp, sqrt_price, tick, liquidity) {
            Err(e) => r == Err::<(), ErrorCode>(e) && o1 == o0,
            Ok(obs) => {
                let ni = next_index(o0);
                let grown = if ni >= o0.observations@.len() {
                    resized(o0.observations@, o0.observation_cardinality as int, empty_observation())
                } else {
                    o0.observations@
                };
                let (comp, rc) = if o0.compression_enabled {
                    compress_outcome(
                        o0.compressed_observations@,
                        o0.observation_cardinality,
                        ni,
                        obs,
                        last,
                    )
                } else {
                    (o0.compressed_observations@, Ok(()))
                };
                &&& same_oracle_settings(o1, o0)
                &&& o1.observations@ == grown.update(ni as int, obs)
                &&& o1.compressed_observations@ == comp
                &&& r == rc
                &&& o1.observation_index == if rc is Ok {
                    ni
                } else {
                    o0.observation_index
                }
            },
        }
    }
}

/// `write` does not panic: the current slot exists, and where the new
/// observation is made, the index can move on and storing its compressed
/// copy (with compression on) does not panic.
pub open spec fn write_safe(o: Oracle, block_timestamp: u32, sqrt_price: u128, tick: i32, liquidity: u128) -> bool {
    o.observation_cardinality == 0 || {
        &&& o.observation_index < o.observations@.len()
        &&& o.observations@[o.observation_index as int].initialized ==> match next_observation(
            o.observations@[o.observation_index as int],
            block_timestamp,
            sqrt_price,
            tick,
            liquidity,
        ) {
            Err(_) => true,
            Ok(obs) => o.observation_index < u16::MAX && (o.compression_enabled ==> compress_safe(
                o.compressed_observations@,
                o.observation_cardinality,
                next_index(o),
                obs,
                o.observations@[o.observation_index as int],
            )),
        }
    }
}


/// The compressed slot of an initialized observation with no predecessor.
pub open spec fn first_compressed() -> CompressedObservation {
    CompressedObservation { flags: 1, ..empty_compressed() }
}

/// What compression gives slot `i` of the observations: slot 0 the
/// first-observation mark when it is initialized; a later slot, when it and
/// the slot before are initialized, its compressed copy relative to that
/// slot (see `compress_entry`); an empty slot otherwise, and where the copy
/// cannot be made.
pub open spec fn enabled_slot(obs: Seq<Observation>, i: int) -> CompressedObservation {
    if i == 0 {
        if obs[0].initialized {
            first_compressed()
        } else {
            empty_compressed()
        }
    } else if obs[i].initialized && obs[i - 1].initialized {
        match compress_entry(obs[i], obs[i - 1]) {
            Ok(c) => c,
            Err(_) => empty_compressed(),
        }
    } else {
        empty_compressed()
    }
}

/// Compressing the first `card` observations does not panic.
pub open spec fn enable_safe(obs: Seq<Observation>, card: u16) -> bool {
    forall|i: int|
        1 <= i < card && obs[i].initialized && obs[i - 1].initialized ==> #[trigger] compress_entry_safe(
            obs[i],
            obs[i - 1],
        )
}

/// The best slot of the first `n` slots visited (from `start`, wrapping at
/// `card`), and its time: a visited slot replaces the best so far when
/// `pick` accepts it given its index and the best time so far.
pub open spec fn scan_best(
    obs: Seq<Observation>,
    start: u16,
    card: u16,
    n: nat,
    init_index: u16,
    init_time: u32,
    pick: spec_fn(Observation, u16, u32) -> bool,
) -> (u16, u32)
    decreases n,
{
    if n == 0 {
        (init_index, init_time)
    } else {
        let (bi, bt) = scan_best(obs, start, card, (n - 1) as nat, init_index, init_time, pick);
        let j = ((start + n - 1) % (card as int)) as u16;
        if pick(obs[j as int], j, bt) {
            (j, obs[j as int].block_timestamp)
        } else {
            (bi, bt)
        }
    }
}

/// The slots of the two observations that surround `target`: with fewer
/// than two slots, `OracleInsufficientData`. A target at or before the
/// oldest observation gives the oldest two; one at or after the newest
/// gives the newest two; otherwise the latest at or before the target and
/// the earliest after it. The slots are visited from the current one on;
/// of equal times the first visited wins.
pub open spec fn surrounding_spec(o: Oracle, target: u32) -> Result<(u16, u16), ErrorCode> {
    let obs = o.observations@;
    let start = o.observation_index;
    let card = o.observation_cardinality;
    if card <= 1 {
        Err(ErrorCode::OracleInsufficientData)
    } else {
        let (oi, ot) = scan_best(
            obs,
            start,
            card,
            card as nat,
            start,
            u32::MAX,
            |x: Observation, j: u16, bt: u32| x.initialized && x.block_timestamp < bt,
        );
        let (ni, nt) = scan_best(
            obs,
            start,
            card,
            card as nat,
            start,
            0,
            |x: Observation, j: u16, bt: u32| x.initialized && x.block_timestamp > bt,
        );
        if target <= ot {
            let (si, _) = scan_best(
                obs,
                start,
                card,
                card as nat,
                oi,
                u32::MAX,
                |x: Observation, j: u16, bt: u32| j != oi && x.initialized && x.block_timestamp < bt,
            );
            Ok((oi, si))
        } else if target >= nt {
            let (si, _) = scan_best(
                obs,
                start,
                card,
                card as nat,
                ni,
                0,
                |x: Observation, j: u16, bt: u32| j != ni && x.initialized && x.block_timestamp > bt,
            );
            Ok((si, ni))
        } else {
            let (bi, _) = scan_best(
                obs,
                start,
                card,
                card as nat,
                0,
                0,
                |x: Observation, j: u16, bt: u32|
                    x.initialized && x.block_timestamp <= target && x.block_timestamp > bt,
            );
            let (ai, _) = scan_best(
                obs,
                start,
                card,
                card as nat,
                0,
                u32::MAX,
                |x: Observation, j: u16, bt: u32|
                    x.initialized && x.block_timestamp > target && x.block_timestamp < bt,
            );
            Ok((bi, ai))
        }
    }
}

/// The slots can be visited: the buffer holds every slot in use and the
/// index arithmetic stays within `u16`.
pub open spec fn scan_safe(o: Oracle) -> bool {
    o.observation_cardinality <= 1 || (o.observation_cardinality <= o.observations@.len()
        && o.observation_index < o.observations@.len() && o.observation_index
        + o.observation_cardinality <= u16::MAX + 1)
}

/// What a time-weighted average price needs: a price outright, or the
/// change of the tick accumulator over a number of seconds, whose average
/// tick (rounded to the nearest) gives the price through
/// `tick_to_sqrt_price`.
#[derive(Clone, Copy, Debug, PartialEq, Eq, Structural)]
pub enum TwapQuote {
    Price(u128),
    AverageOver { tick_cumulative_delta: i64, time_delta: u32 },
}

/// The moment a TWAP looks back to: `seconds_ago` before the target
/// timestamp (not before 0).
pub open spec fn twap_target(target_timestamp: u32, seconds_ago: u32) -> u32 {
    if seconds_ago == 0 || seconds_ago > target_timestamp {
        if seconds_ago == 0 {
            target_timestamp
        } else {
            0
        }
    } else {
        (target_timestamp - seconds_ago) as u32
    }
}

/// What a TWAP is computed from (see `twap_quote`).
pub open spec fn twap_quote_spec(o: Oracle, target_timestamp: u32, seconds_ago: u32) -> Result<
    TwapQuote,
    ErrorCode,
> {
    let target = twap_target(target_timestamp, seconds_ago);
    match surrounding_spec(o, target) {
        Err(e) => Err(e),
        Ok((b, a)) => {
            let before = o.observations@[b as int];
            let after = o.observations@[a as int];
            if before.block_timestamp == target {
                Ok(TwapQuote::Price(before.sqrt_price))
            } else if !before.initialized || !after.initialized {
                Err(ErrorCode::OracleInsufficientData)
            } else if after.block_timestamp.wrapping_sub(before.block_timestamp) == 0 {
                Ok(TwapQuote::Price(before.sqrt_price))
            } else {
                Ok(
                    TwapQuote::AverageOver {
                        tick_cumulative_delta: after.tick_cumulative.wrapping_sub(
                            before.tick_cumulative,
                        ),
                        time_delta: after.block_timestamp.wrapping_sub(before.block_timestamp),
                    },
                )
            }
        },
    }
}


/// How `scan` compares a slot with the best so far.
pub enum ScanRule {
    Oldest,
    Newest,
    OldestBesides(u16),
    NewestBesides(u16),
    LatestAtOrBefore,
    EarliestAfter,
}

/// Whether `rule` prefers the observation `x` in slot `j` to the best so
/// far, whose time is `bt`.
pub open spec fn rule_picks(rule: ScanRule, target: u32, x: Observation, j: u16, bt: u32) -> bool {
    match rule {
        ScanRule::Oldest => x.initialized && x.block_timestamp < bt,
        ScanRule::Newest => x.initialized && x.block_timestamp > bt,
        ScanRule::OldestBesides(k) => j != k && x.initialized && x.block_timestamp < bt,
        ScanRule::NewestBesides(k) => j != k && x.initialized && x.block_timestamp > bt,
        ScanRule::LatestAtOrBefore => x.initialized && x.block_timestamp <= target
            && x.block_timestamp > bt,
        ScanRule::EarliestAfter => x.initialized && x.block_timestamp > target && x.block_timestamp
            < bt,
    }
}

/// `s` cut or padded with `fill` to length `n`.
pub open spec fn resized<T>(s: Seq<T>, n: int, fill: T) -> Seq<T> {
    if n <= s.len() {
        s.subrange(0, n)
    } else {
        s + Seq::new((n - s.len()) as nat, |i: int| fill)
    }
}

proof fn lemma_resized<T>(before: Seq<T>, after: Seq<T>, n: int, fill: T)
    requires
        n >= 0,
        n <= before.len() ==> after == before.subrange(0, n),
        n > before.len() ==> {
            &&& after.len() == n
            &&& after.subrange(0, before.len() as int) == before
            &&& forall|i| before.len() <= i < n ==> after[i] == fill
        },
    ensures
        after == resized(before, n, fill),
{
    if n > before.len() {
        assert forall|i| 0 <= i < n implies after[i] == resized(before, n, fill)[i] by {
            if i < before.len() {
                assert(after.subrange(0, before.len() as int)[i] == after[i]);
            }
        }
        assert(after =~= resized(before, n, fill));
    }
}

/// A write that succeeds becomes the most recent observation: the index
/// then points at an initialized slot holding the observation that
/// `next_observation` makes of the previous one, stamped with the write's
/// timestamp, which is later than the previous observation's; with
/// compression on, the compressed slot at that same index holds its
/// compressed copy, marked as initialized.
pub proof fn lemma_write_then_last(
    o0: Oracle,
    o1: Oracle,
    block_timestamp: u32,
    sqrt_price: u128,
    tick: i32,
    liquidity: u128,
)
    requires
        write_safe(o0, block_timestamp, sqrt_price, tick, liquidity),
        write_effect(o0, o1, block_timestamp, sqrt_price, tick, liquidity, Ok(())),
    ensures
        o0.observation_cardinality != 0,
        o1.observation_cardinality == o0.observation_cardinality,
        o1.observation_index < o1.observations@.len(),
        next_observation(
            o0.observations@[o0.observation_index as int],
            block_timestamp,
            sqrt_price,
            tick,
            liquidity,
        ) == Ok::<Observation, ErrorCode>(o1.observations@[o1.observation_index as int]),
        o1.observations@[o1.observation_index as int].initialized,
        o1.observations@[o1.observation_index as int].block_timestamp == block_timestamp,
        o1.observations@[o1.observation_index as int].sqrt_price == sqrt_price,
        block_timestamp > o0.observations@[o0.observation_index as int].block_timestamp,
        o1.observation_index == (o0.observation_index + 1) % (o0.observation_cardinality as int),
        o1.observations@[o1.observation_index as int].tick_cumulative == o0.observations@[o0.observation_index as int].tick_cumulative
            + tick * (block_timestamp - o0.observations@[o0.observation_index as int].block_timestamp),
        o1.observations@[o1.observation_index as int].seconds_per_liquidity_cumulative
            == o0.observations@[o0.observation_index as int].seconds_per_liquidity_cumulative + if liquidity > 0 {
            (block_timestamp - o0.observations@[o0.observation_index as int].block_timestamp) * b128()
                / (liquidity as int)
        } else {
            0
        },
        forall|i: int|
            0 <= i < o0.observations@.len() && i != o1.observation_index ==> o1.observations@[i]
                == #[trigger] o0.observations@[i],
        o0.compression_enabled ==> {
            &&& o1.observation_index < o1.compressed_observations@.len()
            &&& compress_entry(
                o1.observations@[o1.observation_index as int],
                o0.observations@[o0.observation_index as int],
            ) == Ok::<CompressedObservation, ErrorCode>(
                o1.compressed_observations@[o1.observation_index as int],
            )
            &&& o1.compressed_observations@[o1.observation_index as int].flags == 1
        },
{
    let ni = next_index(o0);
    assert(ni < o0.observation_cardinality);
}

/// The slot that a scan visits `k`-th: counting on from `start`, wrapping
/// at `card`.
pub open spec fn scan_slot(start: u16, card: u16, k: int) -> u16 {
    ((start + k) % (card as int)) as u16
}

/// Whether `rule` considers the observation `x` in slot `j` at all.
pub open spec fn rule_accepts(rule: ScanRule, target: u32, x: Observation, j: u16) -> bool {
    match rule {
        ScanRule::Oldest => x.initialized,
        ScanRule::Newest => x.initialized,
        ScanRule::OldestBesides(k) => j != k && x.initialized,
        ScanRule::NewestBesides(k) => j != k && x.initialized,
        ScanRule::LatestAtOrBefore => x.initialized && x.block_timestamp <= target,
        ScanRule::EarliestAfter => x.initialized && x.block_timestamp > target,
    }
}

/// Whether `rule` looks for the earliest time (else the latest).
pub open spec fn rule_wants_earliest(rule: ScanRule) -> bool {
    match rule {
        ScanRule::Oldest => true,
        ScanRule::OldestBesides(_) => true,
        ScanRule::EarliestAfter => true,
        _ => false,
    }
}

/// A scan ends either where it started, or at a visited slot that the rule
/// accepts, with that slot's time; and that time is the earliest (or
/// latest) of the starting time and the times of all accepted visited
/// slots.
proof fn lemma_scan_best_extremum(
    obs: Seq<Observation>,
    start: u16,
    card: u16,
    n: nat,
    init_index: u16,
    init_time: u32,
    pick: spec_fn(Observation, u16, u32) -> bool,
    rule: ScanRule,
    target: u32,
)
    requires
        card > 0,
        forall|x: Observation, j: u16, bt: u32| #[trigger]
            pick(x, j, bt) == rule_picks(rule, target, x, j, bt),
    ensures
        ({
            let (bi, bt) = scan_best(obs, start, card, n, init_index, init_time, pick);
            &&& (bi == init_index && bt == init_time) || (exists|k: int|
                0 <= k < n && bi == #[trigger] scan_slot(start, card, k))
                && rule_accepts(rule, target, obs[bi as int], bi) && bt == obs[bi as int].block_timestamp
            &&& rule_wants_earliest(rule) ==> bt <= init_time && forall|k: int|
                0 <= k < n && rule_accepts(
                    rule,
                    target,
                    obs[scan_slot(start, card, k) as int],
                    scan_slot(start, card, k),
                ) ==> bt <= obs[#[trigger] scan_slot(start, card, k) as int].block_timestamp
            &&& !rule_wants_earliest(rule) ==> bt >= init_time && forall|k: int|
                0 <= k < n && rule_accepts(
                    rule,
                    target,
                    obs[scan_slot(start, card, k) as int],
                    scan_slot(start, card, k),
                ) ==> bt >= obs[#[trigger] scan_slot(start, card, k) as int].block_timestamp
        }),
    decreases n,
{
    if n > 0 {
        lemma_scan_best_extremum(obs, start, card, (n - 1) as nat, init_index, init_time, pick, rule, target);
        let (bi, bt) = scan_best(obs, start, card, (n - 1) as nat, init_index, init_time, pick);
        let j = scan_slot(start, card, n - 1);
        assert(pick(obs[j as int], j, bt) == rule_picks(rule, target, obs[j as int], j, bt));
    }
}

/// Every initialized slot in use has a time strictly between the extremes
/// that a scan starts from.
pub open spec fn times_inside(o: Oracle) -> bool {
    forall|k: int|
        0 <= k < o.observation_cardinality && #[trigger] o.observations@[scan_slot(
            o.observation_index,
            o.observation_cardinality,
            k,
        ) as int].initialized ==> 0 < o.observations@[scan_slot(
            o.observation_index,
            o.observation_cardinality,
            k,
        ) as int].block_timestamp < u32::MAX
}

/// The observations around a target that lies strictly between the oldest
/// and the newest initialized observation in use: the first is the latest
/// one at or before the target, the second the earliest one after it.
pub proof fn lemma_surrounding_between(o: Oracle, target: u32, before: int, after: int)
    requires
        scan_safe(o),
        o.observation_cardinality > 1,
        times_inside(o),
        0 <= before < o.observation_cardinality,
        0 <= after < o.observation_cardinality,
        o.observations@[scan_slot(o.observation_index, o.observation_cardinality, before) as int].initialized,
        o.observations@[scan_slot(o.observation_index, o.observation_cardinality, before) as int].block_timestamp
            < target,
        o.observations@[scan_slot(o.observation_index, o.observation_cardinality, after) as int].initialized,
        o.observations@[scan_slot(o.observation_index, o.observation_cardinality, after) as int].block_timestamp
            > target,
    ensures
        surrounding_spec(o, target) matches Ok((b, a)) && {
            let obs = o.observations@;
            let start = o.observation_index;
            let card = o.observation_cardinality;
            &&& obs[b as int].initialized && obs[b as int].block_timestamp <= target
            &&& obs[a as int].initialized && obs[a as int].block_timestamp > target
            &&& forall|k: int|
                0 <= k < card && obs[scan_slot(start, card, k) as int].initialized
                    && obs[scan_slot(start, card, k) as int].block_timestamp <= target
                    ==> obs[#[trigger] scan_slot(start, card, k) as int].block_timestamp
                    <= obs[b as int].block_timestamp
            &&& forall|k: int|
                0 <= k < card && obs[scan_slot(start, card, k) as int].initialized
                    && obs[scan_slot(start, card, k) as int].block_timestamp > target
                    ==> obs[#[trigger] scan_slot(start, card, k) as int].block_timestamp
                    >= obs[a as int].block_timestamp
        },
{
    let obs = o.observations@;
    let start = o.observation_index;
    let card = o.observation_cardinality;
    let n = card as nat;
    let p_old = |x: Observation, j: u16, bt: u32| x.initialized && x.block_timestamp < bt;
    let p_new = |x: Observation, j: u16, bt: u32| x.initialized && x.block_timestamp > bt;
    let p_before = |x: Observation, j: u16, bt: u32|
        x.initialized && x.block_timestamp <= target && x.block_timestamp > bt;
    let p_after = |x: Observation, j: u16, bt: u32|
        x.initialized && x.block_timestamp > target && x.block_timestamp < bt;
    lemma_scan_best_extremum(obs, start, card, n, start, u32::MAX, p_old, ScanRule::Oldest, target);
    lemma_scan_best_extremum(obs, start, card, n, start, 0, p_new, ScanRule::Newest, target);
    lemma_scan_best_extremum(obs, start, card, n, 0, 0, p_before, ScanRule::LatestAtOrBefore, target);
    lemma_scan_best_extremum(obs, start, card, n, 0, u32::MAX, p_after, ScanRule::EarliestAfter, target);
    let (oi, ot) = scan_best(obs, start, card, n, start, u32::MAX, p_old);
    let (ni, nt) = scan_best(obs, start, card, n, start, 0, p_new);
    let (bi, bt) = scan_best(obs, start, card, n, 0, 0, p_before);
    let (ai, at) = scan_best(obs, start, card, n, 0, u32::MAX, p_after);
    let sb = scan_slot(start, card, before);
    let sa = scan_slot(start, card, after);
    assert(obs[sb as int].block_timestamp > 0);
    assert(obs[sa as int].block_timestamp < u32::MAX);
    assert(ot <= obs[sb as int].block_timestamp);
    assert(nt >= obs[sa as int].block_timestamp);
    assert(bt >= obs[sb as int].block_timestamp);
    assert(at <= obs[sa as int].block_timestamp);
}

/// The observations around a target at or before every initialized
/// observation in use: the oldest one, then the oldest of the others.
pub proof fn lemma_surrounding_before_oldest(o: Oracle, target: u32, k1: int, k2: int)
    requires
        scan_safe(o),
        o.observation_cardinality > 1,
        times_inside(o),
        0 <= k1 < o.observation_cardinality,
        0 <= k2 < o.observation_cardinality,
        scan_slot(o.observation_index, o.observation_cardinality, k1) != scan_slot(
            o.observation_index,
            o.observation_cardinality,
            k2,
        ),
        o.observations@[scan_slot(o.observation_index, o.observation_cardinality, k1) as int].initialized,
        o.observations@[scan_slot(o.observation_index, o.observation_cardinality, k2) as int].initialized,
        forall|k: int|
            0 <= k < o.observation_cardinality && #[trigger] o.observations@[scan_slot(
                o.observation_index,
                o.observation_cardinality,
                k,
            ) as int].initialized ==> target <= o.observations@[scan_slot(
                o.observation_index,
                o.observation_cardinality,
                k,
            ) as int].block_timestamp,
    ensures
        surrounding_spec(o, target) matches Ok((b, a)) && {
            let obs = o.observations@;
            let start = o.observation_index;
            let card = o.observation_cardinality;
            &&& obs[b as int].initialized && obs[a as int].initialized && a != b
            &&& forall|k: int|
                0 <= k < card && obs[scan_slot(start, card, k) as int].initialized
                    ==> obs[#[trigger] scan_slot(start, card, k) as int].block_timestamp
                    >= obs[b as int].block_timestamp
            &&& forall|k: int|
                0 <= k < card && obs[scan_slot(start, card, k) as int].initialized && scan_slot(
                    start,
                    card,
                    k,
                ) != b ==> obs[#[trigger] scan_slot(start, card, k) as int].block_timestamp
                    >= obs[a as int].block_timestamp
        },
{
    let obs = o.observations@;
    let start = o.observation_index;
    let card = o.observation_cardinality;
    let n = card as nat;
    let p_old = |x: Observation, j: u16, bt: u32| x.initialized && x.block_timestamp < bt;
    lemma_scan_best_extremum(obs, start, card, n, start, u32::MAX, p_old, ScanRule::Oldest, target);
    let (oi, ot) = scan_best(obs, start, card, n, start, u32::MAX, p_old);
    let s1 = scan_slot(start, card, k1);
    let s2 = scan_slot(start, card, k2);
    assert(obs[s1 as int].block_timestamp < u32::MAX);
    assert(ot <= obs[s1 as int].block_timestamp);
    let p_second = |x: Observation, j: u16, bt: u32| j != oi && x.initialized && x.block_timestamp < bt;
    lemma_scan_best_extremum(
        obs,
        start,
        card,
        n,
        oi,
        u32::MAX,
        p_second,
        ScanRule::OldestBesides(oi),
        target,
    );
    let (si, st) = scan_best(obs, start, card, n, oi, u32::MAX, p_second);
    if s1 != oi {
        assert(obs[s1 as int].block_timestamp < u32::MAX);
        assert(st <= obs[s1 as int].block_timestamp);
    } else {
        assert(obs[s2 as int].block_timestamp < u32::MAX);
        assert(st <= obs[s2 as int].block_timestamp);
    }
}

/// The observations around a target at or after every initialized
/// observation in use (and after some): the newest of the others, then the
/// newest one.
pub proof fn lemma_surrounding_after_newest(o: Oracle, target: u32, k1: int, k2: int)
    requires
        scan_safe(o),
        o.observation_cardinality > 1,
        times_inside(o),
        0 <= k1 < o.observation_cardinality,
        0 <= k2 < o.observation_cardinality,
        scan_slot(o.observation_index, o.observation_cardinality, k1) != scan_slot(
            o.observation_index,
            o.observation_cardinality,
            k2,
        ),
        o.observations@[scan_slot(o.observation_index, o.observation_cardinality, k1) as int].initialized,
        o.observations@[scan_slot(o.observation_index, o.observation_cardinality, k2) as int].initialized,
        o.observations@[scan_slot(o.observation_index, o.observation_cardinality, k1) as int].block_timestamp
            < target,
        forall|k: int|
            0 <= k < o.observation_cardinality && #[trigger] o.observations@[scan_slot(
                o.observation_index,
                o.observation_cardinality,
                k,
            ) as int].initialized ==> target >= o.observations@[scan_slot(
                o.observation_index,
                o.observation_cardinality,
                k,
            ) as int].block_timestamp,
    ensures
        surrounding_spec(o, target) matches Ok((b, a)) && {
            let obs = o.observations@;
            let start = o.observation_index;
            let card = o.observation_cardinality;
            &&& obs[b as int].initialized && obs[a as int].initialized && a != b
            &&& forall|k: int|
                0 <= k < card && obs[scan_slot(start, card, k) as int].initialized
                    ==> obs[#[trigger] scan_slot(start, card, k) as int].block_timestamp
                    <= obs[a as int].block_timestamp
            &&& forall|k: int|
                0 <= k < card && obs[scan_slot(start, card, k) as int].initialized && scan_slot(
                    start,
                    card,
                    k,
                ) != a ==> obs[#[trigger] scan_slot(start, card, k) as int].block_timestamp
                    <= obs[b as int].block_timestamp
        },
{
    let obs = o.observations@;
    let start = o.observation_index;
    let card = o.observation_cardinality;
    let n = card as nat;
    let p_old = |x: Observation, j: u16, bt: u32| x.initialized && x.block_timestamp < bt;
    let p_new = |x: Observation, j: u16, bt: u32| x.initialized && x.block_timestamp > bt;
    lemma_scan_best_extremum(obs, start, card, n, start, u32::MAX, p_old, ScanRule::Oldest, target);
    lemma_scan_best_extremum(obs, start, card, n, start, 0, p_new, ScanRule::Newest, target);
    let (oi, ot) = scan_best(obs, start, card, n, start, u32::MAX, p_old);
    let (ni, nt) = scan_best(obs, start, card, n, start, 0, p_new);
    let s1 = scan_slot(start, card, k1);
    let s2 = scan_slot(start, card, k2);
    assert(ot <= obs[s1 as int].block_timestamp);
    assert(obs[s1 as int].block_timestamp > 0);
    assert(nt >= obs[s1 as int].block_timestamp);
    let p_second = |x: Observation, j: u16, bt: u32| j != ni && x.initialized && x.block_timestamp > bt;
    lemma_scan_best_extremum(
        obs,
        start,
        card,
        n,
        ni,
        0,
        p_second,
        ScanRule::NewestBesides(ni),
        target,
    );
    let (si, st) = scan_best(obs, start, card, n, ni, 0, p_second);
    if s1 != ni {
        assert(st >= obs[s1 as int].block_timestamp);
    } else {
        assert(obs[s2 as int].block_timestamp > 0);
        assert(st >= obs[s2 as int].block_timestamp);
    }
}

} // verus!
