//! The tick bitmap: which (compressed) ticks are initialized, as a map from
//! word index to a 64-bit word, one bit per compressed tick.
use vstd::prelude::*;
use std::collections::BTreeMap;
use crate::errors::ErrorCode;

verus! {

broadcast use {vstd::std_specs::btree::group_btree_axioms, vstd::laws_cmp::group_laws_cmp};

/// The number of bits in a bitmap word.
pub const WORD_SIZE: usize = 64;

/// Division truncating towards zero, as Rust's `/` on signed integers does
/// (for a positive divisor).
pub open spec fn trunc_div(a: int, b: int) -> int {
    if a >= 0 {
        a / b
    } else {
        -((-a) / b)
    }
}

/// The remainder that goes with `trunc_div` (Rust's `%`), which takes the
/// sign of the dividend.
pub open spec fn trunc_rem(a: int, b: int) -> int {
    if a >= 0 {
        a % b
    } else {
        -((-a) % b)
    }
}

/// Two's-complement wrap-around into `i32`.
pub open spec fn wrap_i32(v: int) -> int {
    let m = v % 0x1_0000_0000;
    if m >= 0x8000_0000 {
        m - 0x1_0000_0000
    } else {
        m
    }
}

/// Divides a tick by the tick spacing. A zero spacing is
/// `InvalidTickSpacing`; a tick that is not a multiple of the spacing is
/// `InvalidTickRange`.
pub fn compress_tick(tick: i32, tick_spacing: u16) -> (r: Result<i32, ErrorCode>)
    ensures
        match r {
            Ok(c) => tick_spacing > 0 && trunc_rem(tick as int, tick_spacing as int) == 0 && c
                == trunc_div(tick as int, tick_spacing as int),
            Err(e) => (tick_spacing == 0 && e == ErrorCode::InvalidTickSpacing) || (tick_spacing
                > 0 && trunc_rem(tick as int, tick_spacing as int) != 0 && e
                == ErrorCode::InvalidTickRange),
        },
{
    let tick_spacing_i32 = tick_spacing as i32;
    if tick_spacing_i32 <= 0 {
        return Err(ErrorCode::InvalidTickSpacing);
    }
    let rem = tick % tick_spacing_i32;
    let quot = tick / tick_spacing_i32;
    assert(quot as int == trunc_div(tick as int, tick_spacing as int));
    assert(rem as int == trunc_rem(tick as int, tick_spacing as int));
    if rem != 0 {
        return Err(ErrorCode::InvalidTickRange);
    }
    Ok(quot)
}

/// Multiplies a compressed tick by the tick spacing, wrapping around on
/// overflow.
pub fn decompress_tick(compressed_tick: i32, tick_spacing: u16) -> (r: i32)
    ensures
        r as int == wrap_i32(compressed_tick as int * tick_spacing as int),
{
    compressed_tick.wrapping_mul(tick_spacing as i32)
}

/// The bitmap word that holds compressed tick `c`: `floor(c / 64)`.
pub open spec fn word_index_of(c: int) -> int {
    c / 64
}

/// The bit of compressed tick `c` within its word: `c mod 64`.
pub open spec fn bit_pos_of(c: int) -> int {
    c % 64
}

/// Whether a word index fits in `i16`.
pub open spec fn word_index_in_range(w: int) -> bool {
    i16::MIN <= w <= i16::MAX
}

/// The word index and bit position of a compressed tick; a word index
/// outside `i16` is `TickWordIndexOutOfBounds`.
pub fn get_word_index_and_bit_pos(compressed_tick: i32) -> (r: Result<(i16, u8), ErrorCode>)
    ensures
        match r {
            Ok((w, b)) => word_index_in_range(word_index_of(compressed_tick as int)) && w
                == word_index_of(compressed_tick as int) && b == bit_pos_of(compressed_tick as int),
            Err(e) => !word_index_in_range(word_index_of(compressed_tick as int)) && e
                == ErrorCode::TickWordIndexOutOfBounds,
        },
{
    let c = compressed_tick as i64;
    let word_index_i64 = if c >= 0 {
        c / 64
    } else {
        -((63 - c) / 64)
    };
    proof {
        let ci = c as int;
        if ci < 0 {
            let q = (63 - ci) / 64;
            vstd::arithmetic::div_mod::lemma_fundamental_div_mod(63 - ci, 64);
            assert(64 * q <= 63 - ci < 64 * q + 64);
            vstd::arithmetic::div_mod::lemma_fundamental_div_mod_converse(
                ci,
                64,
                -q,
                ci + 64 * q,
            );
        }
    }
    if word_index_i64 < i16::MIN as i64 || word_index_i64 > i16::MAX as i64 {
        return Err(ErrorCode::TickWordIndexOutOfBounds);
    }
    let word_index = word_index_i64 as i16;
    let bit_pos = (compressed_tick - word_index as i32 * WORD_SIZE as i32) as u8;
    Ok((word_index, bit_pos))
}

/// Whether bit `i` of `word` is set.
pub open spec fn word_has_bit(word: u64, i: int) -> bool {
    0 <= i < 64 && (word >> (i as u64)) & 1u64 == 1u64
}

proof fn lemma_mask_test(word: u64, i: u8)
    requires
        i < 64,
    ensures
        ((word & (1u64 << i)) != 0) == word_has_bit(word, i as int),
{
    assert(((word & (1u64 << i)) != 0) == ((word >> (i as u64)) & 1u64 == 1u64)) by (bit_vector)
        requires
            i < 64,
    ;
}

/// Finds the nearest set bit of a word: searching down from `start_bit_pos`
/// (capped at 63) when `search_lte`, else up from `start_bit_pos` (none when
/// it is 64 or more).
pub fn next_initialized_bit_in_word(bitmap_word: u64, start_bit_pos: u8, search_lte: bool) -> (r:
    Option<u8>)
    ensures
        ({
            let top: int = if start_bit_pos > 63 {
                63
            } else {
                start_bit_pos as int
            };
            if search_lte {
                match r {
                    Some(b) => b <= top && word_has_bit(bitmap_word, b as int) && forall|j: int|
                        b < j <= top ==> !word_has_bit(bitmap_word, j),
                    None => forall|j: int| 0 <= j <= top ==> !word_has_bit(bitmap_word, j),
                }
            } else {
                match r {
                    Some(b) => start_bit_pos <= b < 64 && word_has_bit(bitmap_word, b as int)
                        && forall|j: int| start_bit_pos <= j < b ==> !word_has_bit(bitmap_word, j),
                    None => forall|j: int| start_bit_pos <= j < 64 ==> !word_has_bit(bitmap_word, j),
                }
            }
        }),
{
    if bitmap_word == 0 {
        proof {
            assert forall|j: int| 0 <= j < 64 implies !word_has_bit(bitmap_word, j) by {
                let jj = j as u64;
                assert((0u64 >> jj) & 1u64 == 0u64) by (bit_vector);
            }
        }
        return None;
    }
    if search_lte {
        let search_start: u8 = if start_bit_pos < 63u8 {
            start_bit_pos
        } else {
            63u8
        };
        let mut i: u8 = search_start;
        loop
            invariant
                search_lte,
                i <= search_start <= 63,
                search_start == (if start_bit_pos > 63 { 63 } else { start_bit_pos }),
                forall|j: int| i < j <= search_start ==> !word_has_bit(bitmap_word, j),
            decreases i,
        {
            proof {
                lemma_mask_test(bitmap_word, i);
            }
            if (bitmap_word & (1u64 << i)) != 0 {
                return Some(i);
            }
            if i == 0 {
                return None;
            }
            i -= 1;
        }
    } else {
        if start_bit_pos >= 64u8 {
            return None;
        }
        let mut i: u8 = start_bit_pos;
        while i < 64u8
            invariant
                !search_lte,
                start_bit_pos <= i <= 64,
                forall|j: int| start_bit_pos <= j < i ==> !word_has_bit(bitmap_word, j),
            decreases 64 - i,
        {
            proof {
                lemma_mask_test(bitmap_word, i);
            }
            if (bitmap_word & (1u64 << i)) != 0 {
                return Some(i);
            }
            i += 1;
        }
        None
    }
}

/// Whether a tick spacing is usable and the tick is a multiple of it.
pub open spec fn compress_ok(tick: int, tick_spacing: int) -> bool {
    tick_spacing > 0 && trunc_rem(tick, tick_spacing) == 0
}

/// The error that `compress_tick` reports.
pub open spec fn compress_error(tick: int, tick_spacing: int) -> ErrorCode {
    if tick_spacing == 0 {
        ErrorCode::InvalidTickSpacing
    } else {
        ErrorCode::InvalidTickRange
    }
}

/// Whether compressed tick `c` is marked in the bitmap.
pub open spec fn is_set_in(m: Map<i16, u64>, c: int) -> bool {
    let w = word_index_of(c);
    &&& word_index_in_range(w)
    &&& m.contains_key(w as i16)
    &&& word_has_bit(m[w as i16], bit_pos_of(c))
}

/// The bitmap after setting (or clearing) bit `b` of word `w`; a word that
/// becomes zero is removed.
pub open spec fn flip_word(m: Map<i16, u64>, w: i16, b: u8, set: bool) -> Map<i16, u64> {
    let mask = 1u64 << b;
    if set {
        m.insert(
            w,
            (if m.contains_key(w) {
                m[w]
            } else {
                0u64
            }) | mask,
        )
    } else if m.contains_key(w) {
        let cleared = m[w] & !mask;
        if cleared == 0 {
            m.remove(w)
        } else {
            m.insert(w, cleared)
        }
    } else {
        m
    }
}

/// No word of the bitmap is zero.
pub open spec fn no_zero_words(m: Map<i16, u64>) -> bool {
    forall|w: i16| #[trigger] m.contains_key(w) ==> m[w] != 0
}

/// The bitmap after marking a tick, and the outcome: the errors of
/// `compress_tick` and `get_word_index_and_bit_pos` leave it unchanged.
pub open spec fn flip_outcome(m: Map<i16, u64>, tick: int, tick_spacing: int, set: bool) -> (
    Map<i16, u64>,
    Result<(), ErrorCode>,
) {
    let c = trunc_div(tick, tick_spacing);
    if !compress_ok(tick, tick_spacing) {
        (m, Err(compress_error(tick, tick_spacing)))
    } else if !word_index_in_range(word_index_of(c)) {
        (m, Err(ErrorCode::TickWordIndexOutOfBounds))
    } else {
        (flip_word(m, word_index_of(c) as i16, bit_pos_of(c) as u8, set), Ok(()))
    }
}

/// Marks a tick as initialized (`set_as_initialized`) or not in the bitmap.
/// Errors of `compress_tick` and `get_word_index_and_bit_pos` leave the
/// bitmap unchanged.
pub fn flip_tick_initialized_status(
    tick_bitmap: &mut BTreeMap<i16, u64>,
    tick: i32,
    tick_spacing: u16,
    set_as_initialized: bool,
) -> (r: Result<(), ErrorCode>)
    ensures
        (final(tick_bitmap)@, r) == flip_outcome(
            old(tick_bitmap)@,
            tick as int,
            tick_spacing as int,
            set_as_initialized,
        ),
        ({
            let c = trunc_div(tick as int, tick_spacing as int);
            match r {
                Ok(()) => compress_ok(tick as int, tick_spacing as int) && word_index_in_range(
                    word_index_of(c),
                ) && final(tick_bitmap)@ == flip_word(
                    old(tick_bitmap)@,
                    word_index_of(c) as i16,
                    bit_pos_of(c) as u8,
                    set_as_initialized,
                ),
                Err(e) => final(tick_bitmap)@ == old(tick_bitmap)@ && (if !compress_ok(
                    tick as int,
                    tick_spacing as int,
                ) {
                    e == compress_error(tick as int, tick_spacing as int)
                } else {
                    !word_index_in_range(word_index_of(c)) && e
                        == ErrorCode::TickWordIndexOutOfBounds
                }),
            }
        }),
{
    let compressed_tick = match compress_tick(tick, tick_spacing) {
        Ok(c) => c,
        Err(e) => {
            return Err(e);
        },
    };
    let (word_idx, bit_pos) = match get_word_index_and_bit_pos(compressed_tick) {
        Ok(wb) => wb,
        Err(e) => {
            return Err(e);
        },
    };
    let bit_mask = 1u64 << bit_pos;
    if set_as_initialized {
        let current = match tick_bitmap.get(&word_idx) {
            Some(v) => *v,
            None => 0u64,
        };
        tick_bitmap.insert(word_idx, current | bit_mask);
    } else {
        let current = match tick_bitmap.get(&word_idx) {
            Some(v) => Some(*v),
            None => None,
        };
        if let Some(v) = current {
            let cleared = v & !bit_mask;
            if cleared == 0 {
                tick_bitmap.remove(&word_idx);
            } else {
                tick_bitmap.insert(word_idx, cleared);
            }
        }
    }
    Ok(())
}

/// Whether a tick is initialized in the bitmap; the errors are those of
/// `compress_tick` and `get_word_index_and_bit_pos`.
pub fn is_tick_initialized(tick_bitmap: &BTreeMap<i16, u64>, tick: i32, tick_spacing: u16) -> (r:
    Result<bool, ErrorCode>)
    ensures
        ({
            let c = trunc_div(tick as int, tick_spacing as int);
            match r {
                Ok(b) => compress_ok(tick as int, tick_spacing as int) && word_index_in_range(
                    word_index_of(c),
                ) && b == is_set_in(tick_bitmap@, c),
                Err(e) => if !compress_ok(tick as int, tick_spacing as int) {
                    e == compress_error(tick as int, tick_spacing as int)
                } else {
                    !word_index_in_range(word_index_of(c)) && e
                        == ErrorCode::TickWordIndexOutOfBounds
                },
            }
        }),
{
    let compressed_tick = match compress_tick(tick, tick_spacing) {
        Ok(c) => c,
        Err(e) => {
            return Err(e);
        },
    };
    let (word_idx, bit_pos) = match get_word_index_and_bit_pos(compressed_tick) {
        Ok(wb) => wb,
        Err(e) => {
            return Err(e);
        },
    };
    proof {
        lemma_mask_test(0, bit_pos);
    }
    match tick_bitmap.get(&word_idx) {
        Some(bitmap_word) => {
            proof {
                lemma_mask_test(*bitmap_word, bit_pos);
            }
            Ok((*bitmap_word & (1u64 << bit_pos)) != 0)
        },
        None => Ok(false),
    }
}

proof fn lemma_bit_or(v: u64, b: u8, j: int)
    requires
        b < 64,
    ensures
        word_has_bit(v | (1u64 << b), j) == (word_has_bit(v, j) || j == b),
{
    if 0 <= j < 64 {
        let jj = j as u64;
        assert((((v | (1u64 << b)) >> jj) & 1u64 == 1u64) == (((v >> jj) & 1u64 == 1u64) || jj
            == b as u64)) by (bit_vector)
            requires
                b < 64,
                jj < 64,
        ;
    }
}

proof fn lemma_bit_and_not(v: u64, b: u8, j: int)
    requires
        b < 64,
    ensures
        word_has_bit(v & !(1u64 << b), j) == (word_has_bit(v, j) && j != b),
{
    if 0 <= j < 64 {
        let jj = j as u64;
        assert((((v & !(1u64 << b)) >> jj) & 1u64 == 1u64) == (((v >> jj) & 1u64 == 1u64) && jj
            != b as u64)) by (bit_vector)
            requires
                b < 64,
                jj < 64,
        ;
    }
}

/// The zero word has no bit set, and a non-zero word has one.
pub proof fn lemma_zero_word(v: u64)
    ensures
        v == 0 <==> forall|j: int| 0 <= j < 64 ==> !word_has_bit(v, j),
{
    if v == 0 {
        assert forall|j: int| 0 <= j < 64 implies !word_has_bit(v, j) by {
            let jj = j as u64;
            assert((0u64 >> jj) & 1u64 == 0u64) by (bit_vector);
        }
    } else {
        let low = next_bit_witness(v);
        assert(word_has_bit(v, low as int));
    }
}

proof fn next_bit_witness(v: u64) -> (j: u64)
    requires
        v != 0,
    ensures
        j < 64,
        (v >> j) & 1u64 == 1u64,
    decreases v,
{
    if (v >> 0u64) & 1u64 == 1u64 {
        0
    } else {
        let h = v >> 1u64;
        assert(h != 0) by (bit_vector)
            requires
                v != 0,
                (v >> 0u64) & 1u64 != 1u64,
                h == v >> 1u64,
        ;
        assert(h < v) by (bit_vector)
            requires
                v != 0,
                h == v >> 1u64,
        ;
        let k = next_bit_witness(h);
        assert(k < 63) by (bit_vector)
            requires
                k < 64,
                ((v >> 1u64) >> k) & 1u64 == 1u64,
        ;
        assert(((v >> 1u64) >> k) == v >> (k + 1)) by (bit_vector)
            requires
                k < 63,
        ;
        (k + 1) as u64
    }
}

/// A compressed tick is determined by its word index and bit position.
pub proof fn lemma_position_parts(p: int, q: int)
    ensures
        p == 64 * word_index_of(p) + bit_pos_of(p),
        0 <= bit_pos_of(p) < 64,
        (p == q) <== (word_index_of(p) == word_index_of(q) && bit_pos_of(p) == bit_pos_of(q)),
{
    vstd::arithmetic::div_mod::lemma_fundamental_div_mod(p, 64);
    vstd::arithmetic::div_mod::lemma_fundamental_div_mod(q, 64);
}

/// Flipping a tick sets exactly that tick's mark to the requested value and
/// leaves every other tick's mark as it was; a bitmap without zero words
/// keeps that property.
pub proof fn lemma_flip_marks(m: Map<i16, u64>, c: int, set: bool)
    requires
        word_index_in_range(word_index_of(c)),
    ensures
        forall|p: int|
            #[trigger] is_set_in(flip_word(m, word_index_of(c) as i16, bit_pos_of(c) as u8, set), p)
                == if p == c {
                set
            } else {
                is_set_in(m, p)
            },
        no_zero_words(m) ==> no_zero_words(
            flip_word(m, word_index_of(c) as i16, bit_pos_of(c) as u8, set),
        ),
{
    let w = word_index_of(c) as i16;
    let b = bit_pos_of(c) as u8;
    let m2 = flip_word(m, w, b, set);
    lemma_position_parts(c, c);
    assert forall|p: int| #[trigger]
        is_set_in(m2, p) == if p == c {
            set
        } else {
            is_set_in(m, p)
        } by {
        lemma_position_parts(p, c);
        let wp = word_index_of(p);
        let bp = bit_pos_of(p);
        if word_index_in_range(wp) && wp as i16 == w {
            let old_v = if m.contains_key(w) {
                m[w]
            } else {
                0u64
            };
            lemma_zero_word(0u64);
            lemma_bit_or(old_v, b, bp);
            if m.contains_key(w) {
                lemma_bit_and_not(m[w], b, bp);
                lemma_zero_word(m[w] & !(1u64 << b));
            }
        }
    }
    if no_zero_words(m) {
        assert forall|k: i16| #[trigger] m2.contains_key(k) implies m2[k] != 0 by {
            if k == w && set {
                let old_v = if m.contains_key(w) {
                    m[w]
                } else {
                    0u64
                };
                lemma_bit_or(old_v, b, b as int);
                lemma_zero_word(old_v | (1u64 << b));
            }
        }
    }
}

/// The lowest compressed tick whose word index fits in `i16`.
pub const MIN_COMPRESSED_TICK_FOR_WORDS: i32 = -2097152;

/// The highest compressed tick whose word index fits in `i16`.
pub const MAX_COMPRESSED_TICK_FOR_WORDS: i32 = 2097151;

/// The compressed tick that `next_initialized_tick` searches from: the floor
/// (searching down) or the ceiling (searching up) of `current / spacing`,
/// clamped to the compressed ticks that the bitmap can hold.
pub open spec fn search_start(current: int, tick_spacing: int, search_lte: bool) -> int {
    let c = if search_lte {
        current / tick_spacing
    } else {
        -((-current) / tick_spacing)
    };
    if c < MIN_COMPRESSED_TICK_FOR_WORDS {
        MIN_COMPRESSED_TICK_FOR_WORDS as int
    } else if c > MAX_COMPRESSED_TICK_FOR_WORDS {
        MAX_COMPRESSED_TICK_FOR_WORDS as int
    } else {
        c
    }
}

/// A compressed tick in word `w` at bit `b`.
pub proof fn lemma_pos_in_word(q: int, w: int)
    requires
        64 * w <= q < 64 * w + 64,
    ensures
        word_index_of(q) == w,
        bit_pos_of(q) == q - 64 * w,
{
    vstd::arithmetic::div_mod::lemma_fundamental_div_mod_converse(q, 64, w, q - 64 * w);
}

/// Euclidean division of a non-positive number by a positive one, in terms
/// of the division of its negation.
pub proof fn lemma_neg_div(x: int, s: int)
    requires
        s > 0,
        x >= 0,
    ensures
        (-x) / s == if x % s == 0 {
            -(x / s)
        } else {
            -(x / s) - 1
        },
        x % s != 0 ==> s >= 2 && x / s <= x / 2,
{
    let q = x / s;
    vstd::arithmetic::div_mod::lemma_div_basics(x);
    if s >= 2 {
        vstd::arithmetic::div_mod::lemma_div_is_ordered_by_denominator(x, 2, s);
    }
    let rr = x % s;
    vstd::arithmetic::div_mod::lemma_fundamental_div_mod(x, s);
    vstd::arithmetic::div_mod::lemma_mod_bound(x, s);
    if rr == 0 {
        assert((-q) * s == -(s * q)) by (nonlinear_arith);
        vstd::arithmetic::div_mod::lemma_fundamental_div_mod_converse(-x, s, -q, 0);
    } else {
        assert((-q - 1) * s == -(s * q) - s) by (nonlinear_arith);
        vstd::arithmetic::div_mod::lemma_fundamental_div_mod_converse(-x, s, -q - 1, s - rr);
    }
}

/// `floor(a / s)` for a positive `s`.
fn floor_div_i32(a: i32, s: i32) -> (r: i32)
    requires
        s > 0,
    ensures
        r == a as int / s as int,
{
    let q = a / s;
    let rem = a % s;
    proof {
        if a < 0 {
            lemma_neg_div(-(a as int), s as int);
            assert(q == -((-(a as int)) / (s as int)));
            assert(rem == -((-(a as int)) % (s as int)));
        }
    }
    if rem != 0 && a < 0 {
        q - 1
    } else {
        q
    }
}

/// `p` is the initialized compressed tick nearest to `start` in the search
/// direction (at or below it when `search_lte`, else at or above it).
pub open spec fn nearest_set(m: Map<i16, u64>, start: int, search_lte: bool, p: int) -> bool {
    &&& is_set_in(m, p)
    &&& if search_lte {
        p <= start && forall|q: int| p < q <= start ==> !#[trigger] is_set_in(m, q)
    } else {
        p >= start && forall|q: int| start <= q < p ==> !#[trigger] is_set_in(m, q)
    }
}

/// What `next_initialized_tick` returns: `InvalidTickSpacing` for a zero
/// spacing, else the nearest initialized compressed tick times the spacing
/// (wrapping into `i32`), or `None` when there is none.
pub open spec fn next_tick_spec(m: Map<i16, u64>, current: int, tick_spacing: int, search_lte: bool) -> Result<
    Option<i32>,
    ErrorCode,
> {
    if tick_spacing == 0 {
        Err(ErrorCode::InvalidTickSpacing)
    } else {
        let start = search_start(current, tick_spacing, search_lte);
        if exists|p: int| nearest_set(m, start, search_lte, p) {
            let p = choose|p: int| nearest_set(m, start, search_lte, p);
            Ok(Some(wrap_i32(p * tick_spacing) as i32))
        } else {
            Ok(None)
        }
    }
}

/// There is at most one nearest initialized tick.
pub proof fn lemma_nearest_unique(m: Map<i16, u64>, start: int, search_lte: bool, p1: int, p2: int)
    requires
        nearest_set(m, start, search_lte, p1),
        nearest_set(m, start, search_lte, p2),
    ensures
        p1 == p2,
{
    if p1 < p2 {
        if search_lte {
            assert(!is_set_in(m, p2));
        } else {
            assert(!is_set_in(m, p1));
        }
    } else if p2 < p1 {
        if search_lte {
            assert(!is_set_in(m, p1));
        } else {
            assert(!is_set_in(m, p2));
        }
    }
}

/// Finds the nearest initialized tick to `current_tick_approx`: searching
/// down (`search_lte`) for the greatest initialized compressed tick at or
/// below the floor of `current / spacing`, or up for the least one at or
/// above its ceiling (see `search_start`). The result is that compressed
/// tick times the spacing (wrapping), or `None`. A zero spacing is
/// `InvalidTickSpacing`.
pub fn next_initialized_tick(
    tick_bitmap: &BTreeMap<i16, u64>,
    current_tick_approx: i32,
    tick_spacing: u16,
    search_lte: bool,
) -> (r: Result<Option<i32>, ErrorCode>)
    ensures
        r == next_tick_spec(
            tick_bitmap@,
            current_tick_approx as int,
            tick_spacing as int,
            search_lte,
        ),
{
    let r = find_nearest_initialized(tick_bitmap, current_tick_approx, tick_spacing, search_lte);
    proof {
        let m = tick_bitmap@;
        let start = search_start(current_tick_approx as int, tick_spacing as int, search_lte);
        match r {
            Ok(Some(t)) => {
                let p = choose|p: int|
                    #[trigger] is_set_in(m, p) && t == wrap_i32(p * tick_spacing as int) && (
                    if search_lte {
                        p <= start && forall|q: int| p < q <= start ==> !#[trigger] is_set_in(m, q)
                    } else {
                        p >= start && forall|q: int| start <= q < p ==> !#[trigger] is_set_in(m, q)
                    });
                assert(nearest_set(m, start, search_lte, p));
                let c = choose|c: int| nearest_set(m, start, search_lte, c);
                lemma_nearest_unique(m, start, search_lte, p, c);
            },
            Ok(None) => {
                assert(!exists|p: int| nearest_set(m, start, search_lte, p));
            },
            Err(_) => {},
        }
    }
    r
}

/// The search behind `next_initialized_tick`.
fn find_nearest_initialized(
    tick_bitmap: &BTreeMap<i16, u64>,
    current_tick_approx: i32,
    tick_spacing: u16,
    search_lte: bool,
) -> (r: Result<Option<i32>, ErrorCode>)
    ensures
        ({
            let start = search_start(
                current_tick_approx as int,
                tick_spacing as int,
                search_lte,
            );
            let m = tick_bitmap@;
            match r {
                Err(e) => tick_spacing == 0 && e == ErrorCode::InvalidTickSpacing,
                Ok(None) => tick_spacing > 0 && forall|p: int|
                    (if search_lte {
                        p <= start
                    } else {
                        p >= start
                    }) ==> !#[trigger] is_set_in(m, p),
                Ok(Some(t)) => tick_spacing > 0 && exists|p: int|
                    #[trigger] is_set_in(m, p) && t == wrap_i32(p * tick_spacing as int) && (if search_lte {
                        p <= start && forall|q: int| p < q <= start ==> !#[trigger] is_set_in(m, q)
                    } else {
                        p >= start && forall|q: int| start <= q < p ==> !#[trigger] is_set_in(m, q)
                    }),
            }
        }),
{
    let tick_spacing_i32 = tick_spacing as i32;
    if tick_spacing_i32 <= 0 {
        return Err(ErrorCode::InvalidTickSpacing);
    }
    let ghost m = tick_bitmap@;
    if tick_bitmap.is_empty() {
        assert(m.dom().len() == 0);
        assert forall|p: int| !#[trigger] is_set_in(m, p) by {
            if is_set_in(m, p) {
                assert(m.dom().contains(word_index_of(p) as i16));
            }
        }
        return Ok(None);
    }
    let compressed_ref = if search_lte {
        floor_div_i32(current_tick_approx, tick_spacing_i32)
    } else {
        let q = current_tick_approx / tick_spacing_i32;
        let r = current_tick_approx % tick_spacing_i32;
        proof {
            let a = current_tick_approx as int;
            let si = tick_spacing as int;
            if a >= 0 {
                lemma_neg_div(a, si);
                assert(q == a / si);
                assert(r == a % si);
            }
        }
        if r == 0 {
            q
        } else if current_tick_approx > 0 {
            q + 1
        } else {
            q
        }
    };
    let start_c = if compressed_ref < MIN_COMPRESSED_TICK_FOR_WORDS {
        MIN_COMPRESSED_TICK_FOR_WORDS
    } else if compressed_ref > MAX_COMPRESSED_TICK_FOR_WORDS {
        MAX_COMPRESSED_TICK_FOR_WORDS
    } else {
        compressed_ref
    };
    assert(start_c == search_start(current_tick_approx as int, tick_spacing as int, search_lte));
    let (w, b) = match get_word_index_and_bit_pos(start_c) {
        Ok(wb) => wb,
        Err(_) => {
            proof {
                assert(word_index_of(start_c as int) >= -32768) by {
                    vstd::arithmetic::div_mod::lemma_fundamental_div_mod(start_c as int, 64);
                    vstd::arithmetic::div_mod::lemma_mod_bound(start_c as int, 64);
                }
                assert(word_index_of(start_c as int) <= 32767) by {
                    vstd::arithmetic::div_mod::lemma_fundamental_div_mod(start_c as int, 64);
                    vstd::arithmetic::div_mod::lemma_mod_bound(start_c as int, 64);
                }
            }
            return Ok(None);
        },
    };
    let ghost start = start_c as int;
    proof {
        lemma_position_parts(start, start);
    }
    if search_lte {
        let first = match tick_bitmap.get(&w) {
            Some(v) => next_initialized_bit_in_word(*v, b, true),
            None => None,
        };
        if let Some(fb) = first {
            let found = w as i32 * 64 + fb as i32;
            proof {
                let p = found as int;
                lemma_pos_in_word(p, w as int);
                assert(is_set_in(m, p));
                assert forall|q: int| p < q <= start implies !#[trigger] is_set_in(m, q) by {
                    lemma_pos_in_word(q, w as int);
                }
            }
            return Ok(Some(decompress_tick(found, tick_spacing)));
        }
        let ghost none_in_first = forall|j: int| 0 <= j <= b ==> !(m.contains_key(w)
            && word_has_bit(m[w], j));
        assert(none_in_first);
        match last_nonzero_word_below(tick_bitmap, w) {
            None => {
                proof {
                    assert forall|p: int| p <= start implies !#[trigger] is_set_in(m, p) by {
                        lemma_position_parts(p, p);
                        if is_set_in(m, p) {
                            let wp = word_index_of(p);
                            lemma_zero_word(m[wp as i16]);
                            if wp == w {
                                lemma_pos_in_word(p, w as int);
                            }
                        }
                    }
                }
                Ok(None)
            },
            Some((bk, bv)) => {
                proof {
                    lemma_zero_word(bv);
                }
                match next_initialized_bit_in_word(bv, 63, true) {
                    None => Ok(None),
                    Some(fb) => {
                        let found = bk as i32 * 64 + fb as i32;
                        proof {
                            let p = found as int;
                            lemma_pos_in_word(p, bk as int);
                            assert(is_set_in(m, p));
                            assert forall|q: int| p < q <= start implies !#[trigger] is_set_in(
                                m,
                                q,
                            ) by {
                                lemma_position_parts(q, q);
                                let wq = word_index_of(q);
                                if is_set_in(m, q) {
                                    lemma_zero_word(m[wq as i16]);
                                    if wq == w {
                                        lemma_pos_in_word(q, w as int);
                                    } else if wq == bk {
                                        lemma_pos_in_word(q, bk as int);
                                    }
                                }
                            }
                        }
                        Ok(Some(decompress_tick(found, tick_spacing)))
                    },
                }
            },
        }
    } else {
        let first = match tick_bitmap.get(&w) {
            Some(v) => next_initialized_bit_in_word(*v, b, false),
            None => None,
        };
        if let Some(fb) = first {
            let found = w as i32 * 64 + fb as i32;
            proof {
                let p = found as int;
                lemma_pos_in_word(p, w as int);
                assert(is_set_in(m, p));
                assert forall|q: int| start <= q < p implies !#[trigger] is_set_in(m, q) by {
                    lemma_pos_in_word(q, w as int);
                }
            }
            return Ok(Some(decompress_tick(found, tick_spacing)));
        }
        let ghost none_in_first = forall|j: int| b <= j < 64 ==> !(m.contains_key(w)
            && word_has_bit(m[w], j));
        assert(none_in_first);
        let next_w = match w.checked_add(1) {
            Some(n) => n,
            None => {
                proof {
                    assert forall|p: int| p >= start implies !#[trigger] is_set_in(m, p) by {
                        lemma_position_parts(p, p);
                        if is_set_in(m, p) {
                            let wp = word_index_of(p);
                            if wp == w {
                                lemma_pos_in_word(p, w as int);
                            }
                        }
                    }
                }
                return Ok(None);
            },
        };
        match first_nonzero_word_from(tick_bitmap, next_w) {
            None => {
                proof {
                    assert forall|p: int| p >= start implies !#[trigger] is_set_in(m, p) by {
                        lemma_position_parts(p, p);
                        if is_set_in(m, p) {
                            let wp = word_index_of(p);
                            lemma_zero_word(m[wp as i16]);
                            if wp == w {
                                lemma_pos_in_word(p, w as int);
                            }
                        }
                    }
                }
                Ok(None)
            },
            Some((bk, bv)) => {
                proof {
                    lemma_zero_word(bv);
                }
                match next_initialized_bit_in_word(bv, 0, false) {
                    None => Ok(None),
                    Some(fb) => {
                        let found = bk as i32 * 64 + fb as i32;
                        proof {
                            let p = found as int;
                            lemma_pos_in_word(p, bk as int);
                            assert(is_set_in(m, p));
                            assert forall|q: int| start <= q < p implies !#[trigger] is_set_in(
                                m,
                                q,
                            ) by {
                                lemma_position_parts(q, q);
                                let wq = word_index_of(q);
                                if is_set_in(m, q) {
                                    lemma_zero_word(m[wq as i16]);
                                    if wq == w {
                                        lemma_pos_in_word(q, w as int);
                                    } else if wq == bk {
                                        lemma_pos_in_word(q, bk as int);
                                    }
                                }
                            }
                        }
                        Ok(Some(decompress_tick(found, tick_spacing)))
                    },
                }
            },
        }
    }
}

/// The non-zero word with the greatest index below `w`, if any.
fn last_nonzero_word_below(tick_bitmap: &BTreeMap<i16, u64>, w: i16) -> (r: Option<(i16, u64)>)
    ensures
        match r {
            Some((bk, bv)) => bk < w && tick_bitmap@.contains_key(bk) && tick_bitmap@[bk] == bv
                && bv != 0 && forall|k: i16|
                #![trigger tick_bitmap@.contains_key(k)]
                bk < k < w && tick_bitmap@.contains_key(k) ==> tick_bitmap@[k] == 0,
            None => forall|k: i16|
                #![trigger tick_bitmap@.contains_key(k)]
                k < w && tick_bitmap@.contains_key(k) ==> tick_bitmap@[k] == 0,
        },
{
    let ghost m = tick_bitmap@;
    let mut best: Option<(i16, u64)> = None;
    for kv in it: tick_bitmap.iter()
        invariant
            m == tick_bitmap@,
            forall|k: i16| #[trigger] m.contains_key(k) ==> it.seq().contains((&k, &m[k])),
            forall|j: int|
                0 <= j < it.seq().len() ==> m.contains_key(*(#[trigger] it.seq()[j]).0) && m[*it.seq()[j].0]
                    == *it.seq()[j].1,
            best matches Some((bk, bv)) ==> bk < w && m.contains_key(bk) && m[bk] == bv && bv != 0,
            forall|j: int|
                0 <= j < it.index() ==> (*(#[trigger] it.seq()[j]).0 < w && *it.seq()[j].1 != 0 ==> (
                best matches Some((bk, bv)) && *it.seq()[j].0 <= bk)),
            it.index() == it.seq().len() ==> (forall|k: i16|
                #![trigger m.contains_key(k)]
                k < w && m.contains_key(k) && m[k] != 0 ==> (best matches Some((bk, bv)) && k <= bk)),
    {
        let (k, v) = kv;
        if *k < w && *v != 0 {
            match best {
                None => {
                    best = Some((*k, *v));
                },
                Some((bk, _)) => {
                    if *k > bk {
                        best = Some((*k, *v));
                    }
                },
            }
        }
        proof {
            assert forall|k2: i16|
                #![trigger m.contains_key(k2)]
                it.index() == it.seq().len() && k2 < w && m.contains_key(k2) && m[k2] != 0 implies (best matches Some((bk, bv))
                    && k2 <= bk) by {
                assert(it.seq().contains((&k2, &m[k2])));
                let j = choose|j: int| 0 <= j < it.seq().len() && it.seq()[j] == (&k2, &m[k2]);
                assert(*it.seq()[j].0 == k2);
            }
        }
    }
    best
}

/// The non-zero word with the least index at or above `w`, if any.
fn first_nonzero_word_from(tick_bitmap: &BTreeMap<i16, u64>, w: i16) -> (r: Option<(i16, u64)>)
    ensures
        match r {
            Some((bk, bv)) => bk >= w && tick_bitmap@.contains_key(bk) && tick_bitmap@[bk] == bv
                && bv != 0 && forall|k: i16|
                #![trigger tick_bitmap@.contains_key(k)]
                w <= k < bk && tick_bitmap@.contains_key(k) ==> tick_bitmap@[k] == 0,
            None => forall|k: i16|
                #![trigger tick_bitmap@.contains_key(k)]
                k >= w && tick_bitmap@.contains_key(k) ==> tick_bitmap@[k] == 0,
        },
{
    let ghost m = tick_bitmap@;
    let mut best: Option<(i16, u64)> = None;
    for kv in it: tick_bitmap.iter()
        invariant
            m == tick_bitmap@,
            forall|k: i16| #[trigger] m.contains_key(k) ==> it.seq().contains((&k, &m[k])),
            forall|j: int|
                0 <= j < it.seq().len() ==> m.contains_key(*(#[trigger] it.seq()[j]).0) && m[*it.seq()[j].0]
                    == *it.seq()[j].1,
            best matches Some((bk, bv)) ==> bk >= w && m.contains_key(bk) && m[bk] == bv && bv != 0,
            forall|j: int|
                0 <= j < it.index() ==> (*(#[trigger] it.seq()[j]).0 >= w && *it.seq()[j].1 != 0 ==> (
                best matches Some((bk, bv)) && bk <= *it.seq()[j].0)),
            it.index() == it.seq().len() ==> (forall|k: i16|
                #![trigger m.contains_key(k)]
                k >= w && m.contains_key(k) && m[k] != 0 ==> (best matches Some((bk, bv)) && bk <= k)),
    {
        let (k, v) = kv;
        if *k >= w && *v != 0 {
            match best {
                None => {
                    best = Some((*k, *v));
                },
                Some((bk, _)) => {
                    if *k < bk {
                        best = Some((*k, *v));
                    }
                },
            }
        }
        proof {
            assert forall|k2: i16|
                #![trigger m.contains_key(k2)]
                it.index() == it.seq().len() && k2 >= w && m.contains_key(k2) && m[k2] != 0 implies (best matches Some((bk, bv))
                    && bk <= k2) by {
                assert(it.seq().contains((&k2, &m[k2])));
                let j = choose|j: int| 0 <= j < it.seq().len() && it.seq()[j] == (&k2, &m[k2]);
                assert(*it.seq()[j].0 == k2);
            }
        }
    }
    best
}

/// Below (or above) any initialized compressed tick within reach of the
/// search start lies a nearest one.
proof fn lemma_nearest_exists(m: Map<i16, u64>, start: int, search_lte: bool, q: int)
    requires
        is_set_in(m, q),
        search_lte ==> q <= start,
        !search_lte ==> q >= start,
    ensures
        exists|p: int| nearest_set(m, start, search_lte, p),
    decreases (if search_lte {
        start - q
    } else {
        q - start
    }),
{
    if search_lte {
        if exists|q2: int| q < q2 <= start && #[trigger] is_set_in(m, q2) {
            let q2 = choose|q2: int| q < q2 <= start && #[trigger] is_set_in(m, q2);
            lemma_nearest_exists(m, start, search_lte, q2);
        } else {
            assert(nearest_set(m, start, search_lte, q));
        }
    } else {
        if exists|q2: int| start <= q2 < q && #[trigger] is_set_in(m, q2) {
            let q2 = choose|q2: int| start <= q2 < q && #[trigger] is_set_in(m, q2);
            lemma_nearest_exists(m, start, search_lte, q2);
        } else {
            assert(nearest_set(m, start, search_lte, q));
        }
    }
}

/// `next_initialized_tick` finds the greatest initialized compressed tick
/// at or below the search start (searching down), or the least one at or
/// above it (searching up), times the spacing; it finds none exactly when
/// there is no initialized compressed tick on that side.
pub proof fn lemma_next_tick_extremum(m: Map<i16, u64>, current: int, tick_spacing: int, search_lte: bool)
    requires
        tick_spacing > 0,
    ensures
        ({
            let start = search_start(current, tick_spacing, search_lte);
            match next_tick_spec(m, current, tick_spacing, search_lte) {
                Ok(Some(t)) => exists|p: int|
                    {
                        &&& is_set_in(m, p)
                        &&& t == wrap_i32(p * tick_spacing)
                        &&& search_lte ==> p <= start && forall|q: int|
                            #[trigger] is_set_in(m, q) && q <= start ==> q <= p
                        &&& !search_lte ==> p >= start && forall|q: int|
                            #[trigger] is_set_in(m, q) && q >= start ==> q >= p
                    },
                Ok(None) => forall|q: int|
                    #[trigger] is_set_in(m, q) ==> if search_lte {
                        q > start
                    } else {
                        q < start
                    },
                Err(_) => false,
            }
        }),
{
    let start = search_start(current, tick_spacing, search_lte);
    if exists|p: int| nearest_set(m, start, search_lte, p) {
        let p = choose|p: int| nearest_set(m, start, search_lte, p);
        assert forall|q: int| #[trigger] is_set_in(m, q) && q <= start implies q <= p by {
            if search_lte && q > p {
                assert(!is_set_in(m, q));
            }
        }
        assert forall|q: int| #[trigger] is_set_in(m, q) && q >= start implies q >= p by {
            if !search_lte && q < p {
                assert(!is_set_in(m, q));
            }
        }
    } else {
        assert forall|q: int| #[trigger] is_set_in(m, q) implies if search_lte {
            q > start
        } else {
            q < start
        } by {
            if search_lte && q <= start {
                lemma_nearest_exists(m, start, search_lte, q);
            }
            if !search_lte && q >= start {
                lemma_nearest_exists(m, start, search_lte, q);
            }
        }
    }
}

/// Flipping a tick twice to the same value is flipping it once: the second
/// flip leaves the bitmap as the first left it, and reports the same.
pub proof fn lemma_flip_idempotent(m: Map<i16, u64>, tick: int, tick_spacing: int, set: bool)
    ensures
        flip_outcome(flip_outcome(m, tick, tick_spacing, set).0, tick, tick_spacing, set)
            == flip_outcome(m, tick, tick_spacing, set),
{
    let c = trunc_div(tick, tick_spacing);
    if compress_ok(tick, tick_spacing) && word_index_in_range(word_index_of(c)) {
        let w = word_index_of(c) as i16;
        let b = bit_pos_of(c) as u8;
        let mask = 1u64 << b;
        let m1 = flip_word(m, w, b, set);
        if set {
            let x = if m.contains_key(w) {
                m[w]
            } else {
                0u64
            };
            assert((x | mask) | mask == x | mask) by (bit_vector);
            assert(flip_word(m1, w, b, set) =~= m1);
        } else if m.contains_key(w) {
            let x = m[w];
            let cleared = x & !mask;
            assert((cleared & !mask) == cleared) by (bit_vector)
                requires
                    cleared == x & !mask,
            ;
            assert(flip_word(m1, w, b, set) =~= m1);
        }
    }
}

/// The bitmap after a sequence of flips, each a tick and the value it is
/// flipped to, applied in order with one spacing; a flip that reports an
/// error leaves the bitmap as it was.
pub open spec fn flip_all(m: Map<i16, u64>, flips: Seq<(int, bool)>, tick_spacing: int) -> Map<i16, u64>
    decreases flips.len(),
{
    if flips.len() == 0 {
        m
    } else {
        let (tick, set) = flips.last();
        flip_outcome(flip_all(m, flips.drop_last(), tick_spacing), tick, tick_spacing, set).0
    }
}

/// The mark of compressed tick `c` after a sequence of flips: the value of
/// the last flip that succeeds on a tick compressing to `c`, or the mark it
/// had before when there is none.
pub open spec fn mark_after(m: Map<i16, u64>, flips: Seq<(int, bool)>, tick_spacing: int, c: int) -> bool
    decreases flips.len(),
{
    if flips.len() == 0 {
        is_set_in(m, c)
    } else {
        let (tick, set) = flips.last();
        let t = trunc_div(tick, tick_spacing);
        if compress_ok(tick, tick_spacing) && word_index_in_range(word_index_of(t)) && t == c {
            set
        } else {
            mark_after(m, flips.drop_last(), tick_spacing, c)
        }
    }
}

/// After any sequence of flips, a compressed tick is marked exactly as the
/// last successful flip of it left it, and is otherwise as it was.
pub proof fn lemma_flip_all_marks(m: Map<i16, u64>, flips: Seq<(int, bool)>, tick_spacing: int, c: int)
    ensures
        is_set_in(flip_all(m, flips, tick_spacing), c) == mark_after(m, flips, tick_spacing, c),
    decreases flips.len(),
{
    if flips.len() > 0 {
        let (tick, set) = flips.last();
        let m0 = flip_all(m, flips.drop_last(), tick_spacing);
        lemma_flip_all_marks(m, flips.drop_last(), tick_spacing, c);
        let t = trunc_div(tick, tick_spacing);
        if compress_ok(tick, tick_spacing) && word_index_in_range(word_index_of(t)) {
            lemma_flip_marks(m0, t, set);
            assert(is_set_in(flip_word(m0, word_index_of(t) as i16, bit_pos_of(t) as u8, set), c)
                == if c == t {
                set
            } else {
                is_set_in(m0, c)
            });
        }
    }
}

/// The search start of `next_initialized_tick` lies within the range of
/// compressed ticks that words can hold, so no clamping happens.
pub open spec fn search_unclamped(current: int, tick_spacing: int, search_lte: bool) -> bool {
    let c = if search_lte {
        current / tick_spacing
    } else {
        -((-current) / tick_spacing)
    };
    MIN_COMPRESSED_TICK_FOR_WORDS <= c <= MAX_COMPRESSED_TICK_FOR_WORDS
}

/// Over ticks: searching down, `next_initialized_tick` finds the largest
/// initialized tick (a multiple of the spacing whose compressed tick is
/// marked) at or below `current`; searching up, the smallest at or above
/// it; `None` when there is none on that side.
pub proof fn lemma_next_tick_over_ticks(m: Map<i16, u64>, current: int, tick_spacing: int, search_lte: bool)
    requires
        tick_spacing > 0,
        search_unclamped(current, tick_spacing, search_lte),
    ensures
        match next_tick_spec(m, current, tick_spacing, search_lte) {
            Ok(Some(t)) => exists|p: int|
                {
                    &&& is_set_in(m, p)
                    &&& t == wrap_i32(p * tick_spacing)
                    &&& search_lte ==> p * tick_spacing <= current && forall|q: int|
                        #[trigger] is_set_in(m, q) && q * tick_spacing <= current ==> q <= p
                    &&& !search_lte ==> p * tick_spacing >= current && forall|q: int|
                        #[trigger] is_set_in(m, q) && q * tick_spacing >= current ==> q >= p
                },
            Ok(None) => forall|q: int|
                #[trigger] is_set_in(m, q) ==> if search_lte {
                    q * tick_spacing > current
                } else {
                    q * tick_spacing < current
                },
            Err(_) => false,
        },
{
    let s = tick_spacing;
    lemma_next_tick_extremum(m, current, s, search_lte);
    // A multiple of the spacing lies at or below `current` exactly when its
    // compressed tick lies at or below the floor of `current / s` (and the
    // mirror for the ceiling).
    assert forall|q: int| #[trigger] (q * s) <= current <==> q <= current / s by {
        let d = current / s;
        let r = current % s;
        vstd::arithmetic::div_mod::lemma_fundamental_div_mod(current, s);
        vstd::arithmetic::div_mod::lemma_mod_bound(current, s);
        assert((q * s) <= current <==> q <= d) by (nonlinear_arith)
            requires
                current == s * d + r,
                0 <= r < s,
                s > 0,
        ;
    }
    assert forall|q: int| #[trigger] (q * s) >= current <==> q >= -((-current) / s) by {
        let d = (-current) / s;
        let r = (-current) % s;
        vstd::arithmetic::div_mod::lemma_fundamental_div_mod(-current, s);
        vstd::arithmetic::div_mod::lemma_mod_bound(-current, s);
        assert((q * s) >= current <==> q >= -d) by (nonlinear_arith)
            requires
                -current == s * d + r,
                0 <= r < s,
                s > 0,
        ;
    }
}

} // verus!
