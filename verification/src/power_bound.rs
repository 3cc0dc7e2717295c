//! Bounds on the tick-to-price exponentiation over the protocol's power table.
//!
//! `tick_to_sqrt_price_q64` raises `sqrt(1.0001)` to the absolute tick with
//! `binary_pow` over `POWERS`. The facts here show that, for every exponent up
//! to `MAX_TICK`, no step of that computation overflows and the result lies in
//! `[2^64, 2^128)`.
use vstd::prelude::*;
use vstd::arithmetic::div_mod::lemma_breakdown;
use crate::arith::{lemma_div_mono, lemma_div_bounds, lemma_div_mod_unique};
use crate::constants::POWERS;
use crate::math::{mul_fixed_mid, mul_fixed_spec, table_pow_from, table_pow_ok_from, bit_length,
    lemma_mul_fixed_columns};
use crate::wide::{b64, b128};

verus! {

/// `2^k - 1`.
pub open spec fn ones(k: nat) -> nat
    decreases k,
{
    if k == 0 {
        0
    } else {
        2 * ones((k - 1) as nat) + 1
    }
}

/// `2^k`.
pub open spec fn two(k: nat) -> nat {
    ones(k) + 1
}

/// The table exponentiation with exact (unbounded) intermediate products.
pub open spec fn table_pow_exact_from(table: Seq<u128>, e: nat, i: nat, acc: nat) -> nat
    decreases e,
{
    if e == 0 {
        acc
    } else {
        table_pow_exact_from(
            table,
            e / 2,
            i + 1,
            if e % 2 == 1 {
                acc * table[i as int] as nat / b64()
            } else {
                acc
            },
        )
    }
}

/// Every entry of the table is at least 1.0 in Q64.64.
pub open spec fn entries_at_least_one(table: Seq<u128>) -> bool {
    forall|j: int| 0 <= j < table.len() ==> #[trigger] table[j] >= b64()
}

proof fn lemma_step_grows(acc: nat, t: nat)
    requires
        t >= b64(),
    ensures
        acc * t / b64() >= acc,
{
    assert(acc * t >= acc * b64()) by (nonlinear_arith)
        requires
            t >= b64(),
    ;
    lemma_div_mono(acc * b64(), acc * t, b64());
    vstd::arithmetic::div_mod::lemma_div_by_multiple(acc as int, b64() as int);
}

proof fn lemma_step_mono(acc1: nat, acc2: nat, t: nat)
    requires
        acc1 <= acc2,
    ensures
        acc1 * t / b64() <= acc2 * t / b64(),
{
    assert(acc1 * t <= acc2 * t) by (nonlinear_arith)
        requires
            acc1 <= acc2,
    ;
    lemma_div_mono(acc1 * t, acc2 * t, b64());
}

/// The exact exponentiation never falls below its starting value.
pub proof fn lemma_exact_ge_acc(table: Seq<u128>, e: nat, i: nat, acc: nat)
    requires
        entries_at_least_one(table),
        i + bit_length(e) <= table.len(),
    ensures
        table_pow_exact_from(table, e, i, acc) >= acc,
    decreases e,
{
    if e != 0 {
        let t = table[i as int] as nat;
        let next = if e % 2 == 1 { acc * t / b64() } else { acc };
        if e % 2 == 1 {
            lemma_step_grows(acc, t);
        }
        lemma_exact_ge_acc(table, e / 2, i + 1, next);
    }
}

/// The exact exponentiation is monotone in its starting value.
pub proof fn lemma_exact_mono(table: Seq<u128>, e: nat, i: nat, acc1: nat, acc2: nat)
    requires
        acc1 <= acc2,
    ensures
        table_pow_exact_from(table, e, i, acc1) <= table_pow_exact_from(table, e, i, acc2),
    decreases e,
{
    if e != 0 {
        let t = table[i as int] as nat;
        if e % 2 == 1 {
            lemma_step_mono(acc1, acc2, t);
            lemma_exact_mono(table, e / 2, i + 1, acc1 * t / b64(), acc2 * t / b64());
        } else {
            lemma_exact_mono(table, e / 2, i + 1, acc1, acc2);
        }
    }
}

/// When the exact result fits in 128 bits, the truncating computation agrees
/// with it and no multiplication overflows.
pub proof fn lemma_exact_no_wrap(table: Seq<u128>, e: nat, i: nat, acc: nat)
    requires
        entries_at_least_one(table),
        i + bit_length(e) <= table.len(),
        acc < b128(),
        table_pow_exact_from(table, e, i, acc) < b128(),
    ensures
        table_pow_from(table, e, i, acc) == table_pow_exact_from(table, e, i, acc),
        table_pow_ok_from(table, e, i, acc),
    decreases e,
{
    if e != 0 {
        let t = table[i as int] as nat;
        if e % 2 == 1 {
            let next = acc * t / b64();
            lemma_exact_ge_acc(table, e / 2, i + 1, next);
            vstd::arithmetic::div_mod::lemma_small_mod(next, b128());
            lemma_mul_fixed_columns(acc, t);
            assert(mul_fixed_spec(acc, t) == next);
            assert(mul_fixed_mid(acc, t) <= next);
            lemma_exact_no_wrap(table, e / 2, i + 1, next);
        } else {
            lemma_exact_no_wrap(table, e / 2, i + 1, acc);
        }
    }
}

/// A number no larger than `2^k - 1` has at most `k` binary digits.
pub proof fn lemma_bit_length_ones(e: nat, k: nat)
    requires
        e <= ones(k),
    ensures
        bit_length(e) <= k,
        bit_length(ones(k)) == k,
    decreases k,
{
    if k > 0 {
        let kk = (k - 1) as nat;
        lemma_bit_length_ones(e / 2, kk);
        assert(ones(k) / 2 == ones(kk));
    }
}

/// Over exponents of at most `k` bits, the all-ones exponent gives the largest
/// exact result.
pub proof fn lemma_exact_ones_max(table: Seq<u128>, e: nat, k: nat, i: nat, acc: nat)
    requires
        entries_at_least_one(table),
        i + k <= table.len(),
        e <= ones(k),
    ensures
        table_pow_exact_from(table, e, i, acc) <= table_pow_exact_from(table, ones(k), i, acc),
    decreases k,
{
    lemma_bit_length_ones(e, k);
    if k > 0 {
        let kk = (k - 1) as nat;
        let t = table[i as int] as nat;
        assert(ones(k) % 2 == 1 && ones(k) / 2 == ones(kk));
        let up = acc * t / b64();
        lemma_step_grows(acc, t);
        lemma_bit_length_ones(ones(kk), kk);
        if e == 0 {
            lemma_exact_ge_acc(table, ones(k), i, acc);
        } else if e % 2 == 1 {
            lemma_exact_ones_max(table, e / 2, kk, i + 1, up);
        } else {
            lemma_exact_ones_max(table, e / 2, kk, i + 1, acc);
            lemma_exact_mono(table, ones(kk), i + 1, acc, up);
        }
    }
}

/// Splitting an exponent into `k` low bits and the rest.
pub proof fn lemma_exact_split(table: Seq<u128>, lo: nat, hi: nat, k: nat, i: nat, acc: nat)
    requires
        lo <= ones(k),
    ensures
        table_pow_exact_from(table, lo + two(k) * hi, i, acc)
            == table_pow_exact_from(table, hi, i + k, table_pow_exact_from(table, lo, i, acc)),
    decreases k,
{
    if k == 0 {
        assert(lo == 0);
        assert(two(k) == 1);
        assert(lo + two(k) * hi == hi) by (nonlinear_arith)
            requires
                lo == 0,
                two(k) == 1,
        ;
        assert(table_pow_exact_from(table, lo, i, acc) == acc);
    } else {
        let kk = (k - 1) as nat;
        let e = lo + two(k) * hi;
        assert(two(k) == 2 * two(kk));
        if e == 0 {
            assert(lo == 0);
            assert(two(k) * hi == 0);
            assert(hi == 0) by (nonlinear_arith)
                requires
                    two(k) * hi == 0,
                    two(k) >= 1,
            ;
        } else {
            let x = two(kk) * hi;
            assert(e == lo + 2 * x) by (nonlinear_arith)
                requires
                    e == lo + two(k) * hi,
                    two(k) == 2 * two(kk),
                    x == two(kk) * hi,
            ;
            assert(e % 2 == lo % 2 && e / 2 == lo / 2 + x);
            let t = table[i as int] as nat;
            let next = if e % 2 == 1 { acc * t / b64() } else { acc };
            lemma_exact_split(table, lo / 2, hi, kk, i + 1, next);
            assert(table_pow_exact_from(table, e, i, acc)
                == table_pow_exact_from(table, e / 2, i + 1, next));
            if lo == 0 {
                assert(table_pow_exact_from(table, 0, i + 1, acc) == acc);
            } else {
                assert(table_pow_exact_from(table, lo, i, acc)
                    == table_pow_exact_from(table, lo / 2, i + 1, next));
            }
        }
    }
}

/// The exact exponentiation over `POWERS` with all of the low `k` bits set.
pub open spec fn bound_a(k: nat) -> nat
    decreases k,
{
    if k == 0 {
        b64()
    } else {
        bound_a((k - 1) as nat) * POWERS@[k - 1] as nat / b64()
    }
}

/// Bit `k` of `MAX_TICK`.
pub open spec fn max_tick_bit(k: nat) -> nat {
    (887272nat / two(k)) % 2
}

/// An upper bound on the exact exponentiation over `POWERS` for exponents no
/// larger than the low `k` bits of `MAX_TICK`.
pub open spec fn bound_b(k: nat) -> nat
    decreases k,
{
    if k == 0 {
        b64()
    } else {
        let kk = (k - 1) as nat;
        if max_tick_bit(kk) == 1 {
            let via_max = bound_b(kk) * POWERS@[kk as int] as nat / b64();
            if bound_a(kk) >= via_max {
                bound_a(kk)
            } else {
                via_max
            }
        } else {
            bound_b(kk)
        }
    }
}

proof fn lemma_powers_values()
    ensures
        POWERS@.len() == 20,
        entries_at_least_one(POWERS@),
{
    assert(POWERS@[0] == 18447666387855959850u128);
    assert(POWERS@[1] == 18448588748116922571u128);
    assert(POWERS@[2] == 18450433606991734263u128);
    assert(POWERS@[3] == 18454123878217468680u128);
    assert(POWERS@[4] == 18461506635090006701u128);
    assert(POWERS@[5] == 18476281010653910144u128);
    assert(POWERS@[6] == 18505865242158250041u128);
    assert(POWERS@[7] == 18565175891880433522u128);
    assert(POWERS@[8] == 18684368066214940582u128);
    assert(POWERS@[9] == 18925053041275764671u128);
    assert(POWERS@[10] == 19415764168677886926u128);
    assert(POWERS@[11] == 20435687552633177494u128);
    assert(POWERS@[12] == 22639080592224303007u128);
    assert(POWERS@[13] == 27784196929998399742u128);
    assert(POWERS@[14] == 41848122137994986128u128);
    assert(POWERS@[15] == 94936283578220370716u128);
    assert(POWERS@[16] == 488590176327622479860u128);
    assert(POWERS@[17] == 12941056668319229769860u128);
    assert(POWERS@[18] == 9078618265828848800676189u128);
    assert(POWERS@[19] == 4468068147273140139091016147737u128);
}

proof fn lemma_ones_values()
    ensures
        ones(0) == 0,
        ones(1) == 1,
        ones(2) == 3,
        ones(3) == 7,
        ones(4) == 15,
        ones(5) == 31,
        ones(6) == 63,
        ones(7) == 127,
        ones(8) == 255,
        ones(9) == 511,
        ones(10) == 1023,
        ones(11) == 2047,
        ones(12) == 4095,
        ones(13) == 8191,
        ones(14) == 16383,
        ones(15) == 32767,
        ones(16) == 65535,
        ones(17) == 131071,
        ones(18) == 262143,
        ones(19) == 524287,
        ones(20) == 1048575,
{
    assert(ones(0) == 0);
    assert(ones(1) == 1);
    assert(ones(2) == 3);
    assert(ones(3) == 7);
    assert(ones(4) == 15);
    assert(ones(5) == 31);
    assert(ones(6) == 63);
    assert(ones(7) == 127);
    assert(ones(8) == 255);
    assert(ones(9) == 511);
    assert(ones(10) == 1023);
    assert(ones(11) == 2047);
    assert(ones(12) == 4095);
    assert(ones(13) == 8191);
    assert(ones(14) == 16383);
    assert(ones(15) == 32767);
    assert(ones(16) == 65535);
    assert(ones(17) == 131071);
    assert(ones(18) == 262143);
    assert(ones(19) == 524287);
    assert(ones(20) == 1048575);
}

/// The bound values, evaluated.
proof fn lemma_bound_values()
    ensures
        bound_b(20) < b128(),
        bound_b(0) == 18446744073709551616nat,
        bound_b(1) == 18446744073709551616nat,
        bound_b(2) == 18446744073709551616nat,
        bound_b(3) == 18446744073709551616nat,
        bound_b(4) == 18454123878217468680nat,
        bound_b(5) == 18454123878217468680nat,
        bound_b(6) == 18483672631708939318nat,
        bound_b(7) == 18542912154892181977nat,
        bound_b(8) == 18661961391544013922nat,
        bound_b(9) == 18902357732281469080nat,
        bound_b(10) == 18902357732281469080nat,
        bound_b(11) == 18902357732281469080nat,
        bound_b(12) == 20940425859517241253nat,
        bound_b(13) == 20940425859517241253nat,
        bound_b(14) == 20940425859517241253nat,
        bound_b(15) == 20940425859517241253nat,
        bound_b(16) == 107770032462322190407nat,
        bound_b(17) == 2854453824111132359496nat,
        bound_b(18) == 2854453824111132359496nat,
        bound_b(19) == 1404827677068165313239653268nat,
        bound_b(20) == 340269576638287422883700525942130004573nat,
        max_tick_bit(0) == 0,
        max_tick_bit(1) == 0,
        max_tick_bit(2) == 0,
        max_tick_bit(3) == 1,
        max_tick_bit(4) == 0,
        max_tick_bit(5) == 1,
        max_tick_bit(6) == 1,
        max_tick_bit(7) == 1,
        max_tick_bit(8) == 1,
        max_tick_bit(9) == 0,
        max_tick_bit(10) == 0,
        max_tick_bit(11) == 1,
        max_tick_bit(12) == 0,
        max_tick_bit(13) == 0,
        max_tick_bit(14) == 0,
        max_tick_bit(15) == 1,
        max_tick_bit(16) == 1,
        max_tick_bit(17) == 0,
        max_tick_bit(18) == 1,
        max_tick_bit(19) == 1,
        bound_a(0) == 18446744073709551616nat,
        bound_a(1) == 18447666387855959850nat,
        bound_a(2) == 18449511154494745445nat,
        bound_a(3) == 18453201241220755938nat,
        bound_a(4) == 18460583628983133363nat,
        bound_a(5) == 18475357265883657901nat,
        bound_a(6) == 18504940018287354204nat,
        bound_a(7) == 18564247702699447978nat,
        bound_a(8) == 18683433917872171721nat,
        bound_a(9) == 18924106859586736216nat,
        bound_a(10) == 19414793453272501758nat,
        bound_a(11) == 20434665844882988552nat,
        bound_a(12) == 22637948723084169904nat,
        bound_a(13) == 27782807824333956489nat,
        bound_a(14) == 41846029888805467973nat,
        bound_a(15) == 94931537120022858054nat,
        bound_a(16) == 488565748650866588535nat,
        bound_a(17) == 12940409664010732578654nat,
        bound_a(18) == 9078164368957539028420606nat,
        bound_a(19) == 4467844760619635881934135417749nat,
{
    lemma_powers_values();
    lemma_ones_values();
    assert(bound_a(0) == 18446744073709551616);
    assert(bound_a(1) == 18447666387855959850nat) by {
        assert(bound_a(0) * POWERS@[0] as nat == 340299380613952818037645548136798617600nat) by (nonlinear_arith)
            requires bound_a(0) == 18446744073709551616nat, POWERS@[0] == 18447666387855959850u128;
        lemma_div_mod_unique(340299380613952818037645548136798617600nat, b64(), 18447666387855959850nat, 0nat);
    }
    assert(bound_a(2) == 18449511154494745445nat) by {
        assert(bound_a(1) * POWERS@[1] as nat == 340333410552014213316468169803334774350nat) by (nonlinear_arith)
            requires bound_a(1) == 18447666387855959850nat, POWERS@[1] == 18448588748116922571u128;
        lemma_div_mod_unique(340333410552014213316468169803334774350nat, b64(), 18449511154494745445nat, 15188900024326385230nat);
    }
    assert(bound_a(3) == 18453201241220755938nat) by {
        assert(bound_a(2) * POWERS@[2] as nat == 340401480637458721656356550181269682035nat) by (nonlinear_arith)
            requires bound_a(2) == 18449511154494745445nat, POWERS@[2] == 18450433606991734263u128;
        lemma_div_mod_unique(340401480637458721656356550181269682035nat, b64(), 18453201241220755938nat, 11394101518720186227nat);
    }
    assert(bound_a(4) == 18460583628983133363nat) by {
        assert(bound_a(3) * POWERS@[3] as nat == 340537661655164183340358726946439021840nat) by (nonlinear_arith)
            requires bound_a(3) == 18453201241220755938nat, POWERS@[3] == 18454123878217468680u128;
        lemma_div_mod_unique(340537661655164183340358726946439021840nat, b64(), 18460583628983133363nat, 13221792732978857232nat);
    }
    assert(bound_a(5) == 18475357265883657901nat) by {
        assert(bound_a(4) * POWERS@[4] as nat == 340810187154106071115093743323646665463nat) by (nonlinear_arith)
            requires bound_a(4) == 18460583628983133363nat, POWERS@[4] == 18461506635090006701u128;
        lemma_div_mod_unique(340810187154106071115093743323646665463nat, b64(), 18475357265883657901nat, 18077281419000947447nat);
    }
    assert(bound_a(6) == 18504940018287354204nat) by {
        assert(bound_a(5) * POWERS@[5] as nat == 341355892616692972875768189035289647744nat) by (nonlinear_arith)
            requires bound_a(5) == 18475357265883657901nat, POWERS@[5] == 18476281010653910144u128;
        lemma_div_mod_unique(341355892616692972875768189035289647744nat, b64(), 18504940018287354204nat, 8320694415477054080nat);
    }
    assert(bound_a(7) == 18564247702699447978nat) by {
        assert(bound_a(6) * POWERS@[6] as nat == 342449926292647200048542691920564522364nat) by (nonlinear_arith)
            requires bound_a(6) == 18504940018287354204nat, POWERS@[6] == 18505865242158250041u128;
        lemma_div_mod_unique(342449926292647200048542691920564522364nat, b64(), 18564247702699447978nat, 2724676651466689916nat);
    }
    assert(bound_a(8) == 18683433917872171721nat) by {
        assert(bound_a(7) * POWERS@[7] as nat == 344648523901052513208342382288726318516nat) by (nonlinear_arith)
            requires bound_a(7) == 18564247702699447978nat, POWERS@[7] == 18565175891880433522u128;
        lemma_div_mod_unique(344648523901052513208342382288726318516nat, b64(), 18683433917872171721nat, 13492011929661267380nat);
    }
    assert(bound_a(9) == 18924106859586736216nat) by {
        assert(bound_a(8) * POWERS@[8] as nat == 349088156062327900133986646377315681622nat) by (nonlinear_arith)
            requires bound_a(8) == 18683433917872171721nat, POWERS@[8] == 18684368066214940582u128;
        lemma_div_mod_unique(349088156062327900133986646377315681622nat, b64(), 18924106859586736216nat, 8497744835087156566nat);
    }
    assert(bound_a(10) == 19414793453272501758nat) by {
        assert(bound_a(9) * POWERS@[9] as nat == 358139726076449522329978412364569024936nat) by (nonlinear_arith)
            requires bound_a(9) == 18924106859586736216nat, POWERS@[9] == 18925053041275764671u128;
        lemma_div_mod_unique(358139726076449522329978412364569024936nat, b64(), 19414793453272501758nat, 2634107919817284008nat);
    }
    assert(bound_a(11) == 20434665844882988552nat) by {
        assert(bound_a(10) * POWERS@[10] as nat == 376953051072330256625657228201060215908nat) by (nonlinear_arith)
            requires bound_a(10) == 19414793453272501758nat, POWERS@[10] == 19415764168677886926u128;
        lemma_div_mod_unique(376953051072330256625657228201060215908nat, b64(), 20434665844882988552nat, 2867646047079115876nat);
    }
    assert(bound_a(12) == 22637948723084169904nat) by {
        assert(bound_a(11) * POWERS@[11] as nat == 417596446448493622559055308118586048688nat) by (nonlinear_arith)
            requires bound_a(11) == 20434665844882988552nat, POWERS@[11] == 20435687552633177494u128;
        lemma_div_mod_unique(417596446448493622559055308118586048688nat, b64(), 22637948723084169904nat, 2928819867184283824nat);
    }
    assert(bound_a(13) == 27782807824333956489nat) by {
        assert(bound_a(12) * POWERS@[12] as nat == 512502345584543773226976492791566101328nat) by (nonlinear_arith)
            requires bound_a(12) == 22637948723084169904nat, POWERS@[12] == 22639080592224303007u128;
        lemma_div_mod_unique(512502345584543773226976492791566101328nat, b64(), 27782807824333956489nat, 2102250144122465104nat);
    }
    assert(bound_a(14) == 41846029888805467973nat) by {
        assert(bound_a(13) * POWERS@[13] as nat == 771923003859595033515944025761456825838nat) by (nonlinear_arith)
            requires bound_a(13) == 27782807824333956489nat, POWERS@[13] == 27784196929998399742u128;
        lemma_div_mod_unique(771923003859595033515944025761456825838nat, b64(), 41846029888805467973nat, 4228731622578431470nat);
    }
    assert(bound_a(15) == 94931537120022858054nat) by {
        assert(bound_a(14) * POWERS@[14] as nat == 1751177769776919972018780641424683278544nat) by (nonlinear_arith)
            requires bound_a(14) == 41846029888805467973nat, POWERS@[14] == 41848122137994986128u128;
        lemma_div_mod_unique(1751177769776919972018780641424683278544nat, b64(), 94931537120022858054nat, 13759622593528963280nat);
    }
    assert(bound_a(16) == 488565748650866588535nat) by {
        assert(bound_a(15) * POWERS@[15] as nat == 9012447328542843604862705252377726346664nat) by (nonlinear_arith)
            requires bound_a(15) == 94931537120022858054nat, POWERS@[15] == 94936283578220370716u128;
        lemma_div_mod_unique(9012447328542843604862705252377726346664nat, b64(), 488565748650866588535nat, 13492041627310024104nat);
    }
    assert(bound_a(17) == 12940409664010732578654nat) by {
        assert(bound_a(16) * POWERS@[16] as nat == 238708425280963791192489593233854944405100nat) by (nonlinear_arith)
            requires bound_a(16) == 488565748650866588535nat, POWERS@[16] == 488590176327622479860u128;
        lemma_div_mod_unique(238708425280963791192489593233854944405100nat, b64(), 12940409664010732578654nat, 15080073585151600236nat);
    }
    assert(bound_a(18) == 9078164368957539028420606nat) by {
        assert(bound_a(17) * POWERS@[17] as nat == 167462574773228694459491447250525720768568440nat) by (nonlinear_arith)
            requires bound_a(17) == 12940409664010732578654nat, POWERS@[17] == 12941056668319229769860u128;
        lemma_div_mod_unique(167462574773228694459491447250525720768568440nat, b64(), 9078164368957539028420606nat, 12915958571853569144nat);
    }
    assert(bound_a(19) == 4467844760619635881934135417749nat) by {
        assert(bound_a(18) * POWERS@[18] as nat == 82417188860214538482421436095109204536461501150534nat) by (nonlinear_arith)
            requires bound_a(18) == 9078164368957539028420606nat, POWERS@[18] == 9078618265828848800676189u128;
        lemma_div_mod_unique(82417188860214538482421436095109204536461501150534nat, b64(), 4467844760619635881934135417749nat, 10508793557863118150nat);
    }

    assert(max_tick_bit(0) == 0) by {
        lemma_div_mod_unique(887272nat, 1nat, 887272nat, 0nat);
        lemma_div_mod_unique(887272nat, 2nat, 443636nat, 0nat);
    }
    assert(max_tick_bit(1) == 0) by {
        lemma_div_mod_unique(887272nat, 2nat, 443636nat, 0nat);
        lemma_div_mod_unique(443636nat, 2nat, 221818nat, 0nat);
    }
    assert(max_tick_bit(2) == 0) by {
        lemma_div_mod_unique(887272nat, 4nat, 221818nat, 0nat);
        lemma_div_mod_unique(221818nat, 2nat, 110909nat, 0nat);
    }
    assert(max_tick_bit(3) == 1) by {
        lemma_div_mod_unique(887272nat, 8nat, 110909nat, 0nat);
        lemma_div_mod_unique(110909nat, 2nat, 55454nat, 1nat);
    }
    assert(max_tick_bit(4) == 0) by {
        lemma_div_mod_unique(887272nat, 16nat, 55454nat, 8nat);
        lemma_div_mod_unique(55454nat, 2nat, 27727nat, 0nat);
    }
    assert(max_tick_bit(5) == 1) by {
        lemma_div_mod_unique(887272nat, 32nat, 27727nat, 8nat);
        lemma_div_mod_unique(27727nat, 2nat, 13863nat, 1nat);
    }
    assert(max_tick_bit(6) == 1) by {
        lemma_div_mod_unique(887272nat, 64nat, 13863nat, 40nat);
        lemma_div_mod_unique(13863nat, 2nat, 6931nat, 1nat);
    }
    assert(max_tick_bit(7) == 1) by {
        lemma_div_mod_unique(887272nat, 128nat, 6931nat, 104nat);
        lemma_div_mod_unique(6931nat, 2nat, 3465nat, 1nat);
    }
    assert(max_tick_bit(8) == 1) by {
        lemma_div_mod_unique(887272nat, 256nat, 3465nat, 232nat);
        lemma_div_mod_unique(3465nat, 2nat, 1732nat, 1nat);
    }
    assert(max_tick_bit(9) == 0) by {
        lemma_div_mod_unique(887272nat, 512nat, 1732nat, 488nat);
        lemma_div_mod_unique(1732nat, 2nat, 866nat, 0nat);
    }
    assert(max_tick_bit(10) == 0) by {
        lemma_div_mod_unique(887272nat, 1024nat, 866nat, 488nat);
        lemma_div_mod_unique(866nat, 2nat, 433nat, 0nat);
    }
    assert(max_tick_bit(11) == 1) by {
        lemma_div_mod_unique(887272nat, 2048nat, 433nat, 488nat);
        lemma_div_mod_unique(433nat, 2nat, 216nat, 1nat);
    }
    assert(max_tick_bit(12) == 0) by {
        lemma_div_mod_unique(887272nat, 4096nat, 216nat, 2536nat);
        lemma_div_mod_unique(216nat, 2nat, 108nat, 0nat);
    }
    assert(max_tick_bit(13) == 0) by {
        lemma_div_mod_unique(887272nat, 8192nat, 108nat, 2536nat);
        lemma_div_mod_unique(108nat, 2nat, 54nat, 0nat);
    }
    assert(max_tick_bit(14) == 0) by {
        lemma_div_mod_unique(887272nat, 16384nat, 54nat, 2536nat);
        lemma_div_mod_unique(54nat, 2nat, 27nat, 0nat);
    }
    assert(max_tick_bit(15) == 1) by {
        lemma_div_mod_unique(887272nat, 32768nat, 27nat, 2536nat);
        lemma_div_mod_unique(27nat, 2nat, 13nat, 1nat);
    }
    assert(max_tick_bit(16) == 1) by {
        lemma_div_mod_unique(887272nat, 65536nat, 13nat, 35304nat);
        lemma_div_mod_unique(13nat, 2nat, 6nat, 1nat);
    }
    assert(max_tick_bit(17) == 0) by {
        lemma_div_mod_unique(887272nat, 131072nat, 6nat, 100840nat);
        lemma_div_mod_unique(6nat, 2nat, 3nat, 0nat);
    }
    assert(max_tick_bit(18) == 1) by {
        lemma_div_mod_unique(887272nat, 262144nat, 3nat, 100840nat);
        lemma_div_mod_unique(3nat, 2nat, 1nat, 1nat);
    }
    assert(max_tick_bit(19) == 1) by {
        lemma_div_mod_unique(887272nat, 524288nat, 1nat, 362984nat);
        lemma_div_mod_unique(1nat, 2nat, 0nat, 1nat);
    }
    assert(bound_b(0) == 18446744073709551616);
    assert(bound_b(1) == 18446744073709551616nat);
    assert(bound_b(2) == 18446744073709551616nat);
    assert(bound_b(3) == 18446744073709551616nat);
    assert(bound_b(4) == 18454123878217468680nat) by {
        assert(bound_b(3) * POWERS@[3] as nat == 340418500286010017597506525741323386880nat) by (nonlinear_arith)
            requires bound_b(3) == 18446744073709551616nat, POWERS@[3] == 18454123878217468680u128;
        lemma_div_mod_unique(340418500286010017597506525741323386880nat, b64(), 18454123878217468680nat, 0nat);
    }
    assert(bound_b(5) == 18454123878217468680nat);
    assert(bound_b(6) == 18483672631708939318nat) by {
        assert(bound_b(5) * POWERS@[5] as nat == 340963578579364308025152790207854289920nat) by (nonlinear_arith)
            requires bound_b(5) == 18454123878217468680nat, POWERS@[5] == 18476281010653910144u128;
        lemma_div_mod_unique(340963578579364308025152790207854289920nat, b64(), 18483672631708939318nat, 14275577259121452032nat);
    }
    assert(bound_b(7) == 18542912154892181977nat) by {
        assert(bound_b(6) * POWERS@[6] as nat == 342056354902574169137461902503140012038nat) by (nonlinear_arith)
            requires bound_b(6) == 18483672631708939318nat, POWERS@[6] == 18505865242158250041u128;
        lemma_div_mod_unique(342056354902574169137461902503140012038nat, b64(), 18542912154892181977nat, 14349940154593587206nat);
    }
    assert(bound_b(8) == 18661961391544013922nat) by {
        assert(bound_b(7) * POWERS@[7] as nat == 344252425703260996000453449815275032994nat) by (nonlinear_arith)
            requires bound_b(7) == 18542912154892181977nat, POWERS@[7] == 18565175891880433522u128;
        lemma_div_mod_unique(344252425703260996000453449815275032994nat, b64(), 18661961391544013922nat, 3070801695793435042nat);
    }
    assert(bound_b(9) == 18902357732281469080nat) by {
        assert(bound_b(8) * POWERS@[8] as nat == 348686955477101109000436215083010782604nat) by (nonlinear_arith)
            requires bound_b(8) == 18661961391544013922nat, POWERS@[8] == 18684368066214940582u128;
        lemma_div_mod_unique(348686955477101109000436215083010782604nat, b64(), 18902357732281469080nat, 6063040490442749324nat);
    }
    assert(bound_b(10) == 18902357732281469080nat);
    assert(bound_b(11) == 18902357732281469080nat);
    assert(bound_b(12) == 20940425859517241253nat) by {
        assert(bound_b(11) * POWERS@[11] as nat == 386282676625003913738046395654712885520nat) by (nonlinear_arith)
            requires bound_b(11) == 18902357732281469080nat, POWERS@[11] == 20435687552633177494u128;
        lemma_div_mod_unique(386282676625003913738046395654712885520nat, b64(), 20940425859517241253nat, 4608904674784870672nat);
    }
    assert(bound_b(13) == 20940425859517241253nat);
    assert(bound_b(14) == 20940425859517241253nat);
    assert(bound_b(15) == 20940425859517241253nat);
    assert(bound_b(16) == 107770032462322190407nat) by {
        assert(bound_b(15) * POWERS@[15] as nat == 1988006207647827862415054773103268347148nat) by (nonlinear_arith)
            requires bound_b(15) == 20940425859517241253nat, POWERS@[15] == 94936283578220370716u128;
        lemma_div_mod_unique(1988006207647827862415054773103268347148nat, b64(), 107770032462322190407nat, 18336896076321799436nat);
    }
    assert(bound_b(17) == 2854453824111132359496nat) by {
        assert(bound_b(16) * POWERS@[16] as nat == 52655379163599597669560339667448442703020nat) by (nonlinear_arith)
            requires bound_b(16) == 107770032462322190407nat, POWERS@[16] == 488590176327622479860u128;
        lemma_div_mod_unique(52655379163599597669560339667448442703020nat, b64(), 2854453824111132359496nat, 13562670970162957484nat);
    }
    assert(bound_b(18) == 2854453824111132359496nat);
    assert(bound_b(19) == 1404827677068165313239653268nat) by {
        assert(bound_b(18) * POWERS@[18] as nat == 25914496626540334257453005194121310683835240744nat) by (nonlinear_arith)
            requires bound_b(18) == 2854453824111132359496nat, POWERS@[18] == 9078618265828848800676189u128;
        lemma_div_mod_unique(25914496626540334257453005194121310683835240744nat, b64(), 1404827677068165313239653268nat, 3902887948246159656nat);
    }
    assert(bound_b(20) == 340269576638287422883700525942130004573nat) by {
        assert(bound_b(19) * POWERS@[19] as nat == 6276865796315986610929679933609574491102683415926942854516nat) by (nonlinear_arith)
            requires bound_b(19) == 1404827677068165313239653268nat, POWERS@[19] == 4468068147273140139091016147737u128;
        lemma_div_mod_unique(6276865796315986610929679933609574491102683415926942854516nat, b64(), 340269576638287422883700525942130004573nat, 7944502871083314548nat);
    }
}

proof fn lemma_exact_one_bit(table: Seq<u128>, j: nat, x: nat)
    ensures
        table_pow_exact_from(table, 1, j, x) == x * table[j as int] as nat / b64(),
        table_pow_exact_from(table, 0, j, x) == x,
{
    assert(table_pow_exact_from(table, 0, j + 1, x * table[j as int] as nat / b64())
        == x * table[j as int] as nat / b64());
}

/// `bound_a(k)` is the exact exponentiation of the all-ones exponent.
proof fn lemma_bound_a_exact(k: nat)
    requires
        k <= 20,
    ensures
        bound_a(k) == table_pow_exact_from(POWERS@, ones(k), 0, b64()),
    decreases k,
{
    if k > 0 {
        let kk = (k - 1) as nat;
        lemma_bound_a_exact(kk);
        assert(ones(k) == ones(kk) + two(kk) * 1);
        lemma_exact_split(POWERS@, ones(kk), 1, kk, 0, b64());
        lemma_exact_one_bit(POWERS@, kk, table_pow_exact_from(POWERS@, ones(kk), 0, b64()));
    }
}

/// Every exponent no larger than the low `k` bits of `MAX_TICK` stays within
/// `bound_b(k)`.
proof fn lemma_dp(k: nat, lo: nat)
    requires
        k <= 20,
        lo <= 887272nat % two(k),
    ensures
        table_pow_exact_from(POWERS@, lo, 0, b64()) <= bound_b(k),
    decreases k,
{
    lemma_powers_values();
    if k == 0 {
        assert(lo == 0);
    } else {
        let kk = (k - 1) as nat;
        let tk = two(kk);
        assert(two(k) == tk * 2);
        lemma_breakdown(887272, tk as int, 2);
        lemma_div_bounds(lo, tk);
        let b = lo / tk;
        let lo2 = lo % tk;
        assert(887272nat % two(k) == tk * max_tick_bit(kk) + 887272nat % tk);
        lemma_div_bounds(887272nat, tk);
        assert(887272nat % tk < tk);
        assert(lo < two(k));
        assert(b <= 1) by (nonlinear_arith)
            requires
                lo < tk * 2,
                b * tk <= lo,
                tk > 0,
        ;
        assert(lo == lo2 + tk * b) by (nonlinear_arith)
            requires
                lo == b * tk + lo2,
        ;
        assert(lo2 <= ones(kk));
        lemma_exact_split(POWERS@, lo2, b, kk, 0, b64());
        let x = table_pow_exact_from(POWERS@, lo2, 0, b64());
        lemma_exact_one_bit(POWERS@, kk, x);
        if max_tick_bit(kk) == 1 {
            assert(tk * max_tick_bit(kk) == tk) by (nonlinear_arith)
                requires
                    max_tick_bit(kk) == 1,
            ;
            if b == 0 {
                lemma_exact_ones_max(POWERS@, lo2, kk, 0, b64());
                lemma_bound_a_exact(kk);
            } else {
                assert(lo2 <= 887272nat % tk);
                lemma_dp(kk, lo2);
                lemma_step_mono(x, bound_b(kk), POWERS@[kk as int] as nat);
            }
        } else {
            assert(max_tick_bit(kk) == 0);
            assert(tk * max_tick_bit(kk) == 0) by (nonlinear_arith)
                requires
                    max_tick_bit(kk) == 0,
            ;
            assert(b == 0) by (nonlinear_arith)
                requires
                    lo == lo2 + tk * b,
                    lo <= 887272nat % tk,
                    887272nat % tk < tk,
                    b <= 1,
            ;
            lemma_dp(kk, lo2);
        }
    }
}

/// For every exponent up to `MAX_TICK`, exponentiation over `POWERS` needs at
/// most 20 table entries, never overflows, and yields a value in
/// `[2^64, 2^128)`.
pub proof fn lemma_tick_pow_in_range(e: nat)
    requires
        e <= 887272,
    ensures
        bit_length(e) <= POWERS@.len(),
        table_pow_ok_from(POWERS@, e, 0, b64()),
        table_pow_from(POWERS@, e, 0, b64()) == table_pow_exact_from(POWERS@, e, 0, b64()),
        b64() <= table_pow_from(POWERS@, e, 0, b64()) < b128(),
{
    lemma_powers_values();
    lemma_ones_values();
    lemma_bit_length_ones(e, 20);
    lemma_bound_values();
    vstd::arithmetic::div_mod::lemma_small_mod(887272nat, two(20));
    lemma_dp(20, e);
    lemma_exact_ge_acc(POWERS@, e, 0, b64());
    lemma_exact_no_wrap(POWERS@, e, 0, b64());
}

/// The all-ones prefix of `k` bits stays below the table's entry `k`: the
/// product of the first `k` entries is less than the next one.
proof fn lemma_bound_a_below_entry(k: nat)
    requires
        k < 20,
    ensures
        bound_a(k) < POWERS@[k as int],
{
    lemma_powers_values();
    lemma_bound_values();
    assert(POWERS@[0] == 18447666387855959850u128);
    assert(POWERS@[1] == 18448588748116922571u128);
    assert(POWERS@[2] == 18450433606991734263u128);
    assert(POWERS@[3] == 18454123878217468680u128);
    assert(POWERS@[4] == 18461506635090006701u128);
    assert(POWERS@[5] == 18476281010653910144u128);
    assert(POWERS@[6] == 18505865242158250041u128);
    assert(POWERS@[7] == 18565175891880433522u128);
    assert(POWERS@[8] == 18684368066214940582u128);
    assert(POWERS@[9] == 18925053041275764671u128);
    assert(POWERS@[10] == 19415764168677886926u128);
    assert(POWERS@[11] == 20435687552633177494u128);
    assert(POWERS@[12] == 22639080592224303007u128);
    assert(POWERS@[13] == 27784196929998399742u128);
    assert(POWERS@[14] == 41848122137994986128u128);
    assert(POWERS@[15] == 94936283578220370716u128);
    assert(POWERS@[16] == 488590176327622479860u128);
    assert(POWERS@[17] == 12941056668319229769860u128);
    assert(POWERS@[18] == 9078618265828848800676189u128);
    assert(POWERS@[19] == 4468068147273140139091016147737u128);
}

proof fn lemma_step_strict(acc1: nat, acc2: nat, t: nat)
    requires
        acc1 < acc2,
        t >= b64(),
    ensures
        acc1 * t / b64() < acc2 * t / b64(),
{
    assert(acc1 * t + b64() <= acc2 * t) by (nonlinear_arith)
        requires
            acc1 < acc2,
            t >= b64(),
    ;
    lemma_div_mono(acc1 * t + b64(), acc2 * t, b64());
    vstd::arithmetic::div_mod::lemma_div_plus_one((acc1 * t) as int, b64() as int);
}

/// With every entry used at least 1.0, the exact exponentiation is strictly
/// monotone in its starting value.
proof fn lemma_exact_strict(table: Seq<u128>, e: nat, i: nat, acc1: nat, acc2: nat)
    requires
        entries_at_least_one(table),
        i + bit_length(e) <= table.len(),
        acc1 < acc2,
    ensures
        table_pow_exact_from(table, e, i, acc1) < table_pow_exact_from(table, e, i, acc2),
    decreases e,
{
    if e != 0 {
        let t = table[i as int] as nat;
        if e % 2 == 1 {
            lemma_step_strict(acc1, acc2, t);
            lemma_exact_strict(table, e / 2, i + 1, acc1 * t / b64(), acc2 * t / b64());
        } else {
            lemma_exact_strict(table, e / 2, i + 1, acc1, acc2);
        }
    }
}

/// Having consumed `i` one bits, the exponent `m` that follows them gives
/// less than `m + 1` with nothing consumed: carrying into bit `i` outgrows
/// every all-ones prefix.
proof fn lemma_carry_grows(m: nat, i: nat)
    requires
        i + bit_length(m + 1) <= 20,
    ensures
        table_pow_exact_from(POWERS@, m, i, bound_a(i)) < table_pow_exact_from(POWERS@, m + 1, i, b64()),
    decreases m,
{
    lemma_powers_values();
    let t = POWERS@[i as int] as nat;
    assert(bit_length(m + 1) == 1 + bit_length((m + 1) / 2));
    lemma_bound_a_below_entry(i);
    if m % 2 == 0 {
        assert((m + 1) / 2 == m / 2 && (m + 1) % 2 == 1);
        vstd::arithmetic::div_mod::lemma_div_by_multiple(t as int, b64() as int);
        assert(b64() * t == t * b64()) by (nonlinear_arith);
        if m == 0 {
            assert(table_pow_exact_from(POWERS@, 0, i, bound_a(i)) == bound_a(i));
            assert(table_pow_exact_from(POWERS@, 1, i, b64())
                == table_pow_exact_from(POWERS@, 0, i + 1, b64() * t / b64()));
        } else {
            lemma_exact_strict(POWERS@, m / 2, i + 1, bound_a(i), t);
        }
    } else {
        assert((m + 1) / 2 == m / 2 + 1 && (m + 1) % 2 == 0);
        lemma_carry_grows(m / 2, i + 1);
    }
}

/// Over `POWERS`, the exact exponentiation strictly grows with the exponent.
pub proof fn lemma_exact_succ(e: nat)
    requires
        e + 1 <= 887272,
    ensures
        table_pow_exact_from(POWERS@, e, 0, b64()) < table_pow_exact_from(POWERS@, e + 1, 0, b64()),
{
    lemma_ones_values();
    lemma_bit_length_ones(e + 1, 20);
    lemma_carry_grows(e, 0);
}

/// Where `MAX_TICK` has a set bit, the bound follows `MAX_TICK` itself.
proof fn lemma_max_tick_via(kk: nat)
    requires
        kk < 20,
        max_tick_bit(kk) == 1,
    ensures
        bound_b(kk + 1) == bound_b(kk) * POWERS@[kk as int] as nat / b64(),
{
    lemma_bound_values();
    assert(bound_b(kk + 1) != bound_a(kk));
}

/// The exact exponentiation of the low `k` bits of `MAX_TICK` is
/// `bound_b(k)`.
proof fn lemma_max_tick_exact(k: nat)
    requires
        k <= 20,
    ensures
        table_pow_exact_from(POWERS@, 887272nat % two(k), 0, b64()) == bound_b(k),
    decreases k,
{
    lemma_powers_values();
    if k == 0 {
        assert(two(0) == 1);
        assert(887272nat % 1 == 0);
    } else {
        let kk = (k - 1) as nat;
        let tk = two(kk);
        assert(two(k) == tk * 2);
        lemma_breakdown(887272, tk as int, 2);
        lemma_div_bounds(887272nat, tk);
        let lo2 = 887272nat % tk;
        let b = max_tick_bit(kk);
        assert(887272nat % two(k) == tk * b + lo2);
        assert(lo2 <= ones(kk));
        assert(lo2 + tk * b == 887272nat % two(k));
        lemma_exact_split(POWERS@, lo2, b, kk, 0, b64());
        lemma_max_tick_exact(kk);
        let x = table_pow_exact_from(POWERS@, lo2, 0, b64());
        lemma_exact_one_bit(POWERS@, kk, x);
        if b == 1 {
            lemma_max_tick_via(kk);
        } else {
            assert(b == 0);
        }
    }
}

/// The power table's value at `MAX_TICK`, before the cap at `MAX_SQRT_PRICE`.
pub proof fn lemma_max_tick_pow()
    ensures
        table_pow_from(POWERS@, 887272, 0, b64()) == 340269576638287422883700525942130004573nat,
{
    lemma_ones_values();
    lemma_bound_values();
    vstd::arithmetic::div_mod::lemma_small_mod(887272nat, two(20));
    lemma_max_tick_exact(20);
    lemma_tick_pow_in_range(887272);
}

/// The exact exponentiation one tick below `MAX_TICK`, evaluated bit by bit.
proof fn lemma_below_max_tick_exact()
    ensures
        table_pow_exact_from(POWERS@, 887271, 0, b64()) == 340252564435360095911271389325288103272nat,
{
    lemma_powers_values();
    lemma_ones_values();
    assert(table_pow_exact_from(POWERS@, 0, 0, b64()) == 18446744073709551616nat);
    lemma_exact_split(POWERS@, 0nat, 1nat, 0nat, 0, b64());
    lemma_exact_one_bit(POWERS@, 0nat, 18446744073709551616nat);
    assert(18446744073709551616nat * POWERS@[0] as nat == 340299380613952818037645548136798617600nat) by (nonlinear_arith)
        requires POWERS@[0] == 18447666387855959850u128;
    lemma_div_mod_unique(340299380613952818037645548136798617600nat, b64(), 18447666387855959850nat, 0nat);
    assert(0nat + two(0) * 1nat == 1nat);
    assert(table_pow_exact_from(POWERS@, 1nat, 0, b64()) == 18447666387855959850nat);
    lemma_exact_split(POWERS@, 1nat, 1nat, 1nat, 0, b64());
    lemma_exact_one_bit(POWERS@, 1nat, 18447666387855959850nat);
    assert(18447666387855959850nat * POWERS@[1] as nat == 340333410552014213316468169803334774350nat) by (nonlinear_arith)
        requires POWERS@[1] == 18448588748116922571u128;
    lemma_div_mod_unique(340333410552014213316468169803334774350nat, b64(), 18449511154494745445nat, 15188900024326385230nat);
    assert(1nat + two(1) * 1nat == 3nat);
    assert(table_pow_exact_from(POWERS@, 3nat, 0, b64()) == 18449511154494745445nat);
    lemma_exact_split(POWERS@, 3nat, 1nat, 2nat, 0, b64());
    lemma_exact_one_bit(POWERS@, 2nat, 18449511154494745445nat);
    assert(18449511154494745445nat * POWERS@[2] as nat == 340401480637458721656356550181269682035nat) by (nonlinear_arith)
        requires POWERS@[2] == 18450433606991734263u128;
    lemma_div_mod_unique(340401480637458721656356550181269682035nat, b64(), 18453201241220755938nat, 11394101518720186227nat);
    assert(3nat + two(2) * 1nat == 7nat);
    assert(table_pow_exact_from(POWERS@, 7nat, 0, b64()) == 18453201241220755938nat);
    lemma_exact_split(POWERS@, 7nat, 0nat, 3nat, 0, b64());
    lemma_exact_one_bit(POWERS@, 3nat, 18453201241220755938nat);
    assert(7nat + two(3) * 0nat == 7nat);
    assert(table_pow_exact_from(POWERS@, 7nat, 0, b64()) == 18453201241220755938nat);
    lemma_exact_split(POWERS@, 7nat, 0nat, 4nat, 0, b64());
    lemma_exact_one_bit(POWERS@, 4nat, 18453201241220755938nat);
    assert(7nat + two(4) * 0nat == 7nat);
    assert(table_pow_exact_from(POWERS@, 7nat, 0, b64()) == 18453201241220755938nat);
    lemma_exact_split(POWERS@, 7nat, 1nat, 5nat, 0, b64());
    lemma_exact_one_bit(POWERS@, 5nat, 18453201241220755938nat);
    assert(18453201241220755938nat * POWERS@[5] as nat == 340946531678942217636021780631206435072nat) by (nonlinear_arith)
        requires POWERS@[5] == 18476281010653910144u128;
    lemma_div_mod_unique(340946531678942217636021780631206435072nat, b64(), 18482748517385350595nat, 12046127586797623552nat);
    assert(7nat + two(5) * 1nat == 39nat);
    assert(table_pow_exact_from(POWERS@, 39nat, 0, b64()) == 18482748517385350595nat);
    lemma_exact_split(POWERS@, 39nat, 1nat, 6nat, 0, b64());
    lemma_exact_one_bit(POWERS@, 6nat, 18482748517385350595nat);
    assert(18482748517385350595nat * POWERS@[6] as nat == 342039253367433488006663439934458124395nat) by (nonlinear_arith)
        requires POWERS@[6] == 18505865242158250041u128;
    lemma_div_mod_unique(342039253367433488006663439934458124395nat, b64(), 18541985078814563793nat, 15539529941799884907nat);
    assert(39nat + two(6) * 1nat == 103nat);
    assert(table_pow_exact_from(POWERS@, 103nat, 0, b64()) == 18541985078814563793nat);
    lemma_exact_split(POWERS@, 103nat, 1nat, 7nat, 0, b64());
    lemma_exact_one_bit(POWERS@, 7nat, 18541985078814563793nat);
    assert(18541985078814563793nat * POWERS@[7] as nat == 344235214372814859817297268548164668946nat) by (nonlinear_arith)
        requires POWERS@[7] == 18565175891880433522u128;
    lemma_div_mod_unique(344235214372814859817297268548164668946nat, b64(), 18661028363450960584nat, 6730185497035165202nat);
    assert(103nat + two(7) * 1nat == 231nat);
    assert(table_pow_exact_from(POWERS@, 231nat, 0, b64()) == 18661028363450960584nat);
    lemma_exact_split(POWERS@, 231nat, 1nat, 8nat, 0, b64());
    lemma_exact_one_bit(POWERS@, 8nat, 18661028363450960584nat);
    assert(18661028363450960584nat * POWERS@[8] as nat == 348669522436794381789872967540384019888nat) by (nonlinear_arith)
        requires POWERS@[8] == 18684368066214940582u128;
    lemma_div_mod_unique(348669522436794381789872967540384019888nat, b64(), 18901412685272790030nat, 278767783768831408nat);
    assert(231nat + two(8) * 1nat == 487nat);
    assert(table_pow_exact_from(POWERS@, 487nat, 0, b64()) == 18901412685272790030nat);
    lemma_exact_split(POWERS@, 487nat, 0nat, 9nat, 0, b64());
    lemma_exact_one_bit(POWERS@, 9nat, 18901412685272790030nat);
    assert(487nat + two(9) * 0nat == 487nat);
    assert(table_pow_exact_from(POWERS@, 487nat, 0, b64()) == 18901412685272790030nat);
    lemma_exact_split(POWERS@, 487nat, 0nat, 10nat, 0, b64());
    lemma_exact_one_bit(POWERS@, 10nat, 18901412685272790030nat);
    assert(487nat + two(10) * 0nat == 487nat);
    assert(table_pow_exact_from(POWERS@, 487nat, 0, b64()) == 18901412685272790030nat);
    lemma_exact_split(POWERS@, 487nat, 1nat, 11nat, 0, b64());
    lemma_exact_one_bit(POWERS@, 11nat, 18901412685272790030nat);
    assert(18901412685272790030nat * POWERS@[11] as nat == 386263363939611998057501542457583584820nat) by (nonlinear_arith)
        requires POWERS@[11] == 20435687552633177494u128;
    lemma_div_mod_unique(386263363939611998057501542457583584820nat, b64(), 20939378916744319050nat, 17080790766836500020nat);
    assert(487nat + two(11) * 1nat == 2535nat);
    assert(table_pow_exact_from(POWERS@, 2535nat, 0, b64()) == 20939378916744319050nat);
    lemma_exact_split(POWERS@, 2535nat, 0nat, 12nat, 0, b64());
    lemma_exact_one_bit(POWERS@, 12nat, 20939378916744319050nat);
    assert(2535nat + two(12) * 0nat == 2535nat);
    assert(table_pow_exact_from(POWERS@, 2535nat, 0, b64()) == 20939378916744319050nat);
    lemma_exact_split(POWERS@, 2535nat, 0nat, 13nat, 0, b64());
    lemma_exact_one_bit(POWERS@, 13nat, 20939378916744319050nat);
    assert(2535nat + two(13) * 0nat == 2535nat);
    assert(table_pow_exact_from(POWERS@, 2535nat, 0, b64()) == 20939378916744319050nat);
    lemma_exact_split(POWERS@, 2535nat, 0nat, 14nat, 0, b64());
    lemma_exact_one_bit(POWERS@, 14nat, 20939378916744319050nat);
    assert(2535nat + two(14) * 0nat == 2535nat);
    assert(table_pow_exact_from(POWERS@, 2535nat, 0, b64()) == 20939378916744319050nat);
    lemma_exact_split(POWERS@, 2535nat, 1nat, 15nat, 0, b64());
    lemma_exact_one_bit(POWERS@, 15nat, 20939378916744319050nat);
    assert(20939378916744319050nat * POWERS@[15] as nat == 1987906814791847551775785810877980939800nat) by (nonlinear_arith)
        requires POWERS@[15] == 94936283578220370716u128;
    lemma_div_mod_unique(1987906814791847551775785810877980939800nat, b64(), 107764644364803020825nat, 3010213704920536600nat);
    assert(2535nat + two(15) * 1nat == 35303nat);
    assert(table_pow_exact_from(POWERS@, 35303nat, 0, b64()) == 107764644364803020825nat);
    lemma_exact_split(POWERS@, 35303nat, 1nat, 16nat, 0, b64());
    lemma_exact_one_bit(POWERS@, 16nat, 107764644364803020825nat);
    assert(107764644364803020825nat * POWERS@[16] as nat == 52652746592082636178246155383105723084500nat) by (nonlinear_arith)
        requires POWERS@[16] == 488590176327622479860u128;
    lemma_div_mod_unique(52652746592082636178246155383105723084500nat, b64(), 2854311112123236704053nat, 6622760725403184852nat);
    assert(35303nat + two(16) * 1nat == 100839nat);
    assert(table_pow_exact_from(POWERS@, 100839nat, 0, b64()) == 2854311112123236704053nat);
    lemma_exact_split(POWERS@, 100839nat, 0nat, 17nat, 0, b64());
    lemma_exact_one_bit(POWERS@, 17nat, 2854311112123236704053nat);
    assert(100839nat + two(17) * 0nat == 100839nat);
    assert(table_pow_exact_from(POWERS@, 100839nat, 0, b64()) == 2854311112123236704053nat);
    lemma_exact_split(POWERS@, 100839nat, 1nat, 18nat, 0, b64());
    lemma_exact_one_bit(POWERS@, 18nat, 2854311112123236704053nat);
    assert(2854311112123236704053nat * POWERS@[18] as nat == 25913200998880272014374029298910783490076894017nat) by (nonlinear_arith)
        requires POWERS@[18] == 9078618265828848800676189u128;
    lemma_div_mod_unique(25913200998880272014374029298910783490076894017nat, b64(), 1404757440951976723510893240nat, 10443477478031418177nat);
    assert(100839nat + two(18) * 1nat == 362983nat);
    assert(table_pow_exact_from(POWERS@, 362983nat, 0, b64()) == 1404757440951976723510893240nat);
    lemma_exact_split(POWERS@, 362983nat, 1nat, 19nat, 0, b64());
    lemma_exact_one_bit(POWERS@, 19nat, 1404757440951976723510893240nat);
    assert(1404757440951976723510893240nat * POWERS@[19] as nat == 6276551976562456197815210918526491394977013020460674597880nat) by (nonlinear_arith)
        requires POWERS@[19] == 4468068147273140139091016147737u128;
    lemma_div_mod_unique(6276551976562456197815210918526491394977013020460674597880nat, b64(), 340252564435360095911271389325288103272nat, 16511790262452110328nat);
    assert(362983nat + two(19) * 1nat == 887271nat);
    assert(table_pow_exact_from(POWERS@, 887271nat, 0, b64()) == 340252564435360095911271389325288103272nat);
}

/// The square-root price one tick below `MAX_TICK`, as the power table
/// computes it.
pub proof fn lemma_below_max_tick_pow()
    ensures
        table_pow_from(POWERS@, 887271, 0, b64()) == 340252564435360095911271389325288103272nat,
{
    lemma_below_max_tick_exact();
    lemma_tick_pow_in_range(887271);
}

/// Over `POWERS`, the exact exponentiation never falls as the exponent
/// grows, up to `MAX_TICK`.
pub proof fn lemma_exact_mono_exp(a: nat, b: nat)
    requires
        a <= b <= 887272,
    ensures
        table_pow_exact_from(POWERS@, a, 0, b64()) <= table_pow_exact_from(POWERS@, b, 0, b64()),
    decreases b - a,
{
    if a < b {
        lemma_exact_succ(a);
        lemma_exact_mono_exp(a + 1, b);
    }
}

/// Every exponent below `MAX_TICK` gives at most the price one tick below
/// it.
pub proof fn lemma_pow_below_max_tick(e: nat)
    requires
        e <= 887271,
    ensures
        table_pow_from(POWERS@, e, 0, b64()) <= 340252564435360095911271389325288103272nat,
{
    lemma_exact_mono_exp(e, 887271);
    lemma_below_max_tick_exact();
    lemma_tick_pow_in_range(e);
}

} // verus!
