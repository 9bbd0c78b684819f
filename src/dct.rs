//! The integer 8x8 forward DCT of PSNR-HVS, in daala's lifting form.
use vstd::prelude::*;

verus! {

/// Half of `a`, rounded toward zero.
pub open spec fn half_toward_zero(a: int) -> int {
    if a >= 0 {
        a / 2
    } else {
        -((-a) / 2)
    }
}

/// The 8-point forward transform of `x`: the permutation, the +1/-1
/// butterflies, the embedded 4-point type-II DCT and type-IV DST, with each
/// fixed-point rotation rounded to nearest (ties up) as `(a * c + d / 2) / d`.
pub open spec fn fdct8_spec(x: Seq<int>) -> Seq<int> {
    let x0 = x[0];
    let x1 = x[1];
    let x2 = x[2];
    let x3 = x[3];
    let x4 = x[4];
    let x5 = x[5];
    let x6 = x[6];
    let x7 = x[7];
    let t1_1 = x0 - x7;
    let th1_1 = half_toward_zero(t1_1);
    let t0_1 = x0 - th1_1;
    let t4_1 = x1 + x6;
    let th4_1 = half_toward_zero(t4_1);
    let t5_1 = x6 - th4_1;
    let t3_1 = x2 - x5;
    let h3_1 = half_toward_zero(t3_1);
    let t2_1 = x2 - h3_1;
    let t6_1 = x3 + x4;
    let th6_1 = half_toward_zero(t6_1);
    let t7_1 = th6_1 - x4;
    let t0_2 = t0_1 + th6_1;
    let t6_2 = t0_2 - t6_1;
    let t2_2 = th4_1 - t2_1;
    let t4_2 = t2_2 - t4_1;
    let m_1 = (t4_2 * 13573 + 16384) / 32768;
    let t0_3 = t0_2 - m_1;
    let m_2 = (t0_3 * 11585 + 8192) / 16384;
    let t4_3 = t4_2 + m_2;
    let m_3 = (t4_3 * 13573 + 16384) / 32768;
    let t0_4 = t0_3 - m_3;
    let m_4 = (t2_2 * 21895 + 16384) / 32768;
    let t6_3 = t6_2 - m_4;
    let m_5 = (t6_3 * 15137 + 8192) / 16384;
    let t2_3 = t2_2 + m_5;
    let m_6 = (t2_3 * 21895 + 16384) / 32768;
    let t6_4 = t6_3 - m_6;
    let m_7 = (t5_1 * 19195 + 16384) / 32768;
    let t3_2 = t3_1 + m_7;
    let m_8 = (t3_2 * 11585 + 8192) / 16384;
    let t5_2 = t5_1 + m_8;
    let m_9 = (t5_2 * 7489 + 4096) / 8192;
    let t3_3 = t3_2 - m_9;
    let h5_1 = half_toward_zero(t5_2);
    let t7_2 = h5_1 - t7_1;
    let t5_3 = t5_2 - t7_2;
    let t3_4 = th1_1 - t3_3;
    let t1_2 = t1_1 - t3_4;
    let m_10 = (t1_2 * 3227 + 16384) / 32768;
    let t7_3 = t7_2 + m_10;
    let m_11 = (t7_3 * 6393 + 16384) / 32768;
    let t1_3 = t1_2 - m_11;
    let m_12 = (t1_3 * 3227 + 16384) / 32768;
    let t7_4 = t7_3 + m_12;
    let m_13 = (t3_4 * 2485 + 4096) / 8192;
    let t5_4 = t5_3 + m_13;
    let m_14 = (t5_4 * 18205 + 16384) / 32768;
    let t3_5 = t3_4 - m_14;
    let m_15 = (t3_5 * 2485 + 4096) / 8192;
    let t5_5 = t5_4 + m_15;
    seq![t0_4, t1_3, t2_3, t3_5, t4_3, t5_5, t6_4, t7_4]
}

/// Column `c` of an 8x8 block stored row after row.
pub open spec fn column(d: Seq<int>, c: int) -> Seq<int> {
    Seq::new(8, |k: int| d[c + 8 * k])
}

/// One pass of the 2-D transform: the transform of column `i` of `d` becomes
/// row `i` of the result.
pub open spec fn fdct_pass(d: Seq<int>) -> Seq<int> {
    Seq::new(64, |n: int| fdct8_spec(column(d, n / 8))[n % 8])
}

/// The 8x8 transform: two passes, each transposing.
pub open spec fn fdct8x8_spec(d: Seq<int>) -> Seq<int> {
    fdct_pass(fdct_pass(d))
}

/// The values of an array of integers.
pub open spec fn ints<const N: usize>(a: [i64; N]) -> Seq<int> {
    a@.map_values(|v: i64| v as int)
}

/// The values of an array of 32-bit integers.
pub open spec fn ints32<const N: usize>(a: [i32; N]) -> Seq<int> {
    a@.map_values(|v: i32| v as int)
}

/// Halves `a`, rounding toward zero (a strength-reduced `a / 2`).
fn od_dct_rshift(a: i64) -> (r: i64)
    ensures
        r == half_toward_zero(a as int),
{
    let sign = ((a as u64) >> 63u64) as i64;
    assert(sign == 0 || sign == 1) by (bit_vector)
        requires
            sign == ((a as u64) >> 63u64) as i64,
    ;
    assert((sign == 1) == (a < 0)) by (bit_vector)
        requires
            sign == ((a as u64) >> 63u64) as i64,
    ;
    let biased = sign + a;
    let r = biased >> 1u64;
    assert(2 * (r as i128) <= biased as i128 && (biased as i128) < 2 * (r as i128) + 2)
        by (bit_vector)
        requires
            r == biased >> 1u64,
    ;
    r
}

/// The divisor `2^s` of a fixed-point rotation step.
pub open spec fn step_divisor(s: u32) -> int {
    if s == 13 {
        8192
    } else if s == 14 {
        16384
    } else {
        32768
    }
}

/// Multiplies by a fixed-point constant with `s` fractional bits, rounding to
/// nearest.
fn round_shift(a: i64, c: i64, s: u32) -> (r: i64)
    requires
        s == 13 || s == 14 || s == 15,
        0 < c < 32768,
        -0x100_0000_0000 <= a <= 0x100_0000_0000,
    ensures
        r == (a * c + step_divisor(s) / 2) / step_divisor(s),
{
    assert(-0x100_0000_0000 * 32768 <= a * c <= 0x100_0000_0000 * 32768) by (nonlinear_arith)
        requires
            0 < c < 32768,
            -0x100_0000_0000 <= a <= 0x100_0000_0000,
    ;
    if s == 13 {
        let v = a * c + 4096;
        let r = v >> 13u32;
        assert((r as i128) * 8192 <= v as i128 && (v as i128) < (r as i128) * 8192 + 8192)
            by (bit_vector)
            requires
                r == v >> 13u32,
        ;
        r
    } else if s == 14 {
        let v = a * c + 8192;
        let r = v >> 14u32;
        assert((r as i128) * 16384 <= v as i128 && (v as i128) < (r as i128) * 16384 + 16384)
            by (bit_vector)
            requires
                r == v >> 14u32,
        ;
        r
    } else {
        let v = a * c + 16384;
        let r = v >> 15u32;
        assert((r as i128) * 32768 <= v as i128 && (v as i128) < (r as i128) * 32768 + 32768)
            by (bit_vector)
            requires
                r == v >> 15u32,
        ;
        r
    }
}

/// The 8-point forward transform of one column, computed in 64 bits so that
/// no intermediate can overflow.
#[verifier::spinoff_prover]
#[verifier::rlimit(100)]
fn od_bin_fdct8(x: &[i64; 8]) -> (y: [i64; 8])
    requires
        forall|k: int| 0 <= k < 8 ==> -524288 <= #[trigger] x[k] <= 524288,
    ensures
        ints(y) == fdct8_spec(ints(*x)),
        forall|k: int| 0 <= k < 8 ==> -8388608 < #[trigger] y[k] < 8388608,
{
    let x0 = x[0];
    let x1 = x[1];
    let x2 = x[2];
    let x3 = x[3];
    let x4 = x[4];
    let x5 = x[5];
    let x6 = x[6];
    let x7 = x[7];
    // Each step is followed by the bound that its inputs' bounds give it, which
    // keeps every overflow check local. Names are the lifting network's registers `t[k]`, with
    // a suffix for each new value; `th` and `h` are halves and `m` rotations.
    let t1_1: i64 = x0 - x7;
    assert(-1048576 <= t1_1 <= 1048576);
    let th1_1: i64 = od_dct_rshift(t1_1);
    assert(-524288 <= th1_1 <= 524288);
    let t0_1: i64 = x0 - th1_1;
    assert(-1048576 <= t0_1 <= 1048576);
    let t4_1: i64 = x1 + x6;
    assert(-1048576 <= t4_1 <= 1048576);
    let th4_1: i64 = od_dct_rshift(t4_1);
    assert(-524288 <= th4_1 <= 524288);
    let t5_1: i64 = x6 - th4_1;
    assert(-1048576 <= t5_1 <= 1048576);
    let t3_1: i64 = x2 - x5;
    assert(-1048576 <= t3_1 <= 1048576);
    let h3_1: i64 = od_dct_rshift(t3_1);
    assert(-524288 <= h3_1 <= 524288);
    let t2_1: i64 = x2 - h3_1;
    assert(-1048576 <= t2_1 <= 1048576);
    let t6_1: i64 = x3 + x4;
    assert(-1048576 <= t6_1 <= 1048576);
    let th6_1: i64 = od_dct_rshift(t6_1);
    assert(-524288 <= th6_1 <= 524288);
    let t7_1: i64 = th6_1 - x4;
    assert(-1048576 <= t7_1 <= 1048576);
    let t0_2: i64 = t0_1 + th6_1;
    assert(-1572864 <= t0_2 <= 1572864);
    let t6_2: i64 = t0_2 - t6_1;
    assert(-2621440 <= t6_2 <= 2621440);
    let t2_2: i64 = th4_1 - t2_1;
    assert(-1572864 <= t2_2 <= 1572864);
    let t4_2: i64 = t2_2 - t4_1;
    assert(-2621440 <= t4_2 <= 2621440);
    let m_1: i64 = round_shift(t4_2, 13573, 15);
    assert(-1085840 <= m_1 <= 1085840);
    let t0_3: i64 = t0_2 - m_1;
    assert(-2658704 <= t0_3 <= 2658704);
    let m_2: i64 = round_shift(t0_3, 11585, 14);
    assert(-1879949 <= m_2 <= 1879949);
    let t4_3: i64 = t4_2 + m_2;
    assert(-4501389 <= t4_3 <= 4501389);
    let m_3: i64 = round_shift(t4_3, 13573, 15);
    assert(-1864543 <= m_3 <= 1864543);
    let t0_4: i64 = t0_3 - m_3;
    assert(-4523247 <= t0_4 <= 4523247);
    let m_4: i64 = round_shift(t2_2, 21895, 15);
    assert(-1050960 <= m_4 <= 1050960);
    let t6_3: i64 = t6_2 - m_4;
    assert(-3672400 <= t6_3 <= 3672400);
    let m_5: i64 = round_shift(t6_3, 15137, 14);
    assert(-3392891 <= m_5 <= 3392891);
    let t2_3: i64 = t2_2 + m_5;
    assert(-4965755 <= t2_3 <= 4965755);
    let m_6: i64 = round_shift(t2_3, 21895, 15);
    assert(-3318030 <= m_6 <= 3318030);
    let t6_4: i64 = t6_3 - m_6;
    assert(-6990430 <= t6_4 <= 6990430);
    let m_7: i64 = round_shift(t5_1, 19195, 15);
    assert(-614240 <= m_7 <= 614240);
    let t3_2: i64 = t3_1 + m_7;
    assert(-1662816 <= t3_2 <= 1662816);
    let m_8: i64 = round_shift(t3_2, 11585, 14);
    assert(-1175764 <= m_8 <= 1175764);
    let t5_2: i64 = t5_1 + m_8;
    assert(-2224340 <= t5_2 <= 2224340);
    let m_9: i64 = round_shift(t5_2, 7489, 13);
    assert(-2033457 <= m_9 <= 2033457);
    let t3_3: i64 = t3_2 - m_9;
    assert(-3696273 <= t3_3 <= 3696273);
    let h5_1: i64 = od_dct_rshift(t5_2);
    assert(-1112170 <= h5_1 <= 1112170);
    let t7_2: i64 = h5_1 - t7_1;
    assert(-2160746 <= t7_2 <= 2160746);
    let t5_3: i64 = t5_2 - t7_2;
    assert(-4385086 <= t5_3 <= 4385086);
    let t3_4: i64 = th1_1 - t3_3;
    assert(-4220561 <= t3_4 <= 4220561);
    let t1_2: i64 = t1_1 - t3_4;
    assert(-5269137 <= t1_2 <= 5269137);
    let m_10: i64 = round_shift(t1_2, 3227, 15);
    assert(-518906 <= m_10 <= 518906);
    let t7_3: i64 = t7_2 + m_10;
    assert(-2679652 <= t7_3 <= 2679652);
    let m_11: i64 = round_shift(t7_3, 6393, 15);
    assert(-522797 <= m_11 <= 522797);
    let t1_3: i64 = t1_2 - m_11;
    assert(-5791934 <= t1_3 <= 5791934);
    let m_12: i64 = round_shift(t1_3, 3227, 15);
    assert(-570391 <= m_12 <= 570391);
    let t7_4: i64 = t7_3 + m_12;
    assert(-3250043 <= t7_4 <= 3250043);
    let m_13: i64 = round_shift(t3_4, 2485, 13);
    assert(-1280285 <= m_13 <= 1280285);
    let t5_4: i64 = t5_3 + m_13;
    assert(-5665371 <= t5_4 <= 5665371);
    let m_14: i64 = round_shift(t5_4, 18205, 15);
    assert(-3147524 <= m_14 <= 3147524);
    let t3_5: i64 = t3_4 - m_14;
    assert(-7368085 <= t3_5 <= 7368085);
    let m_15: i64 = round_shift(t3_5, 2485, 13);
    assert(-2235070 <= m_15 <= 2235070);
    let t5_5: i64 = t5_4 + m_15;
    assert(-7900441 <= t5_5 <= 7900441);
    let y = [t0_4, t1_3, t2_3, t3_5, t4_3, t5_5, t6_4, t7_4];
    assert(ints(*x) =~= seq![x0 as int, x1 as int, x2 as int, x3 as int, x4 as int, x5 as int, x6 as int, x7 as int]);
    assert(ints(y) =~= fdct8_spec(ints(*x)));
    y
}

/// Inputs within the range of 16-bit samples give first-pass coefficients
/// below `2^19`.
#[verifier::spinoff_prover]
#[verifier::rlimit(100)]
proof fn lemma_fdct8_small(x: Seq<int>)
    requires
        x.len() == 8,
        forall|k: int| 0 <= k < 8 ==> -32768 <= #[trigger] x[k] <= 32768,
    ensures
        forall|k: int| 0 <= k < 8 ==> -524288 <= #[trigger] fdct8_spec(x)[k] <= 524288,
{
    let x0 = x[0];
    let x1 = x[1];
    let x2 = x[2];
    let x3 = x[3];
    let x4 = x[4];
    let x5 = x[5];
    let x6 = x[6];
    let x7 = x[7];
    // The same steps as the transform, each with its bound for these inputs.
    let t1_1 = x0 - x7;
    assert(-65536 <= t1_1 <= 65536);
    let th1_1 = half_toward_zero(t1_1);
    assert(-32768 <= th1_1 <= 32768);
    let t0_1 = x0 - th1_1;
    assert(-65536 <= t0_1 <= 65536);
    let t4_1 = x1 + x6;
    assert(-65536 <= t4_1 <= 65536);
    let th4_1 = half_toward_zero(t4_1);
    assert(-32768 <= th4_1 <= 32768);
    let t5_1 = x6 - th4_1;
    assert(-65536 <= t5_1 <= 65536);
    let t3_1 = x2 - x5;
    assert(-65536 <= t3_1 <= 65536);
    let h3_1 = half_toward_zero(t3_1);
    assert(-32768 <= h3_1 <= 32768);
    let t2_1 = x2 - h3_1;
    assert(-65536 <= t2_1 <= 65536);
    let t6_1 = x3 + x4;
    assert(-65536 <= t6_1 <= 65536);
    let th6_1 = half_toward_zero(t6_1);
    assert(-32768 <= th6_1 <= 32768);
    let t7_1 = th6_1 - x4;
    assert(-65536 <= t7_1 <= 65536);
    let t0_2 = t0_1 + th6_1;
    assert(-98304 <= t0_2 <= 98304);
    let t6_2 = t0_2 - t6_1;
    assert(-163840 <= t6_2 <= 163840);
    let t2_2 = th4_1 - t2_1;
    assert(-98304 <= t2_2 <= 98304);
    let t4_2 = t2_2 - t4_1;
    assert(-163840 <= t4_2 <= 163840);
    let m_1 = (t4_2 * 13573 + 16384) / 32768;
    assert(-67865 <= m_1 <= 67865);
    let t0_3 = t0_2 - m_1;
    assert(-166169 <= t0_3 <= 166169);
    let m_2 = (t0_3 * 11585 + 8192) / 16384;
    assert(-117497 <= m_2 <= 117497);
    let t4_3 = t4_2 + m_2;
    assert(-281337 <= t4_3 <= 281337);
    let m_3 = (t4_3 * 13573 + 16384) / 32768;
    assert(-116534 <= m_3 <= 116534);
    let t0_4 = t0_3 - m_3;
    assert(-282703 <= t0_4 <= 282703);
    let m_4 = (t2_2 * 21895 + 16384) / 32768;
    assert(-65685 <= m_4 <= 65685);
    let t6_3 = t6_2 - m_4;
    assert(-229525 <= t6_3 <= 229525);
    let m_5 = (t6_3 * 15137 + 8192) / 16384;
    assert(-212056 <= m_5 <= 212056);
    let t2_3 = t2_2 + m_5;
    assert(-310360 <= t2_3 <= 310360);
    let m_6 = (t2_3 * 21895 + 16384) / 32768;
    assert(-207377 <= m_6 <= 207377);
    let t6_4 = t6_3 - m_6;
    assert(-436902 <= t6_4 <= 436902);
    let m_7 = (t5_1 * 19195 + 16384) / 32768;
    assert(-38390 <= m_7 <= 38390);
    let t3_2 = t3_1 + m_7;
    assert(-103926 <= t3_2 <= 103926);
    let m_8 = (t3_2 * 11585 + 8192) / 16384;
    assert(-73485 <= m_8 <= 73485);
    let t5_2 = t5_1 + m_8;
    assert(-139021 <= t5_2 <= 139021);
    let m_9 = (t5_2 * 7489 + 4096) / 8192;
    assert(-127091 <= m_9 <= 127091);
    let t3_3 = t3_2 - m_9;
    assert(-231017 <= t3_3 <= 231017);
    let h5_1 = half_toward_zero(t5_2);
    assert(-69510 <= h5_1 <= 69510);
    let t7_2 = h5_1 - t7_1;
    assert(-135046 <= t7_2 <= 135046);
    let t5_3 = t5_2 - t7_2;
    assert(-274067 <= t5_3 <= 274067);
    let t3_4 = th1_1 - t3_3;
    assert(-263785 <= t3_4 <= 263785);
    let t1_2 = t1_1 - t3_4;
    assert(-329321 <= t1_2 <= 329321);
    let m_10 = (t1_2 * 3227 + 16384) / 32768;
    assert(-32432 <= m_10 <= 32432);
    let t7_3 = t7_2 + m_10;
    assert(-167478 <= t7_3 <= 167478);
    let m_11 = (t7_3 * 6393 + 16384) / 32768;
    assert(-32675 <= m_11 <= 32675);
    let t1_3 = t1_2 - m_11;
    assert(-361996 <= t1_3 <= 361996);
    let m_12 = (t1_3 * 3227 + 16384) / 32768;
    assert(-35649 <= m_12 <= 35649);
    let t7_4 = t7_3 + m_12;
    assert(-203127 <= t7_4 <= 203127);
    let m_13 = (t3_4 * 2485 + 4096) / 8192;
    assert(-80018 <= m_13 <= 80018);
    let t5_4 = t5_3 + m_13;
    assert(-354085 <= t5_4 <= 354085);
    let m_14 = (t5_4 * 18205 + 16384) / 32768;
    assert(-196720 <= m_14 <= 196720);
    let t3_5 = t3_4 - m_14;
    assert(-460505 <= t3_5 <= 460505);
    let m_15 = (t3_5 * 2485 + 4096) / 8192;
    assert(-139692 <= m_15 <= 139692);
    let t5_5 = t5_4 + m_15;
    assert(-493777 <= t5_5 <= 493777);
    assert(fdct8_spec(x) =~= seq![t0_4, t1_3, t2_3, t3_5, t4_3, t5_5, t6_4, t7_4]);
}

/// One pass over an 8x8 block: column `i` of `src` is transformed into row `i`
/// of the result.
fn fdct_columns(src: &[i64; 64]) -> (dst: [i64; 64])
    requires
        forall|n: int| 0 <= n < 64 ==> -524288 <= #[trigger] src[n] <= 524288,
    ensures
        ints(dst) == fdct_pass(ints(*src)),
        forall|n: int| 0 <= n < 64 ==> -8388608 < #[trigger] dst[n] < 8388608,
{
    let ghost d = ints(*src);
    let mut dst: [i64; 64] = [0; 64];
    let mut i: usize = 0;
    while i < 8
        invariant
            i <= 8,
            d == ints(*src),
            forall|n: int| 0 <= n < 64 ==> -524288 <= #[trigger] src[n] <= 524288,
            forall|n: int| 0 <= n < 8 * i ==> #[trigger] dst[n] as int == fdct_pass(d)[n],
            forall|n: int| 0 <= n < 8 * i ==> -8388608 < #[trigger] dst[n] < 8388608,
        decreases 8 - i,
    {
        let col: [i64; 8] = [
            src[i],
            src[i + 8],
            src[i + 16],
            src[i + 24],
            src[i + 32],
            src[i + 40],
            src[i + 48],
            src[i + 56],
        ];
        assert(ints(col) =~= column(d, i as int));
        let out = od_bin_fdct8(&col);
        let mut k: usize = 0;
        while k < 8
            invariant
                i < 8,
                k <= 8,
                ints(out) == fdct8_spec(column(d, i as int)),
                forall|j: int| 0 <= j < 8 ==> -8388608 < #[trigger] out[j] < 8388608,
                forall|n: int| 0 <= n < 8 * i + k ==> #[trigger] dst[n] as int == fdct_pass(d)[n],
                forall|n: int| 0 <= n < 8 * i + k ==> -8388608 < #[trigger] dst[n] < 8388608,
            decreases 8 - k,
        {
            dst[8 * i + k] = out[k];
            proof {
                let n = 8 * i + k;
                assert(n / 8 == i as int && n % 8 == k as int);
                assert(ints(out)[k as int] == out[k as int] as int);
            }
            k = k + 1;
        }
        i = i + 1;
    }
    assert(ints(dst) =~= fdct_pass(d));
    dst
}

/// The 8x8 forward transform of a block of samples in place, rows then
/// columns. It is computed in 64 bits, so no intermediate overflows for any
/// input within the range of 16-bit samples.
pub fn od_bin_fdct8x8(data: &mut [i32; 64])
    requires
        forall|n: int| 0 <= n < 64 ==> -32768 <= #[trigger] old(data)[n] <= 32768,
    ensures
        ints32(*final(data)) == fdct8x8_spec(ints32(*old(data))),
{
    let ghost d = ints32(*data);
    let mut wide: [i64; 64] = [0; 64];
    let mut n: usize = 0;
    while n < 64
        invariant
            n <= 64,
            d == ints32(*data),
            forall|m: int| 0 <= m < 64 ==> -32768 <= #[trigger] data[m] <= 32768,
            forall|m: int| 0 <= m < n ==> #[trigger] wide[m] as int == data[m] as int,
        decreases 64 - n,
    {
        wide[n] = data[n] as i64;
        n = n + 1;
    }
    assert(ints(wide) =~= d);
    let z = fdct_columns(&wide);
    assert forall|m: int| 0 <= m < 64 implies -524288 <= #[trigger] z[m] <= 524288 by {
        let c = column(d, m / 8);
        assert forall|k: int| 0 <= k < 8 implies -32768 <= #[trigger] c[k] <= 32768 by {
            assert(c[k] == d[m / 8 + 8 * k]);
        }
        lemma_fdct8_small(c);
        assert(ints(z)[m] == z[m] as int);
    }
    let out = fdct_columns(&z);
    let mut n: usize = 0;
    while n < 64
        invariant
            n <= 64,
            ints(out) == fdct8x8_spec(d),
            forall|m: int| 0 <= m < 64 ==> -8388608 < #[trigger] out[m] < 8388608,
            forall|m: int| 0 <= m < n ==> #[trigger] data[m] as int == out[m] as int,
        decreases 64 - n,
    {
        data[n] = out[n] as i32;
        n = n + 1;
    }
    proof {
        assert forall|m: int| 0 <= m < 64 implies #[trigger] ints32(*data)[m] == fdct8x8_spec(d)[m] by {
            assert(ints(out)[m] == out[m] as int);
        }
        assert(ints32(*data) =~= fdct8x8_spec(d));
    }
}

} // verus!
