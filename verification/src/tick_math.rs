//! The tick/price oracle: the square-root price of a tick, `1.0001^(tick/2)`
//! in Q64.64, and the tick of a square-root price.

use vstd::prelude::*;
use vstd::arithmetic::power2::{pow2, lemma2_to64};
use crate::error::ErrorCode;
use crate::full_math::lemma_floor_div_bounds;
use crate::wide::{Q64, pow64, pow128, lemma_product_bound};

verus! {

/// The smallest tick.
pub const MIN_TICK: i32 = -443636;

/// The largest tick.
pub const MAX_TICK: i32 = 443636;

/// The square-root price of `MIN_TICK`.
pub const MIN_SQRT_PRICE_X64: u128 = 4295048016;

/// The square-root price of `MAX_TICK`.
pub const MAX_SQRT_PRICE_X64: u128 = 79226673521066979257578248091;

/// How many binary digits a tick's magnitude has.
pub const TICK_BITS: u32 = 19;

/// The factor for binary digit `i` of a tick's magnitude:
/// `1.0001^(-2^i / 2)` in Q0.64.
pub open spec fn ladder_factor(i: nat) -> nat {
    if i == 0 {
        0xfffc_b933_bd6f_b800
    } else if i == 1 {
        0xfff9_7272_373d_4000
    } else if i == 2 {
        0xfff2_e50f_5f65_7000
    } else if i == 3 {
        0xffe5_caca_7e10_f000
    } else if i == 4 {
        0xffcb_9843_d60f_7000
    } else if i == 5 {
        0xff97_3b41_fa98_e800
    } else if i == 6 {
        0xff2e_a164_66c9_b000
    } else if i == 7 {
        0xfe5d_ee04_6a9a_3800
    } else if i == 8 {
        0xfcbe_86c7_900b_b000
    } else if i == 9 {
        0xf987_a725_3ac6_5800
    } else if i == 10 {
        0xf339_2b08_22bb_6000
    } else if i == 11 {
        0xe715_9475_a2ca_f000
    } else if i == 12 {
        0xd097_f3bd_fd2f_2000
    } else if i == 13 {
        0xa9f7_4646_2d9f_8000
    } else if i == 14 {
        0x70d8_69a1_56f3_1c00
    } else if i == 15 {
        0x31be_135f_97ed_3200
    } else if i == 16 {
        0x9aa_508b_5b85_a500
    } else if i == 17 {
        0x5d_6af8_dedc_582c
    } else {
        0x2216_e584_f5fa
    }
}

/// Binary digit `i` of `a`.
pub open spec fn tick_bit(a: nat, i: nat) -> bool {
    (a / pow2(i)) % 2 == 1
}

/// The ratio after the lowest `i` binary digits of `a` have been applied:
/// it starts at `2^64`, and each digit that is set multiplies it by that
/// digit's factor and drops the lowest 64 bits of the product.
pub open spec fn ladder(a: nat, i: nat) -> nat
    decreases i,
{
    if i == 0 {
        pow64()
    } else {
        let prev = ladder(a, (i - 1) as nat);
        if tick_bit(a, (i - 1) as nat) {
            prev * ladder_factor((i - 1) as nat) / pow64()
        } else {
            prev
        }
    }
}

/// The ratio after `i` digits where every digit is set: no tick's ratio is
/// smaller.
pub open spec fn ladder_floor(i: nat) -> nat
    decreases i,
{
    if i == 0 {
        pow64()
    } else {
        ladder_floor((i - 1) as nat) * ladder_factor((i - 1) as nat) / pow64()
    }
}

/// The magnitude of a tick.
pub open spec fn tick_magnitude(tick: int) -> nat {
    if tick < 0 {
        (-tick) as nat
    } else {
        tick as nat
    }
}

/// The square-root price of a tick in Q64.64: the ladder's ratio for a tick
/// that is not positive, and `(2^128 - 1)` divided by it for a positive one.
pub open spec fn sqrt_price_at_tick(tick: int) -> nat {
    let ratio = ladder(tick_magnitude(tick), TICK_BITS as nat);
    if tick > 0 {
        ((pow128() - 1) / (ratio as int)) as nat
    } else {
        ratio
    }
}

/// Whether a tick is one that the oracle knows.
pub open spec fn tick_in_range(tick: int) -> bool {
    MIN_TICK <= tick <= MAX_TICK
}

/// The values of the all-digits-set ratio, digit by digit.
pub proof fn lemma_ladder_floor_values()
    ensures
        ladder_floor(0) == 0x1_0000_0000_0000_0000nat,
        ladder_floor(1) == 0xfffc_b933_bd6f_b800nat,
        ladder_floor(2) == 0xfff6_2bbb_6d45_9859nat,
        ladder_floor(3) == 0xffe9_114b_9cf2_9d9anat,
        ladder_floor(4) == 0xffce_de6f_1d8c_0483nat,
        ladder_floor(5) == 0xff9a_80c1_ada7_7220nat,
        ladder_floor(6) == 0xff31_e58d_5a54_19c2nat,
        ladder_floor(7) == 0xfe61_2f81_83b2_80e0nat,
        ladder_floor(8) == 0xfcc1_c2f3_8054_95f4nat,
        ladder_floor(9) == 0xf98a_d8c8_d7ef_0a9anat,
        ladder_floor(10) == 0xf33c_4801_89b8_868bnat,
        ladder_floor(11) == 0xe718_89a8_590c_5dc9nat,
        ladder_floor(12) == 0xd09a_9f3e_93ea_6d30nat,
        ladder_floor(13) == 0xa9f9_7334_5bb6_e56fnat,
        ladder_floor(14) == 0x70d9_db64_8610_cc7enat,
        ladder_floor(15) == 0x31be_b65d_91cc_07afnat,
        ladder_floor(16) == 0x9aa_7036_fd2e_7648nat,
        ladder_floor(17) == 0x5d_6c2a_f97b_81a7nat,
        ladder_floor(18) == 0x2217_5538_8b03nat,
        ladder_floor(19) == 0x48a_25e3nat,
{
    reveal_with_fuel(ladder_floor, 2);
    assert(ladder_floor(0) == pow64());
    lemma_product_value(ladder_floor(0), ladder_factor(0), 0x1_0000_0000_0000_0000, 0xfffc_b933_bd6f_b800, 0xfffc_b933_bd6f_b800_0000_0000_0000_0000);
    assert(ladder_floor(1) == 0xfffc_b933_bd6f_b800nat);
    lemma_product_value(ladder_floor(1), ladder_factor(1), 0xfffc_b933_bd6f_b800, 0xfff9_7272_373d_4000, 0xfff6_2bbb_6d45_9859_8104_0382_c600_0000);
    assert(ladder_floor(2) == 0xfff6_2bbb_6d45_9859nat);
    lemma_product_value(ladder_floor(2), ladder_factor(2), 0xfff6_2bbb_6d45_9859, 0xfff2_e50f_5f65_7000, 0xffe9_114b_9cf2_9d9a_d51e_7a03_94c3_f000);
    assert(ladder_floor(3) == 0xffe9_114b_9cf2_9d9anat);
    lemma_product_value(ladder_floor(3), ladder_factor(3), 0xffe9_114b_9cf2_9d9a, 0xffe5_caca_7e10_f000, 0xffce_de6f_1d8c_0483_74bd_fb63_1960_6000);
    assert(ladder_floor(4) == 0xffce_de6f_1d8c_0483nat);
    lemma_product_value(ladder_floor(4), ladder_factor(4), 0xffce_de6f_1d8c_0483, 0xffcb_9843_d60f_7000, 0xff9a_80c1_ada7_7220_5bba_5a30_07a6_5000);
    assert(ladder_floor(5) == 0xff9a_80c1_ada7_7220nat);
    lemma_product_value(ladder_floor(5), ladder_factor(5), 0xff9a_80c1_ada7_7220, 0xff97_3b41_fa98_e800, 0xff31_e58d_5a54_19c2_7af5_805e_c26d_0000);
    assert(ladder_floor(6) == 0xff31_e58d_5a54_19c2nat);
    lemma_product_value(ladder_floor(6), ladder_factor(6), 0xff31_e58d_5a54_19c2, 0xff2e_a164_66c9_b000, 0xfe61_2f81_83b2_80e0_e7b3_ae2d_5707_6000);
    assert(ladder_floor(7) == 0xfe61_2f81_83b2_80e0nat);
    lemma_product_value(ladder_floor(7), ladder_factor(7), 0xfe61_2f81_83b2_80e0, 0xfe5d_ee04_6a9a_3800, 0xfcc1_c2f3_8054_95f4_8acf_bb0d_52f1_0000);
    assert(ladder_floor(8) == 0xfcc1_c2f3_8054_95f4nat);
    lemma_product_value(ladder_floor(8), ladder_factor(8), 0xfcc1_c2f3_8054_95f4, 0xfcbe_86c7_900b_b000, 0xf98a_d8c8_d7ef_0a9a_1203_c8e1_d893_c000);
    assert(ladder_floor(9) == 0xf98a_d8c8_d7ef_0a9anat);
    lemma_product_value(ladder_floor(9), ladder_factor(9), 0xf98a_d8c8_d7ef_0a9a, 0xf987_a725_3ac6_5800, 0xf33c_4801_89b8_868b_6d75_33c5_42c0_f000);
    assert(ladder_floor(10) == 0xf33c_4801_89b8_868bnat);
    lemma_product_value(ladder_floor(10), ladder_factor(10), 0xf33c_4801_89b8_868b, 0xf339_2b08_22bb_6000, 0xe718_89a8_590c_5dc9_9abb_3ca5_effd_2000);
    assert(ladder_floor(11) == 0xe718_89a8_590c_5dc9nat);
    lemma_product_value(ladder_floor(11), ladder_factor(11), 0xe718_89a8_590c_5dc9, 0xe715_9475_a2ca_f000, 0xd09a_9f3e_93ea_6d30_1199_fb73_ca86_7000);
    assert(ladder_floor(12) == 0xd09a_9f3e_93ea_6d30nat);
    lemma_product_value(ladder_floor(12), ladder_factor(12), 0xd09a_9f3e_93ea_6d30, 0xd097_f3bd_fd2f_2000, 0xa9f9_7334_5bb6_e56f_899a_d4df_c976_0000);
    assert(ladder_floor(13) == 0xa9f9_7334_5bb6_e56fnat);
    lemma_product_value(ladder_floor(13), ladder_factor(13), 0xa9f9_7334_5bb6_e56f, 0xa9f7_4646_2d9f_8000, 0x70d9_db64_8610_cc7e_3716_6122_75a8_8000);
    assert(ladder_floor(14) == 0x70d9_db64_8610_cc7enat);
    lemma_product_value(ladder_floor(14), ladder_factor(14), 0x70d9_db64_8610_cc7e, 0x70d8_69a1_56f3_1c00, 0x31be_b65d_91cc_07af_b834_2e8c_45f7_c800);
    assert(ladder_floor(15) == 0x31be_b65d_91cc_07afnat);
    lemma_product_value(ladder_floor(15), ladder_factor(15), 0x31be_b65d_91cc_07af, 0x31be_135f_97ed_3200, 0x9aa_7036_fd2e_7648_b768_6fd6_2f83_2e00);
    assert(ladder_floor(16) == 0x9aa_7036_fd2e_7648nat);
    lemma_product_value(ladder_floor(16), ladder_factor(16), 0x9aa_7036_fd2e_7648, 0x9aa_508b_5b85_a500, 0x5d_6c2a_f97b_81a7_c3e5_3775_fda4_6800);
    assert(ladder_floor(17) == 0x5d_6c2a_f97b_81a7nat);
    lemma_product_value(ladder_floor(17), ladder_factor(17), 0x5d_6c2a_f97b_81a7, 0x5d_6af8_dedc_582c, 0x2217_5538_8b03_5384_9d7f_934f_b0b4);
    assert(ladder_floor(18) == 0x2217_5538_8b03nat);
    lemma_product_value(ladder_floor(18), ladder_factor(18), 0x2217_5538_8b03, 0x2216_e584_f5fa, 0x48a_25e3_6957_7d1b_b2cd_9fee);
    assert(ladder_floor(19) == 0x48a_25e3nat);
}

/// The product of two numbers whose values are known.
proof fn lemma_product_value(x: nat, y: nat, xv: nat, yv: nat, pv: nat)
    by (nonlinear_arith)
    requires
        x == xv,
        y == yv,
        xv * yv == pv,
    ensures
        x * y == pv,
{
}

/// A ratio never exceeds `2^64` and never falls below the all-digits-set ratio.
pub proof fn lemma_ladder_bounds(a: nat, i: nat)
    requires
        i <= 19,
    ensures
        ladder_floor(i) <= ladder(a, i) <= pow64(),
        ladder_floor(19) <= ladder_floor(i),
    decreases 19 - i,
{
    lemma_ladder_prefix_bounds(a, i);
    if i < 19 {
        lemma_ladder_bounds(a, i + 1);
        lemma_factor_below_one(i);
        let f = ladder_factor(i);
        let x = ladder_floor(i);
        lemma_floor_div_bounds(x * f, pow64());
        assert(x * f / pow64() <= x) by (nonlinear_arith)
            requires
                (x * f / pow64()) * pow64() <= x * f,
                f <= pow64(),
                pow64() > 0,
        ;
    }
}

/// Every factor is positive and below `2^64`.
pub proof fn lemma_factor_below_one(i: nat)
    ensures
        0 < ladder_factor(i) < pow64(),
{
}

/// The bounds of a ratio after `i` digits.
pub proof fn lemma_ladder_prefix_bounds(a: nat, i: nat)
    ensures
        ladder_floor(i) <= ladder(a, i) <= pow64(),
    decreases i,
{
    if i > 0 {
        let j = (i - 1) as nat;
        lemma_ladder_prefix_bounds(a, j);
        lemma_factor_below_one(j);
        let f = ladder_factor(j);
        let x = ladder(a, j);
        let z = ladder_floor(j);
        lemma_floor_div_bounds(x * f, pow64());
        lemma_floor_div_bounds(z * f, pow64());
        assert(x * f / pow64() <= x) by (nonlinear_arith)
            requires
                (x * f / pow64()) * pow64() <= x * f,
                f <= pow64(),
                pow64() > 0,
        ;
        assert(z * f / pow64() <= z) by (nonlinear_arith)
            requires
                (z * f / pow64()) * pow64() <= z * f,
                f <= pow64(),
                pow64() > 0,
        ;
        assert(z * f <= x * f) by (nonlinear_arith)
            requires
                z <= x,
                f >= 0,
        ;
        vstd::arithmetic::div_mod::lemma_div_is_ordered((z * f) as int, (x * f) as int, pow64() as int);
    }
}

/// The square-root prices of the smallest and the largest tick.
pub proof fn lemma_price_at_extremes()
    ensures
        sqrt_price_at_tick(MIN_TICK as int) == MIN_SQRT_PRICE_X64,
        sqrt_price_at_tick(MAX_TICK as int) == MAX_SQRT_PRICE_X64,
{
    lemma2_to64();
    reveal_with_fuel(ladder, 2);
    assert(ladder(443636, 0) == pow64());
    assert(tick_bit(443636, 0) == false);
    assert(ladder(443636, 1) == 0x1_0000_0000_0000_0000nat);
    assert(tick_bit(443636, 1) == false);
    assert(ladder(443636, 2) == 0x1_0000_0000_0000_0000nat);
    assert(tick_bit(443636, 2) == true);
    lemma_product_value(ladder(443636, 2), ladder_factor(2), 0x1_0000_0000_0000_0000, 0xfff2_e50f_5f65_7000, 0xfff2_e50f_5f65_7000_0000_0000_0000_0000);
    assert(ladder(443636, 3) == 0xfff2_e50f_5f65_7000nat);
    assert(tick_bit(443636, 3) == false);
    assert(ladder(443636, 4) == 0xfff2_e50f_5f65_7000nat);
    assert(tick_bit(443636, 4) == true);
    lemma_product_value(ladder(443636, 4), ladder_factor(4), 0xfff2_e50f_5f65_7000, 0xffcb_9843_d60f_7000, 0xffbe_8001_fdce_3e5a_8be8_6c4d_f100_0000);
    assert(ladder(443636, 5) == 0xffbe_8001_fdce_3e5anat);
    assert(tick_bit(443636, 5) == true);
    lemma_product_value(ladder(443636, 5), ladder_factor(5), 0xffbe_8001_fdce_3e5a, 0xff97_3b41_fa98_e800, 0xff55_d612_4e34_e4a4_fdde_7c35_d1f1_9000);
    assert(ladder(443636, 6) == 0xff55_d612_4e34_e4a4nat);
    assert(tick_bit(443636, 6) == true);
    lemma_product_value(ladder(443636, 6), ladder_factor(6), 0xff55_d612_4e34_e4a4, 0xff2e_a164_66c9_b000, 0xfe85_02a1_d2df_3cd1_a4a1_8475_39f4_c000);
    assert(ladder(443636, 7) == 0xfe85_02a1_d2df_3cd1nat);
    assert(tick_bit(443636, 7) == true);
    lemma_product_value(ladder(443636, 7), ladder_factor(7), 0xfe85_02a1_d2df_3cd1, 0xfe5d_ee04_6a9a_3800, 0xfce5_5b92_9085_fcca_fb30_f0dd_f507_b800);
    assert(ladder(443636, 8) == 0xfce5_5b92_9085_fccanat);
    assert(tick_bit(443636, 8) == false);
    assert(ladder(443636, 9) == 0xfce5_5b92_9085_fccanat);
    assert(tick_bit(443636, 9) == false);
    assert(ladder(443636, 10) == 0xfce5_5b92_9085_fccanat);
    assert(tick_bit(443636, 10) == true);
    lemma_product_value(ladder(443636, 10), ladder_factor(10), 0xfce5_5b92_9085_fcca, 0xf339_2b08_22bb_6000, 0xf046_2f80_12ad_682d_6a38_27f4_ba59_c000);
    assert(ladder(443636, 11) == 0xf046_2f80_12ad_682dnat);
    assert(tick_bit(443636, 11) == false);
    assert(ladder(443636, 12) == 0xf046_2f80_12ad_682dnat);
    assert(tick_bit(443636, 12) == false);
    assert(ladder(443636, 13) == 0xf046_2f80_12ad_682dnat);
    assert(tick_bit(443636, 13) == false);
    assert(ladder(443636, 14) == 0xf046_2f80_12ad_682dnat);
    assert(tick_bit(443636, 14) == true);
    lemma_product_value(ladder(443636, 14), ladder_factor(14), 0xf046_2f80_12ad_682d, 0x70d8_69a1_56f3_1c00, 0x69e9_d324_5376_c7f4_3eca_f6f0_f81b_ec00);
    assert(ladder(443636, 15) == 0x69e9_d324_5376_c7f4nat);
    assert(tick_bit(443636, 15) == true);
    lemma_product_value(ladder(443636, 15), ladder_factor(15), 0x69e9_d324_5376_c7f4, 0x31be_135f_97ed_3200, 0x1494_64f8_903b_c8cd_761c_bcc1_3bf1_a800);
    assert(ladder(443636, 16) == 0x1494_64f8_903b_c8cdnat);
    assert(tick_bit(443636, 16) == false);
    assert(ladder(443636, 17) == 0x1494_64f8_903b_c8cdnat);
    assert(tick_bit(443636, 17) == true);
    lemma_product_value(ladder(443636, 17), ladder_factor(17), 0x1494_64f8_903b_c8cd, 0x5d_6af8_dedc_582c, 0x7_8282_21c7_8869_4c6f_0067_ad78_fb3c);
    assert(ladder(443636, 18) == 0x7_8282_21c7_8869nat);
    assert(tick_bit(443636, 18) == true);
    lemma_product_value(ladder(443636, 18), ladder_factor(18), 0x7_8282_21c7_8869, 0x2216_e584_f5fa, 0x1_0001_3b50_51d0_9057_358b_b38a);
    assert(ladder(443636, 19) == 0x1_0001_3b50nat);
}

/// Applies binary digit `i` of a tick's magnitude to the ratio.
fn ladder_step(ratio: u128, abs_tick: u32, i: u32, weight: u32, factor: u64) -> (r: u128)
    requires
        i < 19,
        weight == pow2(i as nat),
        factor == ladder_factor(i as nat),
        ratio == ladder(abs_tick as nat, i as nat),
    ensures
        r == ladder(abs_tick as nat, (i + 1) as nat),
{
    proof {
        vstd::arithmetic::power2::lemma_pow2_pos(i as nat);
        lemma_ladder_prefix_bounds(abs_tick as nat, i as nat);
        lemma_product_bound(ratio as int, factor as int, pow64() as int, u64::MAX as int);
    }
    if (abs_tick / weight) % 2 == 1 {
        ratio * (factor as u128) / Q64
    } else {
        ratio
    }
}

/// Calculates `1.0001^(tick/2)` as a Q64.64 number: the square-root price of
/// the tick.
///
/// Fails with `InvalidTickIndex` where the tick is outside
/// `[MIN_TICK, MAX_TICK]`.
pub fn get_sqrt_price_at_tick(tick: i32) -> (r: Result<u128, ErrorCode>)
    ensures
        tick_in_range(tick as int) ==> r == Ok::<u128, ErrorCode>(
            sqrt_price_at_tick(tick as int) as u128,
        ) && MIN_SQRT_PRICE_X64 <= sqrt_price_at_tick(tick as int) <= MAX_SQRT_PRICE_X64,
        !tick_in_range(tick as int) ==> r == Err::<u128, ErrorCode>(ErrorCode::InvalidTickIndex),
{
    if tick < MIN_TICK || tick > MAX_TICK {
        return Err(ErrorCode::InvalidTickIndex);
    }
    let abs_tick: u32 = if tick < 0 {
        (-tick) as u32
    } else {
        tick as u32
    };
    proof {
        lemma2_to64();
    }
    let ratio: u128 = Q64;
    let ratio = ladder_step(ratio, abs_tick, 0, 0x1, 0xfffc_b933_bd6f_b800);
    let ratio = ladder_step(ratio, abs_tick, 1, 0x2, 0xfff9_7272_373d_4000);
    let ratio = ladder_step(ratio, abs_tick, 2, 0x4, 0xfff2_e50f_5f65_7000);
    let ratio = ladder_step(ratio, abs_tick, 3, 0x8, 0xffe5_caca_7e10_f000);
    let ratio = ladder_step(ratio, abs_tick, 4, 0x10, 0xffcb_9843_d60f_7000);
    let ratio = ladder_step(ratio, abs_tick, 5, 0x20, 0xff97_3b41_fa98_e800);
    let ratio = ladder_step(ratio, abs_tick, 6, 0x40, 0xff2e_a164_66c9_b000);
    let ratio = ladder_step(ratio, abs_tick, 7, 0x80, 0xfe5d_ee04_6a9a_3800);
    let ratio = ladder_step(ratio, abs_tick, 8, 0x100, 0xfcbe_86c7_900b_b000);
    let ratio = ladder_step(ratio, abs_tick, 9, 0x200, 0xf987_a725_3ac6_5800);
    let ratio = ladder_step(ratio, abs_tick, 10, 0x400, 0xf339_2b08_22bb_6000);
    let ratio = ladder_step(ratio, abs_tick, 11, 0x800, 0xe715_9475_a2ca_f000);
    let ratio = ladder_step(ratio, abs_tick, 12, 0x1000, 0xd097_f3bd_fd2f_2000);
    let ratio = ladder_step(ratio, abs_tick, 13, 0x2000, 0xa9f7_4646_2d9f_8000);
    let ratio = ladder_step(ratio, abs_tick, 14, 0x4000, 0x70d8_69a1_56f3_1c00);
    let ratio = ladder_step(ratio, abs_tick, 15, 0x8000, 0x31be_135f_97ed_3200);
    let ratio = ladder_step(ratio, abs_tick, 16, 0x10000, 0x9aa_508b_5b85_a500);
    let ratio = ladder_step(ratio, abs_tick, 17, 0x20000, 0x5d_6af8_dedc_582c);
    let ratio = ladder_step(ratio, abs_tick, 18, 0x40000, 0x2216_e584_f5fa);
    proof {
        lemma_ladder_bounds(abs_tick as nat, 19);
        lemma_ladder_floor_values();
        crate::tick_laws::lemma_sqrt_price_in_range(tick as int);
    }
    if tick > 0 {
        Ok(u128::MAX / ratio)
    } else {
        Ok(ratio)
    }
}

/// Whether `tick` is a tick whose price is at most `price` while the price of
/// the tick above it, if there is one, is larger.
pub open spec fn is_tick_of_price(tick: int, price: nat) -> bool {
    &&& tick_in_range(tick)
    &&& sqrt_price_at_tick(tick) <= price
    &&& tick < MAX_TICK ==> price < sqrt_price_at_tick(tick + 1)
}

/// The tick of a square-root price: the greatest tick whose price is at most
/// the given one.
pub open spec fn tick_at_sqrt_price(price: nat) -> int {
    choose|tick: int| is_tick_of_price(tick, price)
}

/// Calculates the tick of a square-root price: the tick whose price is at
/// most the given one while the next tick's price is larger.
///
/// Fails with `SqrtPriceX64` where the price is outside
/// `[MIN_SQRT_PRICE_X64, MAX_SQRT_PRICE_X64]`.
pub fn get_tick_at_sqrt_price(sqrt_price_x64: u128) -> (r: Result<i32, ErrorCode>)
    ensures
        MIN_SQRT_PRICE_X64 <= sqrt_price_x64 <= MAX_SQRT_PRICE_X64 <==> r.is_ok(),
        r.is_err() ==> r == Err::<i32, ErrorCode>(ErrorCode::SqrtPriceX64),
        r.is_ok() ==> is_tick_of_price(r.unwrap() as int, sqrt_price_x64 as nat),
        r.is_ok() ==> r.unwrap() == tick_at_sqrt_price(sqrt_price_x64 as nat),
        r.is_ok() ==> forall|other: int|
            tick_in_range(other) && #[trigger] sqrt_price_at_tick(other) <= sqrt_price_x64
                ==> other <= r.unwrap(),
{
    if sqrt_price_x64 < MIN_SQRT_PRICE_X64 || sqrt_price_x64 > MAX_SQRT_PRICE_X64 {
        return Err(ErrorCode::SqrtPriceX64);
    }
    proof {
        lemma_price_at_extremes();
    }
    if sqrt_price_x64 == MAX_SQRT_PRICE_X64 {
        proof {
            crate::tick_laws::lemma_tick_of_price_unique(
                MAX_TICK as int,
                tick_at_sqrt_price(sqrt_price_x64 as nat),
                sqrt_price_x64 as nat,
            );
        }
        return Ok(MAX_TICK);
    }
    let mut low: i32 = MIN_TICK;
    let mut high: i32 = MAX_TICK;
    while high - low > 1
        invariant
            MIN_TICK <= low < high <= MAX_TICK,
            sqrt_price_at_tick(low as int) <= sqrt_price_x64 < sqrt_price_at_tick(high as int),
        decreases high - low,
    {
        let mid: i32 = low + (high - low) / 2;
        match get_sqrt_price_at_tick(mid) {
            Ok(price) => {
                if price <= sqrt_price_x64 {
                    low = mid;
                } else {
                    high = mid;
                }
            },
            Err(_) => {
                return Err(ErrorCode::SqrtPriceX64);
            },
        }
    }
    proof {
        crate::tick_laws::lemma_tick_of_price_unique(
            low as int,
            tick_at_sqrt_price(sqrt_price_x64 as nat),
            sqrt_price_x64 as nat,
        );
        assert forall|other: int|
            tick_in_range(other) && #[trigger] sqrt_price_at_tick(other)
                <= sqrt_price_x64 implies other <= low by {
            crate::tick_laws::lemma_tick_of_price_is_greatest(
                low as int,
                sqrt_price_x64 as nat,
                other,
            );
        }
    }
    Ok(low)
}

} // verus!
