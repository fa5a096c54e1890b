//! Conversions between ticks and Q64.96 square-root prices, with the
//! constants of the reference `TickMath` library.
use crate::wide::{modulus256, modulus512, U256, U512};
use crate::x96::{lemma_pow2_96, opt_value};
use vstd::arithmetic::div_mod::lemma_hoist_over_denominator;
use vstd::arithmetic::power2::{
    lemma2_to64, lemma_pow2_adds, lemma_pow2_pos, lemma_pow2_strictly_increases, lemma_pow2_unfold, pow2,
};
use vstd::prelude::*;

verus! {

/// Largest tick magnitude.
pub const MAX_TICK: i32 = 887272;

/// 2^128.
pub open spec fn two128() -> nat {
    0x1_0000_0000_0000_0000_0000_0000_0000_0000nat
}

/// 2^32.
pub open spec fn two32() -> nat {
    0x1_0000_0000nat
}

/// The Q128.128 factor `1.0001^(-2^k / 2)` folded in for bit `k` of |tick|.
pub open spec fn magic(k: nat) -> nat {
    if k == 1 {
        0xfff9_7272_373d_4132_59a4_6990_580e_213anat
    } else if k == 2 {
        0xfff2_e50f_5f65_6932_ef12_357c_f3c7_fdccnat
    } else if k == 3 {
        0xffe5_caca_7e10_e4e6_1c36_24ea_a094_1cd0nat
    } else if k == 4 {
        0xffcb_9843_d60f_6159_c9db_5883_5c92_6644nat
    } else if k == 5 {
        0xff97_3b41_fa98_c081_472e_6896_dfb2_54c0nat
    } else if k == 6 {
        0xff2e_a164_66c9_6a38_43ec_78b3_26b5_2861nat
    } else if k == 7 {
        0xfe5d_ee04_6a99_a2a8_11c4_61f1_969c_3053nat
    } else if k == 8 {
        0xfcbe_86c7_900a_88ae_dcff_c83b_479a_a3a4nat
    } else if k == 9 {
        0xf987_a725_3ac4_1317_6f2b_074c_f781_5e54nat
    } else if k == 10 {
        0xf339_2b08_22b7_0005_940c_7a39_8e4b_70f3nat
    } else if k == 11 {
        0xe715_9475_a2c2_9b74_43b2_9c7f_a6e8_89d9nat
    } else if k == 12 {
        0xd097_f3bd_fd20_22b8_845a_d8f7_92aa_5825nat
    } else if k == 13 {
        0xa9f7_4646_2d87_0fdf_8a65_dc1f_90e0_61e5nat
    } else if k == 14 {
        0x70d8_69a1_56d2_a1b8_90bb_3df6_2baf_32f7nat
    } else if k == 15 {
        0x31be_135f_97d0_8fd9_8123_1505_542f_cfa6nat
    } else if k == 16 {
        0x9aa_508b_5b7a_84e1_c677_de54_f3e9_9bc9nat
    } else if k == 17 {
        0x5d_6af8_dedb_8119_6699_c329_225e_e604nat
    } else if k == 18 {
        0x2216_e584_f5fa_1ea9_2604_1bed_fe98nat
    } else if k == 19 {
        0x48a_1703_91f7_dc42_444e_8fa2nat
    } else {
        0
    }
}

fn magic_number(k: usize) -> (r: U512)
    requires
        1 <= k <= 19,
    ensures
        r.value() == magic(k as nat),
{
    if k == 1 {
        U512 { limbs: [0x59a4_6990_580e_213a, 0xfff9_7272_373d_4132, 0, 0, 0, 0, 0, 0] }
    } else if k == 2 {
        U512 { limbs: [0xef12_357c_f3c7_fdcc, 0xfff2_e50f_5f65_6932, 0, 0, 0, 0, 0, 0] }
    } else if k == 3 {
        U512 { limbs: [0x1c36_24ea_a094_1cd0, 0xffe5_caca_7e10_e4e6, 0, 0, 0, 0, 0, 0] }
    } else if k == 4 {
        U512 { limbs: [0xc9db_5883_5c92_6644, 0xffcb_9843_d60f_6159, 0, 0, 0, 0, 0, 0] }
    } else if k == 5 {
        U512 { limbs: [0x472e_6896_dfb2_54c0, 0xff97_3b41_fa98_c081, 0, 0, 0, 0, 0, 0] }
    } else if k == 6 {
        U512 { limbs: [0x43ec_78b3_26b5_2861, 0xff2e_a164_66c9_6a38, 0, 0, 0, 0, 0, 0] }
    } else if k == 7 {
        U512 { limbs: [0x11c4_61f1_969c_3053, 0xfe5d_ee04_6a99_a2a8, 0, 0, 0, 0, 0, 0] }
    } else if k == 8 {
        U512 { limbs: [0xdcff_c83b_479a_a3a4, 0xfcbe_86c7_900a_88ae, 0, 0, 0, 0, 0, 0] }
    } else if k == 9 {
        U512 { limbs: [0x6f2b_074c_f781_5e54, 0xf987_a725_3ac4_1317, 0, 0, 0, 0, 0, 0] }
    } else if k == 10 {
        U512 { limbs: [0x940c_7a39_8e4b_70f3, 0xf339_2b08_22b7_0005, 0, 0, 0, 0, 0, 0] }
    } else if k == 11 {
        U512 { limbs: [0x43b2_9c7f_a6e8_89d9, 0xe715_9475_a2c2_9b74, 0, 0, 0, 0, 0, 0] }
    } else if k == 12 {
        U512 { limbs: [0x845a_d8f7_92aa_5825, 0xd097_f3bd_fd20_22b8, 0, 0, 0, 0, 0, 0] }
    } else if k == 13 {
        U512 { limbs: [0x8a65_dc1f_90e0_61e5, 0xa9f7_4646_2d87_0fdf, 0, 0, 0, 0, 0, 0] }
    } else if k == 14 {
        U512 { limbs: [0x90bb_3df6_2baf_32f7, 0x70d8_69a1_56d2_a1b8, 0, 0, 0, 0, 0, 0] }
    } else if k == 15 {
        U512 { limbs: [0x8123_1505_542f_cfa6, 0x31be_135f_97d0_8fd9, 0, 0, 0, 0, 0, 0] }
    } else if k == 16 {
        U512 { limbs: [0xc677_de54_f3e9_9bc9, 0x9aa_508b_5b7a_84e1, 0, 0, 0, 0, 0, 0] }
    } else if k == 17 {
        U512 { limbs: [0x6699_c329_225e_e604, 0x5d_6af8_dedb_8119, 0, 0, 0, 0, 0, 0] }
    } else if k == 18 {
        U512 { limbs: [0x1ea9_2604_1bed_fe98, 0x2216_e584_f5fa, 0, 0, 0, 0, 0, 0] }
    } else if k == 19 {
        U512 { limbs: [0x91f7_dc42_444e_8fa2, 0x48a_1703, 0, 0, 0, 0, 0, 0] }
    } else {
        U512 { limbs: [0, 0, 0, 0, 0, 0, 0, 0] }
    }
}

/// Whether bit `k` of `abs` is set.
pub open spec fn tick_bit(abs: u32, k: nat) -> bool {
    (abs >> (k as u32)) & 1u32 == 1u32
}

/// The accumulator's starting value: `1.0001^(-1/2)` in Q128.128 when bit 0
/// of |tick| is set, else 1.
pub open spec fn ratio_seed(abs: u32) -> nat {
    if tick_bit(abs, 0) {
        0xfffc_b933_bd6f_ad37_aa2d_162d_1a59_4001nat
    } else {
        two128()
    }
}

/// The Q128.128 accumulator after bits 1 to `k` of `abs` are folded in: each
/// set bit multiplies it by its factor, modulo 2^512, then shifts right by 128.
pub open spec fn ratio_after(abs: u32, k: nat) -> nat
    decreases k,
{
    if k == 0 {
        ratio_seed(abs)
    } else {
        let a = ratio_after(abs, (k - 1) as nat);
        if tick_bit(abs, k) {
            ((a * magic(k)) % modulus512()) / two128()
        } else {
            a
        }
    }
}

/// The Q64.96 square-root price at `tick`: the accumulator for |tick|,
/// inverted as `(2^256 - 1) / acc` for a positive tick, then shifted right by
/// 32 and rounded up. `None` beyond the tick range.
pub open spec fn sqrt_ratio_at(tick: int) -> Option<int> {
    let abs = if tick < 0 { -tick } else { tick };
    if abs > MAX_TICK {
        None
    } else {
        let acc = ratio_after(abs as u32, 19) as int;
        if tick > 0 && acc == 0 {
            None
        } else {
            let p = if tick > 0 { (modulus256() - 1) / acc } else { acc };
            Some(p / two32() as int + if p % two32() as int != 0 { 1int } else { 0int })
        }
    }
}

pub proof fn lemma_magic_bound(k: nat)
    requires
        1 <= k <= 19,
    ensures
        magic(k) < two128(),
{
}

pub proof fn lemma_ratio_bound(abs: u32, k: nat)
    requires
        k <= 19,
    ensures
        ratio_after(abs, k) <= two128(),
    decreases k,
{
    if k > 0 {
        lemma_ratio_bound(abs, (k - 1) as nat);
        let a = ratio_after(abs, (k - 1) as nat);
        let g = magic(k);
        lemma_magic_bound(k);
        let t = two128();
        assert(modulus256() == t * t);
        assert(modulus512() == modulus256() * modulus256());
        assert(a * g < modulus512()) by (nonlinear_arith)
            requires a <= t, g < t, modulus512() == (t * t) * (t * t), t > 1;
        assert((a * g) % modulus512() == a * g) by (nonlinear_arith)
            requires a * g < modulus512(), 0 <= a * g;
        assert((a * g) / t <= g) by (nonlinear_arith)
            requires a <= t, t > 0, 0 <= g;
    }
}

/// Square-root price at a tick, in Q64.96 (`getSqrtRatioAtTick`). `None`
/// when |tick| exceeds 887272.
pub fn price_from_tick(target_tick: i32) -> (r: Option<U256>)
    ensures
        opt_value(r) == sqrt_ratio_at(target_tick as int),
{
    let wide_tick = target_tick as i64;
    if wide_tick > MAX_TICK as i64 || wide_tick < -(MAX_TICK as i64) {
        return None;
    }
    let abs: u32 = if wide_tick < 0 { (-wide_tick) as u32 } else { wide_tick as u32 };
    let mut acc = if (abs >> 0u32) & 1u32 == 1u32 {
        U512 { limbs: [0xaa2d_162d_1a59_4001, 0xfffc_b933_bd6f_ad37, 0, 0, 0, 0, 0, 0] }
    } else {
        U512 { limbs: [0, 0, 1, 0, 0, 0, 0, 0] }
    };
    proof {
        lemma_pow2_96();
    }
    let mut k: usize = 1;
    while k < 20
        invariant
            1 <= k <= 20,
            acc.value() == ratio_after(abs, (k - 1) as nat),
            pow2(128) == two128(),
        decreases 20 - k,
    {
        if (abs >> (k as u32)) & 1u32 == 1u32 {
            acc = acc.wrapping_mul(magic_number(k)).shr(128);
        }
        k = k + 1;
    }
    proof {
        lemma_ratio_bound(abs, 19);
    }
    let mut p = match acc.narrow() {
        Some(x) => x,
        None => return None,
    };
    if target_tick > 0 {
        if p.is_zero() {
            return None;
        }
        p = match U256::max().checked_div(p) {
            Some(x) => x,
            None => return None,
        };
    }
    let shifted = p.shr(32);
    proof {
        p.lemma_bound();
        let pv = p.value();
        let t = two32();
        assert(shifted.value() * t <= pv) by (nonlinear_arith)
            requires shifted.value() == pv / t, t > 0;
        assert(shifted.value() * t < modulus256());
        assert((shifted.value() * t) % modulus256() == shifted.value() * t) by (nonlinear_arith)
            requires shifted.value() * t < modulus256(), 0 <= shifted.value() * t;
        assert((pv % t != 0) == (shifted.value() * t < pv)) by (nonlinear_arith)
            requires shifted.value() == pv / t, t > 0;
        assert(shifted.value() + 1 < modulus256()) by (nonlinear_arith)
            requires shifted.value() == pv / t, t > 1, pv < modulus256();
    }
    if shifted.shl(32).lt(&p) {
        shifted.checked_add(U256::from_u128(1))
    } else {
        Some(shifted)
    }
}

/// Smallest square-root price accepted by `tick_from_price`.
pub open spec fn min_sqrt_ratio() -> nat {
    4295128739nat
}

/// One past the largest square-root price accepted by `tick_from_price`.
pub open spec fn max_sqrt_ratio() -> nat {
    1461446703485210103287273052203988822378723970342nat
}

/// Multiplier that turns a Q64.64 log2 into a Q128.128 log base sqrt(1.0001).
pub open spec fn log_sqrt10001_factor() -> int {
    255738958999603826347141int
}

/// Offset subtracted before flooring to get the lower tick candidate.
pub open spec fn tick_low_offset() -> int {
    3402992956809132418596140100660247210int
}

/// Offset added before flooring to get the upper tick candidate.
pub open spec fn tick_high_offset() -> int {
    291339464771989622907027621153398088495int
}

/// Index of the most significant set bit (0 for 0 and 1).
pub open spec fn msb_of(x: nat) -> nat
    decreases x,
{
    if x <= 1 {
        0
    } else {
        1 + msb_of(x / 2)
    }
}

/// One squaring step of the fractional log2 refinement on a residue in
/// `[2^127, 2^128)`: the squared residue, and whether it reached 2^128.
pub open spec fn squared(r: nat) -> nat {
    r * r / pow2(127)
}

/// The residue after `n` refinement steps, renormalised into `[2^127, 2^128)`.
pub open spec fn residue_after(r0: nat, n: nat) -> nat
    decreases n,
{
    if n == 0 {
        r0
    } else {
        let s = squared(residue_after(r0, (n - 1) as nat));
        if s >= two128() {
            s / 2
        } else {
            s
        }
    }
}

/// The fractional bits of log2 gathered in `n` steps: step `i` contributes
/// `2^(63 - i)` when its squared residue reached 2^128.
pub open spec fn frac_after(r0: nat, n: nat) -> nat
    decreases n,
{
    if n == 0 {
        0
    } else {
        let s = squared(residue_after(r0, (n - 1) as nat));
        frac_after(r0, (n - 1) as nat) + if s >= two128() {
            pow2((64 - n) as nat)
        } else {
            0
        }
    }
}

/// The Q64.64 base-2 logarithm of `x` (a Q128.128 number), with 14 fractional
/// bits refined.
pub open spec fn log2_q64(x: nat) -> int {
    (msb_of(x) - 128) * 0x1_0000_0000_0000_0000int + frac_after(residue0(x), 14)
}

/// `x` scaled by a power of two into `[2^127, 2^128)`.
pub open spec fn residue0(x: nat) -> nat {
    let msb = msb_of(x);
    if msb >= 128 {
        x / pow2((msb - 127) as nat)
    } else {
        x * pow2((127 - msb) as nat)
    }
}

/// The tick of a Q64.96 square-root price (`getTickAtSqrtRatio`): two
/// candidates are derived from the logarithm; where they differ, the upper
/// one is taken when its own price is at least `p`.
pub open spec fn tick_at_sqrt_ratio(p: nat) -> Option<int> {
    if p < min_sqrt_ratio() || p >= max_sqrt_ratio() {
        None
    } else {
        let l = log2_q64(p * two32()) * log_sqrt10001_factor();
        let low = (l - tick_low_offset()) / two128() as int;
        let high = (l + tick_high_offset()) / two128() as int;
        if low == high {
            Some(high)
        } else {
            match sqrt_ratio_at(high) {
                None => None,
                Some(ph) => if ph >= p {
                    Some(high)
                } else {
                    Some(low)
                },
            }
        }
    }
}

pub proof fn lemma_msb(x: nat, k: nat)
    requires
        pow2(k) <= x < pow2(k + 1),
    ensures
        msb_of(x) == k,
    decreases k,
{
    lemma_pow2_unfold(k + 1);
    if k == 0 {
        lemma2_to64();
    } else {
        lemma_pow2_unfold(k);
        lemma_pow2_pos(k);
        lemma_pow2_pos((k - 1) as nat);
        assert(pow2((k - 1) as nat) <= x / 2 < pow2(k));
        lemma_msb(x / 2, (k - 1) as nat);
        assert(x > 1);
    }
}

pub proof fn lemma_residue(r0: nat, n: nat)
    requires
        two128() / 2 <= r0 < two128(),
        n <= 14,
        pow2(127) == two128() / 2,
    ensures
        two128() / 2 <= residue_after(r0, n) < two128(),
        frac_after(r0, n) < pow2(64),
        frac_after(r0, n) <= pow2(64) - pow2((64 - n) as nat),
    decreases n,
{
    lemma2_to64();
    if n > 0 {
        lemma_residue(r0, (n - 1) as nat);
        let r = residue_after(r0, (n - 1) as nat);
        let h = two128() / 2;
        assert(h * h / h <= r * r / h < 4 * h) by (nonlinear_arith)
            requires h <= r < 2 * h, h > 0;
        assert(h * h / h == h) by (nonlinear_arith)
            requires h > 0;
        lemma_pow2_unfold((65 - n) as nat);
        lemma_pow2_pos((64 - n) as nat);
    }
}

/// Normalising the Q128.128 input into `[2^127, 2^128)` by its top bit.
pub proof fn lemma_normalize(x: nat, msb: nat)
    requires
        pow2(msb) <= x < pow2(msb + 1),
        msb <= 255,
    ensures
        msb >= 128 ==> two128() / 2 <= x / pow2((msb - 127) as nat) < two128(),
        msb < 128 ==> two128() / 2 <= x * pow2((127 - msb) as nat) < two128(),
{
    lemma_pow2_96();
    lemma_pow2_unfold(128);
    if msb >= 128 {
        let d = pow2((msb - 127) as nat);
        lemma_pow2_adds((msb - 127) as nat, 127);
        lemma_pow2_adds((msb - 127) as nat, 128);
        lemma_pow2_pos((msb - 127) as nat);
        let h = pow2(127);
        assert(h <= x / d < 2 * h) by (nonlinear_arith)
            requires d * h <= x < d * (2 * h), d > 0, h > 0;
    } else {
        let e = pow2((127 - msb) as nat);
        lemma_pow2_adds((127 - msb) as nat, msb);
        lemma_pow2_adds((127 - msb) as nat, msb + 1);
        lemma_pow2_unfold(msb + 1);
        lemma_pow2_pos((127 - msb) as nat);
        assert(e * pow2(msb) <= x * e < e * pow2(msb + 1)) by (nonlinear_arith)
            requires pow2(msb) <= x < pow2(msb + 1), e > 0;
    }
}

/// Floors after adding a multiple of the divisor.
pub proof fn lemma_floor_offset(y: int, m: int, d: nat)
    requires
        d > 0,
    ensures
        (y + m * d) / d as int == y / d as int + m,
{
    lemma_hoist_over_denominator(y, m, d);
}

/// Bounds of a tick candidate derived from a logarithm within `[-2^71, 2^71]`.
pub proof fn lemma_candidate_bound(log2: int, off: int)
    requires
        -0x80_0000_0000_0000_0000int <= log2 <= 0x80_0000_0000_0000_0000int,
        -0x1_0000_0000_0000_0000_0000_0000_0000_0000int <= off <= 0x1_0000_0000_0000_0000_0000_0000_0000_0000int,
    ensures
        -0x1000_0000 <= (log2 * log_sqrt10001_factor() + off) / (two128() as int) < 0x1000_0000,
{
    let c = log_sqrt10001_factor();
    let t = two128() as int;
    assert(-0x80_0000_0000_0000_0000int * c <= log2 * c <= 0x80_0000_0000_0000_0000int * c) by (nonlinear_arith)
        requires -0x80_0000_0000_0000_0000int <= log2 <= 0x80_0000_0000_0000_0000int, c > 0;
    let y = log2 * c + off;
    assert(t == 0x1_0000_0000_0000_0000_0000_0000_0000_0000int);
    assert(c < 0x1_0000_0000_0000_0000_0000int);
    assert(-0x1000_0000 * t < y < 0x1000_0000 * t) by (nonlinear_arith)
        requires
            -0x80_0000_0000_0000_0000int <= log2 <= 0x80_0000_0000_0000_0000int,
            0 < c < 0x1_0000_0000_0000_0000_0000int,
            -t <= off <= t,
            y == log2 * c + off,
            t == 0x1_0000_0000_0000_0000_0000_0000_0000_0000int,
    ;
    assert(-0x1000_0000 <= y / t < 0x1000_0000) by (nonlinear_arith)
        requires -0x1000_0000 * t < y < 0x1000_0000 * t, t > 0;
}

/// The top bit of `x` and the 14 refined fractional bits of its log2.
fn log2_parts(x: &U256) -> (r: Option<(usize, U256)>)
    requires
        pow2(64) <= x.value() < pow2(193),
    ensures
        match r {
            Some((msb, frac)) => msb == msb_of(x.value()) && frac.value() == frac_after(residue0(x.value()), 14) && 64 <= msb <= 192
                && frac.value() < pow2(64),
            None => false,
        },
{
    proof {
        lemma_pow2_96();
        lemma2_to64();
        lemma_pow2_unfold(128);
    }
    let ghost xv = x.value();
    let lz = x.leading_zeros();
    let msb: usize = 255 - lz;
    proof {
        lemma_msb(xv, msb as nat);
        assert(pow2(64) <= xv);
        if msb < 64 {
            lemma_pow2_strictly_increases((msb + 1) as nat, 64);
            lemma_pow2_unfold(64);
            if msb + 1 < 64 {
            } else {
                assert(msb + 1 == 64);
            }
        }
        assert(msb >= 64);
        if msb > 192 {
            lemma_pow2_strictly_increases(193, msb as nat);
        }
        lemma_normalize(xv, msb as nat);
    }
    let ghost r0 = if msb >= 128 {
        xv / pow2((msb - 127) as nat)
    } else {
        xv * pow2((127 - msb) as nat)
    };
    let mut r = if msb >= 128 {
        x.shr(msb - 127)
    } else {
        x.shl(127 - msb)
    };
    proof {
        if msb < 128 {
            assert(r0 % modulus256() == r0) by (nonlinear_arith)
                requires 0 <= r0 < two128(), two128() < modulus256();
        }
    }
    let mut frac = U256::zero();
    let mut i: usize = 0;
    while i < 14
        invariant
            i <= 14,
            two128() / 2 <= r0 < two128(),
            pow2(127) == two128() / 2,
            pow2(128) == two128(),
            r.value() == residue_after(r0, i as nat),
            frac.value() == frac_after(r0, i as nat),
        decreases 14 - i,
    {
        proof {
            lemma_residue(r0, i as nat);
            lemma_residue(r0, (i + 1) as nat);
            let rv = r.value();
            assert(rv * rv < modulus256()) by (nonlinear_arith)
                requires 0 <= rv < two128(), modulus256() == two128() * two128();
            assert((rv * rv) % modulus256() == rv * rv) by (nonlinear_arith)
                requires 0 <= rv * rv < modulus256();
            let h = two128() / 2;
            assert(rv * rv / h < 4 * h) by (nonlinear_arith)
                requires h <= rv < 2 * h, h > 0;
        }
        let s = r.wrapping_mul(r).shr(127);
        let f = s.shr(128);
        proof {
            assert(s.value() == squared(r.value()));
            assert((f.value() == 0) == (s.value() < two128())) by (nonlinear_arith)
                requires f.value() == s.value() / two128(), s.value() >= 0, two128() > 0;
            lemma2_to64();
            lemma_pow2_strictly_increases((63 - i) as nat, 64);
            assert(pow2(1) == 2);
        }
        if !f.is_zero() {
            let w = U256::from_u128(1).shl(63 - i);
            proof {
                assert(w.value() == pow2((63 - i) as nat)) by (nonlinear_arith)
                    requires w.value() == (1 * pow2((63 - i) as nat)) % modulus256(), pow2((63 - i) as nat) < pow2(64), pow2(64) < modulus256();
            }
            frac = match frac.checked_add(w) {
                Some(v) => v,
                None => return None,
            };
            r = s.shr(1);
        } else {
            r = s;
        }
        proof {
            assert((64 - (i + 1)) as nat == (63 - i) as nat);
        }
        i = i + 1;
    }
    proof {
        lemma_residue(r0, 14);
    }
    Some((msb, frac))
}

/// A tick candidate computed with a non-negative offset: `a` stands for
/// `log2 + 2^71` and `shift` folds in the constant terms.
pub proof fn lemma_candidate(a: int, shift: int, off: int)
    requires
        0 <= a < 0x100_0000_0000_0000_0000int,
        -(two128() as int) <= off <= two128() as int,
        shift == 0x1_0000_0000_0000_0000_0000int * two128() - 0x80_0000_0000_0000_0000int
            * log_sqrt10001_factor() + off,
    ensures
        0 <= a * log_sqrt10001_factor() + shift < 0x1_0000_0000_0000_0000_0000_0000_0000_0000_0000_0000_0000_0000_0000_0000int,
        (a * log_sqrt10001_factor() + shift) / (two128() as int) == ((a - 0x80_0000_0000_0000_0000int)
            * log_sqrt10001_factor() + off) / (two128() as int) + 0x1_0000_0000_0000_0000_0000int,
        -0x1000_0000 <= ((a - 0x80_0000_0000_0000_0000int) * log_sqrt10001_factor() + off) / (
        two128() as int) < 0x1000_0000,
{
    let c = log_sqrt10001_factor();
    let log2 = a - 0x80_0000_0000_0000_0000int;
    let b = 0x100_0000_0000_0000_0000int;
    assert(0 <= a * c < b * c) by (nonlinear_arith)
        requires 0 <= a < b, c > 0;
    assert(log2 * c == a * c - 0x80_0000_0000_0000_0000int * c) by (nonlinear_arith)
        requires log2 == a - 0x80_0000_0000_0000_0000int;
    assert(a * c + shift == log2 * c + off + 0x1_0000_0000_0000_0000_0000int * two128());
    lemma_floor_offset(log2 * c + off, 0x1_0000_0000_0000_0000_0000int, two128());
    assert(-0x80_0000_0000_0000_0000int <= log2 <= 0x80_0000_0000_0000_0000int);
    lemma_candidate_bound(log2, off);
}

/// The lower and upper tick candidates for a logarithm whose top bit is
/// `msb` and whose fractional bits are `frac`.
fn tick_candidates(msb: usize, frac: &U256) -> (r: (i32, i32))
    requires
        64 <= msb <= 192,
        frac.value() < 0x1_0000_0000_0000_0000nat,
    ensures
        ({
            let l = ((msb - 128) * 0x1_0000_0000_0000_0000int + frac.value()) * log_sqrt10001_factor();
            &&& r.0 as int == (l - tick_low_offset()) / (two128() as int)
            &&& r.1 as int == (l + tick_high_offset()) / (two128() as int)
        }),
{
    proof {
        lemma_pow2_96();
    }
    let a = U256::from_u128((msb as u128) * 0x1_0000_0000_0000_0000u128).add_fitting(*frac);
    let factor = U256::from_u128(255738958999603826347141);
    let low_shift = U256 { limbs: [0xa50f_ed5e_62ff_c556, 0x7c85_1353_98da_b925, 0xffff_ffff_ffe4_ec2e, 0xffff] };
    let high_shift = U256 { limbs: [0x455e_2607_99a0_632f, 0x5a42_6873_c5ef_5801, 0xffff_ffff_ffe4_ec2f, 0xffff] };
    let ghost av = a.value() as int;
    let ghost c = log_sqrt10001_factor();
    let ghost t = two128() as int;
    let ghost log2 = (msb - 128) * 0x1_0000_0000_0000_0000int + frac.value();
    assert(av - 0x80_0000_0000_0000_0000int == log2);
    proof {
        lemma_candidate(av, low_shift.value() as int, -tick_low_offset());
        lemma_candidate(av, high_shift.value() as int, tick_high_offset());
    }
    let prod = a.mul_fitting(factor);
    let low_sum = prod.add_fitting(low_shift);
    let high_sum = prod.add_fitting(high_shift);
    assert(low_sum.value() / two128() < two128()) by (nonlinear_arith)
        requires low_sum.value() < two128() * two128();
    assert(high_sum.value() / two128() < two128()) by (nonlinear_arith)
        requires high_sum.value() < two128() * two128();
    let lq = low_sum.shr(128).low_u128();
    let hq = high_sum.shr(128).low_u128();
    assert(lq as int == (log2 * c - tick_low_offset()) / t + 0x1_0000_0000_0000_0000_0000int);
    assert(hq as int == (log2 * c + tick_high_offset()) / t + 0x1_0000_0000_0000_0000_0000int);
    let tick_low = (lq as i128 - 0x1_0000_0000_0000_0000_0000i128) as i32;
    let tick_high = (hq as i128 - 0x1_0000_0000_0000_0000_0000i128) as i32;
    (tick_low, tick_high)
}

/// Tick of a Q64.96 square-root price (`getTickAtSqrtRatio`); `None` outside
/// `[4295128739, 1461446703485210103287273052203988822378723970342)`.
#[verifier::rlimit(60)]
pub fn tick_from_price(sqrt_price_x96: U256) -> (r: Option<i32>)
    ensures
        match r {
            Some(t) => tick_at_sqrt_ratio(sqrt_price_x96.value()) == Some(t as int),
            None => tick_at_sqrt_ratio(sqrt_price_x96.value()) is None,
        },
{
    let min_sqrt = U256::from_u128(4295128739);
    let max_sqrt = U256 { limbs: [0x5d95_1d52_6398_8d26, 0xefd1_fc6a_5064_8849, 0xfffd_8963, 0] };
    if sqrt_price_x96.lt(&min_sqrt) || !sqrt_price_x96.lt(&max_sqrt) {
        return None;
    }
    let ghost pv = sqrt_price_x96.value();
    proof {
        lemma_pow2_96();
        lemma2_to64();
        lemma_pow2_unfold(128);
        assert(pv * two32() < modulus256());
        assert((pv * two32()) % modulus256() == pv * two32()) by (nonlinear_arith)
            requires pv * two32() < modulus256(), pv * two32() >= 0;
    }
    let x = sqrt_price_x96.shl(32);
    let ghost xv = x.value();
    proof {
        assert(xv == pv * two32());
        assert(pow2(64) <= xv);
        assert(xv < pow2(193)) by {
            lemma_pow2_adds(64, 129);
            lemma_pow2_adds(128, 1);
            lemma_pow2_adds(129, 32);
            lemma_pow2_unfold(129);
            assert(pv < pow2(161));
        }
    }
    let (msb, frac) = match log2_parts(&x) {
        Some(parts) => parts,
        None => return None,
    };
    proof {
        lemma2_to64();
    }
    let (tick_low, tick_high) = tick_candidates(msb, &frac);
    if tick_high == tick_low {
        Some(tick_high)
    } else {
        match price_from_tick(tick_high) {
            None => None,
            Some(ph) => if !ph.lt(&sqrt_price_x96) {
                Some(tick_high)
            } else {
                Some(tick_low)
            },
        }
    }
}

} // verus!
