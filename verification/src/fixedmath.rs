//! Fixed-point exponential and logarithm.
//!
//! `exp_q32` approximates `e^x` by the limit form `(1 + x/2^K)^(2^K)`,
//! computed as `K` truncated fixed-point squarings at scale `2^32`.
//! `expm1_q16` and `ln1p_q16` derive from it at scale `AMP_SCALE`;
//! the logarithm is the exact integer inverse of `expm1_q16`, found by
//! binary search.

use vstd::prelude::*;
use vstd::arithmetic::div_mod::lemma_div_is_ordered;
use vstd::arithmetic::div_mod::lemma_div_multiples_vanish;
use vstd::arithmetic::mul::lemma_mul_inequality;

verus! {

/// The fixed-point unit of the exponential's scale: `2^32`.
pub const EXP_ONE: u64 = 0x1_0000_0000;

/// Number of squaring steps in `exp_q32`.
pub const EXP_STEPS: u64 = 20;

/// `2^EXP_STEPS`.
pub const EXP_STEP_DIV: u64 = 0x10_0000;

/// Largest exponent `exp_q32` accepts, at scale `2^32` (the real number 22).
pub const EXP_IN_MAX: u64 = 0x16_0000_0000;

/// Largest argument `expm1_q16` accepts, at scale `AMP_SCALE` (the real 22).
pub const EXPM1_IN_MAX: u64 = 0x16_0000;

/// Largest energy `ln1p_q16` accepts, at scale `AMP_SCALE` (`2^46`).
pub const ENERGY_MAX: u64 = 0x4000_0000_0000;

/// `k` truncated squarings of `s` at scale `2^32`.
pub open spec fn sq_iter(s: int, k: nat) -> int
    decreases k,
{
    if k == 0 {
        s
    } else {
        let p = sq_iter(s, (k - 1) as nat);
        p * p / (EXP_ONE as int)
    }
}

/// The value `exp_q32` computes: `(1 + (x / 2^K) / 2^32)^(2^K)` at scale
/// `2^32`, with truncation at every squaring.
pub open spec fn exp_q32_spec(x: u64) -> int {
    sq_iter(EXP_ONE + x as int / EXP_STEP_DIV as int, EXP_STEPS as nat)
}

/// Iterated truncated squaring keeps values at or above the scale unit.
pub proof fn lemma_sq_iter_ge_one(s: int, k: nat)
    requires
        s >= EXP_ONE,
    ensures
        sq_iter(s, k) >= s,
    decreases k,
{
    if k > 0 {
        lemma_sq_iter_ge_one(s, (k - 1) as nat);
        let p = sq_iter(s, (k - 1) as nat);
        lemma_mul_inequality(EXP_ONE as int, p, p);
        lemma_div_is_ordered(EXP_ONE as int * p, p * p, EXP_ONE as int);
        lemma_div_multiples_vanish(p, EXP_ONE as int);
    }
}

/// Iterated truncated squaring is monotone in its starting value.
pub proof fn lemma_sq_iter_mono(a: int, b: int, k: nat)
    requires
        0 <= a <= b,
    ensures
        0 <= sq_iter(a, k) <= sq_iter(b, k),
    decreases k,
{
    if k > 0 {
        lemma_sq_iter_mono(a, b, (k - 1) as nat);
        let p = sq_iter(a, (k - 1) as nat);
        let q = sq_iter(b, (k - 1) as nat);
        lemma_mul_inequality(p, q, p);
        lemma_mul_inequality(p, q, q);
        lemma_div_is_ordered(p * p, q * q, EXP_ONE as int);
        vstd::arithmetic::div_mod::lemma_div_pos_is_pos(p * p, EXP_ONE as int);
        vstd::arithmetic::mul::lemma_mul_nonnegative(p, p);
    }
}

/// The squaring chain evaluated at the top of the domain, step by step.
pub proof fn lemma_exp_q32_out_bound()
    ensures
        sq_iter(EXP_ONE + EXP_IN_MAX as int / EXP_STEP_DIV as int, EXP_STEPS as nat)
            == 0xd598_6498_d851_b41e,
{
    assert(EXP_ONE + EXP_IN_MAX as int / EXP_STEP_DIV as int == 0x1_0001_6000);
    assert(sq_iter(0x1_0001_6000, 0) == 0x1_0001_6000);
    assert(sq_iter(0x1_0001_6000, 1) == 0x1_0002_c001);
    assert(sq_iter(0x1_0001_6000, 2) == 0x1_0005_8009);
    assert(sq_iter(0x1_0001_6000, 3) == 0x1_000b_0030);
    assert(sq_iter(0x1_0001_6000, 4) == 0x1_0016_00d9);
    assert(sq_iter(0x1_0001_6000, 5) == 0x1_002c_0396);
    assert(sq_iter(0x1_0001_6000, 6) == 0x1_0058_0ebd);
    assert(sq_iter(0x1_0001_6000, 7) == 0x1_00b0_3bc4);
    assert(sq_iter(0x1_0001_6000, 8) == 0x1_0160_f0da);
    assert(sq_iter(0x1_0001_6000, 9) == 0x1_02c3_c84b);
    assert(sq_iter(0x1_0001_6000, 10) == 0x1_058f_3571);
    assert(sq_iter(0x1_0001_6000, 11) == 0x1_0b3d_5315);
    assert(sq_iter(0x1_0001_6000, 12) == 0x1_16f8_f9fe);
    assert(sq_iter(0x1_0001_6000, 13) == 0x1_3001_b118);
    assert(sq_iter(0x1_0001_6000, 14) == 0x1_6904_049b);
    assert(sq_iter(0x1_0001_6000, 15) == 0x1_fd1c_550d);
    assert(sq_iter(0x1_0001_6000, 16) == 0x3_f479_ad58);
    assert(sq_iter(0x1_0001_6000, 17) == 0xf_a452_3c55);
    assert(sq_iter(0x1_0001_6000, 18) == 0xf4_ab1c_89ad);
    assert(sq_iter(0x1_0001_6000, 19) == 0xe9d6_a0c5_94e3);
    assert(sq_iter(0x1_0001_6000, 20) == 0xd598_6498_d851_b41e);
}

/// The scale unit is a fixed point of the squaring chain.
pub proof fn lemma_sq_iter_one(k: nat)
    ensures
        sq_iter(EXP_ONE as int, k) == EXP_ONE,
    decreases k,
{
    if k > 0 {
        lemma_sq_iter_one((k - 1) as nat);
        assert(EXP_ONE as int * EXP_ONE as int / EXP_ONE as int == EXP_ONE);
    }
}

/// The exponential stays within the scale unit and the chain's top value.
pub proof fn lemma_exp_q32_bounds(x: u64)
    requires
        x <= EXP_IN_MAX,
    ensures
        EXP_ONE <= exp_q32_spec(x) <= 0xd598_6498_d851_b41e,
{
    vstd::arithmetic::div_mod::lemma_div_pos_is_pos(x as int, EXP_STEP_DIV as int);
    lemma_sq_iter_ge_one(EXP_ONE + x as int / EXP_STEP_DIV as int, EXP_STEPS as nat);
    lemma_div_is_ordered(x as int, EXP_IN_MAX as int, EXP_STEP_DIV as int);
    lemma_sq_iter_mono(
        EXP_ONE + x as int / EXP_STEP_DIV as int,
        EXP_ONE + EXP_IN_MAX as int / EXP_STEP_DIV as int,
        EXP_STEPS as nat,
    );
    lemma_exp_q32_out_bound();
}

/// `exp_q32_spec` is monotone.
pub proof fn lemma_exp_q32_mono(x1: u64, x2: u64)
    requires
        x1 <= x2,
    ensures
        0 <= exp_q32_spec(x1) <= exp_q32_spec(x2),
{
    lemma_div_is_ordered(x1 as int, x2 as int, EXP_STEP_DIV as int);
    vstd::arithmetic::div_mod::lemma_div_pos_is_pos(x1 as int, EXP_STEP_DIV as int);
    lemma_sq_iter_mono(
        EXP_ONE + x1 as int / EXP_STEP_DIV as int,
        EXP_ONE + x2 as int / EXP_STEP_DIV as int,
        EXP_STEPS as nat,
    );
}

/// Fixed-point exponential at scale `2^32`: `r / 2^32` approximates
/// `e^(x / 2^32)` for `x` up to the real number 22.
pub fn exp_q32(x: u64) -> (r: u64)
    requires
        x <= EXP_IN_MAX,
    ensures
        r == exp_q32_spec(x),
        EXP_ONE <= r <= 0xd598_6498_d851_b41e,
{
    let s0: u64 = EXP_ONE + x / EXP_STEP_DIV;
    let ghost s0_max: int = EXP_ONE + EXP_IN_MAX as int / EXP_STEP_DIV as int;
    proof {
        lemma_div_is_ordered(x as int, EXP_IN_MAX as int, EXP_STEP_DIV as int);
        vstd::arithmetic::div_mod::lemma_div_pos_is_pos(x as int, EXP_STEP_DIV as int);
        lemma_exp_q32_out_bound();
    }
    let mut s: u64 = s0;
    let mut k: u64 = 0;
    while k < EXP_STEPS
        invariant
            k <= EXP_STEPS,
            s == sq_iter(s0 as int, k as nat),
            EXP_ONE <= s0 <= s0_max,
            EXP_ONE <= s,
            sq_iter(s0_max, EXP_STEPS as nat) == 0xd598_6498_d851_b41e,
        decreases EXP_STEPS - k,
    {
        proof {
            lemma_sq_iter_mono(s0 as int, s0_max, (k + 1) as nat);
            lemma_sq_iter_ge_one(s0_max, (k + 1) as nat);
            lemma_sq_iter_split(s0_max, (k + 1) as nat, (EXP_STEPS - k - 1) as nat);
            lemma_sq_iter_ge_one(sq_iter(s0_max, (k + 1) as nat), (EXP_STEPS - k - 1) as nat);
            lemma_sq_iter_ge_one(s0 as int, (k + 1) as nat);
        }
        let t: u128 = (s as u128) * (s as u128) / (EXP_ONE as u128);
        s = t as u64;
        k = k + 1;
    }
    proof {
        lemma_sq_iter_mono(s0 as int, s0_max, EXP_STEPS as nat);
    }
    s
}

/// Splitting the squaring chain: `j + k` steps are `k` steps after `j`.
pub proof fn lemma_sq_iter_split(s: int, j: nat, k: nat)
    ensures
        sq_iter(s, j + k) == sq_iter(sq_iter(s, j), k),
    decreases k,
{
    if k > 0 {
        lemma_sq_iter_split(s, j, (k - 1) as nat);
    }
}

/// The value `expm1_q16` computes: `e^(y / AMP_SCALE) - 1` at scale
/// `AMP_SCALE`, within the truncation of the squaring chain.
pub open spec fn expm1_q16_spec(y: u64) -> int {
    (exp_q32_spec((y * crate::AMP_SCALE) as u64) - EXP_ONE) / crate::AMP_SCALE as int
}

/// `expm1_q16_spec` is monotone and non-negative.
pub proof fn lemma_expm1_q16_mono(y1: u64, y2: u64)
    requires
        y1 <= y2 <= EXPM1_IN_MAX,
    ensures
        0 <= expm1_q16_spec(y1) <= expm1_q16_spec(y2),
{
    lemma_mul_inequality(y1 as int, y2 as int, crate::AMP_SCALE as int);
    lemma_mul_inequality(y2 as int, EXPM1_IN_MAX as int, crate::AMP_SCALE as int);
    lemma_exp_q32_bounds((y1 * crate::AMP_SCALE) as u64);
    lemma_exp_q32_bounds((y2 * crate::AMP_SCALE) as u64);
    lemma_exp_q32_mono((y1 * crate::AMP_SCALE) as u64, (y2 * crate::AMP_SCALE) as u64);
    lemma_div_is_ordered(
        exp_q32_spec((y1 * crate::AMP_SCALE) as u64) - EXP_ONE,
        exp_q32_spec((y2 * crate::AMP_SCALE) as u64) - EXP_ONE,
        crate::AMP_SCALE as int,
    );
    vstd::arithmetic::div_mod::lemma_div_pos_is_pos(
        exp_q32_spec((y1 * crate::AMP_SCALE) as u64) - EXP_ONE,
        crate::AMP_SCALE as int,
    );
}

/// Fixed-point `e^y - 1` at scale `AMP_SCALE`, for `y` up to the real 22.
pub fn expm1_q16(y: u64) -> (r: u64)
    requires
        y <= EXPM1_IN_MAX,
    ensures
        r == expm1_q16_spec(y),
{
    proof {
        lemma_mul_inequality(y as int, EXPM1_IN_MAX as int, crate::AMP_SCALE as int);
    }
    let e: u64 = exp_q32(y * crate::AMP_SCALE);
    (e - EXP_ONE) / crate::AMP_SCALE
}

/// `y` is the exact integer logarithm of `1 + e/AMP_SCALE` at scale
/// `AMP_SCALE`: the largest value whose `expm1_q16` does not exceed `e`.
pub open spec fn ln1p_pins(e: u64, y: u64) -> bool {
    &&& y < EXPM1_IN_MAX
    &&& expm1_q16_spec(y) <= e
    &&& e < expm1_q16_spec((y + 1) as u64)
}

/// The value `ln1p_q16` returns, pinned by `ln1p_pins`.
pub open spec fn ln1p_q16_spec(e: u64) -> u64 {
    choose|y: u64| ln1p_pins(e, y)
}

/// At most one value satisfies `ln1p_pins` for a given energy.
pub proof fn lemma_ln1p_unique(e: u64, y1: u64, y2: u64)
    requires
        ln1p_pins(e, y1),
        ln1p_pins(e, y2),
    ensures
        y1 == y2,
{
    if y1 < y2 {
        lemma_expm1_q16_mono((y1 + 1) as u64, y2);
    }
    if y2 < y1 {
        lemma_expm1_q16_mono((y2 + 1) as u64, y1);
    }
}

/// The squaring chain leaves zero at zero and overshoots `ENERGY_MAX` at
/// the top of the domain.
proof fn lemma_expm1_ends()
    ensures
        expm1_q16_spec(0) == 0,
        expm1_q16_spec(EXPM1_IN_MAX) > ENERGY_MAX,
{
    lemma_sq_iter_one(EXP_STEPS as nat);
    assert(expm1_q16_spec(0) == 0);
    lemma_exp_q32_out_bound();
    assert(EXPM1_IN_MAX as int * crate::AMP_SCALE as int == EXP_IN_MAX as int);
    assert(expm1_q16_spec(EXPM1_IN_MAX) > ENERGY_MAX);
}

/// Fixed-point `ln(1 + e/AMP_SCALE)` at scale `AMP_SCALE`: the exact
/// integer inverse of `expm1_q16`, found by binary search.
pub fn ln1p_q16(e: u64) -> (r: u64)
    requires
        e <= ENERGY_MAX,
    ensures
        ln1p_pins(e, r),
        r == ln1p_q16_spec(e),
{
    proof {
        lemma_expm1_ends();
    }
    let mut lo: u64 = 0;
    let mut hi: u64 = EXPM1_IN_MAX;
    while lo + 1 < hi
        invariant
            lo < hi <= EXPM1_IN_MAX,
            e <= ENERGY_MAX,
            expm1_q16_spec(lo) <= e,
            e < expm1_q16_spec(hi),
        decreases hi - lo,
    {
        let mid: u64 = lo + (hi - lo) / 2;
        if expm1_q16(mid) <= e {
            lo = mid;
        } else {
            hi = mid;
        }
    }
    proof {
        let r = lo;
        assert(ln1p_pins(e, r));
        assert(ln1p_pins(e, ln1p_q16_spec(e)));
        lemma_ln1p_unique(e, r, ln1p_q16_spec(e));
    }
    lo
}

} // verus!
