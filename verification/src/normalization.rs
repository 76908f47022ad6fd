//! Amplitude normalization: log-compress, cube, L1-normalize, then rescale
//! to `[0, AMP_SCALE]`, with explicit guards for silence, a zero sum, and a
//! flat spectrum, so no input can divide by zero.

use vstd::prelude::*;
use vstd::arithmetic::div_mod::lemma_div_is_ordered;
use vstd::arithmetic::div_mod::lemma_div_multiples_vanish;
use vstd::arithmetic::div_mod::lemma_div_pos_is_pos;
use vstd::arithmetic::mul::lemma_mul_inequality;
use crate::fixedmath::ln1p_q16;
use crate::fixedmath::ln1p_q16_spec;
use crate::fixedmath::ENERGY_MAX;
use crate::fixedmath::EXPM1_IN_MAX;
use crate::mel_scale::seq_sum;
use crate::mel_scale::lemma_seq_sum_bound;
use crate::mel_scale::lemma_seq_sum_ge_elem;
use crate::AMP_SCALE;

verus! {

/// The largest value among the first `n` entries (0 when `n <= 0`).
pub open spec fn seq_max(s: Seq<u64>, n: int) -> u64
    decreases n,
{
    if n <= 0 {
        0
    } else {
        let m = seq_max(s, n - 1);
        if s[n - 1] > m {
            s[n - 1]
        } else {
            m
        }
    }
}

/// The smallest value among the first `n` entries (for `n >= 1`).
pub open spec fn seq_min(s: Seq<u64>, n: int) -> u64
    decreases n,
{
    if n <= 1 {
        if n == 1 {
            s[0]
        } else {
            0
        }
    } else {
        let m = seq_min(s, n - 1);
        if s[n - 1] < m {
            s[n - 1]
        } else {
            m
        }
    }
}

/// The maximum dominates every covered entry.
pub proof fn lemma_seq_max_dominates(s: Seq<u64>, n: int)
    requires
        n <= s.len(),
    ensures
        forall|i: int| 0 <= i < n ==> #[trigger] s[i] <= seq_max(s, n),
    decreases n,
{
    if n > 0 {
        lemma_seq_max_dominates(s, n - 1);
    }
}

/// The maximum of a non-empty prefix is attained.
pub proof fn lemma_seq_max_attained(s: Seq<u64>, n: int)
    requires
        1 <= n <= s.len(),
    ensures
        exists|i: int| 0 <= i < n && #[trigger] s[i] == seq_max(s, n),
    decreases n,
{
    if n == 1 {
        assert(seq_max(s, 0) == 0);
        assert(s[0] == seq_max(s, 1));
    } else {
        lemma_seq_max_attained(s, n - 1);
        if s[n - 1] > seq_max(s, n - 1) {
            assert(s[n - 1] == seq_max(s, n));
        } else {
            let i = choose|i: int| 0 <= i < n - 1 && #[trigger] s[i] == seq_max(s, n - 1);
            assert(s[i] == seq_max(s, n));
        }
    }
}

/// The minimum lies below every covered entry.
pub proof fn lemma_seq_min_below(s: Seq<u64>, n: int)
    requires
        n <= s.len(),
    ensures
        forall|i: int| 0 <= i < n ==> seq_min(s, n) <= #[trigger] s[i],
    decreases n,
{
    if n > 1 {
        lemma_seq_min_below(s, n - 1);
    }
}

/// The minimum of a non-empty prefix is attained.
pub proof fn lemma_seq_min_attained(s: Seq<u64>, n: int)
    requires
        1 <= n <= s.len(),
    ensures
        exists|i: int| 0 <= i < n && #[trigger] s[i] == seq_min(s, n),
    decreases n,
{
    if n == 1 {
        assert(s[0] == seq_min(s, 1));
    } else {
        lemma_seq_min_attained(s, n - 1);
        if s[n - 1] < seq_min(s, n - 1) {
            assert(s[n - 1] == seq_min(s, n));
        } else {
            let i = choose|i: int| 0 <= i < n - 1 && #[trigger] s[i] == seq_min(s, n - 1);
            assert(s[i] == seq_min(s, n));
        }
    }
}

/// One band's log-compressed, cubed value: `ln(energy + 1) / max`, clamped
/// to at most 1, then cubed, all at scale `AMP_SCALE`.
pub open spec fn compress_one(a: u64, m: u64) -> u64 {
    let lnv = ln1p_q16_spec(a) as int;
    let v0 = lnv * AMP_SCALE as int / m as int;
    let v = if v0 > AMP_SCALE as int {
        AMP_SCALE as int
    } else {
        v0
    };
    (v * v * v / (AMP_SCALE as int * AMP_SCALE as int)) as u64
}

/// Every band log-compressed and cubed against the raw maximum `m`.
pub open spec fn compressed(a: Seq<u64>, m: u64) -> Seq<u64> {
    Seq::new(a.len(), |i: int| compress_one(a[i], m))
}

/// L1 normalization: each value divided by the total, at scale `AMP_SCALE`.
pub open spec fn l1_scaled(c: Seq<u64>, s: int) -> Seq<u64> {
    Seq::new(c.len(), |i: int| (c[i] as int * AMP_SCALE as int / s) as u64)
}

/// Min-max rescale of `w` from `[lo, hi]` onto `[0, AMP_SCALE]`.
pub open spec fn rescaled(w: Seq<u64>, lo: u64, hi: u64) -> Seq<u64> {
    Seq::new(w.len(), |i: int| ((w[i] - lo) * AMP_SCALE as int / (hi as int - lo as int)) as u64)
}

/// The all-zero vector of a given length.
pub open spec fn zero_seq(n: nat) -> Seq<u64> {
    Seq::new(n, |i: int| 0u64)
}

/// The value `normalize` leaves behind: log-compress and cube against the
/// raw maximum, L1-normalize, then min-max rescale onto `[0, AMP_SCALE]`;
/// silence, a zero compressed total, or a flat normalized vector yield the
/// all-zero vector instead of dividing by zero.
pub open spec fn normalize_spec(a: Seq<u64>) -> Seq<u64> {
    let m = seq_max(a, a.len() as int);
    if m == 0 {
        zero_seq(a.len())
    } else {
        let c = compressed(a, m);
        let total = seq_sum(c, c.len() as int);
        if total == 0 {
            zero_seq(a.len())
        } else {
            let w = l1_scaled(c, total);
            let hi = seq_max(w, w.len() as int);
            let lo = seq_min(w, w.len() as int);
            if hi == lo {
                zero_seq(a.len())
            } else {
                rescaled(w, lo, hi)
            }
        }
    }
}

/// Every compressed value lies in `[0, AMP_SCALE]`.
pub proof fn lemma_compress_one_bounds(a: u64, m: u64)
    requires
        m >= 1,
    ensures
        compress_one(a, m) as int
            == ({
                let lnv = ln1p_q16_spec(a) as int;
                let v0 = lnv * AMP_SCALE as int / m as int;
                let v = if v0 > AMP_SCALE as int { AMP_SCALE as int } else { v0 };
                v * v * v / (AMP_SCALE as int * AMP_SCALE as int)
            }),
        compress_one(a, m) <= AMP_SCALE,
{
    let lnv = ln1p_q16_spec(a) as int;
    let v0 = lnv * AMP_SCALE as int / m as int;
    let v = if v0 > AMP_SCALE as int { AMP_SCALE as int } else { v0 };
    lemma_mul_nonneg_div_pos(lnv, m);
    lemma_cube_bounds(v);
}

/// The clamped value's cube at scale `AMP_SCALE` lies in `[0, AMP_SCALE]`.
proof fn lemma_cube_bounds(v: int)
    requires
        0 <= v <= AMP_SCALE,
    ensures
        0 <= v * v * v / (AMP_SCALE as int * AMP_SCALE as int) <= AMP_SCALE,
        v == AMP_SCALE ==> v * v * v / (AMP_SCALE as int * AMP_SCALE as int) == AMP_SCALE,
{
    let sc = AMP_SCALE as int;
    lemma_mul_inequality(v, sc, v);
    lemma_mul_inequality(v, sc, sc);
    vstd::arithmetic::mul::lemma_mul_nonnegative(v, v);
    lemma_mul_inequality(v * v, sc * sc, v);
    lemma_mul_inequality(v, sc, sc * sc);
    vstd::arithmetic::mul::lemma_mul_nonnegative(v * v, v);
    lemma_div_is_ordered(v * v * v, sc * sc * sc, sc * sc);
    assert(sc * sc * sc == (sc * sc) * sc) by (nonlinear_arith);
    lemma_div_multiples_vanish(sc, sc * sc);
    lemma_div_pos_is_pos(v * v * v, sc * sc);
}

/// A non-negative value divided by a positive one stays non-negative.
proof fn lemma_mul_nonneg_div_pos(lnv: int, m: u64)
    requires
        0 <= lnv,
        m >= 1,
    ensures
        0 <= lnv * AMP_SCALE as int / m as int,
{
    vstd::arithmetic::mul::lemma_mul_nonnegative(lnv, AMP_SCALE as int);
    lemma_div_pos_is_pos(lnv * AMP_SCALE as int, m as int);
}

/// Silence maps to silence: an all-zero input normalizes to all zeros.
pub proof fn lemma_normalize_silence(a: Seq<u64>)
    requires
        forall|i: int| 0 <= i < a.len() ==> #[trigger] a[i] == 0,
    ensures
        normalize_spec(a) == zero_seq(a.len()),
{
    if a.len() > 0 {
        lemma_seq_max_attained(a, a.len() as int);
    }
}

/// On non-degenerate input (no guard fires), every normalized value lies
/// in `[0, AMP_SCALE]`, at least one is exactly 0 and at least one is
/// exactly `AMP_SCALE`.
pub proof fn lemma_normalize_extremes(a: Seq<u64>)
    requires
        a.len() >= 1,
        seq_max(a, a.len() as int) != 0,
        seq_sum(compressed(a, seq_max(a, a.len() as int)), a.len() as int) != 0,
        ({
            let c = compressed(a, seq_max(a, a.len() as int));
            let w = l1_scaled(c, seq_sum(c, a.len() as int));
            seq_max(w, a.len() as int) != seq_min(w, a.len() as int)
        }),
    ensures
        normalize_spec(a).len() == a.len(),
        forall|i: int| 0 <= i < a.len() ==> #[trigger] normalize_spec(a)[i] <= AMP_SCALE,
        exists|i: int| 0 <= i < a.len() && #[trigger] normalize_spec(a)[i] == 0,
        exists|i: int| 0 <= i < a.len() && #[trigger] normalize_spec(a)[i] == AMP_SCALE,
{
    let n = a.len() as int;
    let m = seq_max(a, n);
    let c = compressed(a, m);
    let total = seq_sum(c, n);
    let w = l1_scaled(c, total);
    let hi = seq_max(w, n);
    let lo = seq_min(w, n);
    lemma_seq_max_dominates(w, n);
    lemma_seq_min_below(w, n);
    lemma_seq_max_attained(w, n);
    lemma_seq_min_attained(w, n);
    assert forall|i: int| 0 <= i < n implies #[trigger] normalize_spec(a)[i] <= AMP_SCALE by {
        lemma_rescale_bounds(w[i], lo, hi);
    }
    let imax = choose|i: int| 0 <= i < n && #[trigger] w[i] == hi;
    let imin = choose|i: int| 0 <= i < n && #[trigger] w[i] == lo;
    lemma_rescale_bounds(w[imax], lo, hi);
    lemma_rescale_bounds(w[imin], lo, hi);
    assert(normalize_spec(a)[imax] == AMP_SCALE);
    assert(normalize_spec(a)[imin] == 0);
}

/// A min-max rescaled value lies in `[0, AMP_SCALE]`, is 0 at the minimum
/// and `AMP_SCALE` at the maximum.
pub proof fn lemma_rescale_bounds(x: u64, lo: u64, hi: u64)
    requires
        lo <= x <= hi,
        lo < hi,
    ensures
        0 <= (x - lo) * AMP_SCALE as int / (hi as int - lo as int) <= AMP_SCALE,
        x == hi ==> (x - lo) * AMP_SCALE as int / (hi as int - lo as int) == AMP_SCALE,
        x == lo ==> (x - lo) * AMP_SCALE as int / (hi as int - lo as int) == 0,
{
    let d = hi as int - lo as int;
    lemma_mul_inequality(x as int - lo as int, d, AMP_SCALE as int);
    lemma_div_is_ordered((x as int - lo as int) * AMP_SCALE as int, d * AMP_SCALE as int, d);
    lemma_div_multiples_vanish(AMP_SCALE as int, d);
    vstd::arithmetic::mul::lemma_mul_nonnegative(x as int - lo as int, AMP_SCALE as int);
    lemma_div_pos_is_pos((x as int - lo as int) * AMP_SCALE as int, d);
}

/// Rescales raw band energies into `[0, AMP_SCALE]` for display:
/// log-compress against the loudest band, cube to suppress low energies,
/// L1-normalize, then min-max rescale; silence, a zero total, or a flat
/// vector come out all zero instead of dividing by zero.
pub fn normalize(amplitudes: &mut Vec<u64>)
    requires
        1 <= old(amplitudes)@.len() <= crate::BAND_COUNT_MAX,
        forall|i: int| 0 <= i < old(amplitudes)@.len()
            ==> old(amplitudes)@[i] <= ENERGY_MAX,
    ensures
        final(amplitudes)@ == normalize_spec(old(amplitudes)@),
        final(amplitudes)@.len() == old(amplitudes)@.len(),
        forall|i: int| 0 <= i < final(amplitudes)@.len()
            ==> #[trigger] final(amplitudes)@[i] <= AMP_SCALE,
{
    let ghost orig = amplitudes@;
    let len = amplitudes.len();
    let mut m: u64 = 0;
    let mut i: usize = 0;
    while i < len
        invariant
            i <= len,
            len == orig.len(),
            amplitudes@ == orig,
            m == seq_max(orig, i as int),
        decreases len - i,
    {
        if amplitudes[i] > m {
            m = amplitudes[i];
        }
        i = i + 1;
    }
    if m == 0 {
        let zeros = zero_vec(len);
        *amplitudes = zeros;
        proof {
            assert(amplitudes@ =~= zero_seq(orig.len()));
        }
        return;
    }
    let mut c: Vec<u64> = Vec::new();
    let mut i: usize = 0;
    while i < len
        invariant
            i <= len,
            len == orig.len(),
            1 <= len,
            amplitudes@ == orig,
            m == seq_max(orig, len as int),
            m >= 1,
            forall|j: int| 0 <= j < orig.len() ==> orig[j] <= ENERGY_MAX,
            c@.len() == i,
            forall|j: int| 0 <= j < i ==> #[trigger] c@[j] == compress_one(orig[j], m),
            forall|j: int| 0 <= j < i ==> #[trigger] c@[j] <= AMP_SCALE,
        decreases len - i,
    {
        let lnv: u64 = ln1p_q16(amplitudes[i]);
        proof {
            lemma_mul_inequality(lnv as int, EXPM1_IN_MAX as int, AMP_SCALE as int);
            lemma_mul_nonneg_div_pos(lnv as int, m);
            lemma_compress_one_bounds(orig[i as int], m);
        }
        let v0: u64 = lnv * AMP_SCALE / m;
        let v: u64 = if v0 > AMP_SCALE {
            AMP_SCALE
        } else {
            v0
        };
        proof {
            lemma_cube_bounds(v as int);
            lemma_mul_inequality(v as int, AMP_SCALE as int, v as int);
            lemma_mul_inequality(v as int, AMP_SCALE as int, AMP_SCALE as int);
            lemma_mul_inequality(v as int * v as int, AMP_SCALE as int * AMP_SCALE as int,
                v as int);
            lemma_mul_inequality(v as int, AMP_SCALE as int,
                AMP_SCALE as int * AMP_SCALE as int);
            vstd::arithmetic::mul::lemma_mul_nonnegative(v as int, v as int);
        }
        let cube: u64 = v * v * v / (AMP_SCALE * AMP_SCALE);
        c.push(cube);
        i = i + 1;
    }
    let mut total: u64 = 0;
    let mut i: usize = 0;
    while i < len
        invariant
            i <= len,
            len == orig.len(),
            len <= crate::BAND_COUNT_MAX,
            c@.len() == len,
            forall|j: int| 0 <= j < len ==> #[trigger] c@[j] <= AMP_SCALE,
            total == seq_sum(c@, i as int),
            total <= i * AMP_SCALE as int,
        decreases len - i,
    {
        proof {
            lemma_seq_sum_bound(c@, i as int + 1, AMP_SCALE);
            lemma_mul_inequality(i as int + 1, crate::BAND_COUNT_MAX as int, AMP_SCALE as int);
        }
        total = total + c[i];
        i = i + 1;
    }
    if total == 0 {
        let zeros = zero_vec(len);
        *amplitudes = zeros;
        proof {
            assert(c@ =~= compressed(orig, m));
            assert(amplitudes@ =~= zero_seq(orig.len()));
        }
        return;
    }
    let mut w: Vec<u64> = Vec::new();
    let mut i: usize = 0;
    while i < len
        invariant
            i <= len,
            len == orig.len(),
            c@.len() == len,
            1 <= total,
            total == seq_sum(c@, len as int),
            forall|j: int| 0 <= j < len ==> #[trigger] c@[j] <= AMP_SCALE,
            w@.len() == i,
            forall|j: int| 0 <= j < i
                ==> #[trigger] w@[j] as int == c@[j] as int * AMP_SCALE as int / total as int,
            forall|j: int| 0 <= j < i ==> #[trigger] w@[j] <= AMP_SCALE,
        decreases len - i,
    {
        proof {
            lemma_seq_sum_ge_elem(c@, len as int, i as int);
            lemma_mul_inequality(c@[i as int] as int, total as int, AMP_SCALE as int);
            lemma_div_is_ordered(c@[i as int] as int * AMP_SCALE as int,
                total as int * AMP_SCALE as int, total as int);
            lemma_div_multiples_vanish(AMP_SCALE as int, total as int);
            vstd::arithmetic::mul::lemma_mul_nonnegative(c@[i as int] as int, AMP_SCALE as int);
            lemma_div_pos_is_pos(c@[i as int] as int * AMP_SCALE as int, total as int);
        }
        w.push(c[i] * AMP_SCALE / total);
        i = i + 1;
    }
    let mut hi: u64 = 0;
    let mut i: usize = 0;
    while i < len
        invariant
            i <= len,
            w@.len() == len,
            hi == seq_max(w@, i as int),
        decreases len - i,
    {
        if w[i] > hi {
            hi = w[i];
        }
        i = i + 1;
    }
    let mut lo: u64 = w[0];
    let mut i: usize = 1;
    while i < len
        invariant
            1 <= i <= len,
            w@.len() == len,
            1 <= len,
            lo == seq_min(w@, i as int),
        decreases len - i,
    {
        if w[i] < lo {
            lo = w[i];
        }
        i = i + 1;
    }
    if hi == lo {
        let zeros = zero_vec(len);
        *amplitudes = zeros;
        proof {
            assert(c@ =~= compressed(orig, m));
            assert(w@ =~= l1_scaled(c@, total as int));
            assert(amplitudes@ =~= zero_seq(orig.len()));
        }
        return;
    }
    proof {
        lemma_seq_max_dominates(w@, len as int);
        lemma_seq_min_below(w@, len as int);
    }
    let mut out: Vec<u64> = Vec::new();
    let mut i: usize = 0;
    while i < len
        invariant
            i <= len,
            len == orig.len(),
            w@.len() == len,
            lo < hi,
            lo == seq_min(w@, len as int),
            hi == seq_max(w@, len as int),
            forall|j: int| 0 <= j < len ==> lo <= #[trigger] w@[j] <= hi,
            forall|j: int| 0 <= j < len ==> #[trigger] w@[j] <= AMP_SCALE,
            out@.len() == i,
            forall|j: int| 0 <= j < i
                ==> #[trigger] out@[j] as int
                    == (w@[j] - lo) * AMP_SCALE as int / (hi as int - lo as int),
            forall|j: int| 0 <= j < i ==> #[trigger] out@[j] <= AMP_SCALE,
        decreases len - i,
    {
        proof {
            lemma_rescale_bounds(w@[i as int], lo, hi);
            lemma_mul_inequality(w@[i as int] as int - lo as int, hi as int - lo as int,
                AMP_SCALE as int);
        }
        out.push((w[i] - lo) * AMP_SCALE / (hi - lo));
        i = i + 1;
    }
    *amplitudes = out;
    proof {
        assert(c@ =~= compressed(orig, m));
        assert(w@ =~= l1_scaled(c@, total as int));
        assert(amplitudes@ =~= rescaled(w@, lo, hi));
    }
}

/// An all-zero vector of the given length.
pub(crate) fn zero_vec(len: usize) -> (r: Vec<u64>)
    ensures
        r@ == zero_seq(len as nat),
{
    let mut r: Vec<u64> = Vec::new();
    let mut i: usize = 0;
    while i < len
        invariant
            i <= len,
            r@.len() == i,
            forall|j: int| 0 <= j < i ==> r@[j] == 0,
        decreases len - i,
    {
        r.push(0);
        i = i + 1;
    }
    proof {
        assert(r@ =~= zero_seq(len as nat));
    }
    r
}

/// Linearly maps a value from `[src_min, src_max]` into
/// `[dst_min, dst_max]`.
pub fn map_range(value: u64, src_min: u64, src_max: u64, dst_min: u64, dst_max: u64) -> (r: u64)
    requires
        src_min <= value <= src_max,
        src_min < src_max,
        dst_min <= dst_max,
    ensures
        r as int == dst_min + (value - src_min) * (dst_max - dst_min)
            / (src_max as int - src_min as int),
        dst_min <= r <= dst_max,
{
    proof {
        lemma_mul_inequality(value as int - src_min as int, src_max as int - src_min as int,
            dst_max as int - dst_min as int);
        lemma_div_is_ordered(
            (value as int - src_min as int) * (dst_max as int - dst_min as int),
            (src_max as int - src_min as int) * (dst_max as int - dst_min as int),
            src_max as int - src_min as int,
        );
        lemma_div_multiples_vanish(dst_max as int - dst_min as int,
            src_max as int - src_min as int);
        vstd::arithmetic::mul::lemma_mul_nonnegative(value as int - src_min as int,
            dst_max as int - dst_min as int);
        lemma_div_pos_is_pos(
            (value as int - src_min as int) * (dst_max as int - dst_min as int),
            src_max as int - src_min as int,
        );
        lemma_mul_inequality(value as int - src_min as int, 0xffff_ffff_ffff_ffff,
            dst_max as int - dst_min as int);
        lemma_mul_inequality(dst_max as int - dst_min as int, 0xffff_ffff_ffff_ffff,
            0xffff_ffff_ffff_ffff);
    }
    let scaled: u128 = ((value - src_min) as u128) * ((dst_max - dst_min) as u128)
        / ((src_max - src_min) as u128);
    dst_min + (scaled as u64)
}

} // verus!
