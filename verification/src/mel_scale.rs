//! The mel filter bank: frequency/mel conversions, triangular band filters,
//! band-energy aggregation, and the cross-band triangular smoother.
//!
//! The mel scale is `mel(f) = 1127 * ln(1 + f/700)`, with inverse
//! `freq(m) = 700 * (e^(m/1127) - 1)`. `mel_to_freq` evaluates the inverse
//! through the fixed-point exponential; `freq_to_mel` inverts it exactly on
//! the fixed-point grid by binary search, so the two are mutual inverses up
//! to one grid step.

use vstd::prelude::*;
use vstd::arithmetic::div_mod::lemma_div_is_ordered;
use vstd::arithmetic::div_mod::lemma_div_multiples_vanish;
use vstd::arithmetic::div_mod::lemma_div_pos_is_pos;
use vstd::arithmetic::mul::lemma_mul_inequality;
use crate::fixedmath::EXP_ONE;
use crate::fixedmath::EXP_STEPS;
use crate::fixedmath::EXP_STEP_DIV;
use crate::fixedmath::exp_q32;
use crate::fixedmath::exp_q32_spec;
use crate::fixedmath::sq_iter;
use crate::fixedmath::lemma_exp_q32_mono;
use crate::fixedmath::lemma_sq_iter_one;
use crate::AMP_SCALE;

verus! {

/// The mel-scale slope constant from `mel(f) = 1127 * ln(1 + f/700)`.
pub const MEL_SLOPE: u64 = 1127;

/// The mel-scale knee frequency in Hz from `mel(f) = 1127 * ln(1 + f/700)`.
pub const MEL_KNEE: u64 = 700;

/// Largest mel value the conversions accept, at scale `AMP_SCALE`
/// (the real 9016 = 8 * 1127).
pub const MEL_MAX: u64 = 8 * 1127 * 65536;

/// Largest frequency `mel_to_freq` can return, at scale `AMP_SCALE`.
pub const FREQ_TOP: u64 = 0x1f_d3cd_af01;

/// The squaring chain evaluated at the top of the mel domain.
pub proof fn lemma_exp_mel_top()
    ensures
        sq_iter(EXP_ONE as int + 0x8_0000_0000int / EXP_STEP_DIV as int, EXP_STEPS as nat)
            == 0xba4_c4a3_79ff,
{
    assert(EXP_ONE as int + 0x8_0000_0000int / EXP_STEP_DIV as int == 0x1_0000_8000);
    assert(sq_iter(0x1_0000_8000, 0) == 0x1_0000_8000);
    assert(sq_iter(0x1_0000_8000, 1) == 0x1_0001_0000);
    assert(sq_iter(0x1_0000_8000, 2) == 0x1_0002_0001);
    assert(sq_iter(0x1_0000_8000, 3) == 0x1_0004_0006);
    assert(sq_iter(0x1_0000_8000, 4) == 0x1_0008_001c);
    assert(sq_iter(0x1_0000_8000, 5) == 0x1_0010_0078);
    assert(sq_iter(0x1_0000_8000, 6) == 0x1_0020_01f0);
    assert(sq_iter(0x1_0000_8000, 7) == 0x1_0040_07e0);
    assert(sq_iter(0x1_0000_8000, 8) == 0x1_0080_1fc3);
    assert(sq_iter(0x1_0000_8000, 9) == 0x1_0100_7fa5);
    assert(sq_iter(0x1_0000_8000, 10) == 0x1_0202_0049);
    assert(sq_iter(0x1_0000_8000, 11) == 0x1_0408_0897);
    assert(sq_iter(0x1_0000_8000, 12) == 0x1_0820_51b3);
    assert(sq_iter(0x1_0000_8000, 13) == 0x1_1082_ac95);
    assert(sq_iter(0x1_0000_8000, 14) == 0x1_2215_f170);
    assert(sq_iter(0x1_0000_8000, 15) == 0x1_48b5_b8e3);
    assert(sq_iter(0x1_0000_8000, 16) == 0x1_a612_2ac4);
    assert(sq_iter(0x1_0000_8000, 17) == 0x2_b7df_e648);
    assert(sq_iter(0x1_0000_8000, 18) == 0x7_6391_782d);
    assert(sq_iter(0x1_0000_8000, 19) == 0x36_98ae_6812);
    assert(sq_iter(0x1_0000_8000, 20) == 0xba4_c4a3_79ff);
}

/// The exponential's argument for a mel value: `mel / 1127` rescaled from
/// `AMP_SCALE` to the exponential's own scale.
pub open spec fn mel_exp_arg(mel: u64) -> u64 {
    (mel as int * AMP_SCALE as int / MEL_SLOPE as int) as u64
}

/// The value `mel_to_freq` computes: `700 * (e^(m/1127) - 1)` at scale
/// `AMP_SCALE`, through the fixed-point exponential.
pub open spec fn mel_to_freq_spec(mel: u64) -> int {
    (exp_q32_spec(mel_exp_arg(mel)) - EXP_ONE) * MEL_KNEE as int / AMP_SCALE as int
}

/// The exponential's argument stays in its domain over the mel range, and
/// the exponential itself stays under the mel-domain chain top.
pub proof fn lemma_mel_exp_bounds(mel: u64)
    requires
        mel <= MEL_MAX,
    ensures
        mel_exp_arg(mel) <= 0x8_0000_0000u64,
        EXP_ONE <= exp_q32_spec(mel_exp_arg(mel)) <= 0xba4_c4a3_79ff,
{
    lemma_mul_inequality(mel as int, MEL_MAX as int, AMP_SCALE as int);
    lemma_div_is_ordered(mel as int * AMP_SCALE as int, MEL_MAX as int * AMP_SCALE as int,
        MEL_SLOPE as int);
    let x = mel_exp_arg(mel);
    lemma_div_pos_is_pos(mel as int * AMP_SCALE as int, MEL_SLOPE as int);
    lemma_div_pos_is_pos(x as int, EXP_STEP_DIV as int);
    crate::fixedmath::lemma_sq_iter_ge_one(EXP_ONE + x as int / EXP_STEP_DIV as int,
        EXP_STEPS as nat);
    lemma_div_is_ordered(x as int, 0x8_0000_0000int, EXP_STEP_DIV as int);
    crate::fixedmath::lemma_sq_iter_mono(
        EXP_ONE + x as int / EXP_STEP_DIV as int,
        EXP_ONE as int + 0x8_0000_0000int / EXP_STEP_DIV as int,
        EXP_STEPS as nat,
    );
    lemma_exp_mel_top();
}

/// `mel_to_freq_spec` is non-negative, bounded by `FREQ_TOP`, and monotone.
pub proof fn lemma_mel_to_freq_bounds(mel: u64)
    requires
        mel <= MEL_MAX,
    ensures
        0 <= mel_to_freq_spec(mel) <= FREQ_TOP,
{
    lemma_mel_exp_bounds(mel);
    let e = exp_q32_spec(mel_exp_arg(mel));
    lemma_mul_inequality(e - EXP_ONE, 0xba4_c4a3_79ff - EXP_ONE, MEL_KNEE as int);
    lemma_div_is_ordered((e - EXP_ONE) * MEL_KNEE as int,
        (0xba4_c4a3_79ff - EXP_ONE) * MEL_KNEE as int, AMP_SCALE as int);
    vstd::arithmetic::mul::lemma_mul_nonnegative(e - EXP_ONE, MEL_KNEE as int);
    lemma_div_pos_is_pos((e - EXP_ONE) * MEL_KNEE as int, AMP_SCALE as int);
}

/// `mel_to_freq_spec` is monotone.
pub proof fn lemma_mel_to_freq_mono(m1: u64, m2: u64)
    requires
        m1 <= m2 <= MEL_MAX,
    ensures
        mel_to_freq_spec(m1) <= mel_to_freq_spec(m2),
{
    lemma_mul_inequality(m1 as int, m2 as int, AMP_SCALE as int);
    lemma_div_is_ordered(m1 as int * AMP_SCALE as int, m2 as int * AMP_SCALE as int,
        MEL_SLOPE as int);
    lemma_mel_exp_bounds(m1);
    lemma_mel_exp_bounds(m2);
    lemma_exp_q32_mono(mel_exp_arg(m1), mel_exp_arg(m2));
    let e1 = exp_q32_spec(mel_exp_arg(m1));
    let e2 = exp_q32_spec(mel_exp_arg(m2));
    lemma_mul_inequality(e1 - EXP_ONE, e2 - EXP_ONE, MEL_KNEE as int);
    lemma_div_is_ordered((e1 - EXP_ONE) * MEL_KNEE as int, (e2 - EXP_ONE) * MEL_KNEE as int,
        AMP_SCALE as int);
}

/// Zero mel is zero frequency.
pub proof fn lemma_mel_to_freq_zero()
    ensures
        mel_to_freq_spec(0) == 0,
{
    lemma_sq_iter_one(EXP_STEPS as nat);
}

/// Converts a mel value to a frequency, both at scale `AMP_SCALE`:
/// `700 * (e^(mel/1127) - 1)`.
pub fn mel_to_freq(mel: u64) -> (f: u64)
    requires
        mel <= MEL_MAX,
    ensures
        f == mel_to_freq_spec(mel),
        f <= FREQ_TOP,
{
    proof {
        lemma_mel_exp_bounds(mel);
        lemma_mul_inequality(mel as int, MEL_MAX as int, AMP_SCALE as int);
        lemma_mel_to_freq_bounds(mel);
        lemma_mul_inequality(
            exp_q32_spec(mel_exp_arg(mel)) - EXP_ONE,
            0xba4_c4a3_79ff - EXP_ONE,
            MEL_KNEE as int,
        );
    }
    let e: u64 = exp_q32(mel * AMP_SCALE / MEL_SLOPE);
    (e - EXP_ONE) * MEL_KNEE / AMP_SCALE
}

/// `m` is the exact grid inverse of the frequency `f`: the largest mel
/// value whose frequency does not exceed `f`.
pub open spec fn mel_pins(f: u64, m: u64) -> bool {
    &&& m <= MEL_MAX
    &&& mel_to_freq_spec(m) <= f
    &&& (m == MEL_MAX || f < mel_to_freq_spec((m + 1) as u64))
}

/// The value `freq_to_mel` returns, pinned by `mel_pins`.
pub open spec fn freq_to_mel_spec(f: u64) -> u64 {
    choose|m: u64| mel_pins(f, m)
}

/// At most one mel value satisfies `mel_pins` for a given frequency.
pub proof fn lemma_mel_pins_unique(f: u64, m1: u64, m2: u64)
    requires
        mel_pins(f, m1),
        mel_pins(f, m2),
    ensures
        m1 == m2,
{
    if m1 < m2 {
        lemma_mel_to_freq_mono((m1 + 1) as u64, m2);
    }
    if m2 < m1 {
        lemma_mel_to_freq_mono((m2 + 1) as u64, m1);
    }
}

/// The grid inverse is monotone in the frequency.
pub proof fn lemma_freq_to_mel_mono(f1: u64, f2: u64, m1: u64, m2: u64)
    requires
        f1 <= f2,
        mel_pins(f1, m1),
        mel_pins(f2, m2),
    ensures
        m1 <= m2,
{
    if m2 < m1 {
        lemma_mel_to_freq_mono((m2 + 1) as u64, m1);
    }
}

/// Converts a frequency (scale `AMP_SCALE`) to the mel scale:
/// `1127 * ln(1 + f/700)`, as the largest grid mel value whose
/// `mel_to_freq` does not exceed `f`, found by binary search.
pub fn freq_to_mel(f: u64) -> (m: u64)
    ensures
        mel_pins(f, m),
        m == freq_to_mel_spec(f),
{
    proof {
        lemma_mel_to_freq_zero();
    }
    let mut lo: u64 = 0;
    let mut hi: u64 = MEL_MAX;
    while lo < hi
        invariant
            lo <= hi <= MEL_MAX,
            mel_to_freq_spec(lo) <= f,
            hi == MEL_MAX || f < mel_to_freq_spec((hi + 1) as u64),
        decreases hi - lo,
    {
        let mid: u64 = lo + (hi - lo + 1) / 2;
        if mel_to_freq(mid) <= f {
            lo = mid;
        } else {
            hi = mid - 1;
        }
    }
    proof {
        assert(mel_pins(f, lo));
        assert(mel_pins(f, freq_to_mel_spec(f)));
        lemma_mel_pins_unique(f, lo, freq_to_mel_spec(f));
    }
    lo
}

/// Round trip through the grid: the mel value recovered from a converted
/// frequency is at least the mel value it came from and maps to the same
/// frequency.
pub proof fn lemma_mel_round_trip(m: u64, r: u64)
    requires
        m <= MEL_MAX,
        mel_pins(mel_to_freq_spec(m) as u64, r),
    ensures
        m <= r,
        mel_to_freq_spec(r) == mel_to_freq_spec(m),
{
    lemma_mel_to_freq_bounds(m);
    let f = mel_to_freq_spec(m) as u64;
    if r < m {
        lemma_mel_to_freq_mono((r + 1) as u64, m);
    }
    lemma_mel_to_freq_mono(m, r);
}

/// The bin a frequency falls in: `floor(f * fft_size / sample_rate)`,
/// clamped to the informative half of the spectrum.
pub open spec fn bin_spec(f: u64, sample_rate: u32, fft_size: usize) -> int {
    let raw = f as int * fft_size as int / (sample_rate as int * AMP_SCALE as int);
    if raw > fft_size as int / 2 {
        fft_size as int / 2
    } else {
        raw
    }
}

/// Converts a frequency (scale `AMP_SCALE`) to its spectrum bin, clamped
/// to `[0, fft_size / 2]`.
pub fn freq_to_bin(f: u64, sample_rate: u32, fft_size: usize) -> (bin: usize)
    requires
        1 <= sample_rate,
        2 <= fft_size <= crate::FFT_SIZE_MAX,
        f <= FREQ_TOP,
    ensures
        bin == bin_spec(f, sample_rate, fft_size),
        bin <= fft_size / 2,
{
    proof {
        lemma_mul_inequality(f as int, FREQ_TOP as int, fft_size as int);
        lemma_div_pos_is_pos(f as int * fft_size as int,
            sample_rate as int * AMP_SCALE as int);
    }
    let raw: u64 = f * (fft_size as u64) / ((sample_rate as u64) * AMP_SCALE);
    let half: u64 = (fft_size as u64) / 2;
    if raw > half {
        half as usize
    } else {
        raw as usize
    }
}

/// The bin of a frequency is monotone in the frequency.
pub proof fn lemma_bin_mono(f1: u64, f2: u64, sample_rate: u32, fft_size: usize)
    requires
        f1 <= f2,
        1 <= sample_rate,
        2 <= fft_size,
    ensures
        bin_spec(f1, sample_rate, fft_size) <= bin_spec(f2, sample_rate, fft_size),
{
    lemma_mul_inequality(f1 as int, f2 as int, fft_size as int);
    lemma_div_is_ordered(f1 as int * fft_size as int, f2 as int * fft_size as int,
        sample_rate as int * AMP_SCALE as int);
}

} // verus!

verus! {

/// Sum of the first `n` entries of a sequence.
pub open spec fn seq_sum(s: Seq<u64>, n: int) -> int
    decreases n,
{
    if n <= 0 {
        0
    } else {
        seq_sum(s, n - 1) + s[n - 1]
    }
}

/// A partial sum never exceeds the count times a bound on the entries,
/// and is never negative.
pub proof fn lemma_seq_sum_bound(s: Seq<u64>, n: int, hi: u64)
    requires
        0 <= n <= s.len(),
        forall|i: int| 0 <= i < s.len() ==> s[i] <= hi,
    ensures
        0 <= seq_sum(s, n) <= n * hi,
    decreases n,
{
    if n > 0 {
        lemma_seq_sum_bound(s, n - 1, hi);
        vstd::arithmetic::mul::lemma_mul_is_distributive_sub_other_way(hi as int, n, 1);
    }
}

/// A partial sum dominates every entry it covers.
pub proof fn lemma_seq_sum_ge_elem(s: Seq<u64>, n: int, j: int)
    requires
        0 <= j < n <= s.len(),
    ensures
        seq_sum(s, n) >= s[j],
    decreases n,
{
    lemma_seq_sum_bound(s, j, u64::MAX);
    if j < n - 1 {
        lemma_seq_sum_ge_elem(s, n - 1, j);
    } else {
        lemma_seq_sum_bound(s, n - 1, u64::MAX);
    }
}

/// The unnormalized triangular weight at index `i` of a window of odd
/// width `w`: the center's distance from the window edge minus the
/// index's distance from the center; a single-point window has weight 1.
pub open spec fn kernel_weight(w: int, i: int) -> int {
    let c = (w - 1) / 2;
    if w == 1 {
        1
    } else if i <= c {
        i
    } else {
        2 * c - i
    }
}

/// A triangular smoothing kernel: integer weights over an odd window and
/// their total, the kernel's common denominator. The normalized kernel is
/// `weights[i] / denom`, so it sums to exactly 1.
pub struct Kernel {
    pub weights: Vec<u64>,
    pub denom: u64,
}

impl Kernel {
    /// Well-formed: odd window, triangular weights, and the denominator is
    /// their exact positive total.
    pub open spec fn wf(self) -> bool {
        &&& 1 <= self.weights@.len() <= crate::KERNEL_WIDTH_MAX
        &&& self.weights@.len() % 2 == 1
        &&& forall|i: int| 0 <= i < self.weights@.len()
            ==> self.weights@[i] == kernel_weight(self.weights@.len() as int, i)
        &&& self.denom == seq_sum(self.weights@, self.weights@.len() as int)
        &&& 1 <= self.denom
    }
}

/// Builds the triangular smoothing kernel of a given odd window size:
/// weights fall linearly from the center to zero at the edges, and the
/// denominator normalizes their total to exactly 1.
pub fn triangular_kernel(window_size: usize) -> (k: Kernel)
    requires
        window_size % 2 == 1,
        1 <= window_size <= crate::KERNEL_WIDTH_MAX,
    ensures
        k.wf(),
        k.weights@.len() == window_size,
{
    let mut weights: Vec<u64> = Vec::new();
    let center: usize = (window_size - 1) / 2;
    let mut i: usize = 0;
    while i < window_size
        invariant
            i <= window_size,
            window_size % 2 == 1,
            window_size <= crate::KERNEL_WIDTH_MAX,
            center == (window_size - 1) / 2,
            weights@.len() == i,
            forall|j: int| 0 <= j < i
                ==> weights@[j] == kernel_weight(window_size as int, j),
        decreases window_size - i,
    {
        if window_size == 1 {
            weights.push(1);
        } else if i <= center {
            weights.push(i as u64);
        } else {
            weights.push((2 * center - i) as u64);
        }
        i = i + 1;
    }
    let mut denom: u64 = 0;
    let mut n: usize = 0;
    proof {
        assert forall|j: int| 0 <= j < window_size implies weights@[j] <= 0x8000 by {
            assert(weights@[j] == kernel_weight(window_size as int, j));
        }
    }
    while n < window_size
        invariant
            n <= window_size,
            window_size % 2 == 1,
            window_size <= crate::KERNEL_WIDTH_MAX,
            weights@.len() == window_size,
            forall|j: int| 0 <= j < window_size ==> weights@[j] <= 0x8000,
            forall|j: int| 0 <= j < window_size
                ==> weights@[j] == kernel_weight(window_size as int, j),
            denom == seq_sum(weights@, n as int),
            denom <= n * 0x8000,
        decreases window_size - n,
    {
        proof {
            lemma_seq_sum_bound(weights@, n + 1, 0x8000);
        }
        denom = denom + weights[n];
        n = n + 1;
    }
    proof {
        let c = (window_size - 1) as int / 2;
        if window_size == 1 {
            lemma_seq_sum_ge_elem(weights@, window_size as int, 0);
        } else {
            lemma_seq_sum_ge_elem(weights@, window_size as int, c);
        }
    }
    let k = Kernel { weights, denom };
    proof {
        assert(1 <= k.weights@.len() <= crate::KERNEL_WIDTH_MAX);
        assert(k.weights@.len() % 2 == 1);
        assert(forall|i: int| 0 <= i < k.weights@.len()
            ==> k.weights@[i] == kernel_weight(k.weights@.len() as int, i));
        assert(k.denom == seq_sum(k.weights@, k.weights@.len() as int));
        assert(1 <= k.denom);
    }
    k
}

/// The triangular kernel's testable shape: length as configured, weights
/// non-negative and symmetric about the center, and the normalized weights
/// sum to exactly 1 (the raw weights sum to the denominator).
pub proof fn lemma_kernel_properties(k: Kernel)
    requires
        k.wf(),
    ensures
        forall|i: int| 0 <= i < k.weights@.len() ==> 0 <= #[trigger] k.weights@[i],
        forall|i: int| 0 <= i < k.weights@.len()
            ==> #[trigger] k.weights@[i] == k.weights@[k.weights@.len() - 1 - i],
        seq_sum(k.weights@, k.weights@.len() as int) == k.denom,
        k.denom >= 1,
{
    let w = k.weights@.len() as int;
    assert forall|i: int| 0 <= i < w
        implies #[trigger] k.weights@[i] == k.weights@[w - 1 - i] by {
        assert(k.weights@[i] == kernel_weight(w, i));
        assert(k.weights@[w - 1 - i] == kernel_weight(w, w - 1 - i));
    }
}

} // verus!

verus! {

/// The triangular filter weight of a band with boundary bins
/// `(s, c, e)` at bin `k`, at scale `AMP_SCALE`: 1 at the center bin,
/// linear ramps over `[s, c)` and `(c, e)`, 0 elsewhere. A zero-width ramp
/// contributes only the center bin's weight of 1, so no ramp ever divides
/// by zero.
pub open spec fn tri_weight(s: int, c: int, e: int, k: int) -> int {
    if k == c {
        AMP_SCALE as int
    } else if s <= k < c {
        (k - s) * AMP_SCALE as int / (c - s)
    } else if c < k < e {
        (e - k) * AMP_SCALE as int / (e - c)
    } else {
        0
    }
}

/// Every triangular filter weight lies in `[0, AMP_SCALE]`, is exactly
/// `AMP_SCALE` at the center bin, and is zero outside `[s, e)`.
pub proof fn lemma_tri_weight_bounds(s: int, c: int, e: int, k: int)
    requires
        0 <= s <= c <= e,
    ensures
        0 <= tri_weight(s, c, e, k) <= AMP_SCALE,
        tri_weight(s, c, e, k) == AMP_SCALE <== k == c,
        (k < s || k >= e) && k != c ==> tri_weight(s, c, e, k) == 0,
{
    if k != c && s <= k < c {
        lemma_mul_inequality(k - s, c - s, AMP_SCALE as int);
        lemma_div_is_ordered((k - s) * AMP_SCALE as int, (c - s) * AMP_SCALE as int, c - s);
        lemma_div_multiples_vanish(AMP_SCALE as int, c - s);
        vstd::arithmetic::mul::lemma_mul_nonnegative(k - s, AMP_SCALE as int);
        lemma_div_pos_is_pos((k - s) * AMP_SCALE as int, c - s);
    } else if k != c && c < k < e {
        lemma_mul_inequality(e - k, e - c, AMP_SCALE as int);
        lemma_div_is_ordered((e - k) * AMP_SCALE as int, (e - c) * AMP_SCALE as int, e - c);
        lemma_div_multiples_vanish(AMP_SCALE as int, e - c);
        vstd::arithmetic::mul::lemma_mul_nonnegative(e - k, AMP_SCALE as int);
        lemma_div_pos_is_pos((e - k) * AMP_SCALE as int, e - c);
    }
}

/// The precomputed mel filter bank: `num_bands` triangular weight vectors
/// over a spectrum of `spectrum_len` bins, with the `num_bands + 2`
/// non-decreasing boundary bins they were built from.
pub struct MelScale {
    pub num_bands: usize,
    pub spectrum_len: usize,
    pub bin_points: Vec<usize>,
    pub filters: Vec<Vec<u64>>,
}

impl MelScale {
    /// Well-formed: boundary bins are non-decreasing and inside the
    /// spectrum, and every filter entry is the triangular weight of its
    /// band's boundary bins.
    pub open spec fn wf(self) -> bool {
        &&& 1 <= self.num_bands <= crate::BAND_COUNT_MAX
        &&& 2 <= self.spectrum_len <= crate::FFT_SIZE_MAX / 2 + 1
        &&& self.bin_points@.len() == self.num_bands + 2
        &&& forall|i: int| 0 <= i < self.num_bands + 1
            ==> #[trigger] self.bin_points@[i] <= self.bin_points@[i + 1]
        &&& forall|i: int| 0 <= i < self.num_bands + 2
            ==> #[trigger] self.bin_points@[i] < self.spectrum_len
        &&& self.filters@.len() == self.num_bands
        &&& forall|b: int| 0 <= b < self.num_bands
            ==> #[trigger] self.filters@[b]@.len() == self.spectrum_len
        &&& forall|b: int, k: int| 0 <= b < self.num_bands && 0 <= k < self.spectrum_len
            ==> #[trigger] self.filters@[b]@[k] == tri_weight(
                self.bin_points@[b] as int,
                self.bin_points@[b + 1] as int,
                self.bin_points@[b + 2] as int,
                k,
            )
    }
}

/// The `i`-th of the `num_bands + 2` mel points spaced uniformly between
/// the mel values of the configured frequency bounds.
pub open spec fn mel_point_spec(cfg: crate::PipelineConfig, i: int) -> u64 {
    let lo = freq_to_mel_spec(cfg.min_freq);
    let hi = freq_to_mel_spec(cfg.max_freq);
    (lo as int + i * (hi as int - lo as int) / (cfg.num_bands + 1) as int) as u64
}

/// The boundary bin a mel point falls in.
pub open spec fn boundary_bin_spec(cfg: crate::PipelineConfig, i: int) -> int {
    bin_spec(mel_to_freq_spec(mel_point_spec(cfg, i)) as u64, cfg.sample_rate, cfg.fft_size)
}

impl MelScale {
    /// Builds the filter bank for a valid configuration: converts the
    /// frequency bounds to mel, spaces `num_bands + 2` mel points uniformly
    /// between them, converts each back to a boundary bin, and fills one
    /// triangular weight vector per band.
    pub fn new(config: &crate::PipelineConfig) -> (ms: MelScale)
        requires
            config.valid(),
        ensures
            ms.wf(),
            ms.num_bands == config.num_bands,
            ms.spectrum_len == config.fft_size / 2 + 1,
            forall|i: int| 0 <= i < config.num_bands + 2
                ==> #[trigger] ms.bin_points@[i] == boundary_bin_spec(*config, i),
    {
        let num_bands = config.num_bands;
        let spectrum_len = config.fft_size / 2 + 1;
        let min_mel = freq_to_mel(config.min_freq);
        let max_mel = freq_to_mel(config.max_freq);
        proof {
            lemma_freq_to_mel_mono(config.min_freq, config.max_freq, min_mel, max_mel);
            assert(config.sample_rate >= 1) by {
                assert(config.max_freq * 2 <= (config.sample_rate as u64) * AMP_SCALE);
            }
        }
        let delta: u64 = max_mel - min_mel;
        let divisions: u64 = (num_bands as u64) + 1;
        let mut bin_points: Vec<usize> = Vec::new();
        let mut i: usize = 0;
        while i < num_bands + 2
            invariant
                i <= num_bands + 2,
                config.valid(),
                num_bands == config.num_bands,
                spectrum_len == config.fft_size / 2 + 1,
                min_mel == freq_to_mel_spec(config.min_freq),
                max_mel == freq_to_mel_spec(config.max_freq),
                min_mel <= max_mel <= MEL_MAX,
                delta == max_mel - min_mel,
                divisions == num_bands + 1,
                bin_points@.len() == i,
                forall|j: int| 0 <= j < i
                    ==> #[trigger] bin_points@[j] == boundary_bin_spec(*config, j),
                forall|j: int| 0 <= j < i ==> #[trigger] bin_points@[j] <= config.fft_size / 2,
                forall|j: int| 0 <= j < i - 1
                    ==> #[trigger] bin_points@[j] <= bin_points@[j + 1],
            decreases num_bands + 2 - i,
        {
            proof {
                lemma_mul_inequality(i as int, divisions as int, delta as int);
                lemma_mul_inequality(divisions as int, 65537, delta as int);
                lemma_mul_inequality(delta as int, MEL_MAX as int, 65537);
                lemma_div_is_ordered(i as int * delta as int, divisions as int * delta as int,
                    divisions as int);
                lemma_div_multiples_vanish(delta as int, divisions as int);
                lemma_div_pos_is_pos(i as int * delta as int, divisions as int);
            }
            let mel_i: u64 = min_mel + (i as u64) * delta / divisions;
            proof {
                assert(mel_i == mel_point_spec(*config, i as int));
            }
            let f_i: u64 = mel_to_freq(mel_i);
            let bin_i: usize = freq_to_bin(f_i, config.sample_rate, config.fft_size);
            proof {
                if i >= 1 {
                    let prev = (i - 1) as int;
                    lemma_mul_inequality(prev, i as int, delta as int);
                    lemma_div_is_ordered(prev * delta as int, i as int * delta as int,
                        divisions as int);
                    lemma_div_pos_is_pos(prev * delta as int, divisions as int);
                    lemma_mul_inequality(prev, divisions as int, delta as int);
                    lemma_div_is_ordered(prev * delta as int, divisions as int * delta as int,
                        divisions as int);
                    lemma_div_multiples_vanish(delta as int, divisions as int);
                    let mel_prev = mel_point_spec(*config, prev);
                    lemma_mel_to_freq_mono(mel_prev, mel_i);
                    lemma_mel_to_freq_bounds(mel_prev);
                    lemma_bin_mono(mel_to_freq_spec(mel_prev) as u64, f_i, config.sample_rate,
                        config.fft_size);
                }
            }
            bin_points.push(bin_i);
            i = i + 1;
        }
        let mut filters: Vec<Vec<u64>> = Vec::new();
        let mut b: usize = 0;
        while b < num_bands
            invariant
                b <= num_bands,
                1 <= num_bands <= crate::BAND_COUNT_MAX,
                2 <= spectrum_len <= crate::FFT_SIZE_MAX / 2 + 1,
                bin_points@.len() == num_bands + 2,
                forall|j: int| 0 <= j < num_bands + 2
                    ==> #[trigger] bin_points@[j] < spectrum_len,
                forall|j: int| 0 <= j < num_bands + 1
                    ==> #[trigger] bin_points@[j] <= bin_points@[j + 1],
                filters@.len() == b,
                forall|q: int| 0 <= q < b ==> #[trigger] filters@[q]@.len() == spectrum_len,
                forall|q: int, k: int| 0 <= q < b && 0 <= k < spectrum_len
                    ==> #[trigger] filters@[q]@[k] == tri_weight(
                        bin_points@[q] as int,
                        bin_points@[q + 1] as int,
                        bin_points@[q + 2] as int,
                        k,
                    ),
            decreases num_bands - b,
        {
            let start = bin_points[b];
            let center = bin_points[b + 1];
            let end = bin_points[b + 2];
            proof {
                assert(bin_points@[b as int] <= bin_points@[b as int + 1]);
                assert(bin_points@[b as int + 1] <= bin_points@[b as int + 2]);
            }
            let mut filter: Vec<u64> = Vec::new();
            let mut k: usize = 0;
            while k < spectrum_len
                invariant
                    k <= spectrum_len,
                    filter@.len() == k,
                    forall|j: int| 0 <= j < k ==> filter@[j] == 0,
                decreases spectrum_len - k,
            {
                filter.push(0);
                k = k + 1;
            }
            let mut k: usize = start;
            while k < center
                invariant
                    start <= center <= end < spectrum_len,
                    spectrum_len <= crate::FFT_SIZE_MAX / 2 + 1,
                    start <= k,
                    k <= center,
                    filter@.len() == spectrum_len,
                    forall|j: int| 0 <= j < spectrum_len && !(start <= j < k)
                        ==> filter@[j] == 0,
                    forall|j: int| start <= j < k
                        ==> filter@[j] == tri_weight(start as int, center as int, end as int, j),
                decreases center - k,
            {
                proof {
                    lemma_tri_weight_bounds(start as int, center as int, end as int, k as int);
                }
                filter.set(k, ((k - start) as u64) * AMP_SCALE / ((center - start) as u64));
                k = k + 1;
            }
            let mut k: usize = center + 1;
            while k < end
                invariant
                    start <= center <= end < spectrum_len,
                    spectrum_len <= crate::FFT_SIZE_MAX / 2 + 1,
                    center + 1 <= k,
                    k <= end || k == center + 1,
                    filter@.len() == spectrum_len,
                    forall|j: int| 0 <= j < spectrum_len && !(start <= j < center)
                        && !(center < j < k) ==> filter@[j] == 0,
                    forall|j: int| start <= j < center
                        ==> filter@[j] == tri_weight(start as int, center as int, end as int, j),
                    forall|j: int| center < j < k
                        ==> filter@[j] == tri_weight(start as int, center as int, end as int, j),
                decreases end - k,
            {
                proof {
                    lemma_tri_weight_bounds(start as int, center as int, end as int, k as int);
                }
                filter.set(k, ((end - k) as u64) * AMP_SCALE / ((end - center) as u64));
                k = k + 1;
            }
            filter.set(center, AMP_SCALE);
            proof {
                assert forall|j: int| 0 <= j < spectrum_len
                    implies filter@[j] == tri_weight(start as int, center as int, end as int, j)
                by {
                    lemma_tri_weight_bounds(start as int, center as int, end as int, j);
                }
            }
            filters.push(filter);
            b = b + 1;
        }
        MelScale { num_bands, spectrum_len, bin_points, filters }
    }
}

/// The testable shape of a well-formed filter bank: every weight lies in
/// `[0, AMP_SCALE]`, every band's weight is exactly `AMP_SCALE` at its
/// center bin, and zero outside the band's boundary bins.
pub proof fn lemma_filter_bank_properties(ms: MelScale)
    requires
        ms.wf(),
    ensures
        forall|b: int, k: int| 0 <= b < ms.num_bands && 0 <= k < ms.spectrum_len
            ==> 0 <= #[trigger] ms.filters@[b]@[k] <= AMP_SCALE,
        forall|b: int| 0 <= b < ms.num_bands
            ==> #[trigger] ms.filters@[b]@[ms.bin_points@[b + 1] as int] == AMP_SCALE,
        forall|b: int, k: int| 0 <= b < ms.num_bands && 0 <= k < ms.spectrum_len
            && (k < ms.bin_points@[b] || k >= ms.bin_points@[b + 2])
            && k != ms.bin_points@[b + 1]
            ==> #[trigger] ms.filters@[b]@[k] == 0,
{
    assert forall|b: int, k: int| 0 <= b < ms.num_bands && 0 <= k < ms.spectrum_len
        implies 0 <= #[trigger] ms.filters@[b]@[k] <= AMP_SCALE by {
        lemma_tri_weight_bounds(ms.bin_points@[b] as int, ms.bin_points@[b + 1] as int,
            ms.bin_points@[b + 2] as int, k);
    }
    assert forall|b: int| 0 <= b < ms.num_bands
        implies #[trigger] ms.filters@[b]@[ms.bin_points@[b + 1] as int] == AMP_SCALE by {
        assert(ms.bin_points@[b + 1] < ms.spectrum_len);
    }
    assert forall|b: int, k: int| 0 <= b < ms.num_bands && 0 <= k < ms.spectrum_len
        && (k < ms.bin_points@[b] || k >= ms.bin_points@[b + 2])
        && k != ms.bin_points@[b + 1]
        implies #[trigger] ms.filters@[b]@[k] == 0 by {
        lemma_tri_weight_bounds(ms.bin_points@[b] as int, ms.bin_points@[b + 1] as int,
            ms.bin_points@[b + 2] as int, k);
    }
}

} // verus!

verus! {

/// Sum of the first `n` products `s[i] * w[i]`: the weighted dot product's
/// partial sums, at scale `AMP_SCALE` squared relative to real values.
pub open spec fn weighted_sum(s: Seq<u64>, w: Seq<u64>, n: int) -> int
    decreases n,
{
    if n <= 0 {
        0
    } else {
        weighted_sum(s, w, n - 1) + s[n - 1] * w[n - 1]
    }
}

/// A weighted partial sum of bounded terms is non-negative and at most the
/// count times the product of the bounds.
pub proof fn lemma_weighted_sum_bound(s: Seq<u64>, w: Seq<u64>, n: int, smax: u64, wmax: u64)
    requires
        0 <= n <= s.len(),
        n <= w.len(),
        forall|i: int| 0 <= i < n ==> s[i] <= smax,
        forall|i: int| 0 <= i < n ==> w[i] <= wmax,
    ensures
        0 <= weighted_sum(s, w, n) <= n * (smax as int * wmax as int),
    decreases n,
{
    if n > 0 {
        lemma_weighted_sum_bound(s, w, n - 1, smax, wmax);
        lemma_mul_inequality(s[n - 1] as int, smax as int, w[n - 1] as int);
        lemma_mul_inequality(w[n - 1] as int, wmax as int, smax as int);
        vstd::arithmetic::mul::lemma_mul_nonnegative(s[n - 1] as int, w[n - 1] as int);
        vstd::arithmetic::mul::lemma_mul_is_distributive_sub_other_way(
            smax as int * wmax as int, n, 1);
    }
}

/// A weighted sum over an impulse reduces to the single covered term.
pub proof fn lemma_impulse_weighted_sum(s: Seq<u64>, w: Seq<u64>, n: int, j: int)
    requires
        0 <= n <= s.len(),
        n <= w.len(),
        0 <= j < s.len(),
        forall|i: int| 0 <= i < s.len() && i != j ==> s[i] == 0,
    ensures
        weighted_sum(s, w, n) == if j < n {
            s[j] * w[j]
        } else {
            0
        },
    decreases n,
{
    if n > 0 {
        lemma_impulse_weighted_sum(s, w, n - 1, j);
    }
}

/// An impulse spectrum (a single bin at amplitude 1, every other bin 0)
/// yields a band energy equal to the band's weight at that bin; in
/// particular the energy is non-zero exactly where the filter covers the
/// bin.
pub proof fn lemma_impulse_band_energy(s: Seq<u64>, w: Seq<u64>, j: int)
    requires
        s.len() <= w.len(),
        0 <= j < s.len(),
        s[j] == AMP_SCALE,
        forall|i: int| 0 <= i < s.len() && i != j ==> s[i] == 0,
    ensures
        weighted_sum(s, w, s.len() as int) / AMP_SCALE as int == w[j],
        weighted_sum(s, w, s.len() as int) / AMP_SCALE as int == 0 <==> w[j] == 0,
{
    lemma_impulse_weighted_sum(s, w, s.len() as int, j);
    lemma_div_multiples_vanish(w[j] as int, AMP_SCALE as int);
}

impl MelScale {
    /// Aggregates a magnitude spectrum into one energy per band: the
    /// weighted dot product of the spectrum with each band's filter,
    /// rescaled back to `AMP_SCALE`.
    pub fn map_fft_to_mel(&self, spectrum: &Vec<u64>) -> (energies: Vec<u64>)
        requires
            self.wf(),
            spectrum@.len() == self.spectrum_len,
            forall|i: int| 0 <= i < spectrum@.len() ==> spectrum@[i] <= crate::AMP_MAX,
        ensures
            energies@.len() == self.num_bands,
            forall|b: int| 0 <= b < self.num_bands
                ==> #[trigger] energies@[b] as int
                    == weighted_sum(spectrum@, self.filters@[b]@, spectrum@.len() as int)
                        / AMP_SCALE as int,
            forall|b: int| 0 <= b < self.num_bands
                ==> #[trigger] energies@[b] <= crate::fixedmath::ENERGY_MAX,
    {
        proof {
            lemma_filter_bank_properties(*self);
        }
        let len = spectrum.len();
        let mut energies: Vec<u64> = Vec::new();
        let mut b: usize = 0;
        while b < self.num_bands
            invariant
                self.wf(),
                b <= self.num_bands,
                spectrum@.len() == self.spectrum_len,
                len == self.spectrum_len,
                forall|i: int| 0 <= i < spectrum@.len() ==> spectrum@[i] <= crate::AMP_MAX,
                forall|q: int, k: int| 0 <= q < self.num_bands && 0 <= k < self.spectrum_len
                    ==> #[trigger] self.filters@[q]@[k] <= AMP_SCALE,
                energies@.len() == b,
                forall|q: int| 0 <= q < b
                    ==> #[trigger] energies@[q] as int
                        == weighted_sum(spectrum@, self.filters@[q]@, spectrum@.len() as int)
                            / AMP_SCALE as int,
                forall|q: int| 0 <= q < b
                    ==> #[trigger] energies@[q] <= crate::fixedmath::ENERGY_MAX,
            decreases self.num_bands - b,
        {
            let filter = &self.filters[b];
            let mut acc: u64 = 0;
            let mut k: usize = 0;
            while k < len
                invariant
                    self.wf(),
                    0 <= b < self.num_bands,
                    k <= len,
                    spectrum@.len() == self.spectrum_len,
                    len == self.spectrum_len,
                    filter == &self.filters@[b as int],
                    forall|i: int| 0 <= i < spectrum@.len() ==> spectrum@[i] <= crate::AMP_MAX,
                    forall|q: int, j: int| 0 <= q < self.num_bands && 0 <= j < self.spectrum_len
                        ==> #[trigger] self.filters@[q]@[j] <= AMP_SCALE,
                    acc == weighted_sum(spectrum@, self.filters@[b as int]@, k as int),
                decreases len - k,
            {
                proof {
                    lemma_weighted_sum_bound(spectrum@, self.filters@[b as int]@, k + 1,
                        crate::AMP_MAX, AMP_SCALE);
                    lemma_mul_inequality(k as int + 1, crate::FFT_SIZE_MAX as int / 2 + 1,
                        crate::AMP_MAX as int * AMP_SCALE as int);
                    lemma_mul_inequality(spectrum@[k as int] as int, crate::AMP_MAX as int,
                        filter@[k as int] as int);
                    lemma_mul_inequality(filter@[k as int] as int, AMP_SCALE as int,
                        crate::AMP_MAX as int);
                }
                acc = acc + spectrum[k] * filter[k];
                k = k + 1;
            }
            proof {
                lemma_weighted_sum_bound(spectrum@, self.filters@[b as int]@, len as int,
                    crate::AMP_MAX, AMP_SCALE);
                lemma_mul_inequality(len as int, crate::FFT_SIZE_MAX as int / 2 + 1,
                    crate::AMP_MAX as int * AMP_SCALE as int);
                lemma_div_is_ordered(
                    weighted_sum(spectrum@, self.filters@[b as int]@, len as int),
                    (crate::FFT_SIZE_MAX as int / 2 + 1) * (crate::AMP_MAX as int
                        * AMP_SCALE as int),
                    AMP_SCALE as int,
                );
                lemma_div_pos_is_pos(
                    weighted_sum(spectrum@, self.filters@[b as int]@, len as int),
                    AMP_SCALE as int,
                );
            }
            energies.push(acc / AMP_SCALE);
            b = b + 1;
        }
        energies
    }
}

/// Clamps an index to `[0, len - 1]`: the smoother replicates the edge
/// values instead of wrapping or zero-padding.
pub open spec fn clamp_idx(i: int, len: int) -> int {
    if i < 0 {
        0
    } else if i >= len {
        len - 1
    } else {
        i
    }
}

/// The first `n` terms of the smoothing window at position `i`: each
/// kernel weight times the value at the clamped offset index.
pub open spec fn smooth_sum(v: Seq<u64>, w: Seq<u64>, i: int, n: int) -> int
    decreases n,
{
    if n <= 0 {
        0
    } else {
        smooth_sum(v, w, i, n - 1)
            + v[clamp_idx(i + (n - 1) - (w.len() - 1) as int / 2, v.len() as int)] * w[n - 1]
    }
}

/// The smoothed value at position `i`: the full window divided by the
/// kernel's denominator.
pub open spec fn smooth_at(v: Seq<u64>, k: Kernel, i: int) -> int {
    smooth_sum(v, k.weights@, i, k.weights@.len() as int) / k.denom as int
}

/// A smoothing window of values bounded by `vmax` is non-negative and at
/// most `vmax` times the covered kernel weight.
pub proof fn lemma_smooth_sum_bound(v: Seq<u64>, w: Seq<u64>, i: int, n: int, vmax: u64)
    requires
        v.len() >= 1,
        0 <= n <= w.len(),
        forall|j: int| 0 <= j < v.len() ==> v[j] <= vmax,
    ensures
        0 <= smooth_sum(v, w, i, n) <= vmax as int * seq_sum(w, n),
    decreases n,
{
    if n > 0 {
        lemma_smooth_sum_bound(v, w, i, n - 1, vmax);
        let idx = clamp_idx(i + (n - 1) - (w.len() - 1) as int / 2, v.len() as int);
        lemma_mul_inequality(v[idx] as int, vmax as int, w[n - 1] as int);
        vstd::arithmetic::mul::lemma_mul_nonnegative(v[idx] as int, w[n - 1] as int);
        vstd::arithmetic::mul::lemma_mul_is_distributive_add(vmax as int,
            seq_sum(w, n - 1), w[n - 1] as int);
        lemma_seq_sum_bound(w, n - 1, u64::MAX);
    }
}

impl MelScale {
    /// Smooths the band energies in place with the triangular kernel:
    /// each band becomes the kernel-weighted average of its neighborhood,
    /// with indices clamped to the vector's edges. A weighted average
    /// never exceeds the largest input, so the energy bound is preserved.
    pub fn output_smoothing(&self, values: &mut Vec<u64>, kernel: &Kernel)
        requires
            kernel.wf(),
            1 <= old(values)@.len() <= crate::BAND_COUNT_MAX,
            forall|i: int| 0 <= i < old(values)@.len()
                ==> old(values)@[i] <= crate::fixedmath::ENERGY_MAX,
        ensures
            final(values)@.len() == old(values)@.len(),
            forall|i: int| 0 <= i < final(values)@.len()
                ==> #[trigger] final(values)@[i] as int == smooth_at(old(values)@, *kernel, i),
            forall|i: int| 0 <= i < final(values)@.len()
                ==> #[trigger] final(values)@[i] <= crate::fixedmath::ENERGY_MAX,
    {
        let ghost orig = values@;
        let len = values.len();
        let width = kernel.weights.len();
        let half = width / 2;
        let mut result: Vec<u64> = Vec::new();
        let mut i: usize = 0;
        while i < len
            invariant
                kernel.wf(),
                values@ == orig,
                len == orig.len(),
                1 <= len <= crate::BAND_COUNT_MAX,
                width == kernel.weights@.len(),
                half == (width - 1) as int / 2,
                forall|j: int| 0 <= j < orig.len() ==> orig[j] <= crate::fixedmath::ENERGY_MAX,
                i <= len,
                result@.len() == i,
                forall|j: int| 0 <= j < i
                    ==> #[trigger] result@[j] as int == smooth_at(orig, *kernel, j),
                forall|j: int| 0 <= j < i
                    ==> #[trigger] result@[j] <= crate::fixedmath::ENERGY_MAX,
            decreases len - i,
        {
            let mut acc: u128 = 0;
            let mut k: usize = 0;
            while k < width
                invariant
                    kernel.wf(),
                    values@ == orig,
                    len == orig.len(),
                    1 <= len <= crate::BAND_COUNT_MAX,
                    width == kernel.weights@.len(),
                    half == (width - 1) as int / 2,
                    i < len,
                    k <= width,
                    forall|j: int| 0 <= j < orig.len()
                        ==> orig[j] <= crate::fixedmath::ENERGY_MAX,
                    acc == smooth_sum(orig, kernel.weights@, i as int, k as int),
                decreases width - k,
            {
                proof {
                    lemma_smooth_sum_bound(orig, kernel.weights@, i as int, k + 1,
                        crate::fixedmath::ENERGY_MAX);
                    lemma_seq_sum_bound(kernel.weights@, k + 1, 0x8000);
                    lemma_mul_inequality(seq_sum(kernel.weights@, k + 1),
                        (k + 1) * 0x8000, crate::fixedmath::ENERGY_MAX as int);
                    lemma_mul_inequality(k as int + 1, crate::KERNEL_WIDTH_MAX as int, 0x8000);
                    assert(kernel.weights@[k as int] == kernel_weight(width as int, k as int));
                    assert(kernel.weights@[k as int] <= 0x8000);
                }
                let pos = i + k;
                let idx: usize = if pos < half {
                    0
                } else if pos - half >= len {
                    len - 1
                } else {
                    pos - half
                };
                acc = acc + (values[idx] as u128) * (kernel.weights[k] as u128);
                k = k + 1;
            }
            proof {
                lemma_smooth_sum_bound(orig, kernel.weights@, i as int, width as int,
                    crate::fixedmath::ENERGY_MAX);
                lemma_div_is_ordered(
                    smooth_sum(orig, kernel.weights@, i as int, width as int),
                    crate::fixedmath::ENERGY_MAX as int * kernel.denom as int,
                    kernel.denom as int,
                );
                lemma_div_multiples_vanish(crate::fixedmath::ENERGY_MAX as int,
                    kernel.denom as int);
                lemma_div_pos_is_pos(
                    smooth_sum(orig, kernel.weights@, i as int, width as int),
                    kernel.denom as int,
                );
            }
            result.push((acc / (kernel.denom as u128)) as u64);
            i = i + 1;
        }
        *values = result;
    }
}

} // verus!
