//! A verified digital-signal-processing core for an audio spectrum display.
//!
//! The pipeline turns a magnitude spectrum into a bounded amplitude vector
//! and a per-row color sequence: mel-scale band aggregation, triangular
//! cross-band smoothing, amplitude normalization, and pixel/color mapping.
//! All arithmetic is fixed-point: a quantity `q` of scale `AMP_SCALE`
//! stands for the real number `q / AMP_SCALE`.

use vstd::prelude::*;

pub mod fixedmath;
pub mod mel_scale;
pub mod normalization;
pub mod renderer;

verus! {

/// Fixed-point scale: a stored value `q` stands for the real `q / AMP_SCALE`.
pub const AMP_SCALE: u64 = 65536;

/// Largest magnitude the pipeline accepts per spectrum bin (in `AMP_SCALE`
/// units), so that weighted sums over a whole spectrum fit in 64 bits.
pub const AMP_MAX: u64 = 0x4000_0000;

/// Largest transform size the pipeline accepts.
pub const FFT_SIZE_MAX: usize = 65536;

/// Largest band count the pipeline accepts.
pub const BAND_COUNT_MAX: usize = 65536;

/// Largest smoothing-kernel width the pipeline accepts.
pub const KERNEL_WIDTH_MAX: usize = 65535;

/// True when `n` is a power of two.
pub open spec fn is_power_of_two(n: nat) -> bool
    decreases n,
{
    if n < 2 {
        n == 1
    } else {
        n % 2 == 0 && is_power_of_two(n / 2)
    }
}

/// Pipeline configuration, fixed at startup. Frequencies are in Hz at scale
/// `AMP_SCALE` (so `min_freq == 20 * AMP_SCALE` means 20 Hz).
pub struct PipelineConfig {
    pub fft_size: usize,
    pub sample_rate: u32,
    pub min_freq: u64,
    pub max_freq: u64,
    pub num_bands: usize,
    pub kernel_width: usize,
}

/// A reason the configuration is rejected at startup.
#[derive(Clone, Copy, PartialEq, Eq, Structural, Debug)]
pub enum ConfigError {
    /// The transform size is not a power of two of at least 2, or too large.
    InvalidTransformSize,
    /// The frequency range violates `0 < min < max <= sample_rate / 2`.
    InvalidFrequencyRange,
    /// The band count is zero or too large.
    InvalidBandCount,
    /// The kernel width is even, zero, or too large.
    InvalidKernelWidth,
}

impl PipelineConfig {
    /// The startup constraints: power-of-two transform size, ordered
    /// positive frequency range below Nyquist, at least one band, odd
    /// kernel width, and machine size caps.
    pub open spec fn valid(self) -> bool {
        &&& 2 <= self.fft_size <= FFT_SIZE_MAX
        &&& is_power_of_two(self.fft_size as nat)
        &&& 0 < self.min_freq
        &&& self.min_freq < self.max_freq
        &&& self.max_freq * 2 <= (self.sample_rate as u64) * AMP_SCALE
        &&& 1 <= self.num_bands <= BAND_COUNT_MAX
        &&& self.kernel_width % 2 == 1
        &&& self.kernel_width <= KERNEL_WIDTH_MAX
    }

    /// The error reported for an invalid configuration: the first failing
    /// constraint in the order transform size, frequency range, band count,
    /// kernel width.
    pub open spec fn first_failure(self) -> ConfigError {
        if !(2 <= self.fft_size <= FFT_SIZE_MAX && is_power_of_two(self.fft_size as nat)) {
            ConfigError::InvalidTransformSize
        } else if !(0 < self.min_freq && self.min_freq < self.max_freq
            && self.max_freq * 2 <= (self.sample_rate as u64) * AMP_SCALE) {
            ConfigError::InvalidFrequencyRange
        } else if !(1 <= self.num_bands <= BAND_COUNT_MAX) {
            ConfigError::InvalidBandCount
        } else {
            ConfigError::InvalidKernelWidth
        }
    }

    /// Checks every startup constraint; `Ok` exactly on valid configurations,
    /// and the error names the first failing constraint.
    pub fn validate(&self) -> (r: Result<(), ConfigError>)
        ensures
            r is Ok <==> self.valid(),
            r is Err ==> r->Err_0 == self.first_failure(),
    {
        if !(2 <= self.fft_size && self.fft_size <= FFT_SIZE_MAX && Self::check_power_of_two(self.fft_size)) {
            Err(ConfigError::InvalidTransformSize)
        } else if !(0 < self.min_freq && self.min_freq < self.max_freq
            && self.max_freq <= u64::MAX / 2
            && self.max_freq * 2 <= (self.sample_rate as u64) * AMP_SCALE) {
            Err(ConfigError::InvalidFrequencyRange)
        } else if !(1 <= self.num_bands && self.num_bands <= BAND_COUNT_MAX) {
            Err(ConfigError::InvalidBandCount)
        } else if !(self.kernel_width % 2 == 1 && self.kernel_width <= KERNEL_WIDTH_MAX) {
            Err(ConfigError::InvalidKernelWidth)
        } else {
            Ok(())
        }
    }

    /// Decides `is_power_of_two` by repeated halving.
    pub fn check_power_of_two(n: usize) -> (r: bool)
        ensures
            r == is_power_of_two(n as nat),
    {
        let mut m: usize = n;
        loop
            invariant
                is_power_of_two(n as nat) == is_power_of_two(m as nat),
            decreases m,
        {
            if m < 2 {
                return m == 1;
            }
            if m % 2 != 0 {
                return false;
            }
            m = m / 2;
        }
    }
}

} // verus!
