//! Band-to-pixel mapping and color encoding: each output row maps to its
//! nearest mel band (rows map to descending band index, band 0 at the
//! bottom), and each normalized amplitude maps to a deterministic color
//! whose red channel grows with the amplitude.

use vstd::prelude::*;
use vstd::arithmetic::div_mod::lemma_div_is_ordered;
use vstd::arithmetic::div_mod::lemma_div_pos_is_pos;
use vstd::arithmetic::mul::lemma_mul_inequality;
use crate::mel_scale::Kernel;
use crate::mel_scale::MelScale;
use crate::mel_scale::smooth_at;
use crate::mel_scale::triangular_kernel;
use crate::mel_scale::weighted_sum;
use crate::normalization::normalize;
use crate::normalization::normalize_spec;
use crate::normalization::zero_vec;
use crate::normalization::zero_seq;
use crate::AMP_SCALE;

verus! {

/// Largest output row count the pixel mapper accepts.
pub const PIXELS_MAX: usize = 1048576;

/// The mel band displayed on row `y` of `rows`: `round(y/rows * (bands-1))`,
/// clamped to `[0, bands - 1]`.
pub open spec fn pixel_band(y: int, rows: int, bands: int) -> int {
    let raw = (2 * y * (bands - 1) + rows) / (2 * rows);
    if raw > bands - 1 {
        bands - 1
    } else {
        raw
    }
}

/// The pixel mapper is monotone: a lower row never maps to a higher band.
pub proof fn lemma_pixel_map_monotone(y1: int, y2: int, rows: int, bands: int)
    requires
        0 <= y1 <= y2,
        1 <= rows,
        1 <= bands,
    ensures
        pixel_band(y1, rows, bands) <= pixel_band(y2, rows, bands),
{
    lemma_mul_inequality(2 * y1, 2 * y2, bands - 1);
    lemma_div_is_ordered(2 * y1 * (bands - 1) + rows, 2 * y2 * (bands - 1) + rows, 2 * rows);
}

/// Every mapped band index is valid.
pub proof fn lemma_pixel_band_in_range(y: int, rows: int, bands: int)
    requires
        0 <= y,
        1 <= rows,
        1 <= bands,
    ensures
        0 <= pixel_band(y, rows, bands) < bands,
{
    vstd::arithmetic::mul::lemma_mul_nonnegative(2 * y, bands - 1);
    lemma_div_pos_is_pos(2 * y * (bands - 1) + rows, 2 * rows);
}

/// A display color.
#[derive(Clone, Copy, PartialEq, Eq, Structural, Debug)]
pub struct Color {
    pub red: u8,
    pub green: u8,
    pub blue: u8,
}

/// A normalized amplitude's channel intensity: the amplitude clamped to
/// `[0, AMP_SCALE]` and mapped linearly onto `[0, 255]`.
pub open spec fn color_intensity(amp: u64) -> int {
    let cl = if amp > AMP_SCALE {
        AMP_SCALE as int
    } else {
        amp as int
    };
    cl * 255 / AMP_SCALE as int
}

/// The color for a normalized amplitude: red rises linearly with the
/// amplitude, green rises quadratically, blue falls, so louder bands are
/// warmer and brighter in red.
pub open spec fn color_of(amp: u64) -> Color {
    let i = color_intensity(amp);
    Color { red: i as u8, green: (i * i / 255) as u8, blue: (255 - i) as u8 }
}

/// The channel intensity lies in `[0, 255]`.
pub proof fn lemma_color_intensity_bounds(amp: u64)
    ensures
        0 <= color_intensity(amp) <= 255,
{
    let cl = if amp > AMP_SCALE {
        AMP_SCALE as int
    } else {
        amp as int
    };
    lemma_mul_inequality(cl, AMP_SCALE as int, 255);
    lemma_div_is_ordered(cl * 255, AMP_SCALE as int * 255, AMP_SCALE as int);
    vstd::arithmetic::mul::lemma_mul_nonnegative(cl, 255);
    lemma_div_pos_is_pos(cl * 255, AMP_SCALE as int);
}

/// The color map is monotone in the red channel: a louder band is at
/// least as red.
pub proof fn lemma_color_monotone(a1: u64, a2: u64)
    requires
        a1 <= a2,
    ensures
        color_of(a1).red <= color_of(a2).red,
{
    let c1 = if a1 > AMP_SCALE {
        AMP_SCALE as int
    } else {
        a1 as int
    };
    let c2 = if a2 > AMP_SCALE {
        AMP_SCALE as int
    } else {
        a2 as int
    };
    lemma_mul_inequality(c1, c2, 255);
    lemma_div_is_ordered(c1 * 255, c2 * 255, AMP_SCALE as int);
    lemma_color_intensity_bounds(a1);
    lemma_color_intensity_bounds(a2);
}

/// Maps normalized amplitudes to display colors, deterministically and for
/// every input (out-of-range amplitudes are clamped, never an error).
pub struct ColorMapper {}

impl ColorMapper {
    /// A color mapper with the fixed warm-over-cold palette.
    pub fn new() -> (cm: ColorMapper) {
        ColorMapper {}
    }

    /// The color for a normalized amplitude at scale `AMP_SCALE`.
    pub fn map_amplitude_to_color(&self, amp: u64) -> (c: Color)
        ensures
            c == color_of(amp),
    {
        proof {
            lemma_color_intensity_bounds(amp);
        }
        let cl: u64 = if amp > AMP_SCALE {
            AMP_SCALE
        } else {
            amp
        };
        let intensity: u64 = cl * 255 / AMP_SCALE;
        proof {
            assert(intensity <= 255);
            assert(intensity * intensity <= 255 * 255) by (nonlinear_arith)
                requires
                    intensity <= 255,
            ;
        }
        let gsq: u64 = intensity * intensity / 255;
        Color { red: intensity as u8, green: gsq as u8, blue: (255 - intensity) as u8 }
    }
}

/// The per-band energies of a spectrum under a filter bank, at scale
/// `AMP_SCALE`.
pub open spec fn band_energies_spec(ms: MelScale, s: Seq<u64>) -> Seq<u64> {
    Seq::new(ms.num_bands as nat, |b: int| (weighted_sum(s, ms.filters@[b]@, s.len() as int)
        / AMP_SCALE as int) as u64)
}

/// A band-energy vector smoothed by a kernel, entry by entry.
pub open spec fn smoothed_spec(v: Seq<u64>, k: Kernel) -> Seq<u64> {
    Seq::new(v.len(), |i: int| smooth_at(v, k, i) as u64)
}

/// The per-frame display pipeline: the precomputed filter bank and kernel,
/// the last normalized amplitude vector, and the row-to-band map for the
/// current output height.
pub struct Renderer {
    pub mel_scale: MelScale,
    pub color_mapper: ColorMapper,
    pub kernel: Kernel,
    pub amplitudes: Vec<u64>,
    pub nearest_mel_bins: Vec<usize>,
}

impl Renderer {
    /// Well-formed: the filter bank and kernel are well-formed, one bounded
    /// amplitude per band, and the row map matches its own length.
    pub open spec fn wf(self) -> bool {
        &&& self.mel_scale.wf()
        &&& self.kernel.wf()
        &&& self.amplitudes@.len() == self.mel_scale.num_bands
        &&& forall|i: int| 0 <= i < self.amplitudes@.len()
            ==> #[trigger] self.amplitudes@[i] <= AMP_SCALE
        &&& self.nearest_mel_bins@.len() <= PIXELS_MAX
        &&& forall|y: int| 0 <= y < self.nearest_mel_bins@.len()
            ==> #[trigger] self.nearest_mel_bins@[y] as int == pixel_band(y,
                self.nearest_mel_bins@.len() as int, self.mel_scale.num_bands as int)
        &&& forall|y: int| 0 <= y < self.nearest_mel_bins@.len()
            ==> #[trigger] self.nearest_mel_bins@[y] < self.mel_scale.num_bands
    }

    /// The row-to-band map for a given output height: each row's nearest
    /// band index.
    pub fn nearest_mel_bins(num_pixels: usize, num_mel_bands: usize) -> (bins: Vec<usize>)
        requires
            1 <= num_mel_bands <= crate::BAND_COUNT_MAX,
            num_pixels <= PIXELS_MAX,
        ensures
            bins@.len() == num_pixels,
            forall|y: int| 0 <= y < num_pixels
                ==> #[trigger] bins@[y] as int == pixel_band(y, num_pixels as int,
                    num_mel_bands as int),
            forall|y: int| 0 <= y < num_pixels ==> #[trigger] bins@[y] < num_mel_bands,
        {
        let mut bins: Vec<usize> = Vec::new();
        let mut y: usize = 0;
        while y < num_pixels
            invariant
                y <= num_pixels,
                num_pixels <= PIXELS_MAX,
                1 <= num_mel_bands <= crate::BAND_COUNT_MAX,
                bins@.len() == y,
                forall|j: int| 0 <= j < y
                    ==> #[trigger] bins@[j] as int == pixel_band(j, num_pixels as int,
                        num_mel_bands as int),
                forall|j: int| 0 <= j < y ==> #[trigger] bins@[j] < num_mel_bands,
            decreases num_pixels - y,
        {
            proof {
                lemma_mul_inequality(2 * y as int, 2 * PIXELS_MAX as int,
                    num_mel_bands as int - 1);
                lemma_mul_inequality(num_mel_bands as int - 1, crate::BAND_COUNT_MAX as int,
                    2 * PIXELS_MAX as int);
                vstd::arithmetic::mul::lemma_mul_nonnegative(2 * y as int,
                    num_mel_bands as int - 1);
                lemma_div_pos_is_pos(2 * y as int * (num_mel_bands as int - 1)
                    + num_pixels as int, 2 * num_pixels as int);
            }
            let raw: u64 = (2 * (y as u64) * ((num_mel_bands - 1) as u64) + (num_pixels as u64))
                / (2 * (num_pixels as u64));
            let band: u64 = if raw > (num_mel_bands - 1) as u64 {
                (num_mel_bands - 1) as u64
            } else {
                raw
            };
            bins.push(band as usize);
            y = y + 1;
        }
        bins
    }

    /// A renderer for a valid configuration and an initial output height:
    /// silence until the first frame arrives.
    pub fn new(config: &crate::PipelineConfig, num_pixels: usize) -> (r: Renderer)
        requires
            config.valid(),
            num_pixels <= PIXELS_MAX,
        ensures
            r.wf(),
            r.mel_scale.num_bands == config.num_bands,
            r.mel_scale.spectrum_len == config.fft_size / 2 + 1,
            forall|i: int| 0 <= i < config.num_bands + 2
                ==> #[trigger] r.mel_scale.bin_points@[i] as int
                    == crate::mel_scale::boundary_bin_spec(*config, i),
            r.kernel.weights@.len() == config.kernel_width,
            r.amplitudes@ == zero_seq(config.num_bands as nat),
            r.nearest_mel_bins@.len() == num_pixels,
    {
        let mel_scale = MelScale::new(config);
        let color_mapper = ColorMapper::new();
        let kernel = triangular_kernel(config.kernel_width);
        let amplitudes = zero_vec(config.num_bands);
        let nearest_mel_bins = Renderer::nearest_mel_bins(num_pixels, config.num_bands);
        Renderer { mel_scale, color_mapper, kernel, amplitudes, nearest_mel_bins }
    }

    /// Rebuilds the row-to-band map for a new output height; nothing else
    /// changes.
    pub fn on_window_resize(&mut self, new_height: usize)
        requires
            old(self).wf(),
            new_height <= PIXELS_MAX,
        ensures
            final(self).wf(),
            final(self).nearest_mel_bins@.len() == new_height,
            final(self).mel_scale == old(self).mel_scale,
            final(self).kernel == old(self).kernel,
            final(self).amplitudes == old(self).amplitudes,
    {
        self.nearest_mel_bins = Renderer::nearest_mel_bins(new_height, self.mel_scale.num_bands);
    }

    /// One frame's analysis: aggregates the magnitude spectrum into band
    /// energies, smooths them across bands, and normalizes them into
    /// `[0, AMP_SCALE]`; the result is exactly the composed pipeline.
    pub fn update(&mut self, spectrum: &Vec<u64>)
        requires
            old(self).wf(),
            spectrum@.len() == old(self).mel_scale.spectrum_len,
            forall|i: int| 0 <= i < spectrum@.len() ==> spectrum@[i] <= crate::AMP_MAX,
        ensures
            final(self).wf(),
            final(self).mel_scale == old(self).mel_scale,
            final(self).kernel == old(self).kernel,
            final(self).nearest_mel_bins == old(self).nearest_mel_bins,
            final(self).amplitudes@ == normalize_spec(smoothed_spec(band_energies_spec(
                old(self).mel_scale, spectrum@), old(self).kernel)),
    {
        let mut vals = self.mel_scale.map_fft_to_mel(spectrum);
        proof {
            assert(vals@ =~= band_energies_spec(self.mel_scale, spectrum@));
        }
        self.mel_scale.output_smoothing(&mut vals, &self.kernel);
        proof {
            assert(vals@ =~= smoothed_spec(band_energies_spec(self.mel_scale, spectrum@),
                self.kernel));
        }
        normalize(&mut vals);
        self.amplitudes = vals;
    }

    /// One frame's colors, one per output row, top row first: row `y` shows
    /// band `num_bands - 1 - pixel_band(y)`, so band 0 sits at the bottom.
    /// The row map is rebuilt first if the output height changed.
    pub fn render(&mut self, num_pixels: usize) -> (colors: Vec<Color>)
        requires
            old(self).wf(),
            num_pixels <= PIXELS_MAX,
        ensures
            final(self).wf(),
            final(self).mel_scale == old(self).mel_scale,
            final(self).kernel == old(self).kernel,
            final(self).amplitudes == old(self).amplitudes,
            final(self).nearest_mel_bins@.len() == num_pixels,
            colors@.len() == num_pixels,
            forall|y: int| 0 <= y < num_pixels
                ==> #[trigger] colors@[y] == color_of(final(self).amplitudes@[
                    final(self).mel_scale.num_bands - 1 - pixel_band(y, num_pixels as int,
                        final(self).mel_scale.num_bands as int)]),
    {
        if self.nearest_mel_bins.len() != num_pixels {
            self.on_window_resize(num_pixels);
        }
        let num_bands = self.mel_scale.num_bands;
        let mut colors: Vec<Color> = Vec::new();
        let mut y: usize = 0;
        while y < num_pixels
            invariant
                self.wf(),
                y <= num_pixels,
                num_bands == self.mel_scale.num_bands,
                self.nearest_mel_bins@.len() == num_pixels,
                self.amplitudes@.len() == num_bands,
                colors@.len() == y,
                forall|j: int| 0 <= j < y
                    ==> #[trigger] colors@[j] == color_of(self.amplitudes@[
                        num_bands - 1 - pixel_band(j, num_pixels as int, num_bands as int)]),
            decreases num_pixels - y,
        {
            let bin = self.nearest_mel_bins[y];
            let amp = self.amplitudes[num_bands - 1 - bin];
            let color = self.color_mapper.map_amplitude_to_color(amp);
            colors.push(color);
            y = y + 1;
        }
        colors
    }
}

} // verus!
