use melviz::AMP_SCALE;
use melviz::ConfigError;
use melviz::PipelineConfig;
use melviz::fixedmath::exp_q32;
use melviz::fixedmath::expm1_q16;
use melviz::fixedmath::ln1p_q16;
use melviz::mel_scale::MelScale;
use melviz::mel_scale::freq_to_bin;
use melviz::mel_scale::freq_to_mel;
use melviz::mel_scale::mel_to_freq;
use melviz::mel_scale::triangular_kernel;
use melviz::normalization::map_range;
use melviz::normalization::normalize;
use melviz::renderer::Color;
use melviz::renderer::ColorMapper;
use melviz::renderer::Renderer;

fn test_config() -> PipelineConfig {
    PipelineConfig {
        fft_size: 2048,
        sample_rate: 44100,
        min_freq: 20 * AMP_SCALE,
        max_freq: 2400 * AMP_SCALE,
        num_bands: 256,
        kernel_width: 25,
    }
}

#[test]
fn config_accepts_valid() {
    assert!(test_config().validate().is_ok());
}

#[test]
fn config_rejects_non_power_of_two_size() {
    let mut cfg = test_config();
    cfg.fft_size = 1000;
    assert_eq!(cfg.validate(), Err(ConfigError::InvalidTransformSize));
    cfg.fft_size = 0;
    assert_eq!(cfg.validate(), Err(ConfigError::InvalidTransformSize));
}

#[test]
fn config_rejects_bad_frequency_range() {
    let mut cfg = test_config();
    cfg.min_freq = cfg.max_freq;
    assert_eq!(cfg.validate(), Err(ConfigError::InvalidFrequencyRange));
    let mut cfg = test_config();
    cfg.min_freq = 0;
    assert_eq!(cfg.validate(), Err(ConfigError::InvalidFrequencyRange));
    let mut cfg = test_config();
    cfg.max_freq = 23000 * AMP_SCALE;
    assert_eq!(cfg.validate(), Err(ConfigError::InvalidFrequencyRange));
}

#[test]
fn config_rejects_zero_bands() {
    let mut cfg = test_config();
    cfg.num_bands = 0;
    assert_eq!(cfg.validate(), Err(ConfigError::InvalidBandCount));
}

#[test]
fn config_rejects_even_kernel() {
    let mut cfg = test_config();
    cfg.kernel_width = 24;
    assert_eq!(cfg.validate(), Err(ConfigError::InvalidKernelWidth));
    cfg.kernel_width = 0;
    assert_eq!(cfg.validate(), Err(ConfigError::InvalidKernelWidth));
}

#[test]
fn kernel_width_five_matches_worked_example() {
    // Unnormalized weights proportional to [0, 0.5, 1, 0.5, 0]; with the
    // common denominator 4 the normalized kernel is [0, 0.25, 0.5, 0.25, 0].
    let k = triangular_kernel(5);
    assert_eq!(k.weights, vec![0, 1, 2, 1, 0]);
    assert_eq!(k.denom, 4);
}

#[test]
fn kernel_is_symmetric_and_sums_to_denominator() {
    for &w in &[1usize, 3, 5, 7, 25, 101] {
        let k = triangular_kernel(w);
        assert_eq!(k.weights.len(), w);
        let sum: u64 = k.weights.iter().sum();
        assert_eq!(sum, k.denom);
        assert!(k.denom >= 1);
        for i in 0..w {
            assert_eq!(k.weights[i], k.weights[w - 1 - i]);
        }
    }
}

#[test]
fn kernel_width_one_is_identity() {
    let k = triangular_kernel(1);
    assert_eq!(k.weights, vec![1]);
    assert_eq!(k.denom, 1);
}

#[test]
fn mel_of_1000_hz_is_near_1000_mel() {
    let m = freq_to_mel(1000 * AMP_SCALE);
    // The true value is about 999.99 mel; the fixed-point grid lands within
    // a quarter of a mel of it.
    assert!(m > 999 * AMP_SCALE + AMP_SCALE / 2);
    assert!(m < 1000 * AMP_SCALE + AMP_SCALE / 2);
}

#[test]
fn mel_round_trip_is_close() {
    for &hz in &[20u64, 100, 440, 1000, 2400, 8000] {
        let f = hz * AMP_SCALE;
        let back = mel_to_freq(freq_to_mel(f));
        // The recovered frequency never overshoots and lands within 1 Hz.
        assert!(back <= f);
        assert!(f - back < AMP_SCALE, "round trip off by {} at {} Hz", f - back, hz);
    }
}

#[test]
fn mel_zero_is_zero() {
    assert_eq!(mel_to_freq(0), 0);
    // The grid inverse of frequency 0 is the largest mel value that still
    // maps to frequency 0, so it maps back to 0 exactly.
    assert_eq!(mel_to_freq(freq_to_mel(0)), 0);
}

#[test]
fn mel_conversions_are_monotone() {
    let mut last_mel = 0;
    for hz in [10u64, 50, 200, 1000, 4000, 16000] {
        let m = freq_to_mel(hz * AMP_SCALE);
        assert!(m >= last_mel);
        last_mel = m;
    }
}

#[test]
fn expm1_and_ln1p_match_known_values() {
    // e - 1 at scale 65536 is about 112607 with the squaring chain.
    assert_eq!(expm1_q16(AMP_SCALE), 112607);
    // ln 2 at scale 65536 is about 45426; the grid inverse lands within 15.
    let l = ln1p_q16(AMP_SCALE);
    assert!(l > 45410 && l < 45460, "ln1p(1.0) = {}", l);
    // The grid inverse of 0 is the top of expm1's zero plateau.
    assert_eq!(expm1_q16(ln1p_q16(0)), 0);
    // exp(1.0) at scale 2^32 is within one part in ten thousand of e.
    let e = exp_q32(0x1_0000_0000);
    assert!(e > 11673000000 && e < 11675000000, "exp(1.0) = {}", e);
}

#[test]
fn freq_to_bin_matches_formula_and_clamps() {
    // floor(2400 / 44100 * 2048) == 111.
    assert_eq!(freq_to_bin(2400 * AMP_SCALE, 44100, 2048), 111);
    assert_eq!(freq_to_bin(0, 44100, 2048), 0);
    // A frequency far above Nyquist clamps to fft_size / 2.
    assert_eq!(freq_to_bin(2_000_000 * AMP_SCALE, 44100, 2048), 1024);
}

#[test]
fn filter_bank_weights_are_triangular() {
    let ms = MelScale::new(&test_config());
    assert_eq!(ms.num_bands, 256);
    assert_eq!(ms.spectrum_len, 1025);
    assert_eq!(ms.bin_points.len(), 258);
    for i in 0..257 {
        assert!(ms.bin_points[i] <= ms.bin_points[i + 1]);
    }
    for b in 0..256 {
        let start = ms.bin_points[b];
        let center = ms.bin_points[b + 1];
        let end = ms.bin_points[b + 2];
        let filter = &ms.filters[b];
        assert_eq!(filter.len(), 1025);
        for k in 0..1025 {
            let w = filter[k];
            assert!(w <= AMP_SCALE);
            if k == center {
                // Weight 1.0 at the center bin, also in degenerate bands.
                assert_eq!(w, AMP_SCALE);
            } else if k < start || k >= end {
                assert_eq!(w, 0);
            }
        }
    }
}

#[test]
fn impulse_spectrum_lights_only_covering_bands() {
    let ms = MelScale::new(&test_config());
    let bin = ms.bin_points[10];
    let mut spectrum = vec![0u64; ms.spectrum_len];
    spectrum[bin] = AMP_SCALE;
    let energies = ms.map_fft_to_mel(&spectrum);
    assert_eq!(energies.len(), 256);
    for b in 0..256 {
        // The energy of an impulse at amplitude 1 is exactly the band's
        // weight at the impulse bin.
        assert_eq!(energies[b], ms.filters[b][bin]);
        assert_eq!(energies[b] == 0, ms.filters[b][bin] == 0);
    }
}

#[test]
fn smoothing_with_width_three_is_identity() {
    let ms = MelScale::new(&test_config());
    let k = triangular_kernel(3);
    let mut values = vec![5u64, 0, 9, 3, 7];
    ms.output_smoothing(&mut values, &k);
    assert_eq!(values, vec![5, 0, 9, 3, 7]);
}

#[test]
fn smoothing_with_width_five_averages_neighbors() {
    let ms = MelScale::new(&test_config());
    let k = triangular_kernel(5);
    let mut values = vec![4u64, 8, 12];
    // out[i] = (v[i-1] + 2 v[i] + v[i+1]) / 4 with edges replicated.
    ms.output_smoothing(&mut values, &k);
    assert_eq!(values, vec![5, 8, 11]);
}

#[test]
fn normalize_keeps_silence_silent() {
    for len in 1..6usize {
        let mut v = vec![0u64; len];
        normalize(&mut v);
        assert_eq!(v, vec![0u64; len]);
    }
}

#[test]
fn normalize_flat_input_is_all_zero() {
    let mut v = vec![7u64, 7, 7];
    normalize(&mut v);
    assert_eq!(v, vec![0, 0, 0]);
}

#[test]
fn normalize_hits_both_extremes() {
    let mut v = vec![100u64, 5000, AMP_SCALE];
    normalize(&mut v);
    assert_eq!(v.len(), 3);
    assert!(v.iter().all(|&x| x <= AMP_SCALE));
    assert!(v.iter().any(|&x| x == 0));
    assert!(v.iter().any(|&x| x == AMP_SCALE));
    assert_eq!(v, vec![0, 77, AMP_SCALE]);
}

#[test]
fn normalize_two_points_span_the_range() {
    let mut v = vec![0u64, AMP_SCALE];
    normalize(&mut v);
    assert_eq!(v, vec![0, AMP_SCALE]);
}

#[test]
fn map_range_maps_linearly() {
    assert_eq!(map_range(5, 0, 10, 0, 100), 50);
    assert_eq!(map_range(0, 0, 10, 20, 40), 20);
    assert_eq!(map_range(10, 0, 10, 20, 40), 40);
}

#[test]
fn pixel_mapper_is_monotone_and_in_range() {
    let bins = Renderer::nearest_mel_bins(10, 4);
    assert_eq!(bins, vec![0, 0, 1, 1, 1, 2, 2, 2, 2, 3]);
    for rows in [1usize, 2, 7, 480] {
        for bands in [1usize, 3, 256] {
            let bins = Renderer::nearest_mel_bins(rows, bands);
            assert_eq!(bins.len(), rows);
            for y in 1..rows {
                assert!(bins[y - 1] <= bins[y]);
            }
            for &b in &bins {
                assert!(b < bands);
            }
        }
    }
}

#[test]
fn color_mapper_is_total_and_monotone() {
    let cm = ColorMapper::new();
    let dark = cm.map_amplitude_to_color(0);
    assert_eq!(dark, Color { red: 0, green: 0, blue: 255 });
    let bright = cm.map_amplitude_to_color(AMP_SCALE);
    assert_eq!(bright, Color { red: 255, green: 255, blue: 0 });
    // Out-of-range amplitudes clamp instead of failing.
    assert_eq!(cm.map_amplitude_to_color(u64::MAX), bright);
    let mut last_red = 0u8;
    for amp in (0..=AMP_SCALE).step_by(1024) {
        let c = cm.map_amplitude_to_color(amp);
        assert!(c.red >= last_red);
        last_red = c.red;
    }
}

#[test]
fn silent_frame_renders_the_zero_color_everywhere() {
    // Transform size 8: 8 zero samples give a zero magnitude spectrum of
    // 5 informative bins; every band energy is zero, the normalizer's
    // silence guard fires, and every row shows the color for amplitude 0.
    let cfg = PipelineConfig {
        fft_size: 8,
        sample_rate: 44100,
        min_freq: 20 * AMP_SCALE,
        max_freq: 2400 * AMP_SCALE,
        num_bands: 3,
        kernel_width: 3,
    };
    assert!(cfg.validate().is_ok());
    let mut r = Renderer::new(&cfg, 16);
    let spectrum = vec![0u64; 5];
    r.update(&spectrum);
    assert_eq!(r.amplitudes, vec![0, 0, 0]);
    let colors = r.render(16);
    assert_eq!(colors.len(), 16);
    let zero_color = ColorMapper::new().map_amplitude_to_color(0);
    for c in colors {
        assert_eq!(c, zero_color);
    }
}

#[test]
fn renderer_rebuilds_row_map_on_resize() {
    let mut r = Renderer::new(&test_config(), 100);
    assert_eq!(r.nearest_mel_bins.len(), 100);
    r.on_window_resize(50);
    assert_eq!(r.nearest_mel_bins.len(), 50);
    let colors = r.render(75);
    assert_eq!(colors.len(), 75);
    assert_eq!(r.nearest_mel_bins.len(), 75);
}

#[test]
fn update_produces_bounded_amplitudes() {
    let mut r = Renderer::new(&test_config(), 100);
    let mut spectrum = vec![0u64; 1025];
    for (i, s) in spectrum.iter_mut().enumerate() {
        *s = ((i as u64 * 37) % 900) * 64;
    }
    r.update(&spectrum);
    assert_eq!(r.amplitudes.len(), 256);
    assert!(r.amplitudes.iter().all(|&a| a <= AMP_SCALE));
}
