use audio_analysis::beats::{debounce_beats, detect_beats, Beat};
use audio_analysis::bpm::{accept_bpm, estimate_bpm, DEFAULT_BPM_MILLI};
use audio_analysis::config::BpmConfig;
use audio_analysis::error::AnalysisError;
use audio_analysis::services::{AudioAnalysisService, SpectrogramBpmAnalysisService};
use audio_analysis::spectrogram::{generate_spectrogram, window_starts, Spectrogram};
use spectrum_analyzer::scaling::divide_by_N_sqrt;
use spectrum_analyzer::windows::hann_window;
use spectrum_analyzer::{samples_fft_to_spectrum, FrequencyLimit};

fn transforms(samples: &[f32], sample_rate: u32, config: &BpmConfig) -> (Vec<u64>, Vec<Option<Vec<u32>>>) {
    let starts = window_starts(samples.len(), config.window_size, config.hop_size).unwrap();
    let mut freqs = Vec::new();
    let mut out = Vec::new();
    for start in starts {
        let end = (start + config.window_size).min(samples.len());
        let mut chunk = samples[start..end].to_vec();
        chunk.resize(config.window_size, 0.0);
        let windowed = hann_window(&chunk);
        let spectrum = samples_fft_to_spectrum(
            &windowed,
            sample_rate,
            FrequencyLimit::Range(config.low_freq_cutoff as f32, config.high_freq_cutoff as f32),
            Some(&divide_by_N_sqrt),
        );
        let row = spectrum.ok().map(|s| {
            if freqs.is_empty() {
                freqs = s.data().iter().map(|(f, _)| (f.val() * 1000.0).round() as u64).collect();
            }
            s.data()
                .iter()
                .map(|(_, m)| (m.val() * 1_000_000.0).min(u32::MAX as f32) as u32)
                .collect::<Vec<u32>>()
        });
        out.push(row);
    }
    (freqs, out)
}

fn spectrogram_of(samples: &[f32], sample_rate: u32, config: &BpmConfig) -> Spectrogram {
    let (freqs, t) = transforms(samples, sample_rate, config);
    generate_spectrogram(samples.len(), sample_rate, config, freqs.len(), freqs, t).unwrap()
}

fn click_track(sample_rate: u32, clicks: usize, spacing_s: f32) -> Vec<f32> {
    let spacing = (spacing_s * sample_rate as f32) as usize;
    let mut samples = vec![0.0f32; spacing * clicks + sample_rate as usize];
    for c in 0..clicks {
        let at = c * spacing;
        for k in 0..441 {
            let t = k as f32 / sample_rate as f32;
            let decay = (-(k as f32) / 80.0).exp();
            samples[at + k] += decay * (2.0 * std::f32::consts::PI * 100.0 * t).sin();
        }
    }
    samples
}

fn beats_at(times_us: &[u64]) -> Vec<Beat> {
    times_us
        .iter()
        .enumerate()
        .map(|(i, &t)| Beat {
            frame: i,
            timestamp_us: t,
            energy: 10,
            dominant_bin: 0,
            dominant_freq_mhz: 50_000,
            confidence_permille: 1000,
        })
        .collect()
}

fn grid(frames: Vec<Vec<u32>>) -> Spectrogram {
    let bins = frames[0].len();
    Spectrogram {
        frames,
        bins,
        bin_freqs_mhz: (0..bins as u64).map(|b| 10_000 + 10_766 * b).collect(),
        window_size: 4096,
        hop_size: 4410,
        sample_rate: 44_100,
        min_freq: 10,
        max_freq: 2000,
        n_samples: 441_000,
    }
}

#[test]
fn test_spectrogram_bpm_service_creation() {
    let service = SpectrogramBpmAnalysisService::new();
    assert_eq!(service.config.window_size, 4096);
    assert_eq!(service.config.hop_size, 256);
    assert_eq!(service.config.adaptive_threshold_permille, 800);
    assert_eq!(service.config.section_size, 100);
    assert_eq!(service.config.beat_debounce_us, 100_000);
    assert_eq!(service.config.bpm_score_deviation_permille, 100);
    assert!(service.config.use_weighted_bpm_averaging);
}

#[test]
fn test_audio_analysis_service_creation() {
    let service = AudioAnalysisService::new();
    assert_eq!(service.spectrogram.config.window_size, 4096);
    assert_eq!(service.spectrogram.config.hop_size, 256);
}

#[test]
fn window_starts_follow_the_hop() {
    assert_eq!(window_starts(10, 8, 2).unwrap(), vec![0, 2, 4, 6]);
    assert_eq!(window_starts(4, 8, 3).unwrap(), vec![0]);
    assert_eq!(window_starts(3, 8, 2).unwrap_err(), AnalysisError::InsufficientSamples);
    assert_eq!(window_starts(0, 4096, 256).unwrap_err(), AnalysisError::InsufficientSamples);
}

#[test]
fn failed_windows_are_skipped() {
    let config = BpmConfig::new();
    let t = vec![Some(vec![1, 2]), None, Some(vec![3, 4])];
    let s = generate_spectrogram(2048 + 2 * 256, 44_100, &config, 2, vec![10_000, 20_766], t).unwrap();
    assert_eq!(s.frames, vec![vec![1, 2], vec![3, 4]]);
    let none = vec![None, None, None];
    assert_eq!(
        generate_spectrogram(2048 + 2 * 256, 44_100, &config, 2, vec![10_000, 20_766], none).unwrap_err(),
        AnalysisError::TransformFailure
    );
    assert_eq!(
        generate_spectrogram(100, 44_100, &config, 2, vec![10_000, 20_766], Vec::new()).unwrap_err(),
        AnalysisError::InsufficientSamples
    );
}

#[test]
fn frame_times_are_hop_over_rate() {
    let s = grid(vec![vec![0, 0]; 3]);
    assert_eq!(s.frame_time_us(0), 0);
    assert_eq!(s.frame_time_us(1), 100_000);
    assert_eq!(s.frame_time_us(2), 200_000);
}

#[test]
fn spectrogram_reports_duration_and_bin_frequencies() {
    let s = grid(vec![vec![0, 0]; 3]);
    assert_eq!(s.duration_us(), 10_000_000);
    assert_eq!(s.bin_frequency_mhz(0), 10_000);
    assert_eq!(s.bin_frequency_mhz(1), 20_766);
}

#[test]
fn one_beat_per_energy_burst() {
    // frames 100 ms apart; bursts at frames 2 and 7
    let mut frames = vec![vec![1u32, 1]; 10];
    frames[2] = vec![9, 11];
    frames[7] = vec![10, 10];
    let (beats, cache) = detect_beats(&grid(frames), &BpmConfig::new());
    let times: Vec<u64> = beats.iter().map(|b| b.timestamp_us).collect();
    assert_eq!(times, vec![200_000, 700_000]);
    assert_eq!(beats[0].energy, 10);
    assert_eq!(beats[0].dominant_bin, 1);
    assert_eq!(beats[0].dominant_freq_mhz, 20_766);
    // threshold: 1 + (10 - 1) * 0.8 = 8.2; confidence 10 / 8.2 = 1.219
    assert_eq!(cache.section_thresholds[0].threshold_milli, 8200);
    assert_eq!(beats[0].confidence_permille, 1219);
    assert_eq!(cache.max_energy, 10);
    assert_eq!(cache.frame_energies.len(), 10);
    assert_eq!(cache.energy_groups.len(), 2);
}

#[test]
fn equal_bins_pick_the_last_as_dominant() {
    let mut frames = vec![vec![1u32, 1, 1]; 4];
    frames[1] = vec![7, 7, 4];
    let (beats, _) = detect_beats(&grid(frames), &BpmConfig::new());
    assert_eq!(beats.len(), 1);
    assert_eq!(beats[0].dominant_bin, 1);
}

#[test]
fn debounce_keeps_spacing() {
    let beats = beats_at(&[0, 50_000, 120_000, 150_000, 300_000, 399_999, 400_000]);
    let kept: Vec<u64> = debounce_beats(beats, 100_000).iter().map(|b| b.timestamp_us).collect();
    assert_eq!(kept, vec![0, 120_000, 300_000, 400_000]);
    for w in kept.windows(2) {
        assert!(w[1] - w[0] >= 100_000);
    }
}

#[test]
fn steady_half_second_beats_give_120_bpm() {
    let beats = beats_at(&[0, 500_000, 1_000_000, 1_500_000, 2_000_000]);
    assert_eq!(estimate_bpm(&beats, &BpmConfig::new()), Ok(120_000));
}

#[test]
fn fast_beats_are_halved() {
    // 250 ms apart is 240 BPM, which folds to 120 BPM
    let beats = beats_at(&[0, 250_000, 500_000, 750_000, 1_000_000]);
    assert_eq!(estimate_bpm(&beats, &BpmConfig::new()), Ok(120_000));
}

#[test]
fn weighted_and_plain_averages_differ() {
    // three intervals of 500 ms and one of 520 ms: bins 0 and 2 both score 4
    let beats = beats_at(&[0, 500_000, 1_000_000, 1_500_000, 2_020_000]);
    let mut config = BpmConfig::new();
    // bins 0 (500 ms, 120 BPM) and 2 (520 ms, 115.384 BPM), scores 4 and 4
    assert_eq!(estimate_bpm(&beats, &config), Ok(117_692));
    config.use_weighted_bpm_averaging = false;
    assert_eq!(estimate_bpm(&beats, &config), Ok(117_692));
    let beats = beats_at(&[0, 500_000, 1_000_000, 1_500_000, 2_000_000, 2_600_000]);
    config.use_weighted_bpm_averaging = true;
    // only the 500 ms bin (score 4) is within 10% of the best
    assert_eq!(estimate_bpm(&beats, &config), Ok(120_000));
}

#[test]
fn too_few_beats_is_an_error() {
    let beats = beats_at(&[0, 500_000]);
    assert_eq!(estimate_bpm(&beats, &BpmConfig::new()), Err(AnalysisError::InsufficientBeats));
    assert_eq!(estimate_bpm(&Vec::new(), &BpmConfig::new()), Err(AnalysisError::InsufficientBeats));
}

#[test]
fn implausible_intervals_are_an_error() {
    let beats = beats_at(&[0, 3_000_000, 6_000_000, 6_100_000]);
    assert_eq!(estimate_bpm(&beats, &BpmConfig::new()), Err(AnalysisError::NoValidIntervals));
}

#[test]
fn untrusted_tempo_becomes_default() {
    assert_eq!(accept_bpm(Ok(120_000)), Ok(120_000));
    assert_eq!(accept_bpm(Ok(50_000)), Ok(50_000));
    assert_eq!(accept_bpm(Ok(250_000)), Ok(250_000));
    assert_eq!(accept_bpm(Ok(49_999)), Ok(DEFAULT_BPM_MILLI));
    assert_eq!(accept_bpm(Ok(250_001)), Ok(DEFAULT_BPM_MILLI));
    assert_eq!(accept_bpm(Err(AnalysisError::InsufficientBeats)), Ok(120_000));
    assert_eq!(accept_bpm(Err(AnalysisError::NoValidIntervals)), Err(AnalysisError::NoValidIntervals));
}

#[test]
fn silence_gives_no_beats() {
    let config = BpmConfig::new();
    let samples = vec![0.0f32; 44_100 * 3];
    let s = spectrogram_of(&samples, 44_100, &config);
    let (beats, cache) = detect_beats(&s, &config);
    assert!(beats.is_empty());
    assert_eq!(cache.max_energy, 0);
    assert_eq!(estimate_bpm(&beats, &config), Err(AnalysisError::InsufficientBeats));
}

#[test]
fn click_track_gives_120_bpm() {
    let service = SpectrogramBpmAnalysisService::new();
    let samples = click_track(44_100, 120, 0.5);
    let (freqs, t) = transforms(&samples, 44_100, &service.config);
    let (s, analysis) = service.analyze(samples.len(), 44_100, freqs.len(), freqs, t).unwrap();
    // every beat reports the frequency of its loudest bin
    for b in &analysis.beats {
        assert_eq!(b.dominant_freq_mhz, s.bin_freqs_mhz[b.dominant_bin]);
    }
    assert_eq!(analysis.cache.frame_energies.len(), s.frames.len());
    let bpm = analysis.bpm.unwrap();
    assert!((118_000..=122_000).contains(&bpm), "bpm {}", bpm);
    let raw = estimate_bpm(&analysis.beats, &service.config).unwrap();
    assert!((118_000..=122_000).contains(&raw), "raw bpm {}", raw);
}

#[test]
fn analysis_is_repeatable() {
    let config = BpmConfig::new();
    let samples = click_track(44_100, 12, 0.5);
    let a = spectrogram_of(&samples, 44_100, &config);
    let b = spectrogram_of(&samples, 44_100, &config);
    let (ba, _) = detect_beats(&a, &config);
    let (bb, _) = detect_beats(&b, &config);
    assert_eq!(ba, bb);
    assert_eq!(estimate_bpm(&ba, &config), estimate_bpm(&bb, &config));
}

#[test]
fn higher_threshold_does_not_add_beats_on_clicks() {
    let samples = click_track(44_100, 12, 0.5);
    let low = BpmConfig::new();
    let mut high = BpmConfig::new();
    high.adaptive_threshold_permille = 950;
    let s = spectrogram_of(&samples, 44_100, &low);
    let (b_low, _) = detect_beats(&s, &low);
    let (b_high, _) = detect_beats(&s, &high);
    assert!(b_high.len() <= b_low.len());
}

#[test]
fn higher_threshold_can_split_a_cluster() {
    // frames 45 ms apart; the weaker frames bridge the run only at the lower threshold
    let energies = [100u32, 90, 100, 90, 100, 0, 0, 0];
    let s = Spectrogram {
        frames: energies.iter().map(|&e| vec![e]).collect(),
        bins: 1,
        bin_freqs_mhz: vec![100_000],
        window_size: 64,
        hop_size: 45,
        sample_rate: 1000,
        min_freq: 10,
        max_freq: 400,
        n_samples: 400,
    };
    let low = BpmConfig::new();
    let mut high = BpmConfig::new();
    high.adaptive_threshold_permille = 950;
    let (b_low, _) = detect_beats(&s, &low);
    let (b_high, _) = detect_beats(&s, &high);
    assert_eq!(b_low.iter().map(|b| b.timestamp_us).collect::<Vec<_>>(), vec![90_000]);
    assert_eq!(b_high.iter().map(|b| b.timestamp_us).collect::<Vec<_>>(), vec![0, 180_000]);
}
