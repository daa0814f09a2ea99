use audio_analysis::chroma::{profile_chroma, ChromaProfile, WindowSpectrum};
use audio_analysis::error::AnalysisError;
use audio_analysis::key::{camelot_code, detect_key, key_name};
use audio_analysis::services::KeyAnalysisService;
use spectrum_analyzer::scaling::divide_by_N_sqrt;
use spectrum_analyzer::windows::hann_window;
use spectrum_analyzer::{samples_fft_to_spectrum, FrequencyLimit};

fn key_spectra(samples: &[f32], sample_rate: u32) -> Vec<WindowSpectrum> {
    let service = KeyAnalysisService::new();
    let starts = service.window_starts(samples.len()).unwrap();
    let window = service.config.window_size;
    let mut out = Vec::new();
    for start in starts {
        let end = (start + window).min(samples.len());
        let mut chunk = samples[start..end].to_vec();
        chunk.resize(window, 0.0);
        let windowed = hann_window(&chunk);
        let spectrum = samples_fft_to_spectrum(
            &windowed,
            sample_rate,
            FrequencyLimit::Range(service.config.min_freq as f32, service.config.max_freq as f32),
            Some(&divide_by_N_sqrt),
        );
        out.push(spectrum.ok().map(|s| {
            s.data()
                .iter()
                .map(|(f, m)| ((f.val() * 1000.0).round() as u64, (m.val() * 1_000_000.0).min(u32::MAX as f32) as u32))
                .collect::<Vec<(u64, u32)>>()
        }));
    }
    out
}

fn profile_with(energy: [u64; 12]) -> ChromaProfile {
    ChromaProfile { energy: energy.to_vec(), total: energy.iter().sum() }
}

#[test]
fn test_key_analysis_service_creation() {
    let service = KeyAnalysisService::new();
    assert_eq!(service.config.window_size, 8192);
    assert_eq!(service.config.hop_size, 1024);
    assert_eq!(service.config.min_freq, 80);
    assert_eq!(service.config.max_freq, 2000);
}

#[test]
fn test_frequency_to_chroma_bin() {
    // A4 = 440 Hz maps to class 9 (A)
    assert_eq!(KeyAnalysisService::frequency_to_chroma_bin(440_000), 9);
    // C4 = 261.63 Hz maps to class 0 (C)
    assert_eq!(KeyAnalysisService::frequency_to_chroma_bin(261_630), 0);
    // C5 = 523.25 Hz maps to class 0 as well
    assert_eq!(KeyAnalysisService::frequency_to_chroma_bin(523_250), 0);
}

#[test]
fn pitch_class_ignores_octave() {
    for f in [55_000u64, 110_000, 220_000, 880_000, 1_760_000, 3_520_000] {
        assert_eq!(KeyAnalysisService::frequency_to_chroma_bin(f), 9);
    }
    assert_eq!(KeyAnalysisService::frequency_to_chroma_bin(32_703), 0);
    assert_eq!(KeyAnalysisService::frequency_to_chroma_bin(277_180), 1);
    assert_eq!(KeyAnalysisService::frequency_to_chroma_bin(493_880), 11);
    assert_eq!(KeyAnalysisService::frequency_to_chroma_bin(1), KeyAnalysisService::frequency_to_chroma_bin(2));
}

#[test]
fn semitone_edges_round_to_nearest() {
    // just below and above the edge between A (9) and A# (10)
    assert_eq!(KeyAnalysisService::frequency_to_chroma_bin(452_892), 9);
    assert_eq!(KeyAnalysisService::frequency_to_chroma_bin(452_893), 10);
    // just below the A octave edge falls to G# (8)
    assert_eq!(KeyAnalysisService::frequency_to_chroma_bin(427_473), 8);
}

#[test]
fn key_tables_are_consistent() {
    let mut codes = Vec::new();
    for i in 0..24usize {
        let name = key_name(i);
        let code = camelot_code(i);
        if i < 12 {
            assert!(code.ends_with('B'));
            assert!(!name.ends_with('m'));
        } else {
            assert!(code.ends_with('A'));
            assert!(name.ends_with('m'));
        }
        assert!(!codes.contains(&code));
        codes.push(code);
    }
    assert_eq!(key_name(0), "C");
    assert_eq!(camelot_code(0), "8B");
    assert_eq!(key_name(1), "G");
    assert_eq!(camelot_code(1), "9B");
    assert_eq!(key_name(7), "C#");
    assert_eq!(key_name(8), "Ab");
    assert_eq!(camelot_code(8), "4B");
    assert_eq!(key_name(11), "F");
    assert_eq!(camelot_code(11), "7B");
    assert_eq!(key_name(12), "Am");
    assert_eq!(camelot_code(12), "8A");
    assert_eq!(key_name(20), "Fm");
    assert_eq!(key_name(21), "Cm");
    assert_eq!(camelot_code(21), "5A");
    assert_eq!(key_name(23), "Dm");
    assert_eq!(camelot_code(23), "7A");
}

#[test]
fn single_class_profile_gives_its_major_key() {
    let mut e = [0u64; 12];
    e[0] = 1000;
    let k = detect_key(&profile_with(e));
    assert!(k.is_major);
    assert_eq!(k.key_index, 0);
    assert_eq!(k.key_name, "C");
    assert_eq!(k.camelot, "8B");
    // 6.35 / 10 of the normalized profile
    assert_eq!(k.confidence_permille, 635);
}

#[test]
fn minor_triad_profile_gives_minor_key() {
    // A, C and E
    let mut e = [0u64; 12];
    e[9] = 500;
    e[0] = 300;
    e[4] = 200;
    let k = detect_key(&profile_with(e));
    assert!(!k.is_major);
    assert_eq!(k.key_name, "Am");
    assert_eq!(k.camelot, "8A");
    assert_eq!(k.key_index, 12);
}

#[test]
fn flat_major_keys_are_spelled_by_their_root() {
    // only A-flat sounds: A-flat major wins
    let mut e = [0u64; 12];
    e[8] = 1000;
    let k = detect_key(&profile_with(e));
    assert_eq!(k.key_index, 8);
    assert_eq!(k.key_name, "Ab");
    assert_eq!(k.camelot, "4B");
}

#[test]
fn minor_keys_are_spelled_by_their_root() {
    // F, A-flat and C: F minor
    let mut e = [0u64; 12];
    e[5] = 500;
    e[8] = 300;
    e[0] = 200;
    let k = detect_key(&profile_with(e));
    assert!(!k.is_major);
    assert_eq!(k.key_index, 20);
    assert_eq!(k.key_name, "Fm");
    assert_eq!(k.camelot, "4A");
}

#[test]
fn silent_windows_give_an_all_zero_profile() {
    let windows: Vec<WindowSpectrum> = vec![Some(vec![(440_000, 0), (261_630, 0)]), None];
    let p = profile_chroma(&windows).unwrap();
    assert_eq!(p.total, 0);
    assert_eq!(p.energy, vec![0u64; 12]);
    let k = detect_key(&p);
    assert_eq!(k.confidence_permille, 0);
}

#[test]
fn all_zero_profile_gives_zero_confidence() {
    let k = detect_key(&profile_with([0u64; 12]));
    assert_eq!(k.confidence_permille, 0);
    assert_eq!(k.key_index, 0);
    assert!(k.is_major);
}

#[test]
fn chroma_accumulates_by_pitch_class() {
    let windows: Vec<WindowSpectrum> = vec![
        Some(vec![(440_000, 10), (880_000, 5), (261_630, 7)]),
        None,
        Some(vec![(220_000, 1), (293_660, 4)]),
    ];
    let p = profile_chroma(&windows).unwrap();
    assert_eq!(p.total, 27);
    assert_eq!(p.energy[9], 16);
    assert_eq!(p.energy[0], 7);
    assert_eq!(p.energy[2], 4);
    assert_eq!(p.energy.iter().sum::<u64>(), 27);
}

#[test]
fn chroma_fails_when_every_window_failed() {
    let windows: Vec<WindowSpectrum> = vec![None, None];
    assert_eq!(profile_chroma(&windows).unwrap_err(), AnalysisError::NoSpectralEnergy);
    let none: Vec<WindowSpectrum> = Vec::new();
    assert_eq!(profile_chroma(&none).unwrap_err(), AnalysisError::NoSpectralEnergy);
}

#[test]
fn pure_tone_is_detected_as_a() {
    let sample_rate = 44_100u32;
    let samples: Vec<f32> = (0..(5 * sample_rate as usize))
        .map(|i| (2.0 * std::f32::consts::PI * 440.0 * i as f32 / sample_rate as f32).sin())
        .collect();
    let spectra = key_spectra(&samples, sample_rate);
    let profile = profile_chroma(&spectra).unwrap();
    let loudest = (0..12).max_by_key(|&c| profile.energy[c]).unwrap();
    assert_eq!(loudest, 9);
    let key = KeyAnalysisService::new().analyze(&spectra).unwrap();
    assert!(key.key_index == 3 || key.key_index == 12);
    assert!(key.key_name == "A" || key.key_name == "Am");
    assert!(key.confidence_permille > 0);
}
