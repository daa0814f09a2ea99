use vstd::prelude::*;
use crate::chroma::{any_succeeded, chroma_total, pitch_class, pitch_class_of, positive_frequencies, WindowSpectrum};
use crate::config::{default_bpm_config, default_key_config, BpmConfig, KeyConfig, MAX_BINS, MAX_SAMPLES};
use crate::beats::{cache_of, detected_beats};
use crate::error::AnalysisError;
use crate::key::MusicalKey;
use crate::pipeline::{analyze_key, analyze_tempo, grid_tempo, is_key_of, TempoAnalysis};
use crate::spectrogram::{generate_spectrogram, kept_rows, window_count, window_starts, Spectrogram};

verus! {

/// Tempo analysis by spectrogram, beat clustering and an interval histogram.
#[derive(Debug, Clone, Copy)]
pub struct SpectrogramBpmAnalysisService {
    /// Settings of every stage.
    pub config: BpmConfig,
}

impl SpectrogramBpmAnalysisService {
    /// A service with the tempo path's usual settings.
    pub fn new() -> (r: Self)
        ensures
            r.config == default_bpm_config(),
            r.config.valid(),
    {
        SpectrogramBpmAnalysisService { config: BpmConfig::new() }
    }

    /// Start offsets of the windows to transform over a buffer of `n_samples`.
    pub fn window_starts(&self, n_samples: usize) -> (r: Result<Vec<usize>, AnalysisError>)
        requires
            self.config.valid(),
        ensures
            n_samples < self.config.window_size / 2 <==> r is Err,
            r matches Ok(starts) ==> {
                &&& starts@.len() == window_count(
                    n_samples as int,
                    self.config.window_size as int,
                    self.config.hop_size as int,
                )
                &&& forall|k: int| 0 <= k < starts@.len() ==> #[trigger] starts@[k] == k * self.config.hop_size
            },
    {
        window_starts(n_samples, self.config.window_size, self.config.hop_size)
    }

    /// Builds the spectrogram from each window's transform and analyses its tempo.
    pub fn analyze(
        &self,
        n_samples: usize,
        sample_rate: u32,
        bins: usize,
        bin_freqs_mhz: Vec<u64>,
        transforms: Vec<Option<Vec<u32>>>,
    ) -> (r: Result<(Spectrogram, TempoAnalysis), AnalysisError>)
        requires
            self.config.valid(),
            bin_freqs_mhz@.len() == bins,
            1 <= sample_rate,
            n_samples <= MAX_SAMPLES,
            1 <= bins <= MAX_BINS,
            transforms@.len() == window_count(
                n_samples as int,
                self.config.window_size as int,
                self.config.hop_size as int,
            ),
            forall|i: int|
                0 <= i < transforms@.len() ==> (#[trigger] transforms@[i] matches Some(row) ==> row@.len()
                    == bins),
        ensures
            n_samples < self.config.window_size / 2 ==> r == Err::<(Spectrogram, TempoAnalysis), AnalysisError>(
                AnalysisError::InsufficientSamples,
            ),
            n_samples >= self.config.window_size / 2 && kept_rows(transforms@).len() == 0 ==> r == Err::<
                (Spectrogram, TempoAnalysis),
                AnalysisError,
            >(AnalysisError::TransformFailure),
            n_samples >= self.config.window_size / 2 && kept_rows(transforms@).len() > 0 ==> r is Ok,
            r matches Ok((s, t)) ==> {
                &&& s.grid() == kept_rows(transforms@)
                &&& s.freqs() == bin_freqs_mhz@
                &&& s.hop_size == self.config.hop_size
                &&& s.sample_rate == sample_rate
                &&& t.beats@ == detected_beats(s.grid(), s.freqs(), s.hop_size as int, s.sample_rate as int, self.config)
                &&& cache_of(t.cache, s.grid(), s.freqs(), s.hop_size as int, s.sample_rate as int, self.config)
                &&& t.bpm == grid_tempo(s.grid(), s.freqs(), s.hop_size as int, s.sample_rate as int, self.config)
            },
    {
        match generate_spectrogram(n_samples, sample_rate, &self.config, bins, bin_freqs_mhz, transforms) {
            Ok(s) => {
                let a = analyze_tempo(&s, &self.config);
                Ok((s, a))
            },
            Err(e) => Err(e),
        }
    }
}

/// Tempo analysis of a whole track, the entry point a server calls.
#[derive(Debug, Clone, Copy)]
pub struct AudioAnalysisService {
    /// The analysis it runs.
    pub spectrogram: SpectrogramBpmAnalysisService,
}

impl AudioAnalysisService {
    /// A service with the tempo path's usual settings.
    pub fn new() -> (r: Self)
        ensures
            r.spectrogram.config == default_bpm_config(),
            r.spectrogram.config.valid(),
    {
        AudioAnalysisService { spectrogram: SpectrogramBpmAnalysisService::new() }
    }
}

/// Key analysis by chroma profile and template correlation.
#[derive(Debug, Clone, Copy)]
pub struct KeyAnalysisService {
    /// Window settings of the key path.
    pub config: KeyConfig,
}

impl KeyAnalysisService {
    /// A service with the key path's usual settings.
    pub fn new() -> (r: Self)
        ensures
            r.config == default_key_config(),
            r.config.valid(),
    {
        KeyAnalysisService { config: KeyConfig::new() }
    }

    /// Pitch class (0 = C .. 11 = B) of a frequency in millihertz.
    pub fn frequency_to_chroma_bin(freq_mhz: u64) -> (r: usize)
        requires
            freq_mhz > 0,
        ensures
            r == pitch_class(freq_mhz as int),
            r < 12,
    {
        pitch_class_of(freq_mhz)
    }

    /// Start offsets of the windows to transform over a buffer of `n_samples`.
    pub fn window_starts(&self, n_samples: usize) -> (r: Result<Vec<usize>, AnalysisError>)
        requires
            self.config.valid(),
        ensures
            n_samples < self.config.window_size / 2 <==> r is Err,
            r matches Ok(starts) ==> {
                &&& starts@.len() == window_count(
                    n_samples as int,
                    self.config.window_size as int,
                    self.config.hop_size as int,
                )
                &&& forall|k: int| 0 <= k < starts@.len() ==> #[trigger] starts@[k] == k * self.config.hop_size
            },
    {
        window_starts(n_samples, self.config.window_size, self.config.hop_size)
    }

    /// The key of a track from the spectra of its analysis windows.
    pub fn analyze(&self, windows: &Vec<WindowSpectrum>) -> (r: Result<MusicalKey, AnalysisError>)
        requires
            positive_frequencies(windows@),
            chroma_total(windows@) <= u64::MAX,
        ensures
            !any_succeeded(windows@) <==> r == Err::<MusicalKey, AnalysisError>(AnalysisError::NoSpectralEnergy),
            any_succeeded(windows@) ==> r is Ok,
            r matches Ok(k) ==> is_key_of(k, windows@),
    {
        analyze_key(windows)
    }
}

} // verus!
