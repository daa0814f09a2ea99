use vstd::prelude::*;
use crate::beats::{cache_of, detect_beats, detected_beats, AnalysisCache, Beat};
use crate::bpm::{accepted, estimate_accepted_bpm, estimate_spec, trusted_bpm};
use crate::chroma::{any_succeeded, chroma_energy, chroma_total, positive_frequencies, profile_chroma, WindowSpectrum};
use crate::config::BpmConfig;
use crate::error::AnalysisError;
use crate::key::{best_candidate, camelot_text, confidence_of, detect_key, key_index_of, key_name_text, MusicalKey};
use crate::spectrogram::Spectrogram;

verus! {

/// The tempo estimate of the beats found in a grid, before the range policy.
pub open spec fn grid_estimate(grid: Seq<Seq<u32>>, freqs: Seq<u64>, hop: int, sample_rate: int, config: BpmConfig) -> Result<
    u64,
    AnalysisError,
> {
    estimate_spec(detected_beats(grid, freqs, hop, sample_rate, config), config)
}

/// The tempo a caller keeps for a grid.
pub open spec fn grid_tempo(grid: Seq<Seq<u32>>, freqs: Seq<u64>, hop: int, sample_rate: int, config: BpmConfig) -> Result<
    u64,
    AnalysisError,
> {
    accepted(grid_estimate(grid, freqs, hop, sample_rate, config))
}

/// What tempo analysis of one spectrogram yields.
#[derive(Debug)]
pub struct TempoAnalysis {
    /// Tempo in thousandths of a BPM after the range policy, or the failure.
    pub bpm: Result<u64, AnalysisError>,
    /// The detected beats, in order.
    pub beats: Vec<Beat>,
    /// What beat detection decided on the way.
    pub cache: AnalysisCache,
}

/// Runs beat detection and tempo estimation on a spectrogram.
pub fn analyze_tempo(s: &Spectrogram, config: &BpmConfig) -> (r: TempoAnalysis)
    requires
        s.wf(),
        config.valid(),
    ensures
        r.beats@ == detected_beats(s.grid(), s.freqs(), s.hop_size as int, s.sample_rate as int, *config),
        cache_of(r.cache, s.grid(), s.freqs(), s.hop_size as int, s.sample_rate as int, *config),
        r.bpm == grid_tempo(s.grid(), s.freqs(), s.hop_size as int, s.sample_rate as int, *config),
        r.bpm matches Ok(b) ==> trusted_bpm(b as int),
{
    let (beats, cache) = detect_beats(s, config);
    let bpm = estimate_accepted_bpm(&beats, config);
    TempoAnalysis { bpm, beats, cache }
}

/// Tempo analysis depends on the grid and the settings alone: the same grid
/// analysed twice with the same settings gives the same beats and the same tempo.
pub proof fn lemma_tempo_deterministic(
    g1: Seq<Seq<u32>>,
    g2: Seq<Seq<u32>>,
    freqs: Seq<u64>,
    hop: int,
    sample_rate: int,
    config: BpmConfig,
)
    requires
        g1 == g2,
    ensures
        detected_beats(g1, freqs, hop, sample_rate, config) == detected_beats(g2, freqs, hop, sample_rate, config),
        grid_estimate(g1, freqs, hop, sample_rate, config) == grid_estimate(g2, freqs, hop, sample_rate, config),
        grid_tempo(g1, freqs, hop, sample_rate, config) == grid_tempo(g2, freqs, hop, sample_rate, config),
{
}

/// Chroma energy per pitch class of some window spectra.
pub open spec fn chroma_vector(windows: Seq<WindowSpectrum>) -> Seq<u64> {
    Seq::new(12, |c: int| chroma_energy(windows, c) as u64)
}

/// The key some window spectra point to: its index in the canonical order,
/// whether it is major, and the confidence in thousandths.
pub open spec fn key_of(windows: Seq<WindowSpectrum>) -> (int, bool, int) {
    let (c, s) = best_candidate(chroma_vector(windows), 24);
    (key_index_of(c % 12, c < 12), c < 12, confidence_of(s, chroma_total(windows)))
}

/// Whether `k` is the key that the window spectra point to, named in full.
pub open spec fn is_key_of(k: MusicalKey, windows: Seq<WindowSpectrum>) -> bool {
    &&& k.key_index == key_of(windows).0
    &&& k.is_major == key_of(windows).1
    &&& k.confidence_permille == key_of(windows).2
    &&& k.key_index < 24
    &&& k.key_name@ == key_name_text(k.key_index as int)
    &&& k.camelot@ == camelot_text(k.key_index as int)
}

/// The key that the chroma profile of some window spectra points to.
pub fn analyze_key(windows: &Vec<WindowSpectrum>) -> (r: Result<MusicalKey, AnalysisError>)
    requires
        positive_frequencies(windows@),
        chroma_total(windows@) <= u64::MAX,
    ensures
        !any_succeeded(windows@) <==> r == Err::<MusicalKey, AnalysisError>(AnalysisError::NoSpectralEnergy),
        any_succeeded(windows@) ==> r is Ok,
        r matches Ok(k) ==> is_key_of(k, windows@),
{
    match profile_chroma(windows) {
        Ok(p) => {
            let k = detect_key(&p);
            proof {
                assert(p.energy@ =~= chroma_vector(windows@));
            }
            Ok(k)
        },
        Err(e) => Err(e),
    }
}

} // verus!
