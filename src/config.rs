use vstd::prelude::*;

verus! {

/// Largest number of samples a buffer may hold (keeps time arithmetic in range).
pub const MAX_SAMPLES: usize = 2_000_000_000;

/// Largest number of frequency bins one frame may hold.
pub const MAX_BINS: usize = 1048576;

/// Settings of the tempo path.
#[derive(Debug, Clone, Copy, PartialEq, Eq, Structural)]
pub struct BpmConfig {
    /// Samples per analysis window.
    pub window_size: usize,
    /// Samples between the starts of consecutive windows.
    pub hop_size: usize,
    /// Lowest frequency kept in a frame, in Hz.
    pub low_freq_cutoff: u32,
    /// Highest frequency kept in a frame, in Hz.
    pub high_freq_cutoff: u32,
    /// Position of the threshold between a section's minimum and maximum energy, in thousandths.
    pub adaptive_threshold_permille: u64,
    /// Frames per thresholding section; sections overlap by half.
    pub section_size: usize,
    /// Frames whose timestamps differ by more than this many microseconds start a new cluster.
    pub cluster_gap_us: u64,
    /// Least spacing between kept beats, in microseconds.
    pub beat_debounce_us: u64,
    /// Histogram bins within this fraction (in thousandths) of the best score are averaged.
    pub bpm_score_deviation_permille: u64,
    /// Average candidate tempos weighted by score (else arithmetically).
    pub use_weighted_bpm_averaging: bool,
}

/// Settings of the key path.
#[derive(Debug, Clone, Copy, PartialEq, Eq, Structural)]
pub struct KeyConfig {
    /// Samples per analysis window.
    pub window_size: usize,
    /// Samples between the starts of consecutive windows.
    pub hop_size: usize,
    /// Lowest frequency kept in a frame, in Hz.
    pub min_freq: u32,
    /// Highest frequency kept in a frame, in Hz.
    pub max_freq: u32,
}

/// The tempo path's usual settings: 4096-sample windows every 256 samples,
/// 10 to 2000 Hz, an 80% threshold over 100-frame sections, 50 ms clusters,
/// 100 ms debounce, a 10% score band and weighted averaging.
pub open spec fn default_bpm_config() -> BpmConfig {
    BpmConfig {
        window_size: 4096,
        hop_size: 256,
        low_freq_cutoff: 10,
        high_freq_cutoff: 2000,
        adaptive_threshold_permille: 800,
        section_size: 100,
        cluster_gap_us: 50_000,
        beat_debounce_us: 100_000,
        bpm_score_deviation_permille: 100,
        use_weighted_bpm_averaging: true,
    }
}

/// The key path's usual settings: 8192-sample windows every 1024 samples, 80 to 2000 Hz.
pub open spec fn default_key_config() -> KeyConfig {
    KeyConfig { window_size: 8192, hop_size: 1024, min_freq: 80, max_freq: 2000 }
}

impl BpmConfig {
    /// Settings the constraints of the tempo path rely on.
    pub open spec fn valid(&self) -> bool {
        &&& 2 <= self.window_size <= MAX_BINS
        &&& 1 <= self.hop_size <= MAX_BINS
        &&& self.adaptive_threshold_permille <= 1000
        &&& 2 <= self.section_size <= MAX_BINS
        &&& self.bpm_score_deviation_permille <= 1000
        &&& self.cluster_gap_us <= 1_000_000_000
        &&& self.beat_debounce_us <= 1_000_000_000
    }

    /// The tempo path's usual settings.
    pub fn new() -> (r: BpmConfig)
        ensures
            r == default_bpm_config(),
            r.valid(),
    {
        BpmConfig {
            window_size: 4096,
            hop_size: 256,
            low_freq_cutoff: 10,
            high_freq_cutoff: 2000,
            adaptive_threshold_permille: 800,
            section_size: 100,
            cluster_gap_us: 50_000,
            beat_debounce_us: 100_000,
            bpm_score_deviation_permille: 100,
            use_weighted_bpm_averaging: true,
        }
    }
}

impl KeyConfig {
    /// Settings the constraints of the key path rely on.
    pub open spec fn valid(&self) -> bool {
        &&& 2 <= self.window_size <= MAX_BINS
        &&& 1 <= self.hop_size <= MAX_BINS
    }

    /// The key path's usual settings.
    pub fn new() -> (r: KeyConfig)
        ensures
            r == default_key_config(),
            r.valid(),
    {
        KeyConfig { window_size: 8192, hop_size: 1024, min_freq: 80, max_freq: 2000 }
    }
}

} // verus!
