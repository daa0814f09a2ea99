use vstd::prelude::*;
use crate::config::{BpmConfig, MAX_BINS, MAX_SAMPLES};
use crate::error::AnalysisError;

verus! {

/// Number of analysis windows over `n` samples: windows start every `hop`
/// samples, and one that would hold fewer than `window / 2` samples is dropped
/// together with every later one.
pub open spec fn window_count(n: int, window: int, hop: int) -> int {
    if n < window / 2 {
        0
    } else {
        (n - window / 2) / hop + 1
    }
}

/// Rows of the transforms that succeeded, in order.
pub open spec fn kept_rows(transforms: Seq<Option<Vec<u32>>>) -> Seq<Seq<u32>>
    decreases transforms.len(),
{
    if transforms.len() == 0 {
        Seq::empty()
    } else {
        let rest = kept_rows(transforms.drop_last());
        match transforms.last() {
            Some(row) => rest.push(row@),
            None => rest,
        }
    }
}

/// Views of the rows of a grid.
pub open spec fn rows_view(frames: Seq<Vec<u32>>) -> Seq<Seq<u32>> {
    frames.map_values(|r: Vec<u32>| r@)
}

/// Time of the start of frame `i`, in whole microseconds.
pub open spec fn frame_time_us(i: int, hop: int, sample_rate: int) -> int {
    i * hop * 1_000_000 / sample_rate
}

/// Start offsets of the analysis windows over `n_samples` samples.
pub fn window_starts(n_samples: usize, window_size: usize, hop_size: usize) -> (r: Result<
    Vec<usize>,
    AnalysisError,
>)
    requires
        2 <= window_size,
        1 <= hop_size,
    ensures
        n_samples < window_size / 2 ==> r == Err::<Vec<usize>, AnalysisError>(
            AnalysisError::InsufficientSamples,
        ),
        n_samples >= window_size / 2 ==> r is Ok,
        r matches Ok(starts) ==> {
            &&& starts@.len() == window_count(n_samples as int, window_size as int, hop_size as int)
            &&& forall|k: int| 0 <= k < starts@.len() ==> #[trigger] starts@[k] == k * hop_size
        },
{
    let half = window_size / 2;
    if n_samples < half {
        return Err(AnalysisError::InsufficientSamples);
    }
    let room = n_samples - half;
    let count = room / hop_size + 1;
    let mut starts: Vec<usize> = Vec::new();
    let mut k: usize = 0;
    while k < count
        invariant
            k <= count,
            count == room / hop_size + 1,
            room == n_samples - window_size / 2,
            1 <= hop_size,
            starts@.len() == k,
            forall|j: int| 0 <= j < starts@.len() ==> #[trigger] starts@[j] == j * hop_size,
        decreases count - k,
    {
        proof {
            assert(k * hop_size <= room) by (nonlinear_arith)
                requires k <= room / hop_size, hop_size >= 1;
        }
        starts.push(k * hop_size);
        k = k + 1;
    }
    Ok(starts)
}

/// A magnitude grid indexed `[frame][bin]`, with the settings that produced it.
#[derive(Debug)]
pub struct Spectrogram {
    /// Quantized magnitudes, one row per kept window.
    pub frames: Vec<Vec<u32>>,
    /// Frequency bins in every row.
    pub bins: usize,
    /// Frequency of each bin as the transform reported it, in millihertz.
    pub bin_freqs_mhz: Vec<u64>,
    /// Samples per analysis window.
    pub window_size: usize,
    /// Samples between window starts.
    pub hop_size: usize,
    /// Samples per second.
    pub sample_rate: u32,
    /// Lowest kept frequency, in Hz.
    pub min_freq: u32,
    /// Highest kept frequency, in Hz.
    pub max_freq: u32,
    /// Length of the analysed buffer, in samples.
    pub n_samples: usize,
}

impl Spectrogram {
    /// Every row has `bins` entries, and the grid's time span stays in range.
    pub open spec fn wf(&self) -> bool {
        &&& 1 <= self.bins <= MAX_BINS
        &&& self.bin_freqs_mhz@.len() == self.bins
        &&& 2 <= self.window_size <= MAX_BINS
        &&& 1 <= self.hop_size <= MAX_BINS
        &&& 1 <= self.sample_rate
        &&& self.n_samples <= MAX_SAMPLES
        &&& self.frames@.len() * self.hop_size <= 2 * MAX_SAMPLES
        &&& forall|i: int| 0 <= i < self.frames@.len() ==> (#[trigger] self.frames@[i])@.len() == self.bins
    }

    /// Frequencies of the bins.
    pub open spec fn freqs(&self) -> Seq<u64> {
        self.bin_freqs_mhz@
    }

    /// Rows of the grid as sequences.
    pub open spec fn grid(&self) -> Seq<Seq<u32>> {
        rows_view(self.frames@)
    }

    /// Number of frames.
    pub fn frame_count(&self) -> (r: usize)
        ensures
            r == self.frames@.len(),
    {
        self.frames.len()
    }

    /// Length of the analysed buffer, in whole microseconds.
    pub fn duration_us(&self) -> (r: u64)
        requires
            self.wf(),
        ensures
            r == self.n_samples * 1_000_000 / (self.sample_rate as int),
    {
        (self.n_samples as u64) * 1_000_000 / (self.sample_rate as u64)
    }

    /// Frequency of bin `bin`, in millihertz.
    pub fn bin_frequency_mhz(&self, bin: usize) -> (r: u64)
        requires
            self.wf(),
            bin < self.bins,
        ensures
            r == self.freqs()[bin as int],
    {
        self.bin_freqs_mhz[bin]
    }

    /// Start time of frame `i`, in microseconds: `i * hop / sample_rate` seconds.
    pub fn frame_time_us(&self, i: usize) -> (r: u64)
        requires
            self.wf(),
            i < self.frames@.len(),
        ensures
            r == frame_time_us(i as int, self.hop_size as int, self.sample_rate as int),
    {
        proof {
            assert(i * self.hop_size <= self.frames@.len() * self.hop_size) by (nonlinear_arith)
                requires i < self.frames@.len();
        }
        let t: u64 = (i as u64) * (self.hop_size as u64);
        let r = t * 1_000_000 / (self.sample_rate as u64);
        r
    }
}

/// Builds the grid of the tempo path from the outcome of each window's
/// transform (`None` where it failed), in window order, and the frequency of
/// each bin. Failed windows are
/// skipped; the analysis fails only when no window fits or none succeeded.
pub fn generate_spectrogram(
    n_samples: usize,
    sample_rate: u32,
    config: &BpmConfig,
    bins: usize,
    bin_freqs_mhz: Vec<u64>,
    transforms: Vec<Option<Vec<u32>>>,
) -> (r: Result<Spectrogram, AnalysisError>)
    requires
        config.valid(),
        bin_freqs_mhz@.len() == bins,
        1 <= sample_rate,
        n_samples <= MAX_SAMPLES,
        1 <= bins <= MAX_BINS,
        transforms@.len() == window_count(
            n_samples as int,
            config.window_size as int,
            config.hop_size as int,
        ),
        forall|i: int|
            0 <= i < transforms@.len() ==> (#[trigger] transforms@[i] matches Some(row) ==> row@.len()
                == bins),
    ensures
        n_samples < config.window_size / 2 ==> r == Err::<Spectrogram, AnalysisError>(
            AnalysisError::InsufficientSamples,
        ),
        n_samples >= config.window_size / 2 && kept_rows(transforms@).len() == 0 ==> r == Err::<
            Spectrogram,
            AnalysisError,
        >(AnalysisError::TransformFailure),
        n_samples >= config.window_size / 2 && kept_rows(transforms@).len() > 0 ==> r is Ok,
        r matches Ok(s) ==> {
            &&& s.wf()
            &&& s.grid() == kept_rows(transforms@)
            &&& s.bins == bins
            &&& s.freqs() == bin_freqs_mhz@
            &&& s.window_size == config.window_size
            &&& s.hop_size == config.hop_size
            &&& s.sample_rate == sample_rate
            &&& s.min_freq == config.low_freq_cutoff
            &&& s.max_freq == config.high_freq_cutoff
            &&& s.n_samples == n_samples
        },
{
    if n_samples < config.window_size / 2 {
        return Err(AnalysisError::InsufficientSamples);
    }
    let mut frames: Vec<Vec<u32>> = Vec::new();
    let mut transforms = transforms;
    let ghost all = transforms@;
    let n = transforms.len();
    let mut i: usize = 0;
    // Walk back to front so each row can be moved out of the list.
    let mut rev: Vec<Vec<u32>> = Vec::new();
    proof {
        assert(all.take(n as int) =~= all);
        assert(rows_view(rev@).reverse() =~= Seq::<Seq<u32>>::empty());
    }
    while i < n
        invariant
            n == all.len(),
            i <= n,
            transforms@ == all.take(n - i),
            forall|j: int| 0 <= j < all.len() ==> (#[trigger] all[j] matches Some(row) ==> row@.len() == bins),
            kept_rows(all) == kept_rows(all.take(n - i)) + rows_view(rev@).reverse(),
            forall|j: int| 0 <= j < rev@.len() ==> (#[trigger] rev@[j])@.len() == bins,
            rev@.len() <= i,
        decreases n - i,
    {
        let last = transforms.pop().unwrap();
        proof {
            let p = all.take(n - i);
            assert(p.drop_last() =~= all.take(n - i - 1));
        }
        match last {
            Some(row) => {
                proof {
                    let p = all.take(n - i);
                    assert(rows_view(rev@.push(row)).reverse() =~= seq![row@] + rows_view(rev@).reverse());
                    assert(kept_rows(p) == kept_rows(p.drop_last()).push(row@));
                    assert(kept_rows(p.drop_last()).push(row@) + rows_view(rev@).reverse() =~= kept_rows(
                        p.drop_last(),
                    ) + (seq![row@] + rows_view(rev@).reverse()));
                }
                rev.push(row);
            },
            None => {},
        }
        i = i + 1;
    }
    proof {
        assert(all.take(0) =~= Seq::<Option<Vec<u32>>>::empty());
        assert(kept_rows(all) =~= rows_view(rev@).reverse());
    }
    let m = rev.len();
    let mut k: usize = 0;
    while k < m
        invariant
            m == rev@.len() + k,
            k <= m,
            rows_view(frames@) + rows_view(rev@).reverse() == kept_rows(all),
            forall|j: int| 0 <= j < rev@.len() ==> (#[trigger] rev@[j])@.len() == bins,
            forall|j: int| 0 <= j < frames@.len() ==> (#[trigger] frames@[j])@.len() == bins,
            frames@.len() == k,
        decreases m - k,
    {
        let row = rev.pop().unwrap();
        proof {
            let old_rev = rev@.push(row);
            assert(rows_view(old_rev).reverse() =~= seq![row@] + rows_view(rev@).reverse());
            assert(rows_view(frames@.push(row)) =~= rows_view(frames@).push(row@));
            assert(rows_view(frames@) + rows_view(old_rev).reverse() =~= rows_view(frames@).push(row@)
                + rows_view(rev@).reverse());
        }
        frames.push(row);
        k = k + 1;
    }
    proof {
        assert(rows_view(frames@) =~= kept_rows(all));
    }
    if frames.len() == 0 {
        return Err(AnalysisError::TransformFailure);
    }
    proof {
        lemma_kept_rows_len(all);
        let half = config.window_size / 2;
        let h = config.hop_size as int;
        let room = n_samples - half;
        assert(((room / h) * h) <= room) by (nonlinear_arith)
            requires h >= 1, room >= 0;
        assert(frames@.len() * h <= (room / h + 1) * h) by (nonlinear_arith)
            requires frames@.len() <= room / h + 1, h >= 1;
        assert((room / h + 1) * h == (room / h) * h + h) by (nonlinear_arith);
    }
    Ok(Spectrogram {
        frames,
        bins,
        bin_freqs_mhz,
        window_size: config.window_size,
        hop_size: config.hop_size,
        sample_rate,
        min_freq: config.low_freq_cutoff,
        max_freq: config.high_freq_cutoff,
        n_samples,
    })
}

proof fn lemma_kept_rows_len(t: Seq<Option<Vec<u32>>>)
    ensures
        kept_rows(t).len() <= t.len(),
    decreases t.len(),
{
    if t.len() > 0 {
        lemma_kept_rows_len(t.drop_last());
    }
}

} // verus!
