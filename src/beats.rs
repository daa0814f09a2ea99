use vstd::prelude::*;
use crate::config::{BpmConfig, MAX_BINS, MAX_SAMPLES};
use crate::spectrogram::{Spectrogram, frame_time_us};

verus! {

/// Sum of a row's magnitudes.
pub open spec fn row_sum(row: Seq<u32>) -> int
    decreases row.len(),
{
    if row.len() == 0 {
        0
    } else {
        row_sum(row.drop_last()) + row.last()
    }
}

/// Mean magnitude of a row, rounded down.
pub open spec fn row_energy(row: Seq<u32>) -> int {
    if row.len() == 0 {
        0
    } else {
        row_sum(row) / (row.len() as int)
    }
}

/// Index of the largest magnitude of a row; of equal ones, the last.
pub open spec fn loudest_bin(row: Seq<u32>) -> int
    decreases row.len(),
{
    if row.len() <= 1 {
        0
    } else {
        let j = loudest_bin(row.drop_last());
        if row.last() >= row[j] {
            row.len() - 1
        } else {
            j
        }
    }
}

/// What the detector reads of one frame.
#[derive(Debug, Clone, Copy, PartialEq, Eq, Structural)]
pub struct FrameStat {
    /// Index of the frame.
    pub frame: usize,
    /// Start of the frame, in microseconds.
    pub timestamp_us: u64,
    /// Mean magnitude over the frame's bins.
    pub energy: u64,
    /// Bin of the largest magnitude.
    pub dominant_bin: usize,
    /// Frequency of that bin, in millihertz.
    pub dominant_freq_mhz: u64,
}

/// The statistics of frame `i` of a grid.
pub open spec fn frame_stat(grid: Seq<Seq<u32>>, freqs: Seq<u64>, hop: int, sample_rate: int, i: int) -> FrameStat {
    FrameStat {
        frame: i as usize,
        timestamp_us: frame_time_us(i, hop, sample_rate) as u64,
        energy: row_energy(grid[i]) as u64,
        dominant_bin: loudest_bin(grid[i]) as usize,
        dominant_freq_mhz: freqs[loudest_bin(grid[i])],
    }
}

/// The statistics of every frame of a grid, in order.
pub open spec fn frame_stats_spec(grid: Seq<Seq<u32>>, freqs: Seq<u64>, hop: int, sample_rate: int) -> Seq<FrameStat> {
    Seq::new(grid.len(), |i: int| frame_stat(grid, freqs, hop, sample_rate, i))
}

proof fn lemma_row_sum_bound(row: Seq<u32>)
    ensures
        0 <= row_sum(row) <= row.len() * 0xffff_ffff,
    decreases row.len(),
{
    if row.len() > 0 {
        lemma_row_sum_bound(row.drop_last());
    }
}

proof fn lemma_loudest_bin_range(row: Seq<u32>)
    ensures
        row.len() > 0 ==> 0 <= loudest_bin(row) < row.len(),
    decreases row.len(),
{
    if row.len() > 1 {
        lemma_loudest_bin_range(row.drop_last());
    }
}

/// Mean magnitude and loudest bin of one row.
fn row_stats(row: &Vec<u32>) -> (r: (u64, usize))
    requires
        1 <= row@.len() <= MAX_BINS,
    ensures
        r.0 == row_energy(row@),
        r.1 == loudest_bin(row@),
{
    let n = row.len();
    let mut sum: u64 = 0;
    let mut best: usize = 0;
    let mut i: usize = 0;
    while i < n
        invariant
            n == row@.len(),
            1 <= n <= MAX_BINS,
            i <= n,
            sum == row_sum(row@.take(i as int)),
            i > 0 ==> best == loudest_bin(row@.take(i as int)),
            i == 0 ==> best == 0,
        decreases n - i,
    {
        proof {
            assert(row@.take(i + 1).drop_last() =~= row@.take(i as int));
            lemma_row_sum_bound(row@.take(i as int));
            assert(i * 0xffff_ffff <= MAX_BINS * 0xffff_ffff) by (nonlinear_arith)
                requires i <= MAX_BINS;
            if i > 0 {
                lemma_loudest_bin_range(row@.take(i as int));
            }
        }
        sum = sum + row[i] as u64;
        if i == 0 || row[i] >= row[best] {
            best = i;
        }
        i = i + 1;
    }
    proof {
        assert(row@.take(n as int) =~= row@);
        lemma_row_sum_bound(row@);
    }
    (sum / (n as u64), best)
}

/// The statistics of every frame of a spectrogram.
pub fn frame_stats(s: &Spectrogram) -> (r: Vec<FrameStat>)
    requires
        s.wf(),
    ensures
        r@ == frame_stats_spec(s.grid(), s.freqs(), s.hop_size as int, s.sample_rate as int),
        r@.len() <= 2 * MAX_SAMPLES,
        forall|j: int| 0 <= j < r@.len() ==> (#[trigger] r@[j]).energy <= 0xffff_ffff,
{
    let n = s.frames.len();
    let mut out: Vec<FrameStat> = Vec::new();
    let mut i: usize = 0;
    while i < n
        invariant
            s.wf(),
            n == s.frames@.len(),
            i <= n,
            out@.len() == i,
            forall|j: int|
                0 <= j < i ==> #[trigger] out@[j] == frame_stat(
                    s.grid(),
                    s.freqs(),
                    s.hop_size as int,
                    s.sample_rate as int,
                    j,
                ),
            forall|j: int| 0 <= j < i ==> (#[trigger] out@[j]).energy <= 0xffff_ffff,
        decreases n - i,
    {
        let (energy, dominant_bin) = row_stats(&s.frames[i]);
        let timestamp_us = s.frame_time_us(i);
        proof {
            lemma_row_sum_bound(s.frames@[i as int]@);
            assert(row_sum(s.frames@[i as int]@) / (s.bins as int) <= 0xffff_ffff) by (nonlinear_arith)
                requires
                    0 <= row_sum(s.frames@[i as int]@) <= s.bins * 0xffff_ffff,
                    s.bins >= 1,
            ;
        }
        proof {
            lemma_loudest_bin_range(s.frames@[i as int]@);
        }
        let dominant_freq_mhz = s.bin_freqs_mhz[dominant_bin];
        out.push(FrameStat { frame: i, timestamp_us, energy, dominant_bin, dominant_freq_mhz });
        i = i + 1;
    }
    proof {
        assert(n <= n * s.hop_size) by (nonlinear_arith)
            requires s.hop_size >= 1;
        assert(out@ =~= frame_stats_spec(s.grid(), s.freqs(), s.hop_size as int, s.sample_rate as int));
    }
    out
}

/// Number of thresholding sections over `n` frames when a section starts every `half` frames.
pub open spec fn section_count(n: int, half: int) -> int {
    if n <= 0 {
        0
    } else {
        (n - 1) / half + 1
    }
}

/// Least energy of frames `a .. b` (`a < b`).
pub open spec fn energy_min(st: Seq<FrameStat>, a: int, b: int) -> int
    decreases b - a,
{
    if b <= a + 1 {
        st[a].energy as int
    } else {
        let m = energy_min(st, a, b - 1);
        if (st[b - 1].energy as int) < m {
            st[b - 1].energy as int
        } else {
            m
        }
    }
}

/// Greatest energy of frames `a .. b` (`a < b`).
pub open spec fn energy_max(st: Seq<FrameStat>, a: int, b: int) -> int
    decreases b - a,
{
    if b <= a + 1 {
        st[a].energy as int
    } else {
        let m = energy_max(st, a, b - 1);
        if (st[b - 1].energy as int) > m {
            st[b - 1].energy as int
        } else {
            m
        }
    }
}

/// The threshold of one section, in thousandths of an energy unit.
#[derive(Debug, Clone, Copy, PartialEq, Eq, Structural)]
pub struct SectionThreshold {
    /// First frame of the section.
    pub start: usize,
    /// One past its last frame.
    pub end: usize,
    /// `min + (max - min) * p`, times 1000, with `p` the configured fraction.
    pub threshold_milli: u64,
}

/// Section `k` over the frames `st`: it starts at `k * (size / 2)` and holds up
/// to `size` frames; its threshold lies the fraction `p / 1000` of the way from its
/// least to its greatest energy.
pub open spec fn section_spec(st: Seq<FrameStat>, size: int, p: int, k: int) -> SectionThreshold {
    let a = k * (size / 2);
    let b = if a + size < st.len() {
        a + size
    } else {
        st.len() as int
    };
    let lo = energy_min(st, a, b);
    let hi = energy_max(st, a, b);
    SectionThreshold { start: a as usize, end: b as usize, threshold_milli: (lo * 1000 + (hi - lo) * p) as u64 }
}

/// Every section over the frames `st`, in order.
pub open spec fn sections_spec(st: Seq<FrameStat>, size: int, p: int) -> Seq<SectionThreshold> {
    Seq::new(section_count(st.len() as int, size / 2) as nat, |k: int| section_spec(st, size, p, k))
}

/// The thresholds of the overlapping sections over the frames `st`.
pub fn section_thresholds(st: &Vec<FrameStat>, section_size: usize, permille: u64) -> (r: Vec<SectionThreshold>)
    requires
        2 <= section_size <= MAX_BINS,
        permille <= 1000,
        st@.len() <= 2 * MAX_SAMPLES,
        forall|j: int| 0 <= j < st@.len() ==> (#[trigger] st@[j]).energy <= 0xffff_ffff,
    ensures
        r@ == sections_spec(st@, section_size as int, permille as int),
        forall|k: int| 0 <= k < r@.len() ==> (#[trigger] r@[k]).start < r@[k].end <= st@.len(),
{
    let n = st.len();
    let half = section_size / 2;
    let count: usize = if n == 0 { 0 } else { (n - 1) / half + 1 };
    let mut out: Vec<SectionThreshold> = Vec::new();
    let mut k: usize = 0;
    while k < count
        invariant
            n == st@.len(),
            n <= 2 * MAX_SAMPLES,
            2 <= section_size <= MAX_BINS,
            half == section_size / 2,
            permille <= 1000,
            count == section_count(n as int, half as int),
            forall|j: int| 0 <= j < st@.len() ==> (#[trigger] st@[j]).energy <= 0xffff_ffff,
            k <= count,
            out@.len() == k,
            forall|j: int|
                0 <= j < k ==> #[trigger] out@[j] == section_spec(st@, section_size as int, permille as int, j),
            forall|j: int| 0 <= j < k ==> (#[trigger] out@[j]).start < out@[j].end <= n,
        decreases count - k,
    {
        proof {
            assert(k * half <= n - 1) by (nonlinear_arith)
                requires k <= (n as int - 1) / (half as int), half >= 1, n >= 1;
        }
        let a = k * half;
        let b = if a + section_size < n { a + section_size } else { n };
        let mut lo: u64 = st[a].energy;
        let mut hi: u64 = st[a].energy;
        let mut j: usize = a + 1;
        while j < b
            invariant
                a < b <= n,
                n == st@.len(),
                a + 1 <= j <= b,
                lo == energy_min(st@, a as int, j as int),
                hi == energy_max(st@, a as int, j as int),
                lo <= hi <= 0xffff_ffff,
                forall|i: int| 0 <= i < st@.len() ==> (#[trigger] st@[i]).energy <= 0xffff_ffff,
            decreases b - j,
        {
            let e = st[j].energy;
            if e < lo {
                lo = e;
            }
            if e > hi {
                hi = e;
            }
            j = j + 1;
        }
        proof {
            assert((hi - lo) * permille <= 0xffff_ffff * 1000) by (nonlinear_arith)
                requires hi - lo <= 0xffff_ffff, permille <= 1000, lo <= hi;
        }
        let threshold_milli = lo * 1000 + (hi - lo) * permille;
        out.push(SectionThreshold { start: a, end: b, threshold_milli });
        k = k + 1;
    }
    proof {
        assert(out@ =~= sections_spec(st@, section_size as int, permille as int));
    }
    out
}

/// Whether frame `i` with the given energy lies in a section and rises above its threshold.
pub open spec fn clears(sec: SectionThreshold, i: int, energy: int) -> bool {
    &&& sec.start <= i < sec.end
    &&& energy * 1000 > sec.threshold_milli
}

/// The threshold of the first of `secs` that frame `i` clears, if any.
pub open spec fn first_clearing(secs: Seq<SectionThreshold>, i: int, energy: int) -> Option<u64>
    decreases secs.len(),
{
    if secs.len() == 0 {
        None
    } else {
        match first_clearing(secs.drop_last(), i, energy) {
            Some(t) => Some(t),
            None => if clears(secs.last(), i, energy) {
                Some(secs.last().threshold_milli)
            } else {
                None
            },
        }
    }
}

/// A frame that rose above a threshold.
#[derive(Debug, Clone, Copy, PartialEq, Eq, Structural)]
pub struct Candidate {
    /// Index of the frame.
    pub frame: usize,
    /// Start of the frame, in microseconds.
    pub timestamp_us: u64,
    /// Mean magnitude of the frame.
    pub energy: u64,
    /// Bin of the frame's largest magnitude.
    pub dominant_bin: usize,
    /// Frequency of that bin, in millihertz.
    pub dominant_freq_mhz: u64,
    /// The threshold it cleared, in thousandths of an energy unit.
    pub threshold_milli: u64,
}

/// The candidate made of a frame and the threshold it cleared.
pub open spec fn candidate_of(f: FrameStat, t: u64) -> Candidate {
    Candidate {
        frame: f.frame,
        timestamp_us: f.timestamp_us,
        energy: f.energy,
        dominant_bin: f.dominant_bin,
        dominant_freq_mhz: f.dominant_freq_mhz,
        threshold_milli: t,
    }
}

/// The candidates among the first `upto` frames, in frame order; each carries
/// the threshold of the first section it clears.
pub open spec fn candidates_spec(st: Seq<FrameStat>, secs: Seq<SectionThreshold>, upto: int) -> Seq<
    Candidate,
>
    decreases upto,
{
    if upto <= 0 {
        Seq::empty()
    } else {
        let rest = candidates_spec(st, secs, upto - 1);
        match first_clearing(secs, upto - 1, st[upto - 1].energy as int) {
            Some(t) => rest.push(candidate_of(st[upto - 1], t)),
            None => rest,
        }
    }
}

/// For every frame, the threshold of the first section that it clears.
fn first_thresholds(st: &Vec<FrameStat>, secs: &Vec<SectionThreshold>) -> (r: Vec<Option<u64>>)
    requires
        forall|k: int| 0 <= k < secs@.len() ==> (#[trigger] secs@[k]).start < secs@[k].end <= st@.len(),
        forall|j: int| 0 <= j < st@.len() ==> (#[trigger] st@[j]).energy <= 0xffff_ffff,
    ensures
        r@.len() == st@.len(),
        forall|i: int|
            0 <= i < st@.len() ==> #[trigger] r@[i] == first_clearing(secs@, i, st@[i].energy as int),
{
    let n = st.len();
    let mut marks: Vec<Option<u64>> = Vec::new();
    let mut i: usize = 0;
    while i < n
        invariant
            n == st@.len(),
            i <= n,
            marks@.len() == i,
            forall|j: int| 0 <= j < i ==> #[trigger] marks@[j] == None::<u64>,
        decreases n - i,
    {
        marks.push(None);
        i = i + 1;
    }
    let mut k: usize = 0;
    while k < secs.len()
        invariant
            n == st@.len(),
            marks@.len() == n,
            k <= secs@.len(),
            forall|q: int| 0 <= q < secs@.len() ==> (#[trigger] secs@[q]).start < secs@[q].end <= st@.len(),
            forall|j: int| 0 <= j < st@.len() ==> (#[trigger] st@[j]).energy <= 0xffff_ffff,
            forall|j: int|
                0 <= j < n ==> #[trigger] marks@[j] == first_clearing(
                    secs@.take(k as int),
                    j,
                    st@[j].energy as int,
                ),
        decreases secs@.len() - k,
    {
        let sec = secs[k];
        let ghost before = secs@.take(k as int);
        let ghost after = secs@.take(k + 1);
        proof {
            assert(after.drop_last() =~= before);
            assert(after.last() == sec);
        }
        let mut j: usize = sec.start;
        while j < sec.end
            invariant
                n == st@.len(),
                marks@.len() == n,
                sec.start <= j <= sec.end <= n,
                after.drop_last() == before,
                after.last() == sec,
                after.len() > 0,
                forall|q: int| 0 <= q < st@.len() ==> (#[trigger] st@[q]).energy <= 0xffff_ffff,
                forall|q: int|
                    0 <= q < n ==> #[trigger] marks@[q] == if sec.start <= q < j {
                        first_clearing(after, q, st@[q].energy as int)
                    } else {
                        first_clearing(before, q, st@[q].energy as int)
                    },
            decreases sec.end - j,
        {
            if marks[j].is_none() && st[j].energy * 1000 > sec.threshold_milli {
                marks.set(j, Some(sec.threshold_milli));
            }
            j = j + 1;
        }
        proof {
            assert forall|q: int| 0 <= q < n implies #[trigger] marks@[q] == first_clearing(
                after,
                q,
                st@[q].energy as int,
            ) by {
                if !(sec.start <= q < sec.end) {
                    assert(!clears(sec, q, st@[q].energy as int));
                }
            }
        }
        k = k + 1;
    }
    proof {
        assert(secs@.take(secs@.len() as int) =~= secs@);
    }
    marks
}

/// The frames that rise above the threshold of a section they lie in, in frame
/// order, each with the threshold of the first such section.
pub fn candidate_frames(st: &Vec<FrameStat>, secs: &Vec<SectionThreshold>) -> (r: Vec<Candidate>)
    requires
        forall|k: int| 0 <= k < secs@.len() ==> (#[trigger] secs@[k]).start < secs@[k].end <= st@.len(),
        forall|j: int| 0 <= j < st@.len() ==> (#[trigger] st@[j]).energy <= 0xffff_ffff,
    ensures
        r@ == candidates_spec(st@, secs@, st@.len() as int),
{
    let marks = first_thresholds(st, secs);
    let n = st.len();
    let mut out: Vec<Candidate> = Vec::new();
    let mut i: usize = 0;
    while i < n
        invariant
            n == st@.len(),
            marks@.len() == n,
            i <= n,
            forall|q: int|
                0 <= q < st@.len() ==> #[trigger] marks@[q] == first_clearing(secs@, q, st@[q].energy as int),
            out@ == candidates_spec(st@, secs@, i as int),
        decreases n - i,
    {
        match marks[i] {
            Some(t) => {
                let f = st[i];
                out.push(Candidate {
                    frame: f.frame,
                    timestamp_us: f.timestamp_us,
                    energy: f.energy,
                    dominant_bin: f.dominant_bin,
                    dominant_freq_mhz: f.dominant_freq_mhz,
                    threshold_milli: t,
                });
            },
            None => {},
        }
        i = i + 1;
    }
    out
}

proof fn lemma_energy_range(st: Seq<FrameStat>, a: int, b: int)
    requires
        0 <= a < b <= st.len(),
        forall|j: int| 0 <= j < st.len() ==> (#[trigger] st[j]).energy <= 0xffff_ffff,
    ensures
        0 <= energy_min(st, a, b) <= energy_max(st, a, b) <= 0xffff_ffff,
    decreases b - a,
{
    if b > a + 1 {
        lemma_energy_range(st, a, b - 1);
    }
}

proof fn lemma_first_clearing_some(secs: Seq<SectionThreshold>, i: int, energy: int)
    ensures
        first_clearing(secs, i, energy) is Some <==> exists|k: int|
            0 <= k < secs.len() && clears(#[trigger] secs[k], i, energy),
    decreases secs.len(),
{
    if secs.len() > 0 {
        let d = secs.drop_last();
        lemma_first_clearing_some(d, i, energy);
        if first_clearing(d, i, energy) is Some {
            let k = choose|k: int| 0 <= k < d.len() && clears(#[trigger] d[k], i, energy);
            assert(secs[k] == d[k]);
        }
        if exists|k: int| 0 <= k < secs.len() && clears(#[trigger] secs[k], i, energy) {
            let k = choose|k: int| 0 <= k < secs.len() && clears(#[trigger] secs[k], i, energy);
            if k < secs.len() - 1 {
                assert(d[k] == secs[k]);
            }
        }
    }
}

/// Raising the threshold fraction from `p1` to `p2` only raises each
/// section's threshold: a frame that is a candidate at `p2` is one at `p1`.
pub proof fn lemma_higher_threshold_keeps_fewer_frames(
    st: Seq<FrameStat>,
    size: int,
    p1: int,
    p2: int,
    i: int,
)
    requires
        2 <= size,
        0 <= p1 <= p2 <= 1000,
        forall|j: int| 0 <= j < st.len() ==> (#[trigger] st[j]).energy <= 0xffff_ffff,
    ensures
        first_clearing(sections_spec(st, size, p2), i, st[i].energy as int) is Some ==> first_clearing(
            sections_spec(st, size, p1),
            i,
            st[i].energy as int,
        ) is Some,
{
    let s1 = sections_spec(st, size, p1);
    let s2 = sections_spec(st, size, p2);
    let e = st[i].energy as int;
    lemma_first_clearing_some(s1, i, e);
    lemma_first_clearing_some(s2, i, e);
    if first_clearing(s2, i, e) is Some {
        let k = choose|k: int| 0 <= k < s2.len() && clears(#[trigger] s2[k], i, e);
        let half = size / 2;
        let n = st.len() as int;
        assert(n >= 1);
        assert(k <= (n - 1) / half);
        assert(k * half <= n - 1) by (nonlinear_arith)
            requires k <= (n - 1) / half, half >= 1, n >= 1;
        assert(k * half >= 0) by (nonlinear_arith)
            requires k >= 0, half >= 1;
        let a = k * half;
        let b = if a + size < st.len() { a + size } else { st.len() as int };
        lemma_energy_range(st, a, b);
        let lo = energy_min(st, a, b);
        let hi = energy_max(st, a, b);
        assert((hi - lo) * p1 <= (hi - lo) * p2) by (nonlinear_arith)
            requires hi - lo >= 0, p1 <= p2;
        assert((hi - lo) * p2 <= 0xffff_ffff * 1000) by (nonlinear_arith)
            requires 0 <= hi - lo <= 0xffff_ffff, p2 <= 1000;
        assert((hi - lo) * p1 >= 0) by (nonlinear_arith)
            requires hi - lo >= 0, p1 >= 0;
        assert(clears(s1[k], i, e));
    }
}

proof fn lemma_candidate_count_monotone(
    st: Seq<FrameStat>,
    size: int,
    p1: int,
    p2: int,
    upto: int,
)
    requires
        2 <= size,
        0 <= p1 <= p2 <= 1000,
        upto <= st.len(),
        forall|j: int| 0 <= j < st.len() ==> (#[trigger] st[j]).energy <= 0xffff_ffff,
    ensures
        candidates_spec(st, sections_spec(st, size, p2), upto).len() <= candidates_spec(
            st,
            sections_spec(st, size, p1),
            upto,
        ).len(),
    decreases upto,
{
    if upto > 0 {
        lemma_candidate_count_monotone(st, size, p1, p2, upto - 1);
        lemma_higher_threshold_keeps_fewer_frames(st, size, p1, p2, upto - 1);
    }
}

/// Raising the threshold fraction never increases the number of candidate
/// frames of a grid.
pub proof fn lemma_higher_threshold_fewer_candidates(
    grid: Seq<Seq<u32>>,
    freqs: Seq<u64>,
    hop: int,
    sample_rate: int,
    size: int,
    p1: int,
    p2: int,
)
    requires
        2 <= size,
        0 <= p1 <= p2 <= 1000,
        forall|j: int| 0 <= j < grid.len() ==> row_energy(#[trigger] grid[j]) <= 0xffff_ffff,
    ensures
        ({
            let st = frame_stats_spec(grid, freqs, hop, sample_rate);
            candidates_spec(st, sections_spec(st, size, p2), st.len() as int).len() <= candidates_spec(
                st,
                sections_spec(st, size, p1),
                st.len() as int,
            ).len()
        }),
{
    let st = frame_stats_spec(grid, freqs, hop, sample_rate);
    assert forall|j: int| 0 <= j < st.len() implies (#[trigger] st[j]).energy <= 0xffff_ffff by {
        assert(row_energy(grid[j]) <= 0xffff_ffff);
        assert(row_energy(grid[j]) >= 0) by {
            lemma_row_sum_bound(grid[j]);
            if grid[j].len() > 0 {
                assert(row_sum(grid[j]) / (grid[j].len() as int) >= 0) by (nonlinear_arith)
                    requires row_sum(grid[j]) >= 0, grid[j].len() > 0;
            }
        }
    }
    lemma_candidate_count_monotone(st, size, p1, p2, st.len() as int);
}

proof fn lemma_flat_energy(st: Seq<FrameStat>, a: int, b: int, e: int)
    requires
        0 <= a < b <= st.len(),
        forall|j: int| 0 <= j < st.len() ==> (#[trigger] st[j]).energy == e,
    ensures
        energy_min(st, a, b) == e,
        energy_max(st, a, b) == e,
    decreases b - a,
{
    if b > a + 1 {
        lemma_flat_energy(st, a, b - 1, e);
    }
}

proof fn lemma_flat_no_candidates(st: Seq<FrameStat>, size: int, p: int, e: int, upto: int)
    requires
        2 <= size,
        0 <= p <= 1000,
        0 <= e <= 0xffff_ffff,
        upto <= st.len(),
        forall|j: int| 0 <= j < st.len() ==> (#[trigger] st[j]).energy == e,
    ensures
        candidates_spec(st, sections_spec(st, size, p), upto).len() == 0,
    decreases upto,
{
    if upto > 0 {
        lemma_flat_no_candidates(st, size, p, e, upto - 1);
        let secs = sections_spec(st, size, p);
        let i = upto - 1;
        lemma_first_clearing_some(secs, i, e);
        if first_clearing(secs, i, e) is Some {
            let k = choose|k: int| 0 <= k < secs.len() && clears(#[trigger] secs[k], i, e);
            let half = size / 2;
            let n = st.len() as int;
            assert(k <= (n - 1) / half);
            assert(k * half <= n - 1) by (nonlinear_arith)
                requires k <= (n - 1) / half, half >= 1, n >= 1;
            assert(k * half >= 0) by (nonlinear_arith)
                requires k >= 0, half >= 1;
            let a = k * half;
            let b = if a + size < n { a + size } else { n };
            lemma_flat_energy(st, a, b, e);
            let lo = energy_min(st, a, b);
            let hi = energy_max(st, a, b);
            assert((hi - lo) * p == 0) by (nonlinear_arith)
                requires hi == lo;
            assert(secs[k] == section_spec(st, size, p, k));
            assert(secs[k].threshold_milli == e * 1000);
            assert(!clears(secs[k], i, e));
        }
    }
}

/// A grid whose frames all carry the same energy (silence among them) yields
/// no beats: every section is flat, so no frame rises above its threshold.
pub proof fn lemma_flat_grid_has_no_beats(grid: Seq<Seq<u32>>, freqs: Seq<u64>, hop: int, sample_rate: int, config: BpmConfig)
    requires
        config.valid(),
        grid.len() > 0,
        forall|j: int| 0 <= j < grid.len() ==> row_energy(#[trigger] grid[j]) == row_energy(grid[0]),
        0 <= row_energy(grid[0]) <= 0xffff_ffff,
    ensures
        detected_beats(grid, freqs, hop, sample_rate, config).len() == 0,
{
    let st = frame_stats_spec(grid, freqs, hop, sample_rate);
    let e = row_energy(grid[0]);
    assert forall|j: int| 0 <= j < st.len() implies (#[trigger] st[j]).energy == e by {
        assert(row_energy(grid[j]) == e);
    }
    let secs = sections_spec(st, config.section_size as int, config.adaptive_threshold_permille as int);
    lemma_flat_no_candidates(
        st,
        config.section_size as int,
        config.adaptive_threshold_permille as int,
        e,
        st.len() as int,
    );
    let c = candidates_spec(st, secs, st.len() as int);
    assert(clusters(c, config.cluster_gap_us as int) =~= Seq::<Seq<Candidate>>::empty());
    assert(raw_beats(clusters(c, config.cluster_gap_us as int)) =~= Seq::<Beat>::empty());
}

/// Splits candidates (in order) into runs: a candidate joins the current run
/// unless it comes more than `gap` microseconds after the run's last one.
pub open spec fn clusters(c: Seq<Candidate>, gap: int) -> Seq<Seq<Candidate>>
    decreases c.len(),
{
    if c.len() == 0 {
        Seq::empty()
    } else {
        let g = clusters(c.drop_last(), gap);
        let x = c.last();
        if g.len() == 0 || (x.timestamp_us as int) - (g.last().last().timestamp_us as int) > gap {
            g.push(seq![x])
        } else {
            g.update(g.len() - 1, g.last().push(x))
        }
    }
}

/// Every run is non-empty, and there is one as soon as there is a candidate.
pub proof fn lemma_clusters_nonempty(c: Seq<Candidate>, gap: int)
    ensures
        c.len() > 0 ==> clusters(c, gap).len() > 0,
        forall|k: int|
            0 <= k < clusters(c, gap).len() ==> (#[trigger] clusters(c, gap)[k]).len() > 0,
    decreases c.len(),
{
    if c.len() > 0 {
        lemma_clusters_nonempty(c.drop_last(), gap);
        let g = clusters(c.drop_last(), gap);
        let r = clusters(c, gap);
        assert forall|k: int| 0 <= k < r.len() implies (#[trigger] r[k]).len() > 0 by {
            if k < g.len() && k != g.len() - 1 {
                assert(r[k] == g[k]);
            }
        }
    }
}

/// Views of a list of runs.
pub open spec fn groups_view(g: Seq<Vec<Candidate>>) -> Seq<Seq<Candidate>> {
    g.map_values(|v: Vec<Candidate>| v@)
}

/// Groups candidates, in order, into runs split at gaps wider than `gap_us`.
pub fn cluster_candidates(cands: &Vec<Candidate>, gap_us: u64) -> (r: Vec<Vec<Candidate>>)
    ensures
        groups_view(r@) == clusters(cands@, gap_us as int),
{
    let n = cands.len();
    let mut groups: Vec<Vec<Candidate>> = Vec::new();
    let mut current: Vec<Candidate> = Vec::new();
    let mut i: usize = 0;
    while i < n
        invariant
            n == cands@.len(),
            i <= n,
            i == 0 ==> current@.len() == 0 && groups@.len() == 0,
            i > 0 ==> current@.len() > 0 && groups_view(groups@).push(current@) == clusters(
                cands@.take(i as int),
                gap_us as int,
            ),
        decreases n - i,
    {
        let x = cands[i];
        let ghost prev = cands@.take(i as int);
        proof {
            assert(cands@.take(i + 1).drop_last() =~= prev);
            lemma_clusters_nonempty(prev, gap_us as int);
        }
        if i == 0 {
            current.push(x);
            proof {
                assert(prev.len() == 0);
                assert(clusters(prev, gap_us as int) =~= Seq::<Seq<Candidate>>::empty());
                assert(current@ =~= seq![x]);
                assert(groups_view(groups@) =~= Seq::<Seq<Candidate>>::empty());
                assert(groups_view(groups@).push(current@) =~= clusters(cands@.take(1), gap_us as int));
            }
        } else {
            let last_ts = current[current.len() - 1].timestamp_us;
            if x.timestamp_us > last_ts && x.timestamp_us - last_ts > gap_us {
                let ghost old_groups = groups@;
                let ghost old_current = current@;
                groups.push(current);
                current = Vec::new();
                current.push(x);
                proof {
                    assert(groups_view(groups@) =~= groups_view(old_groups).push(old_current));
                    assert(groups_view(groups@).push(current@) =~= clusters(prev, gap_us as int).push(
                        seq![x],
                    ));
                }
            } else {
                let ghost old_current = current@;
                current.push(x);
                proof {
                    let g = clusters(prev, gap_us as int);
                    assert(groups_view(groups@).push(current@) =~= g.update(
                        g.len() - 1,
                        g.last().push(x),
                    ));
                }
            }
        }
        i = i + 1;
    }
    proof {
        assert(cands@.take(n as int) =~= cands@);
    }
    if n > 0 {
        groups.push(current);
    }
    proof {
        if n == 0 {
            assert(groups_view(groups@) =~= clusters(cands@, gap_us as int));
        }
    }
    groups
}

/// Twice the distance of a candidate from the middle of its run, `|2t - (first + last)|`.
pub open spec fn middle_distance(g: Seq<Candidate>, j: int) -> int {
    let d = 2 * (g[j].timestamp_us as int) - (g[0].timestamp_us as int) - (g.last().timestamp_us as int);
    if d < 0 {
        -d
    } else {
        d
    }
}

/// Among the first `upto` members of a run, the index of the one nearest its
/// middle; of equally near ones, the first.
pub open spec fn nearest_middle(g: Seq<Candidate>, upto: int) -> int
    decreases upto,
{
    if upto <= 1 {
        0
    } else {
        let j = nearest_middle(g, upto - 1);
        if middle_distance(g, upto - 1) < middle_distance(g, j) {
            upto - 1
        } else {
            j
        }
    }
}

proof fn lemma_nearest_middle_range(g: Seq<Candidate>, upto: int)
    ensures
        upto >= 1 ==> 0 <= nearest_middle(g, upto) < upto,
    decreases upto,
{
    if upto > 1 {
        lemma_nearest_middle_range(g, upto - 1);
    }
}

/// A detected beat.
#[derive(Debug, Clone, Copy, PartialEq, Eq, Structural)]
pub struct Beat {
    /// Index of the frame it was taken from.
    pub frame: usize,
    /// Time from the start of the track, in microseconds.
    pub timestamp_us: u64,
    /// Mean magnitude of its frame.
    pub energy: u64,
    /// Bin of the largest magnitude of its frame.
    pub dominant_bin: usize,
    /// Frequency of that bin, in millihertz.
    pub dominant_freq_mhz: u64,
    /// Energy over threshold, in thousandths, at most 2000.
    pub confidence_permille: u64,
}

/// `min(energy / threshold, 2)` in thousandths (the cap where the threshold is zero).
pub open spec fn confidence_permille(energy: int, threshold_milli: int) -> int {
    if threshold_milli == 0 {
        2000
    } else {
        let c = energy * 1_000_000 / threshold_milli;
        if c > 2000 {
            2000
        } else {
            c
        }
    }
}

/// The beat taken from a candidate.
pub open spec fn beat_of(c: Candidate) -> Beat {
    Beat {
        frame: c.frame,
        timestamp_us: c.timestamp_us,
        energy: c.energy,
        dominant_bin: c.dominant_bin,
        dominant_freq_mhz: c.dominant_freq_mhz,
        confidence_permille: confidence_permille(c.energy as int, c.threshold_milli as int) as u64,
    }
}

/// The beat of a run: its member nearest the run's middle.
pub open spec fn cluster_beat(g: Seq<Candidate>) -> Beat {
    beat_of(g[nearest_middle(g, g.len() as int)])
}

/// The beat of one non-empty run of candidates.
pub fn beat_from_cluster(group: &Vec<Candidate>) -> (r: Beat)
    requires
        group@.len() > 0,
    ensures
        r == cluster_beat(group@),
{
    let n = group.len();
    let first = group[0].timestamp_us as i128;
    let last = group[n - 1].timestamp_us as i128;
    let mut best: usize = 0;
    let mut i: usize = 1;
    let d0 = 2 * first - first - last;
    let mut best_dist: i128 = if d0 < 0 { -d0 } else { d0 };
    while i < n
        invariant
            n == group@.len(),
            1 <= i <= n,
            first == group@[0].timestamp_us,
            last == group@.last().timestamp_us,
            best == nearest_middle(group@, i as int),
            0 <= best < i,
            best_dist == middle_distance(group@, best as int),
        decreases n - i,
    {
        let d = 2 * (group[i].timestamp_us as i128) - first - last;
        let dist = if d < 0 { -d } else { d };
        if dist < best_dist {
            best = i;
            best_dist = dist;
        }
        i = i + 1;
    }
    let c = group[best];
    let confidence_permille: u64 = if c.threshold_milli == 0 {
        2000
    } else {
        let q = (c.energy as u128) * 1_000_000 / (c.threshold_milli as u128);
        if q > 2000 { 2000 } else { q as u64 }
    };
    Beat {
        frame: c.frame,
        timestamp_us: c.timestamp_us,
        energy: c.energy,
        dominant_bin: c.dominant_bin,
        dominant_freq_mhz: c.dominant_freq_mhz,
        confidence_permille,
    }
}

/// Walks beats in order and drops each that comes less than `min_us`
/// microseconds after the last kept one.
pub open spec fn debounce(b: Seq<Beat>, min_us: int) -> Seq<Beat>
    decreases b.len(),
{
    if b.len() == 0 {
        Seq::empty()
    } else {
        let d = debounce(b.drop_last(), min_us);
        if d.len() == 0 || (b.last().timestamp_us as int) - (d.last().timestamp_us as int) >= min_us {
            d.push(b.last())
        } else {
            d
        }
    }
}

/// Drops the beats that come less than `min_interval_us` after the last kept one.
pub fn debounce_beats(beats: Vec<Beat>, min_interval_us: u64) -> (r: Vec<Beat>)
    ensures
        r@ == debounce(beats@, min_interval_us as int),
{
    let n = beats.len();
    let mut out: Vec<Beat> = Vec::new();
    let mut i: usize = 0;
    while i < n
        invariant
            n == beats@.len(),
            i <= n,
            out@ == debounce(beats@.take(i as int), min_interval_us as int),
        decreases n - i,
    {
        let b = beats[i];
        proof {
            assert(beats@.take(i + 1).drop_last() =~= beats@.take(i as int));
        }
        if out.len() == 0 {
            out.push(b);
        } else {
            let last = out[out.len() - 1].timestamp_us;
            if b.timestamp_us >= last && b.timestamp_us - last >= min_interval_us {
                out.push(b);
            }
        }
        i = i + 1;
    }
    proof {
        assert(beats@.take(n as int) =~= beats@);
    }
    out
}

/// Consecutive kept beats lie at least `min_us` apart.
pub proof fn lemma_debounce_spacing(b: Seq<Beat>, min_us: int)
    requires
        min_us >= 0,
    ensures
        forall|i: int|
            0 <= i < debounce(b, min_us).len() - 1 ==> (#[trigger] debounce(b, min_us)[i + 1]).timestamp_us
                - debounce(b, min_us)[i].timestamp_us >= min_us,
    decreases b.len(),
{
    if b.len() > 0 {
        lemma_debounce_spacing(b.drop_last(), min_us);
        let d = debounce(b.drop_last(), min_us);
        let r = debounce(b, min_us);
        assert forall|i: int| 0 <= i < r.len() - 1 implies (#[trigger] r[i + 1]).timestamp_us
            - r[i].timestamp_us >= min_us by {
            if i + 1 < d.len() {
                assert(r[i + 1] == d[i + 1] && r[i] == d[i]);
            }
        }
    }
}

/// The beat of every run, in order.
pub open spec fn raw_beats(groups: Seq<Seq<Candidate>>) -> Seq<Beat> {
    groups.map_values(|g: Seq<Candidate>| cluster_beat(g))
}

/// Greatest frame energy, or zero when there are no frames.
pub open spec fn max_energy_spec(st: Seq<FrameStat>) -> int
    decreases st.len(),
{
    if st.len() == 0 {
        0
    } else {
        let m = max_energy_spec(st.drop_last());
        if (st.last().energy as int) > m {
            st.last().energy as int
        } else {
            m
        }
    }
}

/// What the detector decided on the way, kept so that a picture of the
/// analysis shows the very thresholds and runs the tempo was derived from.
#[derive(Debug)]
pub struct AnalysisCache {
    /// Statistics of every frame.
    pub frame_energies: Vec<FrameStat>,
    /// Thresholds of the overlapping sections.
    pub section_thresholds: Vec<SectionThreshold>,
    /// Runs of candidate frames.
    pub energy_groups: Vec<Vec<Candidate>>,
    /// Greatest frame energy.
    pub max_energy: u64,
}

/// The runs of candidates the detector finds in a grid.
pub open spec fn clusters_of(grid: Seq<Seq<u32>>, freqs: Seq<u64>, hop: int, sample_rate: int, config: BpmConfig) -> Seq<
    Seq<Candidate>,
> {
    let st = frame_stats_spec(grid, freqs, hop, sample_rate);
    let secs = sections_spec(st, config.section_size as int, config.adaptive_threshold_permille as int);
    clusters(candidates_spec(st, secs, st.len() as int), config.cluster_gap_us as int)
}

/// The beats the detector finds in a grid: one per run of candidates,
/// debounced.
pub open spec fn detected_beats(grid: Seq<Seq<u32>>, freqs: Seq<u64>, hop: int, sample_rate: int, config: BpmConfig) -> Seq<
    Beat,
> {
    debounce(raw_beats(clusters_of(grid, freqs, hop, sample_rate, config)), config.beat_debounce_us as int)
}

/// Whether a cache holds exactly what beat detection on the grid decided:
/// every frame's statistics, every section's threshold, the runs of
/// candidates and the greatest frame energy.
pub open spec fn cache_of(
    cache: AnalysisCache,
    grid: Seq<Seq<u32>>,
    freqs: Seq<u64>,
    hop: int,
    sample_rate: int,
    config: BpmConfig,
) -> bool {
    &&& cache.frame_energies@ == frame_stats_spec(grid, freqs, hop, sample_rate)
    &&& cache.section_thresholds@ == sections_spec(
        cache.frame_energies@,
        config.section_size as int,
        config.adaptive_threshold_permille as int,
    )
    &&& groups_view(cache.energy_groups@) == clusters_of(grid, freqs, hop, sample_rate, config)
    &&& cache.max_energy == max_energy_spec(cache.frame_energies@)
}

/// Finds beats in a spectrogram with section-local adaptive thresholds, and
/// returns them with what was decided on the way.
pub fn detect_beats(s: &Spectrogram, config: &BpmConfig) -> (r: (Vec<Beat>, AnalysisCache))
    requires
        s.wf(),
        config.valid(),
    ensures
        r.0@ == detected_beats(s.grid(), s.freqs(), s.hop_size as int, s.sample_rate as int, *config),
        forall|i: int|
            0 <= i < r.0@.len() - 1 ==> (#[trigger] r.0@[i + 1]).timestamp_us - r.0@[i].timestamp_us
                >= config.beat_debounce_us,
        cache_of(r.1, s.grid(), s.freqs(), s.hop_size as int, s.sample_rate as int, *config),
{
    let st = frame_stats(s);
    let secs = section_thresholds(&st, config.section_size, config.adaptive_threshold_permille);
    let cands = candidate_frames(&st, &secs);
    let groups = cluster_candidates(&cands, config.cluster_gap_us);
    let ghost gs = clusters(cands@, config.cluster_gap_us as int);
    proof {
        lemma_clusters_nonempty(cands@, config.cluster_gap_us as int);
    }
    let mut raw: Vec<Beat> = Vec::new();
    let mut k: usize = 0;
    while k < groups.len()
        invariant
            groups_view(groups@) == gs,
            forall|q: int| 0 <= q < gs.len() ==> (#[trigger] gs[q]).len() > 0,
            k <= groups@.len(),
            raw@ == raw_beats(gs).take(k as int),
        decreases groups@.len() - k,
    {
        proof {
            assert(groups@[k as int]@ == gs[k as int]);
        }
        let b = beat_from_cluster(&groups[k]);
        proof {
            assert(raw@.push(b) =~= raw_beats(gs).take(k + 1));
        }
        raw.push(b);
        k = k + 1;
    }
    proof {
        assert(raw@ =~= raw_beats(gs));
    }
    let beats = debounce_beats(raw, config.beat_debounce_us);
    proof {
        lemma_debounce_spacing(raw_beats(gs), config.beat_debounce_us as int);
    }
    let mut max_energy: u64 = 0;
    let mut i: usize = 0;
    while i < st.len()
        invariant
            i <= st@.len(),
            max_energy == max_energy_spec(st@.take(i as int)),
        decreases st@.len() - i,
    {
        proof {
            assert(st@.take(i + 1).drop_last() =~= st@.take(i as int));
        }
        if st[i].energy > max_energy {
            max_energy = st[i].energy;
        }
        i = i + 1;
    }
    proof {
        assert(st@.take(st@.len() as int) =~= st@);
    }
    let cache = AnalysisCache {
        frame_energies: st,
        section_thresholds: secs,
        energy_groups: groups,
        max_energy,
    };
    (beats, cache)
}

} // verus!
