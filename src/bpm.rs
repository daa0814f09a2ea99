use vstd::prelude::*;
use crate::beats::Beat;
use crate::config::BpmConfig;
use crate::error::AnalysisError;
use vstd::arithmetic::div_mod::{lemma_div_by_multiple, lemma_div_is_ordered, lemma_div_is_ordered_by_denominator};

verus! {

/// Width of a histogram bin, in microseconds.
pub const BIN_US: u64 = 10_000;

/// Shortest inter-beat interval that counts (300 BPM), in microseconds.
pub const MIN_INTERVAL_US: u64 = 200_000;

/// Longest inter-beat interval that counts (30 BPM), in microseconds.
pub const MAX_INTERVAL_US: u64 = 2_000_000;

/// Thousandths of a beat per minute in one microsecond interval: 60 s times 1000.
pub const MILLI_BPM_US: u64 = 60_000_000_000;

/// The tempo reported when detection is not trusted: 120 BPM.
pub const DEFAULT_BPM_MILLI: u64 = 120_000;

/// Time from beat `k` to beat `k + 1`, in microseconds.
pub open spec fn gap(b: Seq<Beat>, k: int) -> int {
    (b[k + 1].timestamp_us as int) - (b[k].timestamp_us as int)
}

/// Whether an interval lies between 0.2 s and 2 s.
pub open spec fn plausible(iv: int) -> bool {
    MIN_INTERVAL_US <= iv <= MAX_INTERVAL_US
}

/// The plausible intervals among the first `upto` ones, in order.
pub open spec fn plausible_intervals(b: Seq<Beat>, upto: int) -> Seq<u64>
    decreases upto,
{
    if upto <= 0 {
        Seq::empty()
    } else {
        let r = plausible_intervals(b, upto - 1);
        if plausible(gap(b, upto - 1)) {
            r.push(gap(b, upto - 1) as u64)
        } else {
            r
        }
    }
}

/// The plausible inter-beat intervals of a beat list.
pub open spec fn valid_intervals(b: Seq<Beat>) -> Seq<u64> {
    plausible_intervals(b, b.len() - 1)
}

/// Least entry of a non-empty sequence.
pub open spec fn seq_min(f: Seq<u64>) -> int
    decreases f.len(),
{
    if f.len() <= 1 {
        f[0] as int
    } else {
        let m = seq_min(f.drop_last());
        if (f.last() as int) < m {
            f.last() as int
        } else {
            m
        }
    }
}

/// Greatest entry of a non-empty sequence.
pub open spec fn seq_max(f: Seq<u64>) -> int
    decreases f.len(),
{
    if f.len() <= 1 {
        f[0] as int
    } else {
        let m = seq_max(f.drop_last());
        if (f.last() as int) > m {
            f.last() as int
        } else {
            m
        }
    }
}

/// Histogram bin of an interval: 10 ms bins counted from `lo`.
pub open spec fn bin_of(iv: int, lo: int) -> int {
    (iv - lo) / (BIN_US as int)
}

/// How many of the intervals fall in bin `b`.
pub open spec fn bin_count(f: Seq<u64>, lo: int, b: int) -> int
    decreases f.len(),
{
    if f.len() == 0 {
        0
    } else {
        bin_count(f.drop_last(), lo, b) + if bin_of(f.last() as int, lo) == b {
            1int
        } else {
            0int
        }
    }
}

/// How many of the intervals fall in bins `a .. e`.
pub open spec fn bins_total(f: Seq<u64>, lo: int, a: int, e: int) -> int
    decreases e - a,
{
    if e <= a {
        0
    } else {
        bins_total(f, lo, a, e - 1) + bin_count(f, lo, e - 1)
    }
}

/// Number of histogram bins spanning the intervals.
pub open spec fn bin_span(f: Seq<u64>) -> int {
    (seq_max(f) - seq_min(f) + (BIN_US as int) - 1) / (BIN_US as int) + 1
}

/// Score of bin `b`: the intervals in it and in the two bins on either side.
pub open spec fn score(f: Seq<u64>, b: int) -> int {
    let a = if b >= 2 {
        b - 2
    } else {
        0
    };
    let e = if b + 3 < bin_span(f) {
        b + 3
    } else {
        bin_span(f)
    };
    bins_total(f, seq_min(f), a, e)
}

/// Whether bin `b` holds an interval.
pub open spec fn occupied(f: Seq<u64>, b: int) -> bool {
    bin_count(f, seq_min(f), b) > 0
}

/// Best score of an occupied bin among the first `upto`.
pub open spec fn best_score(f: Seq<u64>, upto: int) -> int
    decreases upto,
{
    if upto <= 0 {
        0
    } else {
        let m = best_score(f, upto - 1);
        if occupied(f, upto - 1) && score(f, upto - 1) > m {
            score(f, upto - 1)
        } else {
            m
        }
    }
}

/// Whether bin `b` is averaged: it is occupied and its score is at least
/// `1 - dev / 1000` of the best.
pub open spec fn is_candidate(f: Seq<u64>, dev: int, b: int) -> bool {
    &&& occupied(f, b)
    &&& score(f, b) * 1000 >= best_score(f, bin_span(f)) * (1000 - dev)
}

/// Tempo of the interval at the lower edge of bin `b` (`lo + b * 10 ms`), in
/// thousandths of a BPM.
pub open spec fn bin_bpm(f: Seq<u64>, b: int) -> int {
    (MILLI_BPM_US as int) / (seq_min(f) + b * (BIN_US as int))
}

/// Sum over the candidates among the first `upto` bins of score times tempo.
pub open spec fn weighted_sum(f: Seq<u64>, dev: int, upto: int) -> int
    decreases upto,
{
    if upto <= 0 {
        0
    } else {
        weighted_sum(f, dev, upto - 1) + if is_candidate(f, dev, upto - 1) {
            score(f, upto - 1) * bin_bpm(f, upto - 1)
        } else {
            0
        }
    }
}

/// Sum of the candidates' scores among the first `upto` bins.
pub open spec fn weight_total(f: Seq<u64>, dev: int, upto: int) -> int
    decreases upto,
{
    if upto <= 0 {
        0
    } else {
        weight_total(f, dev, upto - 1) + if is_candidate(f, dev, upto - 1) {
            score(f, upto - 1)
        } else {
            0
        }
    }
}

/// Sum of the candidates' tempos among the first `upto` bins.
pub open spec fn tempo_sum(f: Seq<u64>, dev: int, upto: int) -> int
    decreases upto,
{
    if upto <= 0 {
        0
    } else {
        tempo_sum(f, dev, upto - 1) + if is_candidate(f, dev, upto - 1) {
            bin_bpm(f, upto - 1)
        } else {
            0
        }
    }
}

/// Number of candidates among the first `upto` bins.
pub open spec fn candidate_count(f: Seq<u64>, dev: int, upto: int) -> int
    decreases upto,
{
    if upto <= 0 {
        0
    } else {
        candidate_count(f, dev, upto - 1) + if is_candidate(f, dev, upto - 1) {
            1int
        } else {
            0int
        }
    }
}

/// The candidates' tempos combined: weighted by score, or their plain mean.
pub open spec fn combined_bpm(f: Seq<u64>, dev: int, weighted: bool) -> int {
    let n = bin_span(f);
    if weighted {
        weighted_sum(f, dev, n) / weight_total(f, dev, n)
    } else {
        tempo_sum(f, dev, n) / candidate_count(f, dev, n)
    }
}

/// Whether a tempo lies in the primary-pulse band of 80 to 160 BPM.
pub open spec fn in_pulse_band(bpm: int) -> bool {
    80_000 <= bpm <= 160_000
}

/// Above 160 BPM, half the tempo (else a third) is taken when it lands in the band.
pub open spec fn harmonic_correction(bpm: int) -> int {
    if bpm > 160_000 && in_pulse_band(bpm / 2) {
        bpm / 2
    } else if bpm > 160_000 && in_pulse_band(bpm / 3) {
        bpm / 3
    } else {
        bpm
    }
}

/// The tempo the histogram gives for a beat list with plausible intervals.
pub open spec fn histogram_bpm(b: Seq<Beat>, config: BpmConfig) -> int {
    harmonic_correction(
        combined_bpm(
            valid_intervals(b),
            config.bpm_score_deviation_permille as int,
            config.use_weighted_bpm_averaging,
        ),
    )
}

proof fn lemma_min_max(f: Seq<u64>)
    requires
        f.len() > 0,
        forall|i: int| 0 <= i < f.len() ==> plausible(#[trigger] f[i] as int),
    ensures
        MIN_INTERVAL_US <= seq_min(f) <= seq_max(f) <= MAX_INTERVAL_US,
        forall|i: int| 0 <= i < f.len() ==> seq_min(f) <= #[trigger] f[i] <= seq_max(f),
    decreases f.len(),
{
    if f.len() > 1 {
        let d = f.drop_last();
        lemma_min_max(d);
        assert forall|i: int| 0 <= i < f.len() implies seq_min(f) <= #[trigger] f[i] <= seq_max(f) by {
            if i < f.len() - 1 {
                assert(f[i] == d[i]);
            }
        }
    }
}

proof fn lemma_bin_count_bounds(f: Seq<u64>, lo: int, b: int)
    ensures
        0 <= bin_count(f, lo, b) <= f.len(),
    decreases f.len(),
{
    if f.len() > 0 {
        lemma_bin_count_bounds(f.drop_last(), lo, b);
    }
}

proof fn lemma_bin_count_member(f: Seq<u64>, lo: int, i: int)
    requires
        0 <= i < f.len(),
    ensures
        bin_count(f, lo, bin_of(f[i] as int, lo)) >= 1,
    decreases f.len(),
{
    let b = bin_of(f[i] as int, lo);
    lemma_bin_count_bounds(f.drop_last(), lo, b);
    if i < f.len() - 1 {
        lemma_bin_count_member(f.drop_last(), lo, i);
        assert(f.drop_last()[i] == f[i]);
    }
}

proof fn lemma_bins_total_covers(f: Seq<u64>, lo: int, a: int, e: int, b: int)
    requires
        a <= b < e,
    ensures
        bins_total(f, lo, a, e) >= bin_count(f, lo, b),
    decreases e - a,
{
    lemma_bins_total_nonneg(f, lo, a, e - 1);
    lemma_bin_count_bounds(f, lo, e - 1);
    if b < e - 1 {
        lemma_bins_total_covers(f, lo, a, e - 1, b);
    }
}

proof fn lemma_bins_total_nonneg(f: Seq<u64>, lo: int, a: int, e: int)
    ensures
        bins_total(f, lo, a, e) >= 0,
    decreases e - a,
{
    if e > a {
        lemma_bins_total_nonneg(f, lo, a, e - 1);
        lemma_bin_count_bounds(f, lo, e - 1);
    }
}

proof fn lemma_best_score_dominates(f: Seq<u64>, upto: int, b: int)
    requires
        0 <= b < upto,
        occupied(f, b),
    ensures
        best_score(f, upto) >= score(f, b),
    decreases upto,
{
    if b < upto - 1 {
        lemma_best_score_dominates(f, upto - 1, b);
    }
}

proof fn lemma_sums_reach(f: Seq<u64>, dev: int, upto: int, b: int)
    requires
        0 <= b < upto,
        is_candidate(f, dev, b),
        forall|q: int| 0 <= q < upto ==> #[trigger] score(f, q) >= 0,
    ensures
        weight_total(f, dev, upto) >= score(f, b),
        candidate_count(f, dev, upto) >= 1,
    decreases upto,
{
    lemma_sums_nonneg(f, dev, upto - 1);
    if b < upto - 1 {
        lemma_sums_reach(f, dev, upto - 1, b);
    }
}

proof fn lemma_sums_nonneg(f: Seq<u64>, dev: int, upto: int)
    requires
        forall|q: int| 0 <= q < upto ==> #[trigger] score(f, q) >= 0,
    ensures
        weight_total(f, dev, upto) >= 0,
        candidate_count(f, dev, upto) >= 0,
    decreases upto,
{
    if upto > 0 {
        lemma_sums_nonneg(f, dev, upto - 1);
    }
}

/// The plausible inter-beat intervals, in order.
fn plausible_gaps(beats: &Vec<Beat>) -> (r: Vec<u64>)
    requires
        beats@.len() >= 1,
    ensures
        r@ == valid_intervals(beats@),
        forall|i: int| 0 <= i < r@.len() ==> plausible(#[trigger] r@[i] as int),
{
    let n = beats.len();
    let mut out: Vec<u64> = Vec::new();
    let mut k: usize = 0;
    while k + 1 < n
        invariant
            n == beats@.len(),
            n >= 1,
            k + 1 <= n,
            out@ == plausible_intervals(beats@, k as int),
            forall|i: int| 0 <= i < out@.len() ==> plausible(#[trigger] out@[i] as int),
        decreases n - k,
    {
        let a = beats[k].timestamp_us;
        let b = beats[k + 1].timestamp_us;
        if b >= a && MIN_INTERVAL_US <= b - a && b - a <= MAX_INTERVAL_US {
            out.push(b - a);
        }
        k = k + 1;
    }
    out
}

/// Counts of the intervals in each of `nb` bins of 10 ms from `lo`.
fn histogram(f: &Vec<u64>, lo: u64, nb: usize) -> (r: Vec<u64>)
    requires
        forall|i: int| 0 <= i < f@.len() ==> lo <= #[trigger] f@[i] && bin_of(f@[i] as int, lo as int) < nb,
    ensures
        r@.len() == nb,
        forall|b: int| 0 <= b < nb ==> #[trigger] r@[b] == bin_count(f@, lo as int, b),
{
    let mut h: Vec<u64> = Vec::new();
    let mut b: usize = 0;
    while b < nb
        invariant
            b <= nb,
            h@.len() == b,
            forall|q: int| 0 <= q < b ==> #[trigger] h@[q] == 0,
        decreases nb - b,
    {
        h.push(0);
        b = b + 1;
    }
    let n = f.len();
    let mut i: usize = 0;
    while i < n
        invariant
            n == f@.len(),
            i <= n,
            h@.len() == nb,
            forall|q: int| 0 <= q < f@.len() ==> lo <= #[trigger] f@[q] && bin_of(f@[q] as int, lo as int) < nb,
            forall|q: int| 0 <= q < nb ==> #[trigger] h@[q] == bin_count(f@.take(i as int), lo as int, q),
        decreases n - i,
    {
        let idx = ((f[i] - lo) / BIN_US) as usize;
        proof {
            assert(f@.take(i + 1).drop_last() =~= f@.take(i as int));
            lemma_bin_count_bounds(f@.take(i as int), lo as int, idx as int);
        }
        let c = h[idx];
        h.set(idx, c + 1);
        i = i + 1;
    }
    proof {
        assert(f@.take(n as int) =~= f@);
    }
    h
}

/// Sum of the counts of bins `a .. e`.
fn window_total(h: &Vec<u64>, a: usize, e: usize, Ghost(f): Ghost<Seq<u64>>, Ghost(lo): Ghost<int>) -> (r: u128)
    requires
        a <= e <= h@.len(),
        e - a <= 5,
        forall|b: int| 0 <= b < h@.len() ==> #[trigger] h@[b] == bin_count(f, lo, b),
    ensures
        r == bins_total(f, lo, a as int, e as int),
        r <= 5 * 0x1_0000_0000_0000_0000,
{
    let mut sc: u128 = 0;
    let mut j: usize = a;
    while j < e
        invariant
            a <= j <= e <= h@.len(),
            e - a <= 5,
            forall|b: int| 0 <= b < h@.len() ==> #[trigger] h@[b] == bin_count(f, lo, b),
            sc == bins_total(f, lo, a as int, j as int),
            sc <= (j - a) * 0x1_0000_0000_0000_0000,
        decreases e - j,
    {
        sc = sc + h[j] as u128;
        j = j + 1;
    }
    sc
}

proof fn lemma_mean_bound(total: int, n: int, cap: int)
    requires
        0 <= total <= n * cap,
        1 <= n,
        0 <= cap,
    ensures
        0 <= total / n <= cap,
{
    lemma_div_is_ordered(total, n * cap, n);
    assert(n * cap == cap * n) by (nonlinear_arith);
    lemma_div_by_multiple(cap, n);
    lemma_div_is_ordered(0, total, n);
}

/// Estimates the tempo of a beat list, in thousandths of a BPM, from a
/// histogram of its plausible inter-beat intervals.
pub fn estimate_bpm(beats: &Vec<Beat>, config: &BpmConfig) -> (r: Result<u64, AnalysisError>)
    requires
        config.valid(),
    ensures
        beats@.len() < 3 ==> r == Err::<u64, AnalysisError>(AnalysisError::InsufficientBeats),
        beats@.len() >= 3 && valid_intervals(beats@).len() == 0 ==> r == Err::<u64, AnalysisError>(
            AnalysisError::NoValidIntervals,
        ),
        beats@.len() >= 3 && valid_intervals(beats@).len() > 0 ==> r == Ok::<u64, AnalysisError>(
            histogram_bpm(beats@, *config) as u64,
        ),
        r matches Ok(b) ==> 0 <= histogram_bpm(beats@, *config) <= 300_000,
{
    if beats.len() < 3 {
        return Err(AnalysisError::InsufficientBeats);
    }
    let f = plausible_gaps(beats);
    let n = f.len();
    if n == 0 {
        return Err(AnalysisError::NoValidIntervals);
    }
    let ghost fs = f@;
    let mut lo: u64 = f[0];
    let mut hi: u64 = f[0];
    let mut i: usize = 1;
    while i < n
        invariant
            n == f@.len(),
            1 <= i <= n,
            lo == seq_min(f@.take(i as int)),
            hi == seq_max(f@.take(i as int)),
        decreases n - i,
    {
        proof {
            assert(f@.take(i + 1).drop_last() =~= f@.take(i as int));
        }
        if f[i] < lo {
            lo = f[i];
        }
        if f[i] > hi {
            hi = f[i];
        }
        i = i + 1;
    }
    proof {
        assert(f@.take(n as int) =~= f@);
        lemma_min_max(fs);
    }
    let nb: usize = ((hi - lo + BIN_US - 1) / BIN_US + 1) as usize;
    proof {
        lemma_div_is_ordered(hi - lo + BIN_US - 1, 1_809_999, BIN_US as int);
        assert(nb <= 200);
        assert(nb == bin_span(fs));
        assert forall|q: int| 0 <= q < fs.len() implies lo <= #[trigger] fs[q] && bin_of(
            fs[q] as int,
            lo as int,
        ) < nb by {
            lemma_div_is_ordered(fs[q] - lo, hi - lo + BIN_US - 1, BIN_US as int);
        }
    }
    let h = histogram(&f, lo, nb);
    let mut scores: Vec<u128> = Vec::new();
    let mut best: u128 = 0;
    let mut best_b: usize = 0;
    let mut b: usize = 0;
    while b < nb
        invariant
            nb == bin_span(fs),
            nb <= 200,
            lo == seq_min(fs),
            h@.len() == nb,
            forall|q: int| 0 <= q < nb ==> #[trigger] h@[q] == bin_count(fs, lo as int, q),
            b <= nb,
            scores@.len() == b,
            forall|q: int| 0 <= q < b ==> #[trigger] scores@[q] <= 5 * 0x1_0000_0000_0000_0000,
            best <= 5 * 0x1_0000_0000_0000_0000,
            forall|q: int| 0 <= q < b ==> #[trigger] scores@[q] == score(fs, q),
            best == best_score(fs, b as int),
            best > 0 ==> best_b < b && occupied(fs, best_b as int) && score(fs, best_b as int) == best,
        decreases nb - b,
    {
        let a: usize = if b >= 2 { b - 2 } else { 0 };
        let e: usize = if b + 3 < nb { b + 3 } else { nb };
        let sc = window_total(&h, a, e, Ghost(fs), Ghost(lo as int));
        if h[b] > 0 && sc > best {
            best = sc;
            best_b = b;
        }
        scores.push(sc);
        b = b + 1;
    }
    proof {
        let b0 = bin_of(fs[0] as int, lo as int);
        lemma_bin_count_member(fs, lo as int, 0);
        let a0 = if b0 >= 2 { b0 - 2 } else { 0 };
        let e0 = if b0 + 3 < nb { b0 + 3 } else { nb as int };
        lemma_bins_total_covers(fs, lo as int, a0, e0, b0);
        lemma_best_score_dominates(fs, nb as int, b0);
    }
    let dev = config.bpm_score_deviation_permille as u128;
    let mut ws: u128 = 0;
    let mut wt: u128 = 0;
    let mut ts: u128 = 0;
    let mut cc: u128 = 0;
    let ghost devi = config.bpm_score_deviation_permille as int;
    let mut b: usize = 0;
    while b < nb
        invariant
            nb == bin_span(fs),
            nb <= 200,
            lo == seq_min(fs),
            MIN_INTERVAL_US <= lo <= MAX_INTERVAL_US,
            best <= 5 * 0x1_0000_0000_0000_0000,
            h@.len() == nb,
            scores@.len() == nb,
            dev == devi,
            0 <= devi <= 1000,
            forall|q: int| 0 <= q < nb ==> #[trigger] h@[q] == bin_count(fs, lo as int, q),
            forall|q: int| 0 <= q < nb ==> #[trigger] scores@[q] == score(fs, q),
            forall|q: int| 0 <= q < nb ==> #[trigger] scores@[q] <= 5 * 0x1_0000_0000_0000_0000,
            best == best_score(fs, nb as int),
            b <= nb,
            ws == weighted_sum(fs, devi, b as int),
            wt == weight_total(fs, devi, b as int),
            ts == tempo_sum(fs, devi, b as int),
            cc == candidate_count(fs, devi, b as int),
            0 <= ws <= wt * 300_000,
            wt <= b * (5 * 0x1_0000_0000_0000_0000),
            0 <= ts <= cc * 300_000,
            cc <= b,
        decreases nb - b,
    {
        let sc = scores[b];
        proof {
            assert(best * (1000 - dev) <= 5 * 0x1_0000_0000_0000_0000 * 1000) by (nonlinear_arith)
                requires best <= 5 * 0x1_0000_0000_0000_0000, 0 <= 1000 - dev <= 1000;
            assert((b + 1) * (5 * 0x1_0000_0000_0000_0000) == b * (5 * 0x1_0000_0000_0000_0000) + 5
                * 0x1_0000_0000_0000_0000) by (nonlinear_arith);
            assert(b * (5 * 0x1_0000_0000_0000_0000) <= (b + 1) * (5 * 0x1_0000_0000_0000_0000)) by (nonlinear_arith);
        }
        if h[b] > 0 && sc * 1000 >= best * (1000 - dev) {
            let center = lo + (b as u64) * BIN_US;
            let tempo = MILLI_BPM_US / center;
            proof {
                lemma_div_is_ordered_by_denominator(MILLI_BPM_US as int, MIN_INTERVAL_US as int, center as int);
                assert(sc * tempo <= sc * 300_000) by (nonlinear_arith)
                    requires tempo <= 300_000, sc >= 0;
                assert(sc * tempo <= 5 * 0x1_0000_0000_0000_0000 * 300_000) by (nonlinear_arith)
                    requires tempo <= 300_000, 0 <= sc <= 5 * 0x1_0000_0000_0000_0000;
                assert(wt * 300_000 <= 200 * (5 * 0x1_0000_0000_0000_0000) * 300_000) by (nonlinear_arith)
                    requires wt <= b * (5 * 0x1_0000_0000_0000_0000), b <= 200;
                assert((wt + sc) * 300_000 == wt * 300_000 + sc * 300_000) by (nonlinear_arith);
                assert((cc + 1) * 300_000 == cc * 300_000 + 300_000) by (nonlinear_arith);
            }
            ws = ws + sc * (tempo as u128);
            wt = wt + sc;
            ts = ts + tempo as u128;
            cc = cc + 1;
        }
        b = b + 1;
    }
    proof {
        assert forall|q: int| 0 <= q < nb implies #[trigger] score(fs, q) >= 0 by {
            let aq = if q >= 2 { q - 2 } else { 0 };
            let eq = if q + 3 < nb { q + 3 } else { nb as int };
            lemma_bins_total_nonneg(fs, lo as int, aq, eq);
        }
        assert(best * 1000 >= best * (1000 - devi)) by (nonlinear_arith)
            requires best >= 0, devi >= 0;
        assert(is_candidate(fs, devi, best_b as int));
        lemma_sums_reach(fs, devi, nb as int, best_b as int);
    }
    let combined: u64 = if config.use_weighted_bpm_averaging {
        proof {
            lemma_mean_bound(ws as int, wt as int, 300_000);
        }
        (ws / wt) as u64
    } else {
        proof {
            lemma_mean_bound(ts as int, cc as int, 300_000);
        }
        (ts / cc) as u64
    };
    let result = if combined > 160_000 && 80_000 <= combined / 2 && combined / 2 <= 160_000 {
        combined / 2
    } else if combined > 160_000 && 80_000 <= combined / 3 && combined / 3 <= 160_000 {
        combined / 3
    } else {
        combined
    };
    Ok(result)
}

/// Whether a tempo, in thousandths of a BPM, lies in the trusted range of 50 to 250 BPM.
pub open spec fn trusted_bpm(bpm: int) -> bool {
    50_000 <= bpm <= 250_000
}

/// What a caller keeps of an estimate: a trusted tempo stands; an untrusted
/// one, or too few beats, becomes the default of 120 BPM; other failures stay.
pub open spec fn accepted(estimate: Result<u64, AnalysisError>) -> Result<u64, AnalysisError> {
    match estimate {
        Ok(b) => if trusted_bpm(b as int) {
            Ok(b)
        } else {
            Ok(DEFAULT_BPM_MILLI)
        },
        Err(AnalysisError::InsufficientBeats) => Ok(DEFAULT_BPM_MILLI),
        Err(e) => Err(e),
    }
}

/// Applies the caller's range policy to a tempo estimate.
pub fn accept_bpm(estimate: Result<u64, AnalysisError>) -> (r: Result<u64, AnalysisError>)
    ensures
        r == accepted(estimate),
        r matches Ok(b) ==> trusted_bpm(b as int),
{
    match estimate {
        Ok(b) => if 50_000 <= b && b <= 250_000 {
            Ok(b)
        } else {
            Ok(DEFAULT_BPM_MILLI)
        },
        Err(AnalysisError::InsufficientBeats) => Ok(DEFAULT_BPM_MILLI),
        Err(e) => Err(e),
    }
}

/// The outcome of tempo estimation on a beat list.
pub open spec fn estimate_spec(b: Seq<Beat>, config: BpmConfig) -> Result<u64, AnalysisError> {
    if b.len() < 3 {
        Err(AnalysisError::InsufficientBeats)
    } else if valid_intervals(b).len() == 0 {
        Err(AnalysisError::NoValidIntervals)
    } else {
        Ok(histogram_bpm(b, config) as u64)
    }
}

/// Estimates and range-checks the tempo of a beat list.
pub fn estimate_accepted_bpm(beats: &Vec<Beat>, config: &BpmConfig) -> (r: Result<u64, AnalysisError>)
    requires
        config.valid(),
    ensures
        r == accepted(estimate_spec(beats@, *config)),
        r matches Ok(b) ==> trusted_bpm(b as int),
{
    let e = estimate_bpm(beats, config);
    accept_bpm(e)
}

/// A tempo a caller keeps always lies between 50 and 250 BPM, and one outside
/// that range is replaced by exactly 120 BPM.
pub proof fn lemma_accepted_in_range(estimate: Result<u64, AnalysisError>)
    ensures
        accepted(estimate) matches Ok(b) ==> trusted_bpm(b as int),
        estimate matches Ok(b) && !trusted_bpm(b as int) ==> accepted(estimate) == Ok::<
            u64,
            AnalysisError,
        >(DEFAULT_BPM_MILLI),
{
}

} // verus!
