use vstd::prelude::*;
use crate::error::AnalysisError;

verus! {

/// Lower edge of the semitone around A4, in millihertz: 440 Hz times 2^(-1/24).
pub const OCTAVE_LOW_MHZ: u64 = 427_474;

/// Lower edge of semitone `k` above the one around A4 (`k` in 0..13), in
/// millihertz: 440 Hz times 2^((2k - 1)/24), rounded; the last is twice the first.
pub open spec fn semitone_edge(k: int) -> int {
    if k <= 0 {
        427_474
    } else if k == 1 {
        452_893
    } else if k == 2 {
        479_823
    } else if k == 3 {
        508_355
    } else if k == 4 {
        538_584
    } else if k == 5 {
        570_609
    } else if k == 6 {
        604_540
    } else if k == 7 {
        640_487
    } else if k == 8 {
        678_573
    } else if k == 9 {
        718_923
    } else if k == 10 {
        761_672
    } else if k == 11 {
        806_964
    } else {
        854_948
    }
}

fn edge(k: usize) -> (r: u64)
    ensures
        r == semitone_edge(k as int),
{
    if k == 0 {
        427_474
    } else if k == 1 {
        452_893
    } else if k == 2 {
        479_823
    } else if k == 3 {
        508_355
    } else if k == 4 {
        538_584
    } else if k == 5 {
        570_609
    } else if k == 6 {
        604_540
    } else if k == 7 {
        640_487
    } else if k == 8 {
        678_573
    } else if k == 9 {
        718_923
    } else if k == 10 {
        761_672
    } else if k == 11 {
        806_964
    } else {
        854_948
    }
}

/// Doubles a frequency below the A4 octave until it lands in it.
pub open spec fn raise_octave(f: int) -> int
    decreases 2 * OCTAVE_LOW_MHZ - f,
{
    if f <= 0 || f >= OCTAVE_LOW_MHZ {
        f
    } else {
        raise_octave(2 * f)
    }
}

/// Halves (rounding down) a frequency above the A4 octave until it lands in it.
pub open spec fn lower_octave(f: int) -> int
    decreases f,
{
    if f < 2 * OCTAVE_LOW_MHZ {
        f
    } else {
        lower_octave(f / 2)
    }
}

/// A frequency moved by whole octaves into `[OCTAVE_LOW_MHZ, 2 * OCTAVE_LOW_MHZ)`.
pub open spec fn fold_octave(f: int) -> int {
    if f < OCTAVE_LOW_MHZ {
        raise_octave(f)
    } else {
        lower_octave(f)
    }
}

/// Number of semitone edges 1..=`k` at or below `g`.
pub open spec fn edges_below(g: int, k: int) -> int
    decreases k,
{
    if k <= 0 {
        0
    } else {
        edges_below(g, k - 1) + if semitone_edge(k) <= g {
            1int
        } else {
            0int
        }
    }
}

/// Pitch class (0 = C, 9 = A) of a positive frequency in millihertz: the
/// nearest equal-tempered semitone to A4 = 440 Hz, whatever the octave.
pub open spec fn pitch_class(f: int) -> int {
    (edges_below(fold_octave(f), 11) + 9) % 12
}

proof fn lemma_raise_range_step(f: int)
    requires
        0 < f < OCTAVE_LOW_MHZ,
    ensures
        raise_octave(f) == raise_octave(2 * f),
        2 * f >= OCTAVE_LOW_MHZ ==> raise_octave(2 * f) == 2 * f,
{
}

proof fn lemma_raise_range(f: int)
    requires
        0 < f < OCTAVE_LOW_MHZ,
    ensures
        OCTAVE_LOW_MHZ <= raise_octave(f) < 2 * OCTAVE_LOW_MHZ,
    decreases 2 * OCTAVE_LOW_MHZ - f,
{
    lemma_raise_range_step(f);
    if 2 * f < OCTAVE_LOW_MHZ {
        lemma_raise_range(2 * f);
    }
}

proof fn lemma_lower_range(f: int)
    requires
        f >= OCTAVE_LOW_MHZ,
    ensures
        OCTAVE_LOW_MHZ <= lower_octave(f) < 2 * OCTAVE_LOW_MHZ,
    decreases f,
{
    if f >= 2 * OCTAVE_LOW_MHZ {
        lemma_lower_range(f / 2);
    }
}

/// Doubling a frequency leaves its pitch class unchanged.
pub proof fn lemma_pitch_class_octave(f: int)
    requires
        f > 0,
    ensures
        pitch_class(2 * f) == pitch_class(f),
{
    assert(fold_octave(2 * f) == fold_octave(f)) by {
        if f >= OCTAVE_LOW_MHZ {
            assert((2 * f) / 2 == f);
        } else {
            lemma_raise_range_step(f);
        }
    }
}

/// Pitch class (0 = C, ..., 9 = A, ..., 11 = B) of a frequency given in millihertz.
pub fn pitch_class_of(freq_mhz: u64) -> (r: usize)
    requires
        freq_mhz > 0,
    ensures
        r == pitch_class(freq_mhz as int),
        r < 12,
{
    let mut g: u64 = freq_mhz;
    if g < OCTAVE_LOW_MHZ {
        while g < OCTAVE_LOW_MHZ
            invariant
                0 < g,
                raise_octave(g as int) == raise_octave(freq_mhz as int),
                g < 2 * OCTAVE_LOW_MHZ,
            decreases 2 * OCTAVE_LOW_MHZ - g,
        {
            g = g * 2;
        }
    } else {
        while g >= 2 * OCTAVE_LOW_MHZ
            invariant
                g >= OCTAVE_LOW_MHZ,
                lower_octave(g as int) == lower_octave(freq_mhz as int),
            decreases g,
        {
            g = g / 2;
        }
    }
    proof {
        if freq_mhz < OCTAVE_LOW_MHZ {
            lemma_raise_range(freq_mhz as int);
        } else {
            lemma_lower_range(freq_mhz as int);
        }
        assert(g == fold_octave(freq_mhz as int));
    }
    let mut k: usize = 1;
    let mut count: usize = 0;
    while k <= 11
        invariant
            1 <= k <= 12,
            count == edges_below(g as int, (k - 1) as int),
            count < k,
        decreases 12 - k,
    {
        if edge(k) <= g {
            count = count + 1;
        }
        k = k + 1;
    }
    (count + 9) % 12
}

/// One window's spectrum: (frequency in millihertz, quantized magnitude) pairs,
/// or `None` where its transform failed.
pub type WindowSpectrum = Option<Vec<(u64, u32)>>;

/// Magnitude of a spectrum's pairs whose frequency has pitch class `p`.
pub open spec fn spectrum_class_energy(w: Seq<(u64, u32)>, p: int) -> int
    decreases w.len(),
{
    if w.len() == 0 {
        0
    } else {
        spectrum_class_energy(w.drop_last(), p) + if pitch_class(w.last().0 as int) == p {
            w.last().1 as int
        } else {
            0
        }
    }
}

/// Magnitude of all of a spectrum's pairs.
pub open spec fn spectrum_total(w: Seq<(u64, u32)>) -> int
    decreases w.len(),
{
    if w.len() == 0 {
        0
    } else {
        spectrum_total(w.drop_last()) + w.last().1 as int
    }
}

/// Magnitude with pitch class `p` over the windows that succeeded.
pub open spec fn chroma_energy(ws: Seq<WindowSpectrum>, p: int) -> int
    decreases ws.len(),
{
    if ws.len() == 0 {
        0
    } else {
        chroma_energy(ws.drop_last(), p) + match ws.last() {
            Some(w) => spectrum_class_energy(w@, p),
            None => 0,
        }
    }
}

/// Magnitude over the windows that succeeded.
pub open spec fn chroma_total(ws: Seq<WindowSpectrum>) -> int
    decreases ws.len(),
{
    if ws.len() == 0 {
        0
    } else {
        chroma_total(ws.drop_last()) + match ws.last() {
            Some(w) => spectrum_total(w@),
            None => 0,
        }
    }
}

/// Whether some window succeeded.
pub open spec fn any_succeeded(ws: Seq<WindowSpectrum>) -> bool {
    exists|i: int| 0 <= i < ws.len() && (#[trigger] ws[i]) is Some
}

/// Every frequency of a spectrum is positive.
pub open spec fn positive_spectrum(w: Seq<(u64, u32)>) -> bool {
    forall|j: int| 0 <= j < w.len() ==> (#[trigger] w[j]).0 > 0
}

/// Every frequency of every window is positive.
pub open spec fn positive_frequencies(ws: Seq<WindowSpectrum>) -> bool {
    forall|i: int| 0 <= i < ws.len() && (#[trigger] ws[i]) is Some ==> positive_spectrum(ws[i].unwrap()@)
}

/// Spectral energy folded into the twelve pitch classes (index 0 = C).
/// Dividing each entry by `total` gives the profile normalized to sum 1.
#[derive(Debug)]
pub struct ChromaProfile {
    /// Accumulated magnitude per pitch class.
    pub energy: Vec<u64>,
    /// Accumulated magnitude over all classes.
    pub total: u64,
}

impl ChromaProfile {
    /// Twelve classes whose energies add up to the total.
    pub open spec fn wf(&self) -> bool {
        &&& self.energy@.len() == 12
        &&& forall|c: int| 0 <= c < 12 ==> #[trigger] self.energy@[c] <= self.total
    }
}

proof fn lemma_spectrum_total_prefix(w: Seq<(u64, u32)>, j: int)
    requires
        0 <= j <= w.len(),
    ensures
        0 <= spectrum_total(w.take(j)) <= spectrum_total(w),
    decreases w.len(),
{
    if j == w.len() {
        assert(w.take(j) =~= w);
        lemma_spectrum_total_nonneg(w);
    } else {
        assert(w.drop_last().take(j) =~= w.take(j));
        lemma_spectrum_total_prefix(w.drop_last(), j);
    }
}

proof fn lemma_spectrum_total_nonneg(w: Seq<(u64, u32)>)
    ensures
        spectrum_total(w) >= 0,
    decreases w.len(),
{
    if w.len() > 0 {
        lemma_spectrum_total_nonneg(w.drop_last());
    }
}

proof fn lemma_chroma_total_prefix(ws: Seq<WindowSpectrum>, i: int)
    requires
        0 <= i <= ws.len(),
    ensures
        0 <= chroma_total(ws.take(i)) <= chroma_total(ws),
    decreases ws.len(),
{
    if i == ws.len() {
        assert(ws.take(i) =~= ws);
        lemma_chroma_total_nonneg(ws);
    } else {
        assert(ws.drop_last().take(i) =~= ws.take(i));
        lemma_chroma_total_prefix(ws.drop_last(), i);
        if let Some(w) = ws.last() {
            lemma_spectrum_total_nonneg(w@);
        }
    }
}

proof fn lemma_chroma_total_nonneg(ws: Seq<WindowSpectrum>)
    ensures
        chroma_total(ws) >= 0,
    decreases ws.len(),
{
    if ws.len() > 0 {
        lemma_chroma_total_nonneg(ws.drop_last());
        if let Some(w) = ws.last() {
            lemma_spectrum_total_nonneg(w@);
        }
    }
}

/// Folds the spectra of the analysis windows into a chroma profile. Fails
/// only when no window's transform succeeded.
pub fn profile_chroma(windows: &Vec<WindowSpectrum>) -> (r: Result<ChromaProfile, AnalysisError>)
    requires
        positive_frequencies(windows@),
        chroma_total(windows@) <= u64::MAX,
    ensures
        !any_succeeded(windows@) <==> r == Err::<ChromaProfile, AnalysisError>(
            AnalysisError::NoSpectralEnergy,
        ),
        any_succeeded(windows@) ==> r is Ok,
        r matches Ok(p) ==> {
            &&& p.wf()
            &&& p.total == chroma_total(windows@)
            &&& forall|c: int| 0 <= c < 12 ==> #[trigger] p.energy@[c] == chroma_energy(windows@, c)
        },
{
    let ghost ws = windows@;
    let mut energy: Vec<u64> = Vec::new();
    let mut c: usize = 0;
    while c < 12
        invariant
            c <= 12,
            energy@.len() == c,
            forall|q: int| 0 <= q < c ==> #[trigger] energy@[q] == 0,
        decreases 12 - c,
    {
        energy.push(0);
        c = c + 1;
    }
    let mut total: u64 = 0;
    let mut succeeded = false;
    let n = windows.len();
    let mut i: usize = 0;
    while i < n
        invariant
            n == ws.len(),
            ws == windows@,
            i <= n,
            positive_frequencies(ws),
            chroma_total(ws) <= u64::MAX,
            energy@.len() == 12,
            total == chroma_total(ws.take(i as int)),
            forall|q: int| 0 <= q < 12 ==> #[trigger] energy@[q] == chroma_energy(ws.take(i as int), q),
            forall|q: int| 0 <= q < 12 ==> #[trigger] energy@[q] <= total,
            succeeded <==> exists|k: int| 0 <= k < i && (#[trigger] ws[k]) is Some,
        decreases n - i,
    {
        proof {
            assert(ws.take(i + 1).drop_last() =~= ws.take(i as int));
            assert(ws.take(i + 1).last() == ws[i as int]);
            lemma_chroma_total_prefix(ws, i + 1);
        }
        match &windows[i] {
            Some(w) => {
                let ghost base_total = total as int;
                let ghost base_energy = energy@;
                let m = w.len();
                let mut j: usize = 0;
                while j < m
                    invariant
                        m == w@.len(),
                        j <= m,
                        ws[i as int] == Some(*w),
                        positive_frequencies(ws),
                        0 <= i < ws.len(),
                        base_total + spectrum_total(w@) <= u64::MAX,
                        energy@.len() == 12,
                        total == base_total + spectrum_total(w@.take(j as int)),
                        forall|q: int|
                            0 <= q < 12 ==> #[trigger] energy@[q] == base_energy[q] + spectrum_class_energy(
                                w@.take(j as int),
                                q,
                            ),
                        forall|q: int| 0 <= q < 12 ==> #[trigger] energy@[q] <= total,
                    decreases m - j,
                {
                    let (freq, mag) = w[j];
                    proof {
                        assert(w@.take(j + 1).drop_last() =~= w@.take(j as int));
                        lemma_spectrum_total_prefix(w@, j + 1);
                        assert(ws[i as int] is Some);
                        assert(positive_spectrum(w@));
                        assert(w@[j as int].0 > 0);
                    }
                    let pc = pitch_class_of(freq);
                    let cur = energy[pc];
                    energy.set(pc, cur + mag as u64);
                    total = total + mag as u64;
                    j = j + 1;
                }
                proof {
                    assert(w@.take(m as int) =~= w@);
                }
                succeeded = true;
            },
            None => {},
        }
        i = i + 1;
    }
    proof {
        assert(ws.take(n as int) =~= ws);
    }
    if !succeeded {
        return Err(AnalysisError::NoSpectralEnergy);
    }
    Ok(ChromaProfile { energy, total })
}

} // verus!
