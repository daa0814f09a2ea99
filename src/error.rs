use vstd::prelude::*;

verus! {

/// Failures of the analysis pipeline.
#[derive(Debug, Clone, Copy, PartialEq, Eq, Structural)]
pub enum AnalysisError {
    /// The buffer is too short for even one analysis window.
    InsufficientSamples,
    /// No window's spectral transform produced usable data.
    TransformFailure,
    /// Fewer than three beats were handed to tempo estimation.
    InsufficientBeats,
    /// Every inter-beat interval fell outside the plausible tempo range.
    NoValidIntervals,
    /// Every chroma window failed, so no key can be derived.
    NoSpectralEnergy,
}

} // verus!
