use vstd::prelude::*;

verus! {

/// The failures the engine can report.
///
/// Validation failures (`InvalidDigitCount`, `InvalidThreadCount`) are returned
/// before any work starts.  `InvalidRange` marks a malformed split range, an
/// internal invariant violation that callers should never observe.
/// `WorkerFailure` stands for the abnormal termination of a worker; the whole
/// computation fails rather than yielding a partial result.
#[derive(Clone, Copy, Debug, PartialEq, Eq, Structural)]
pub enum PiError {
    InvalidDigitCount,
    InvalidThreadCount,
    InvalidRange,
    WorkerFailure,
}

impl PiError {
    /// A short description of the failure, for drivers that print it.
    pub fn message(&self) -> (r: &'static str)
        ensures
            (match *self {
                PiError::InvalidDigitCount => r@ == "digit count is zero or above the configured maximum"@,
                PiError::InvalidThreadCount => r@ == "thread count is zero"@,
                PiError::InvalidRange => r@ == "malformed term range"@,
                PiError::WorkerFailure => r@ == "a worker failed; the computation was aborted"@,
            }),
    {
        match *self {
            PiError::InvalidDigitCount => "digit count is zero or above the configured maximum",
            PiError::InvalidThreadCount => "thread count is zero",
            PiError::InvalidRange => "malformed term range",
            PiError::WorkerFailure => "a worker failed; the computation was aborted",
        }
    }
}

/// The series strategies a caller can select.
///
/// `HybridAuto` is resolved to one of the concrete strategies from the digit
/// count before any planning happens.
#[derive(Clone, Copy, Debug, PartialEq, Eq, Structural)]
pub enum Algorithm {
    BbpDirect,
    ChudnovskyDirect,
    ChudnovskyBinarySplit,
    HybridAuto,
}

} // verus!
