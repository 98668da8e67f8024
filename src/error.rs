//! Failures of the analysis, each naming the stage that failed.
use vstd::prelude::*;

verus! {

/// Why an analysis step produced no result.
#[derive(Debug, Clone, Copy, PartialEq, Eq, Structural)]
pub enum CrackError {
    /// Malformed call parameters, such as a block count of zero.
    InvalidArgument,
    /// No single-byte key produced valid, scorable text.
    EmptyResult,
    /// The ciphertext is too short to estimate a key length.
    NoKeysizeFound,
    /// The transposed block at this index has no valid single-byte key.
    UnsolvableBlock(usize),
}

} // verus!
