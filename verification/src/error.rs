//! Per-asset failures. Every failure is recoverable at the batch level:
//! one bad asset is reported and skipped, the run continues.

use vstd::prelude::*;

verus! {

/// What can go wrong while handling one asset.
#[derive(Clone, Copy, Debug, PartialEq, Eq, Structural)]
pub enum FileError {
    /// The underlying file could not be read or decoded.
    NoFile,
    /// The operation is invalid for the asset as given: a zero-sized
    /// dimension, a ratio with a zero part, or a byte store whose length
    /// does not match its dimension.
    Unsupported,
}

} // verus!
