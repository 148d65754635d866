//! What can go wrong while unpacking.
use vstd::prelude::*;

verus! {

/// A fatal failure of an unpacking pass.
#[derive(Debug)]
pub enum UnpackError {
    /// The leading bytes match neither known signature; `signature` holds
    /// them (at most four).
    UnrecognizedFormat { signature: Vec<u8> },
    /// An expected magic tag is absent, or a field holds a value the layout
    /// cannot have; `offset` is where that field starts.
    StructuralCorruption { offset: u64 },
    /// A declared region does not lie within the source.
    OutOfBoundsRegion { offset: u64, length: u64 },
    /// Fewer bytes were available than the layout or the header promised.
    TruncatedSource { needed: u64, available: u64 },
}

} // verus!
