use vstd::prelude::*;

verus! {

/// The failures that the chunked-blob protocol can report.
pub enum BlobError {
    /// The store could not be reached or refused a call.
    StoreUnavailable,
    /// The root key does not resolve to an entity.
    NotFound,
    /// One or more interior chunks could not be found. `recovered` holds the
    /// concatenation of every chunk that was found, in part order, and
    /// `missing` the part numbers that were not.
    IncompleteBlob { recovered: Vec<u8>, missing: Vec<u64> },
    /// The derived artifact could not be produced or stored.
    DerivedArtifactFailed,
    /// A caller-supplied key is not a valid entity key.
    MalformedKey,
}

} // verus!
