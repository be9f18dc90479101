use vstd::prelude::*;

verus! {

/// The failures that the collections report to their callers.
#[derive(Debug, Clone, Copy, PartialEq, Eq, Structural)]
pub enum StoreError {
    /// The engine could not be opened or created at a path.
    StoreOpen,
    /// Bytes read back from the engine or a side file do not decode.
    Codec,
    /// A descriptor names a path that no longer holds a collection.
    PathNotFound,
    /// A sequence slot was written beyond the current length.
    IndexGap,
}

impl StoreError {
    /// A short description of the failure.
    pub fn message(&self) -> (r: &'static str)
        ensures
            *self == StoreError::StoreOpen ==> r@ == "store could not be opened"@,
            *self == StoreError::Codec ==> r@ == "bytes do not decode"@,
            *self == StoreError::PathNotFound ==> r@ == "collection path not found"@,
            *self == StoreError::IndexGap ==> r@ == "slot index beyond the sequence length"@,
    {
        match self {
            StoreError::StoreOpen => "store could not be opened",
            StoreError::Codec => "bytes do not decode",
            StoreError::PathNotFound => "collection path not found",
            StoreError::IndexGap => "slot index beyond the sequence length",
        }
    }
}

} // verus!
