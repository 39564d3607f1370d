use vstd::prelude::*;

verus! {

/// Failure of a check or of the harness.
#[derive(Debug, Clone, PartialEq, Eq)]
pub enum Error {
    /// A failure reported by a corpus, carrying its message.
    Corpus(String),
    /// A cached index that does not refer to a cached name.
    OutOfRangeIndex { index: usize, len: usize },
}

} // verus!
