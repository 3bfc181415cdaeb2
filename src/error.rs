use vstd::prelude::*;

verus! {

/// The failures of building a corpus chain and of walking it.
#[derive(Debug, PartialEq, Eq)]
pub enum MarkovError {
    /// There was no text to build a chain from.
    NoUsableInput,
    /// The walk reached a key with no recorded successors.
    GenerationDeadEnd,
}

} // verus!
