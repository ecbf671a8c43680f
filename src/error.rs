//! Errors reported to users of the library.
use vstd::prelude::*;

verus! {

/// An error of a library action.
#[derive(Debug)]
pub enum BusanError {
    /// The actor could not be placed on an executor; the text says why.
    UnassignableActor(String),
}

} // verus!
