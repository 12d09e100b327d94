//! The feeds of stored data that a target can have.

use vstd::prelude::*;

verus! {

/// A named variant of the data stored for a target.
#[derive(Clone, Copy, Debug, PartialEq, Eq, Hash, Structural)]
pub enum Feed {
    /// Measurements as they were taken.
    Raw,
    /// Measurements averaged over time.
    Averaged,
}

} // verus!
