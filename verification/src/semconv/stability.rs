//! Stability specification.
use vstd::prelude::*;

verus! {

/// The level of stability for a definition.
#[derive(Clone, Copy, Debug, PartialEq, Eq, Structural)]
pub enum Stability {
    /// A deprecated definition.
    Deprecated,
    /// An experimental definition.
    Experimental,
    /// A stable definition.
    Stable,
}

} // verus!
